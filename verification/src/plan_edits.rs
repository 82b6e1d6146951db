//! Edits of the session's visual plan that a person makes: removing a
//! placement, protecting a stretch of the output from images and lifting
//! that protection, and putting a chosen library image on a need's moment.
use vstd::prelude::*;
use crate::compose::{VisualSession, evaluate_composition, same_but_review};
use crate::error::AppError;
use crate::text::{str_eq, has_sub, to_chars, contains_sub};
use crate::needs::{NeedCoverage, VisualNeed};
use crate::export::views;
use crate::visual::{VisualPlan, VisualPlacement, ProtectedRange, PlacementLayout, PlacementMode, layout_for, layout_clamped, overlaps, same_plan};

verus! {

/// The placements without those with id `id`.
pub open spec fn without_placement(ps: Seq<VisualPlacement>, id: Seq<char>) -> Seq<VisualPlacement>
    decreases ps.len(),
{
    if ps.len() == 0 {
        Seq::empty()
    } else {
        let r = without_placement(ps.drop_last(), id);
        if ps.last().id@ == id { r } else { r.push(ps.last()) }
    }
}

proof fn lemma_without_none(ps: Seq<VisualPlacement>, id: Seq<char>)
    requires
        forall|k: int| 0 <= k < ps.len() ==> (#[trigger] ps[k]).id@ != id,
    ensures
        without_placement(ps, id) == ps,
    decreases ps.len(),
{
    if ps.len() > 0 {
        lemma_without_none(ps.drop_last(), id);
        assert(ps.drop_last().push(ps.last()) =~= ps);
    }
}

proof fn lemma_without_shorter(ps: Seq<VisualPlacement>, id: Seq<char>, k: int)
    requires
        0 <= k < ps.len(),
        ps[k].id@ == id,
    ensures
        without_placement(ps, id).len() < ps.len(),
    decreases ps.len(),
{
    lemma_without_len(ps.drop_last(), id);
    if k < ps.len() - 1 {
        lemma_without_shorter(ps.drop_last(), id, k);
    }
}

proof fn lemma_without_len(ps: Seq<VisualPlacement>, id: Seq<char>)
    ensures
        without_placement(ps, id).len() <= ps.len(),
    decreases ps.len(),
{
    if ps.len() > 0 {
        lemma_without_len(ps.drop_last(), id);
    }
}

fn has_placement(ps: &Vec<VisualPlacement>, id: &str) -> (r: bool)
    ensures
        r == exists|k: int| 0 <= k < ps@.len() && (#[trigger] ps@[k]).id@ == id@,
{
    let mut i: usize = 0;
    while i < ps.len()
        invariant
            i <= ps@.len(),
            forall|k: int| 0 <= k < i ==> (#[trigger] ps@[k]).id@ != id@,
        decreases ps@.len() - i,
    {
        if str_eq(ps[i].id.as_str(), id) {
            return true;
        }
        i = i + 1;
    }
    false
}

fn drop_placements(ps: &mut Vec<VisualPlacement>, id: &str)
    ensures
        final(ps)@ == without_placement(old(ps)@, id@),
{
    let ghost orig = ps@;
    let mut i: usize = 0;
    let ghost mut k: int = 0;
    proof {
        assert(orig.take(0) =~= Seq::<VisualPlacement>::empty());
        assert(ps@ =~= without_placement(orig.take(0), id@) + orig.skip(0));
    }
    while i < ps.len()
        invariant
            0 <= k <= orig.len(),
            i == without_placement(orig.take(k), id@).len(),
            ps@ == without_placement(orig.take(k), id@) + orig.skip(k),
        decreases ps@.len() - i,
    {
        let ghost w = without_placement(orig.take(k), id@);
        let ghost t = orig.take(k + 1);
        proof {
            assert(ps@[i as int] == orig[k]);
            assert(t.drop_last() =~= orig.take(k));
            assert(t.last() == orig[k]);
        }
        if str_eq(ps[i].id.as_str(), id) {
            ps.remove(i);
            proof {
                assert(ps@ =~= w + orig.skip(k + 1));
                k = k + 1;
            }
        } else {
            proof {
                assert(ps@ =~= w.push(orig[k]) + orig.skip(k + 1));
                k = k + 1;
            }
            i = i + 1;
        }
    }
    proof {
        assert(orig.skip(k).len() == 0);
        assert(k == orig.len());
        assert(orig.take(k) =~= orig);
        assert(ps@ =~= without_placement(orig, id@));
    }
}

/// Remove a placement from the session's plan and hand back a copy of the
/// new plan: `Invalid` when there is no plan, `NotFound` (with the id) when
/// no placement has that id; the session is unchanged then.
pub fn remove_placement(session: &mut VisualSession, placement_id: &str) -> (r: Result<VisualPlan, AppError>)
    ensures
        old(session).plan is None ==> (r matches Err(AppError::Invalid(m)) && m@ == "No hay VisualPlan en sesión."@
            && *final(session) == *old(session)),
        old(session).plan matches Some(p0) ==> ({
            let kept = without_placement(p0.placements@, placement_id@);
            if kept.len() == p0.placements@.len() {
                r matches Err(AppError::NotFound(m)) && m@ == placement_id@ && *final(session) == *old(session)
            } else {
                &&& r matches Ok(out) && final(session).plan matches Some(p) && same_plan(out, p)
                &&& final(session).plan matches Some(p) && p.placements@ == kept
                    && p == (VisualPlan { placements: p.placements, ..p0 })
                &&& final(session).edl_fp == old(session).edl_fp && final(session).plan_path == old(session).plan_path
            }
        }),
{
    if session.plan.is_none() {
        return Err(AppError::Invalid(String::from_str("No hay VisualPlan en sesión.")));
    }
    let mut plan = session.plan.take().unwrap();
    let ghost p0 = plan;
    if !has_placement(&plan.placements, placement_id) {
        proof {
            lemma_without_none(p0.placements@, placement_id@);
        }
        session.plan = Some(plan);
        return Err(AppError::NotFound(String::from_str(placement_id)));
    }
    proof {
        let k = choose|k: int| 0 <= k < p0.placements@.len() && (#[trigger] p0.placements@[k]).id@ == placement_id@;
        lemma_without_shorter(p0.placements@, placement_id@, k);
    }
    drop_placements(&mut plan.placements, placement_id);
    let out = plan.duplicate();
    session.plan = Some(plan);
    Ok(out)
}

/// A placement over `[s, e)` blocked by protection: its status becomes
/// "blocked_protected" when it overlaps the range, else it is unchanged.
pub open spec fn blocked_by(p: VisualPlacement, q: VisualPlacement, s: u64, e: u64) -> bool {
    if overlaps(p.output_start, p.output_end, s, e) {
        q.status@ == "blocked_protected"@ && q == (VisualPlacement { status: q.status, ..p })
    } else {
        q == p
    }
}

fn block_overlapping(ps: &mut Vec<VisualPlacement>, pr: &ProtectedRange)
    ensures
        final(ps)@.len() == old(ps)@.len(),
        forall|k: int| 0 <= k < old(ps)@.len() ==> blocked_by(old(ps)@[k], #[trigger] final(ps)@[k], pr.output_start, pr.output_end),
{
    let ghost orig = ps@;
    let mut i: usize = 0;
    while i < ps.len()
        invariant
            i <= ps@.len() == orig.len(),
            forall|k: int| 0 <= k < i ==> blocked_by(orig[k], #[trigger] ps@[k], pr.output_start, pr.output_end),
            forall|k: int| i <= k < ps@.len() ==> #[trigger] ps@[k] == orig[k],
        decreases ps@.len() - i,
    {
        if pr.overlaps(ps[i].output_start, ps[i].output_end) {
            let mut p = ps.remove(i);
            p.status = String::from_str("blocked_protected");
            ps.insert(i, p);
        }
        i = i + 1;
    }
}

/// Protect `[output_start, output_end)` of the output from images: the
/// session gets a plan for the cut `fp` when it has none (its run id the
/// fingerprint); an existing plan takes the fingerprint and keeps its
/// placements; the placements the range overlaps are blocked, and the range
/// (with the reason given, else "Sin B-roll") is added. A copy of the new
/// plan comes back.
pub fn add_protected_range(
    session: &mut VisualSession,
    fp: &str,
    media_path: &str,
    output_start: u64,
    output_end: u64,
    reason: Option<String>,
) -> (out: VisualPlan)
    ensures
        final(session).plan matches Some(p) && same_plan(out, p),
        final(session).plan matches Some(p) && {
            let n = p.protected_ranges@.len();
            let pr = p.protected_ranges@[n - 1];
            &&& n >= 1 && pr.id@.len() == 36 && pr.output_start == output_start && pr.output_end == output_end
            &&& pr.reason@ == (match reason { Some(t) => t@, None => "Sin B-roll"@ })
            &&& p.edl_fingerprint@ == fp@
            &&& match old(session).plan {
                None => {
                    &&& p.id@.len() == 36 && p.run_id@ == fp@ && p.media_path@ == media_path@
                    &&& p.placements@.len() == 0 && n == 1 && p.spatial_zones@.len() == 0
                    &&& p.issues@.len() == 0 && p.warnings@.len() == 0 && p.version == 1
                },
                Some(p0) => {
                    &&& p.protected_ranges@ == p0.protected_ranges@.push(pr)
                    &&& p.placements@.len() == p0.placements@.len()
                    &&& forall|k: int| 0 <= k < p0.placements@.len() ==> blocked_by(p0.placements@[k],
                        #[trigger] p.placements@[k], output_start, output_end)
                    &&& p.id == p0.id && p.run_id == p0.run_id && p.media_path == p0.media_path
                    &&& p.spatial_zones == p0.spatial_zones && p.issues == p0.issues && p.warnings == p0.warnings
                    &&& p.version == p0.version
                },
            }
        },
        final(session).edl_fp == old(session).edl_fp && final(session).plan_path == old(session).plan_path,
{
    let mut plan = match session.plan.take() {
        None => VisualPlan::new(fp, media_path, fp),
        Some(mut p) => {
            if !str_eq(p.edl_fingerprint.as_str(), fp) {
                p.edl_fingerprint = String::from_str(fp);
            }
            p
        },
    };
    let why = match reason {
        Some(t) => t,
        None => String::from_str("Sin B-roll"),
    };
    let pr = ProtectedRange::new(output_start, output_end, why);
    block_overlapping(&mut plan.placements, &pr);
    plan.protected_ranges.push(pr);
    let out = plan.duplicate();
    session.plan = Some(plan);
    out
}

/// The protected ranges without those with id `id`.
pub open spec fn without_range(rs: Seq<ProtectedRange>, id: Seq<char>) -> Seq<ProtectedRange>
    decreases rs.len(),
{
    if rs.len() == 0 {
        Seq::empty()
    } else {
        let r = without_range(rs.drop_last(), id);
        if rs.last().id@ == id { r } else { r.push(rs.last()) }
    }
}

proof fn lemma_without_range_len(rs: Seq<ProtectedRange>, id: Seq<char>)
    ensures
        without_range(rs, id).len() <= rs.len(),
    decreases rs.len(),
{
    if rs.len() > 0 {
        lemma_without_range_len(rs.drop_last(), id);
    }
}

proof fn lemma_without_range_none(rs: Seq<ProtectedRange>, id: Seq<char>)
    requires
        forall|k: int| 0 <= k < rs.len() ==> (#[trigger] rs[k]).id@ != id,
    ensures
        without_range(rs, id) == rs,
    decreases rs.len(),
{
    if rs.len() > 0 {
        lemma_without_range_none(rs.drop_last(), id);
        assert(rs.drop_last().push(rs.last()) =~= rs);
    }
}

proof fn lemma_without_range_shorter(rs: Seq<ProtectedRange>, id: Seq<char>, k: int)
    requires
        0 <= k < rs.len(),
        rs[k].id@ == id,
    ensures
        without_range(rs, id).len() < rs.len(),
    decreases rs.len(),
{
    lemma_without_range_len(rs.drop_last(), id);
    if k < rs.len() - 1 {
        lemma_without_range_shorter(rs.drop_last(), id, k);
    }
}

fn has_range(rs: &Vec<ProtectedRange>, id: &str) -> (r: bool)
    ensures
        r == exists|k: int| 0 <= k < rs@.len() && (#[trigger] rs@[k]).id@ == id@,
{
    let mut i: usize = 0;
    while i < rs.len()
        invariant
            i <= rs@.len(),
            forall|k: int| 0 <= k < i ==> (#[trigger] rs@[k]).id@ != id@,
        decreases rs@.len() - i,
    {
        if str_eq(rs[i].id.as_str(), id) {
            return true;
        }
        i = i + 1;
    }
    false
}

fn drop_ranges(rs: &mut Vec<ProtectedRange>, id: &str)
    ensures
        final(rs)@ == without_range(old(rs)@, id@),
{
    let ghost orig = rs@;
    let mut kept: Vec<ProtectedRange> = Vec::new();
    let n0 = rs.len();
    let mut i: usize = 0;
    proof {
        assert(orig.take(0) =~= Seq::<ProtectedRange>::empty());
    }
    while rs.len() > 0
        invariant
            i + rs@.len() == orig.len() == n0,
            rs@ == orig.skip(i as int),
            kept@ == without_range(orig.take(i as int), id@),
        decreases rs@.len(),
    {
        let r = rs.remove(0);
        let ghost t = orig.take(i as int + 1);
        proof {
            assert(r == orig[i as int]);
            assert(t.drop_last() =~= orig.take(i as int));
            assert(t.last() == orig[i as int]);
            assert(rs@ =~= orig.skip(i as int + 1));
        }
        if !str_eq(r.id.as_str(), id) {
            kept.push(r);
        }
        i = i + 1;
    }
    proof {
        assert(orig.take(i as int) =~= orig);
    }
    *rs = kept;
}

/// Some protected range of `rs` overlaps `[s, e)`.
pub open spec fn any_overlap(rs: Seq<ProtectedRange>, s: u64, e: u64) -> bool {
    exists|k: int| 0 <= k < rs.len() && overlaps(s, e, (#[trigger] rs[k]).output_start, rs[k].output_end)
}

/// A placement after a protection was lifted: one blocked by protection that
/// no remaining range overlaps becomes "active"; any other is unchanged.
pub open spec fn unblocked(p: VisualPlacement, q: VisualPlacement, rs: Seq<ProtectedRange>) -> bool {
    if p.status@ == "blocked_protected"@ && !any_overlap(rs, p.output_start, p.output_end) {
        q.status@ == "active"@ && q == (VisualPlacement { status: q.status, ..p })
    } else {
        q == p
    }
}

fn overlaps_any(rs: &Vec<ProtectedRange>, s: u64, e: u64) -> (r: bool)
    ensures
        r == any_overlap(rs@, s, e),
{
    let mut i: usize = 0;
    while i < rs.len()
        invariant
            i <= rs@.len(),
            forall|k: int| 0 <= k < i ==> !overlaps(s, e, (#[trigger] rs@[k]).output_start, rs@[k].output_end),
        decreases rs@.len() - i,
    {
        if rs[i].overlaps(s, e) {
            return true;
        }
        i = i + 1;
    }
    false
}

fn unblock_free(ps: &mut Vec<VisualPlacement>, rs: &Vec<ProtectedRange>)
    ensures
        final(ps)@.len() == old(ps)@.len(),
        forall|k: int| 0 <= k < old(ps)@.len() ==> unblocked(old(ps)@[k], #[trigger] final(ps)@[k], rs@),
{
    let ghost orig = ps@;
    let blocked = to_chars("blocked_protected");
    proof {
        reveal_strlit("blocked_protected");
    }
    let mut i: usize = 0;
    while i < ps.len()
        invariant
            i <= ps@.len() == orig.len(),
            blocked@ == "blocked_protected"@,
            forall|k: int| 0 <= k < i ==> unblocked(orig[k], #[trigger] ps@[k], rs@),
            forall|k: int| i <= k < ps@.len() ==> #[trigger] ps@[k] == orig[k],
        decreases ps@.len() - i,
    {
        let st = to_chars(ps[i].status.as_str());
        if crate::text::chars_eq(&st, &blocked) && !overlaps_any(rs, ps[i].output_start, ps[i].output_end) {
            let mut p = ps.remove(i);
            p.status = String::from_str("active");
            ps.insert(i, p);
        }
        i = i + 1;
    }
}

/// Lift a protection: `Invalid` when there is no plan, `NotFound` (with the
/// id) when no range has that id (the session unchanged then); otherwise the
/// ranges with that id are removed and the placements blocked by protection
/// that no remaining range overlaps are active again; a copy of the new plan
/// comes back.
pub fn remove_protected_range(session: &mut VisualSession, range_id: &str) -> (r: Result<VisualPlan, AppError>)
    ensures
        old(session).plan is None ==> (r matches Err(AppError::Invalid(m)) && m@ == "No hay VisualPlan en sesión."@
            && *final(session) == *old(session)),
        old(session).plan matches Some(p0) ==> ({
            let rest = without_range(p0.protected_ranges@, range_id@);
            if rest.len() == p0.protected_ranges@.len() {
                r matches Err(AppError::NotFound(m)) && m@ == range_id@ && *final(session) == *old(session)
            } else {
                &&& r matches Ok(out) && final(session).plan matches Some(p) && same_plan(out, p)
                &&& final(session).plan matches Some(p) && {
                    &&& p.protected_ranges@ == rest
                    &&& p.placements@.len() == p0.placements@.len()
                    &&& forall|k: int| 0 <= k < p0.placements@.len() ==> unblocked(p0.placements@[k], #[trigger] p.placements@[k], rest)
                    &&& p == (VisualPlan { placements: p.placements, protected_ranges: p.protected_ranges, ..p0 })
                }
                &&& final(session).edl_fp == old(session).edl_fp && final(session).plan_path == old(session).plan_path
            }
        }),
{
    if session.plan.is_none() {
        return Err(AppError::Invalid(String::from_str("No hay VisualPlan en sesión.")));
    }
    let mut plan = session.plan.take().unwrap();
    let ghost p0 = plan;
    if !has_range(&plan.protected_ranges, range_id) {
        proof {
            lemma_without_range_none(p0.protected_ranges@, range_id@);
        }
        session.plan = Some(plan);
        return Err(AppError::NotFound(String::from_str(range_id)));
    }
    proof {
        let k = choose|k: int| 0 <= k < p0.protected_ranges@.len() && (#[trigger] p0.protected_ranges@[k]).id@ == range_id@;
        lemma_without_range_shorter(p0.protected_ranges@, range_id@, k);
    }
    let mut rs = Vec::new();
    std::mem::swap(&mut rs, &mut plan.protected_ranges);
    drop_ranges(&mut rs, range_id);
    unblock_free(&mut plan.placements, &rs);
    plan.protected_ranges = rs;
    let out = plan.duplicate();
    session.plan = Some(plan);
    Ok(out)
}


/// Protecting a stretch and then lifting that same protection gives the
/// placements back: when every placement was active and the plan had no
/// other protected range, after `add_protected_range` (placements `p1`) and
/// `remove_protected_range` of the range it added (placements `p2`), no
/// range is left and each placement is as it was before, active.
pub proof fn lemma_protect_then_lift(
    p0: Seq<VisualPlacement>,
    p1: Seq<VisualPlacement>,
    p2: Seq<VisualPlacement>,
    r: ProtectedRange,
)
    requires
        forall|k: int| 0 <= k < p0.len() ==> (#[trigger] p0[k]).status@ == "active"@,
        p1.len() == p0.len(),
        forall|k: int| 0 <= k < p0.len() ==> blocked_by(p0[k], #[trigger] p1[k], r.output_start, r.output_end),
        p2.len() == p1.len(),
        forall|k: int| 0 <= k < p1.len() ==> unblocked(p1[k], #[trigger] p2[k], without_range(seq![r], r.id@)),
    ensures
        without_range(seq![r], r.id@).len() == 0,
        p2.len() == p0.len(),
        forall|k: int| 0 <= k < p0.len() ==> (#[trigger] p2[k]).status@ == "active"@
            && p2[k] == (VisualPlacement { status: p2[k].status, ..p0[k] }),
{
    let rest = without_range(seq![r], r.id@);
    assert(seq![r].drop_last() =~= Seq::<ProtectedRange>::empty());
    assert(seq![r].last() == r);
    assert(without_range(Seq::<ProtectedRange>::empty(), r.id@) == Seq::<ProtectedRange>::empty());
    assert(rest =~= Seq::<ProtectedRange>::empty());
    reveal_strlit("active");
    reveal_strlit("blocked_protected");
    assert("active"@.len() != "blocked_protected"@.len());
    assert forall|k: int| 0 <= k < p0.len() implies (#[trigger] p2[k]).status@ == "active"@
        && p2[k] == (VisualPlacement { status: p2[k].status, ..p0[k] }) by {
        assert(!any_overlap(rest, p1[k].output_start, p1[k].output_end));
        if overlaps(p0[k].output_start, p0[k].output_end, r.output_start, r.output_end) {
            assert(p1[k].status@ == "blocked_protected"@);
        } else {
            assert(p1[k] == p0[k]);
            assert(p1[k].status@ != "blocked_protected"@);
        }
    }
}

/// The output interval of a need's image in an output of `out_dur` ms (read
/// as at least 100): from the need's output start (else 0) to its output end
/// (else its approximate duration later, at least 3.5 s), both kept within
/// the output; when less than 0.25 s remains, 3.5 s from the start, within
/// the output.
pub open spec fn need_interval(n: VisualNeed, out_dur: u64) -> (int, int) {
    let od: int = if out_dur < 100 { 100 } else { out_dur as int };
    let s0: int = match n.output_start { Some(x) => x as int, None => 0 };
    let d: int = if n.approx_duration_ms < 3500 { 3500 } else { n.approx_duration_ms as int };
    let e0: int = match n.output_end { Some(x) => x as int, None => s0 + d };
    let s = if s0 > od { od } else { s0 };
    let e1 = if e0 > od { od } else { e0 };
    let e = if e1 < s + 250 { if s + 3500 < od { s + 3500 } else { od } } else { e1 };
    (s, e)
}

/// The text that ties a placement to a need.
pub open spec fn need_tag(id: Seq<char>) -> Seq<char> {
    "need:"@ + id
}

/// The placement already shows the need: its related text is the need's tag
/// or label, or it starts within 0.2 s of `start` and its related text
/// mentions the label.
pub open spec fn serves_need(p: VisualPlacement, tag: Seq<char>, label: Seq<char>, start: int) -> bool {
    match p.related_text {
        Some(t) => t@ == tag || t@ == label
            || ((if p.output_start >= start { p.output_start - start } else { start - p.output_start }) < 200 && has_sub(t@, label)),
        None => false,
    }
}

/// The first placement that already shows the need.
pub open spec fn first_serving(ps: Seq<VisualPlacement>, tag: Seq<char>, label: Seq<char>, start: int) -> Option<int>
    decreases ps.len(),
{
    if ps.len() == 0 {
        None
    } else {
        match first_serving(ps.drop_last(), tag, label, start) {
            Some(i) => Some(i),
            None => if serves_need(ps.last(), tag, label, start) { Some(ps.len() - 1) } else { None },
        }
    }
}

proof fn lemma_first_serving_prefix(ps: Seq<VisualPlacement>, tag: Seq<char>, label: Seq<char>, start: int, k: int)
    requires
        0 <= k <= ps.len(),
        first_serving(ps.take(k), tag, label, start) is Some,
    ensures
        first_serving(ps, tag, label, start) == first_serving(ps.take(k), tag, label, start),
    decreases ps.len(),
{
    if k < ps.len() {
        assert(ps.drop_last().take(k) =~= ps.take(k));
        lemma_first_serving_prefix(ps.drop_last(), tag, label, start, k);
    } else {
        assert(ps.take(k) =~= ps);
    }
}

proof fn lemma_first_serving_bound(ps: Seq<VisualPlacement>, tag: Seq<char>, label: Seq<char>, start: int)
    ensures
        first_serving(ps, tag, label, start) matches Some(i) ==> 0 <= i < ps.len(),
    decreases ps.len(),
{
    if ps.len() > 0 {
        lemma_first_serving_bound(ps.drop_last(), tag, label, start);
    }
}

/// The plan a need's image goes into: a new one for the cut `fp` when the
/// session has none (its run id the session's cut, else `fp`); the session's
/// plan when it is for this cut; else that plan for the cut `fp`, without
/// placements or protected ranges.
pub open spec fn need_plan_base(s: VisualSession, fp: Seq<char>, media: Seq<char>, p: VisualPlan) -> bool {
    match s.plan {
        None => {
            &&& p.id@.len() == 36 && p.media_path@ == media && p.edl_fingerprint@ == fp
            &&& p.run_id@ == (match s.edl_fp { Some(f) => f@, None => fp })
            &&& p.placements@.len() == 0 && p.protected_ranges@.len() == 0 && p.spatial_zones@.len() == 0
            &&& p.issues@.len() == 0 && p.warnings@.len() == 0 && p.version == 1
        },
        Some(old) => if old.edl_fingerprint@ == fp {
            p == old
        } else {
            &&& p.edl_fingerprint@ == fp && p.placements@.len() == 0 && p.protected_ranges@.len() == 0
            &&& p == (VisualPlan { edl_fingerprint: p.edl_fingerprint, placements: p.placements, protected_ranges: p.protected_ranges, ..old })
        },
    }
}

fn need_plan(session: &mut VisualSession, fp: &str, media_path: &str) -> (p: VisualPlan)
    ensures
        need_plan_base(*old(session), fp@, media_path@, p),
        final(session).plan is None,
        final(session).edl_fp == old(session).edl_fp && final(session).plan_path == old(session).plan_path,
{
    match session.plan.take() {
        None => {
            let run_id = match &session.edl_fp {
                Some(f) => f.clone(),
                None => String::from_str(fp),
            };
            VisualPlan::new(run_id.as_str(), media_path, fp)
        },
        Some(mut p) => {
            if !str_eq(p.edl_fingerprint.as_str(), fp) {
                p.edl_fingerprint = String::from_str(fp);
                p.placements = Vec::new();
                p.protected_ranges = Vec::new();
            }
            p
        },
    }
}

fn serving_index(ps: &Vec<VisualPlacement>, tag: &str, label: &str, start: u64) -> (r: Option<usize>)
    ensures
        match r {
            None => first_serving(ps@, tag@, label@, start as int) is None,
            Some(i) => first_serving(ps@, tag@, label@, start as int) == Some(i as int) && i < ps@.len(),
        },
{
    let lc = to_chars(label);
    let mut i: usize = 0;
    proof {
        assert(ps@.take(0) =~= Seq::<VisualPlacement>::empty());
    }
    while i < ps.len()
        invariant
            i <= ps@.len(),
            lc@ == label@,
            first_serving(ps@.take(i as int), tag@, label@, start as int) is None,
        decreases ps@.len() - i,
    {
        let ghost t = ps@.take(i as int + 1);
        proof {
            assert(t.drop_last() =~= ps@.take(i as int));
            assert(t.last() == ps@[i as int]);
        }
        let p = &ps[i];
        let hit = match &p.related_text {
            Some(rt) => {
                let near = if p.output_start >= start { p.output_start - start < 200 } else { start - p.output_start < 200 };
                str_eq(rt.as_str(), tag) || str_eq(rt.as_str(), label) || (near && contains_sub(&to_chars(rt.as_str()), &lc))
            },
            None => false,
        };
        if hit {
            proof {
                assert(first_serving(t, tag@, label@, start as int) == Some(i as int));
                lemma_first_serving_prefix(ps@, tag@, label@, start as int, i as int + 1);
            }
            return Some(i);
        }
        i = i + 1;
    }
    proof {
        assert(ps@.take(ps@.len() as int) =~= ps@);
    }
    None
}

/// The placement `q` puts the need's image where placement `p` was: same
/// placement with the chosen image, the need's interval, tag and label, and
/// marked as set by hand (its review status as the composition review left it).
pub open spec fn retargeted(p: VisualPlacement, q: VisualPlacement, asset_id: Seq<char>, s: int, e: int, tag: Seq<char>, label: Seq<char>) -> bool {
    &&& q.asset_id@ == asset_id && q.output_start == s && q.output_end == e
    &&& (q.related_text matches Some(t) && t@ == tag) && (q.label matches Some(l) && l@ == label)
    &&& q == (VisualPlacement { asset_id: q.asset_id, output_start: q.output_start, output_end: q.output_end,
        related_text: q.related_text, label: q.label, manual_override: true, review_status: q.review_status, ..p })
}

/// The placement `q` is a new full-frame image for the need.
pub open spec fn new_need_placement(q: VisualPlacement, asset_id: Seq<char>, s: int, e: int, tag: Seq<char>, label: Seq<char>) -> bool {
    &&& q.id@.len() == 36 && q.asset_id@ == asset_id && q.output_start == s && q.output_end == e
    &&& q.mode == PlacementMode::Fullframe && q.layout == layout_clamped(layout_for(PlacementMode::Fullframe))
    &&& q.fit@ == "cover"@ && (q.label matches Some(l) && l@ == label) && (q.related_text matches Some(t) && t@ == tag)
    &&& q.status@ == "active"@ && q.confidence == 1000 && q.provenance@ == "library_match"@
    &&& q.avoid_zones@.len() == 0 && !q.manual_override && q.suggested_layout is None && q.suggested_mode is None
}

/// Put a chosen library image on a need's moment: the need is covered by the
/// image (reason "user_selected", stamped `now`); in the plan for the cut
/// `fp` (see `need_plan_base`), the first placement that already shows the
/// need takes the image, the need's interval, tag and label, else a new
/// full-frame placement is added; the composition is reviewed and the
/// session remembers the cut. Returns the placement's index.
pub fn use_asset_for_need(
    session: &mut VisualSession,
    fp: &str,
    media_path: &str,
    need: &mut VisualNeed,
    asset_id: &str,
    out_dur: u64,
    now: &str,
) -> (idx: usize)
    ensures
        final(need).matched_asset_id matches Some(a) && a@ == asset_id@,
        final(need).coverage == NeedCoverage::Covered,
        views(final(need).match_reasons@) == seq!["user_selected"@],
        final(need).updated_at@ == now@,
        (VisualNeed { matched_asset_id: final(need).matched_asset_id, coverage: final(need).coverage,
            match_reasons: final(need).match_reasons, updated_at: final(need).updated_at, ..*old(need) }) == *final(need),
        final(session).edl_fp matches Some(f) && f@ == fp@,
        final(session).plan_path == old(session).plan_path,
        final(session).plan matches Some(p) && exists|base: VisualPlan| #[trigger] need_plan_base(*old(session), fp@, media_path@, base) && {
            let (s, e) = need_interval(*old(need), out_dur);
            let tag = need_tag(old(need).id@);
            let label = old(need).label@;
            let n = base.placements@.len();
            &&& p.id == base.id && p.edl_fingerprint == base.edl_fingerprint && p.protected_ranges == base.protected_ranges
            &&& p.version == base.version
            &&& match first_serving(base.placements@, tag, label, s) {
                Some(i) => {
                    &&& idx == i && p.placements@.len() == n
                    &&& retargeted(base.placements@[i], p.placements@[i], asset_id@, s, e, tag, label)
                    &&& forall|k: int| 0 <= k < n && k != i ==> same_but_review(base.placements@[k], #[trigger] p.placements@[k], p.placements@[k].review_status)
                },
                None => {
                    &&& idx == n && p.placements@.len() == n + 1
                    &&& new_need_placement(p.placements@[n as int], asset_id@, s, e, tag, label)
                    &&& forall|k: int| 0 <= k < n ==> same_but_review(base.placements@[k], #[trigger] p.placements@[k], p.placements@[k].review_status)
                },
            }
        },
{
    let ghost n0 = *need;
    need.matched_asset_id = Some(String::from_str(asset_id));
    need.coverage = NeedCoverage::Covered;
    let mut reasons: Vec<String> = Vec::new();
    reasons.push(String::from_str("user_selected"));
    proof {
        assert(views(reasons@) =~= seq!["user_selected"@]);
    }
    need.match_reasons = reasons;
    need.updated_at = String::from_str(now);
    // the interval
    let od: u64 = if out_dur < 100 { 100 } else { out_dur };
    let s0: u64 = match need.output_start { Some(x) => x, None => 0 };
    let d: u64 = if need.approx_duration_ms < 3500 { 3500 } else { need.approx_duration_ms };
    let e0: u128 = match need.output_end { Some(x) => x as u128, None => s0 as u128 + d as u128 };
    let s: u64 = if s0 > od { od } else { s0 };
    let e1: u64 = if e0 > od as u128 { od } else { e0 as u64 };
    let e: u64 = if (e1 as u128) < s as u128 + 250 { if (s as u128) + 3500 < od as u128 { s + 3500 } else { od } } else { e1 };
    assert((s as int, e as int) == need_interval(n0, out_dur));
    let mut tag = String::from_str("need:");
    crate::text::push_str(&mut tag, need.id.as_str());
    // the plan
    let ghost s_old = *session;
    let mut plan = need_plan(session, fp, media_path);
    let ghost base = plan;
    let idx = match serving_index(&plan.placements, tag.as_str(), need.label.as_str(), s) {
        Some(i) => {
            let mut pl = plan.placements.remove(i);
            pl.asset_id = String::from_str(asset_id);
            pl.output_start = s;
            pl.output_end = e;
            pl.related_text = Some(tag);
            pl.label = Some(need.label.clone());
            pl.manual_override = true;
            plan.placements.insert(i, pl);
            i
        },
        None => {
            let mut pl = VisualPlacement::manual(
                asset_id,
                s,
                e,
                PlacementMode::Fullframe,
                PlacementLayout::for_mode(PlacementMode::Fullframe),
                "cover",
                Some(need.label.clone()),
            );
            pl.related_text = Some(tag);
            pl.provenance = String::from_str("library_match");
            let n = plan.placements.len();
            plan.placements.push(pl);
            n
        },
    };
    let ghost before = plan;
    evaluate_composition(&mut plan);
    proof {
        lemma_first_serving_bound(base.placements@, need_tag(n0.id@), n0.label@, s as int);
        assert(need_plan_base(s_old, fp@, media_path@, base));
    }
    session.plan = Some(plan);
    session.edl_fp = Some(String::from_str(fp));
    idx
}

} // verus!
