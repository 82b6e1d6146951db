//! Composition review: conflicts between placements, protected times and
//! regions of the frame; magnetic snapping of placement edges.
use vstd::prelude::*;

use crate::error::AppError;
use crate::events::new_id;
use crate::layout::{geom_of, PlacementGeom};
use crate::text::{dec, push_dec, push_str, to_chars};
use crate::visual::{
    eq_lit, layout_clamped, layout_for, overlaps, protected_in, zone_cover, CompositionIssue, PlacementLayout,
    PlacementMode, ProtectedRange, ReviewStatus, SpatialZone, VisualPlacement, VisualPlan,
};

verus! {

/// What an issue says: placement id, kind, severity, message, suggested
/// position and width.
pub type IssueView = (Seq<char>, Seq<char>, Seq<char>, Seq<char>, Option<(u32, u32, u32)>);

/// The view of an issue.
pub open spec fn issue_view(i: CompositionIssue) -> IssueView {
    (i.placement_id@, i.kind@, i.severity@, i.message@,
        match (i.suggested_x, i.suggested_y, i.suggested_w) {
            (Some(x), Some(y), Some(w)) => Some((x, y, w)),
            _ => None,
        })
}

/// The views of a list of issues.
pub open spec fn issue_views(v: Seq<CompositionIssue>) -> Seq<IssueView> {
    v.map_values(|i: CompositionIssue| issue_view(i))
}

/// An active placement.
pub open spec fn is_active(p: VisualPlacement) -> bool {
    p.status@ == "active"@
}

/// The name an overlap message gives a placement: its label, else the first
/// eight characters of its id.
pub open spec fn short_name(p: VisualPlacement) -> Seq<char> {
    match p.label {
        Some(l) => l@,
        None => if p.id@.len() > 8 { p.id@.take(8) } else { p.id@ },
    }
}

/// An issue without a suggestion.
pub open spec fn plain(pid: Seq<char>, kind: Seq<char>, sev: Seq<char>, msg: Seq<char>) -> IssueView {
    (pid, kind, sev, msg, None)
}

/// Issues of placement `p` that concern it alone (before overlaps).
pub open spec fn own_issues(plan: VisualPlan, p: VisualPlacement) -> Seq<IssueView> {
    let id = p.id@;
    let d = crate::timeline::len_of(p.output_start, p.output_end);
    (if p.confidence < 550 && p.provenance@ != "manual"@ {
        seq![plain(id, "semantic_low"@, "warn"@, "Correspondencia semántica dudosa ("@ + dec(crate::text::pct_of(p.confidence as nat)) + "%). Revisa imagen vs frase."@)]
    } else { Seq::empty() })
    + (if d < 800 {
        seq![plain(id, "timing_unclear"@, "warn"@, "Entrada/salida muy corta — puede parpadear."@)]
    } else if d > 12000 {
        seq![plain(id, "timing_unclear"@, "info"@, "B-roll largo (>12s): confirma que sigue la idea."@)]
    } else { Seq::empty() })
    + (if protected_in(plan.protected_ranges@, p.output_start, p.output_end) {
        seq![plain(id, "protected_time"@, "error"@, "Cae en un tramo temporal sin B-roll."@)]
    } else { Seq::empty() })
}

/// Overlap issues of placement `i` with active placements `j` in `from..to`.
pub open spec fn overlap_issues(ps: Seq<VisualPlacement>, i: int, to: int) -> Seq<IssueView>
    decreases to,
{
    if i < 0 || to <= i + 1 || to > ps.len() {
        Seq::empty()
    } else {
        let prev = overlap_issues(ps, i, to - 1);
        let o = ps[to - 1];
        let p = ps[i];
        if is_active(o) && p.output_start < o.output_end && p.output_end > o.output_start {
            prev.push(plain(p.id@, "overlap"@, "warn"@, "Solapa con otro B-roll ("@ + short_name(o) + ")"@))
        } else {
            prev
        }
    }
}

/// A zone kind that overlays always avoid.
pub open spec fn always_avoided(k: Seq<char>) -> bool {
    k == "face"@ || k == "subtitle"@ || k == "text"@ || k == "logo"@ || k == "product"@
}

/// Where to move an overlay centered at `(cx, cy)` away from a zone kind.
pub open spec fn suggest_away(cx: u32, cy: u32, kind: Seq<char>) -> (u32, u32) {
    if kind == "face"@ {
        if cx < 500 { (820, 180) } else { (180, 180) }
    } else if kind == "subtitle"@ || kind == "safe_area"@ {
        (if cx < 200 { 200 } else if cx > 800 { 800 } else { cx }, 220)
    } else if cy > 500 {
        (cx, 200)
    } else {
        (cx, 750)
    }
}

/// The issue kind for a covered zone kind.
pub open spec fn cover_kind(k: Seq<char>) -> Seq<char> {
    if k == "face"@ { "face_covered"@ } else if k == "subtitle"@ { "subtitle_covered"@ } else { "safe_area"@ }
}

/// The issue of zone `z` for placement `p` with geometry `g`, if any.
pub open spec fn zone_issue(p: VisualPlacement, g: PlacementGeom, z: SpatialZone) -> Option<IssueView> {
    let twice_mid = p.output_start + p.output_end;
    let active = 2 * z.start <= twice_mid && twice_mid <= 2 * z.end;
    let avoid = crate::export::views(p.avoid_zones@).contains(z.kind@) || always_avoided(z.kind@);
    let score = zone_cover(z, g.cx, g.cy, g.w, g.h);
    if active && avoid && score > 180 {
        let sev = if score > 400 || z.severity@ == "error"@ { "error"@ } else { "warn"@ };
        let name = match z.label { Some(l) => l@, None => z.kind@ };
        let msg = "Posible cobertura de "@ + name + " ("@ + dec(crate::text::pct_of(score as nat)) + "% solape)."@
            + (if p.manual_override { " Override manual activo."@ } else { Seq::<char>::empty() });
        let (sx, sy) = suggest_away(g.cx, g.cy, z.kind@);
        Some((p.id@, cover_kind(z.kind@), sev, msg, Some((sx, sy, p.layout.w))))
    } else {
        None
    }
}

/// The zone issues of placement `p` over the first `n` zones.
pub open spec fn zone_issues(p: VisualPlacement, g: PlacementGeom, zs: Seq<SpatialZone>) -> Seq<IssueView>
    decreases zs.len(),
{
    if zs.len() == 0 {
        Seq::empty()
    } else {
        let prev = zone_issues(p, g, zs.drop_last());
        match zone_issue(p, g, zs.last()) {
            Some(x) => prev.push(x),
            None => prev,
        }
    }
}

/// Issues of placement `p` after overlaps: zones, full frame, size.
pub open spec fn late_issues(plan: VisualPlan, p: VisualPlacement) -> Seq<IssueView> {
    let g = geom_of(p.mode, p.layout, p.fit@);
    let overlay = p.mode != PlacementMode::Fullframe;
    (if overlay { zone_issues(p, g, plan.spatial_zones@) } else { Seq::empty() })
    + (if p.mode == PlacementMode::Fullframe && p.confidence < 600 {
        seq![plain(p.id@, "face_covered"@, "info"@, "Fullscreen oculta el video: confirma que la frase lo justifica."@)]
    } else { Seq::empty() })
    + (if overlay && p.layout.w < 120 {
        seq![plain(p.id@, "aspect"@, "warn"@, "Tamaño muy pequeño — puede no leerse en móvil."@)]
    } else { Seq::empty() })
}

/// All issues of placement `i` of the plan (none when it is not active).
pub open spec fn issues_of(plan: VisualPlan, i: int) -> Seq<IssueView> {
    let ps = plan.placements@;
    if is_active(ps[i]) {
        own_issues(plan, ps[i]) + overlap_issues(ps, i, ps.len() as int) + late_issues(plan, ps[i])
    } else {
        Seq::empty()
    }
}

/// The issues of the first `n` placements, in order.
pub open spec fn plan_issues(plan: VisualPlan, n: int) -> Seq<IssueView>
    decreases n,
{
    if n <= 0 { Seq::empty() } else { plan_issues(plan, n - 1) + issues_of(plan, n - 1) }
}

fn mk_issue(pid: &String, kind: &str, sev: &str, msg: String, suggested: Option<(u32, u32, u32)>) -> (r: CompositionIssue)
    ensures
        issue_view(r) == (pid@, kind@, sev@, msg@, suggested),
        r.id@.len() == 36,
{
    let (sx, sy, sw) = match suggested {
        Some((x, y, w)) => (Some(x), Some(y), Some(w)),
        None => (None, None, None),
    };
    CompositionIssue {
        id: new_id(),
        placement_id: pid.clone(),
        kind: String::from_str(kind),
        severity: String::from_str(sev),
        message: msg,
        suggested_x: sx,
        suggested_y: sy,
        suggested_w: sw,
    }
}

fn str_is(s: &String, lit: &str) -> (r: bool)
    ensures
        r == (s@ == lit@),
{
    let v = to_chars(s.as_str());
    eq_lit(&v, lit)
}

/// Every issue has a fresh 36-character id.
pub open spec fn ids_fresh(v: Seq<CompositionIssue>) -> bool {
    forall|k: int| 0 <= k < v.len() ==> (#[trigger] v[k]).id@.len() == 36
}

fn push_issue(v: &mut Vec<CompositionIssue>, x: CompositionIssue)
    requires
        ids_fresh(old(v)@),
        x.id@.len() == 36,
    ensures
        ids_fresh(final(v)@),
        issue_views(final(v)@) == issue_views(old(v)@).push(issue_view(x)),
        final(v)@.len() == old(v)@.len() + 1,
{
    v.push(x);
    proof {
        assert(issue_views(v@) =~= issue_views(old(v)@).push(issue_view(x)));
    }
}

fn own_issues_exec(plan: &VisualPlan, i: usize, out: &mut Vec<CompositionIssue>)
    requires
        i < plan.placements@.len(),
        ids_fresh(old(out)@),
    ensures
        ids_fresh(final(out)@),
        issue_views(final(out)@) == issue_views(old(out)@) + own_issues(*plan, plan.placements@[i as int]),
{
    let p = &plan.placements[i];
    let ghost start = issue_views(out@);
    if p.confidence < 550 && !str_is(&p.provenance, "manual") {
        let mut m = String::from_str("Correspondencia semántica dudosa (");
        crate::text::push_pct_of(&mut m, p.confidence as u64);
        push_str(&mut m, "%). Revisa imagen vs frase.");
        push_issue(out, mk_issue(&p.id, "semantic_low", "warn", m, None));
    }
    let ghost s1 = issue_views(out@);
    let d = p.duration();
    if d < 800 {
        push_issue(out, mk_issue(&p.id, "timing_unclear", "warn", String::from_str("Entrada/salida muy corta — puede parpadear."), None));
    } else if d > 12000 {
        push_issue(out, mk_issue(&p.id, "timing_unclear", "info", String::from_str("B-roll largo (>12s): confirma que sigue la idea."), None));
    }
    let ghost s2 = issue_views(out@);
    if plan.is_protected(p.output_start, p.output_end) {
        push_issue(out, mk_issue(&p.id, "protected_time", "error", String::from_str("Cae en un tramo temporal sin B-roll."), None));
    }
    proof {
        assert(issue_views(out@) =~= start + own_issues(*plan, plan.placements@[i as int]));
    }
}

fn push_short_name(s: &mut String, p: &VisualPlacement)
    ensures
        final(s)@ == old(s)@ + short_name(*p),
{
    match &p.label {
        Some(l) => push_str(s, l.as_str()),
        None => {
            let v = to_chars(p.id.as_str());
            let k: usize = if v.len() > 8 { 8 } else { v.len() };
            let head = crate::captions::sub_chars(&v, 0, k);
            let t = crate::text::from_chars(&head);
            push_str(s, t.as_str());
            proof {
                if v@.len() > 8 {
                    assert(head@ =~= p.id@.take(8));
                } else {
                    assert(head@ =~= p.id@);
                }
            }
        },
    }
}

fn overlap_issues_exec(plan: &VisualPlan, i: usize, out: &mut Vec<CompositionIssue>)
    requires
        i < plan.placements@.len(),
        ids_fresh(old(out)@),
    ensures
        ids_fresh(final(out)@),
        issue_views(final(out)@) == issue_views(old(out)@) + overlap_issues(plan.placements@, i as int, plan.placements@.len() as int),
{
    let ghost start = issue_views(out@);
    let ps = &plan.placements;
    let n = ps.len();
    let p = &ps[i];
    let mut j: usize = i + 1;
    proof {
        assert(overlap_issues(ps@, i as int, j as int) =~= Seq::<IssueView>::empty());
        assert(start + Seq::<IssueView>::empty() =~= start);
    }
    while j < n
        invariant
            i < j <= n == ps@.len(),
            p == ps@[i as int],
            issue_views(out@) == start + overlap_issues(ps@, i as int, j as int),
            ids_fresh(out@),
        decreases n - j,
    {
        let o = &ps[j];
        let ghost before = issue_views(out@);
        if str_is(&o.status, "active") && p.output_start < o.output_end && p.output_end > o.output_start {
            let mut m = String::from_str("Solapa con otro B-roll (");
            push_short_name(&mut m, o);
            push_str(&mut m, ")");
            push_issue(out, mk_issue(&p.id, "overlap", "warn", m, None));
            proof {
                assert(overlap_issues(ps@, i as int, j as int + 1) == overlap_issues(ps@, i as int, j as int).push(
                    plain(p.id@, "overlap"@, "warn"@, "Solapa con otro B-roll ("@ + short_name(*o) + ")"@)));
                assert(issue_views(out@) =~= start + overlap_issues(ps@, i as int, j as int + 1));
            }
        }
        j = j + 1;
    }
}

fn avoids(p: &VisualPlacement, kind: &String) -> (r: bool)
    ensures
        r == (crate::export::views(p.avoid_zones@).contains(kind@) || always_avoided(kind@)),
{
    let mut k: usize = 0;
    while k < p.avoid_zones.len()
        invariant
            0 <= k <= p.avoid_zones@.len(),
            forall|m: int| 0 <= m < k ==> p.avoid_zones@[m]@ != kind@,
        decreases p.avoid_zones@.len() - k,
    {
        if p.avoid_zones[k] == *kind {
            proof {
                assert(crate::export::views(p.avoid_zones@)[k as int] == kind@);
            }
            return true;
        }
        k = k + 1;
    }
    proof {
        if crate::export::views(p.avoid_zones@).contains(kind@) {
            let m = choose|m: int| 0 <= m < crate::export::views(p.avoid_zones@).len() && crate::export::views(p.avoid_zones@)[m] == kind@;
            assert(p.avoid_zones@[m]@ == kind@);
        }
    }
    str_is(kind, "face") || str_is(kind, "subtitle") || str_is(kind, "text") || str_is(kind, "logo") || str_is(kind, "product")
}

fn zone_issue_exec(p: &VisualPlacement, g: &PlacementGeom, z: &SpatialZone) -> (r: Option<CompositionIssue>)
    requires
        crate::layout::geom_wf(*g),
    ensures
        r matches Some(x) ==> x.id@.len() == 36,
        match r {
            Some(x) => zone_issue(*p, *g, *z) == Some(issue_view(x)),
            None => zone_issue(*p, *g, *z) is None,
        },
{
    let twice_mid: u128 = p.output_start as u128 + p.output_end as u128;
    let active = 2 * (z.start as u128) <= twice_mid && twice_mid <= 2 * (z.end as u128);
    if !active || !avoids(p, &z.kind) {
        return None;
    }
    let score = z.rect_overlap_score(g.cx, g.cy, g.w, g.h);
    if score <= 180 {
        return None;
    }
    let sev = if score > 400 || str_is(&z.severity, "error") { "error" } else { "warn" };
    let mut m = String::from_str("Posible cobertura de ");
    match &z.label {
        Some(l) => push_str(&mut m, l.as_str()),
        None => push_str(&mut m, z.kind.as_str()),
    }
    push_str(&mut m, " (");
    crate::text::push_pct_of(&mut m, score);
    push_str(&mut m, "% solape).");
    if p.manual_override {
        push_str(&mut m, " Override manual activo.");
    }
    let is_face = str_is(&z.kind, "face");
    let kind = if is_face { "face_covered" } else if str_is(&z.kind, "subtitle") { "subtitle_covered" } else { "safe_area" };
    let (sx, sy): (u32, u32) = if is_face {
        if g.cx < 500 { (820, 180) } else { (180, 180) }
    } else if str_is(&z.kind, "subtitle") || str_is(&z.kind, "safe_area") {
        (if g.cx < 200 { 200 } else if g.cx > 800 { 800 } else { g.cx }, 220)
    } else if g.cy > 500 {
        (g.cx, 200)
    } else {
        (g.cx, 750)
    };
    let x = mk_issue(&p.id, kind, sev, m, Some((sx, sy, p.layout.w)));
    proof {
        assert(issue_view(x).3 =~= zone_issue(*p, *g, *z).unwrap().3);
    }
    Some(x)
}

fn late_issues_exec(plan: &VisualPlan, i: usize, out: &mut Vec<CompositionIssue>)
    requires
        i < plan.placements@.len(),
        ids_fresh(old(out)@),
    ensures
        ids_fresh(final(out)@),
        issue_views(final(out)@) == issue_views(old(out)@) + late_issues(*plan, plan.placements@[i as int]),
{
    let ghost start = issue_views(out@);
    let p = &plan.placements[i];
    let g = PlacementGeom::from_placement(p);
    let overlay = p.mode.is_overlay();
    if overlay {
        let zs = &plan.spatial_zones;
        let mut k: usize = 0;
        while k < zs.len()
            invariant
                0 <= k <= zs@.len(),
                g == geom_of(p.mode, p.layout, p.fit@),
                crate::layout::geom_wf(g),
                issue_views(out@) == start + zone_issues(*p, g, zs@.take(k as int)),
                ids_fresh(out@),
            decreases zs@.len() - k,
        {
            proof {
                assert(zs@.take(k as int + 1).drop_last() =~= zs@.take(k as int));
                assert(zs@.take(k as int + 1).last() == zs@[k as int]);
            }
            let ghost before = issue_views(out@);
            match zone_issue_exec(p, &g, &zs[k]) {
                Some(x) => {
                    push_issue(out, x);
                    proof {
                        assert(issue_views(out@) =~= start + zone_issues(*p, g, zs@.take(k as int + 1)));
                    }
                },
                None => {},
            }
            k = k + 1;
        }
        proof {
            assert(zs@.take(zs@.len() as int) =~= zs@);
        }
    }
    let ghost s1 = issue_views(out@);
    if !overlay && p.confidence < 600 {
        push_issue(out, mk_issue(&p.id, "face_covered", "info", String::from_str("Fullscreen oculta el video: confirma que la frase lo justifica."), None));
    }
    if overlay && p.layout.w < 120 {
        push_issue(out, mk_issue(&p.id, "aspect", "warn", String::from_str("Tamaño muy pequeño — puede no leerse en móvil."), None));
    }
    proof {
        if !overlay {
            assert(s1 =~= start);
        }
        assert(issue_views(out@) =~= start + late_issues(*plan, plan.placements@[i as int]));
    }
}

/// Some issue of placement `id` has severity `sev`.
pub open spec fn has_issue(iv: Seq<IssueView>, id: Seq<char>, sev: Seq<char>) -> bool {
    exists|k: int| 0 <= k < iv.len() && (#[trigger] iv[k]).0 == id && iv[k].2 == sev
}

/// The review status of placement `p` after review against issues `iv`:
/// an error, or a warning on a placement not approved, is a conflict; a
/// pending placement with confidence at least 720 and no issue is approved.
pub open spec fn reviewed(p: VisualPlacement, iv: Seq<IssueView>) -> ReviewStatus {
    let err = has_issue(iv, p.id@, "error"@);
    let warn = has_issue(iv, p.id@, "warn"@);
    if !is_active(p) {
        p.review_status
    } else if err || (warn && p.review_status != ReviewStatus::Approved) {
        ReviewStatus::Conflict
    } else if p.confidence >= 720 && p.review_status == ReviewStatus::Pending {
        ReviewStatus::Approved
    } else {
        p.review_status
    }
}

/// The messages of the issues that are not informational, in order.
pub open spec fn warning_lines(iv: Seq<IssueView>) -> Seq<Seq<char>>
    decreases iv.len(),
{
    if iv.len() == 0 {
        Seq::empty()
    } else {
        let p = warning_lines(iv.drop_last());
        if iv.last().2 != "info"@ { p.push(iv.last().3) } else { p }
    }
}

/// `q` is `p` with only its review status changed to `st`.
pub open spec fn same_but_review(p: VisualPlacement, q: VisualPlacement, st: ReviewStatus) -> bool {
    q == VisualPlacement { review_status: st, ..p }
}

fn has_issue_exec(issues: &Vec<CompositionIssue>, id: &String, sev: &str) -> (r: bool)
    ensures
        r == has_issue(issue_views(issues@), id@, sev@),
{
    let mut k: usize = 0;
    while k < issues.len()
        invariant
            0 <= k <= issues@.len(),
            forall|m: int| 0 <= m < k ==> !((#[trigger] issue_views(issues@)[m]).0 == id@ && issue_views(issues@)[m].2 == sev@),
        decreases issues@.len() - k,
    {
        if issues[k].placement_id == *id && str_is(&issues[k].severity, sev) {
            proof {
                assert(issue_views(issues@)[k as int].0 == id@);
            }
            return true;
        }
        k = k + 1;
    }
    false
}

/// Review the plan: list every conflict (overlaps, protected times, covered
/// faces and subtitles, doubtful matches, timing and size), update each active
/// placement's review status from them, and keep the non-informational
/// messages as warnings.
pub fn evaluate_composition(plan: &mut VisualPlan)
    ensures
        issue_views(final(plan).issues@) == plan_issues(*old(plan), old(plan).placements@.len() as int),
        forall|k: int| 0 <= k < final(plan).issues@.len() ==> (#[trigger] final(plan).issues@[k]).id@.len() == 36,
        final(plan).placements@.len() == old(plan).placements@.len(),
        forall|k: int| 0 <= k < old(plan).placements@.len() ==> same_but_review(old(plan).placements@[k],
            #[trigger] final(plan).placements@[k], reviewed(old(plan).placements@[k], issue_views(final(plan).issues@))),
        crate::export::views(final(plan).warnings@) == warning_lines(issue_views(final(plan).issues@)),
        final(plan).id == old(plan).id && final(plan).run_id == old(plan).run_id,
        final(plan).media_path == old(plan).media_path && final(plan).edl_fingerprint == old(plan).edl_fingerprint,
        final(plan).protected_ranges == old(plan).protected_ranges,
        final(plan).spatial_zones == old(plan).spatial_zones,
        final(plan).version == old(plan).version,
{
    let ghost p0 = *plan;
    let n = plan.placements.len();
    let mut issues: Vec<CompositionIssue> = Vec::new();
    let mut i: usize = 0;
    proof {
        assert(issue_views(issues@) =~= plan_issues(p0, 0));
    }
    while i < n
        invariant
            0 <= i <= n == p0.placements@.len(),
            *plan == p0,
            issue_views(issues@) == plan_issues(p0, i as int),
            ids_fresh(issues@),
        decreases n - i,
    {
        let ghost before = issue_views(issues@);
        let ghost before_v = issues@;
        if str_is(&plan.placements[i].status, "active") {
            own_issues_exec(plan, i, &mut issues);
            overlap_issues_exec(plan, i, &mut issues);
            late_issues_exec(plan, i, &mut issues);
        }
        proof {
            assert(issue_views(issues@) =~= plan_issues(p0, i as int + 1));
        }
        i = i + 1;
    }
    let ghost iv = issue_views(issues@);
    let mut k: usize = 0;
    while k < n
        invariant
            0 <= k <= n == p0.placements@.len() == plan.placements@.len(),
            iv == issue_views(issues@),
            plan.id == p0.id && plan.run_id == p0.run_id && plan.media_path == p0.media_path,
            plan.edl_fingerprint == p0.edl_fingerprint && plan.protected_ranges == p0.protected_ranges,
            plan.spatial_zones == p0.spatial_zones && plan.version == p0.version,
            forall|m: int| 0 <= m < k ==> same_but_review(p0.placements@[m], #[trigger] plan.placements@[m], reviewed(p0.placements@[m], iv)),
            forall|m: int| k <= m < n ==> #[trigger] plan.placements@[m] == p0.placements@[m],
        decreases n - k,
    {
        let mut pl = plan.placements.remove(k);
        let ghost old_pl = pl;
        if str_is(&pl.status, "active") {
            let err = has_issue_exec(&issues, &pl.id, "error");
            let warn = has_issue_exec(&issues, &pl.id, "warn");
            if err || (warn && pl.review_status != ReviewStatus::Approved) {
                pl.review_status = ReviewStatus::Conflict;
            } else if pl.confidence >= 720 && pl.review_status == ReviewStatus::Pending {
                pl.review_status = ReviewStatus::Approved;
            }
        }
        let ghost removed = plan.placements@;
        plan.placements.insert(k, pl);
        proof {
            assert(same_but_review(old_pl, pl, reviewed(old_pl, iv)));
            assert forall|m: int| 0 <= m < k + 1 implies same_but_review(p0.placements@[m], #[trigger] plan.placements@[m], reviewed(p0.placements@[m], iv)) by {
                if m < k {
                    assert(plan.placements@[m] == removed[m]);
                }
            }
            assert forall|m: int| k + 1 <= m < n implies #[trigger] plan.placements@[m] == p0.placements@[m] by {
                assert(plan.placements@[m] == removed[m - 1]);
            }
        }
        k = k + 1;
    }
    let mut warnings: Vec<String> = Vec::new();
    let mut q: usize = 0;
    while q < issues.len()
        invariant
            0 <= q <= issues@.len(),
            iv == issue_views(issues@),
            crate::export::views(warnings@) == warning_lines(iv.take(q as int)),
        decreases issues@.len() - q,
    {
        proof {
            assert(iv.take(q as int + 1).drop_last() =~= iv.take(q as int));
            assert(iv.take(q as int + 1).last() == iv[q as int]);
        }
        let ghost before = crate::export::views(warnings@);
        if !str_is(&issues[q].severity, "info") {
            warnings.push(issues[q].message.clone());
            proof {
                assert(crate::export::views(warnings@) =~= before.push(issues@[q as int].message@));
            }
        }
        q = q + 1;
    }
    proof {
        assert(iv.take(iv.len() as int) =~= iv);
    }
    plan.issues = issues;
    plan.warnings = warnings;
}

/// The anchor `t` snaps to among `anchors` within `threshold`, with its
/// distance: the last nearest one no farther than the threshold, or `t`.
pub open spec fn snap_fold(anchors: Seq<u64>, t: u64, threshold: u64) -> (u64, u64)
    decreases anchors.len(),
{
    if anchors.len() == 0 {
        (t, threshold)
    } else {
        let (best, bd) = snap_fold(anchors.drop_last(), t, threshold);
        let a = anchors.last();
        let d = if a > t { (a - t) as u64 } else { (t - a) as u64 };
        if d <= bd { (a, d) } else { (best, bd) }
    }
}

/// Magnetic snap: the nearest anchor within `threshold` of `t` (ties to the
/// later anchor), or `t` itself.
pub fn snap_time(t: u64, anchors: &Vec<u64>, threshold: u64) -> (r: u64)
    ensures
        r == snap_fold(anchors@, t, threshold).0,
{
    let mut best = t;
    let mut best_d = threshold;
    let mut i: usize = 0;
    while i < anchors.len()
        invariant
            0 <= i <= anchors@.len(),
            (best, best_d) == snap_fold(anchors@.take(i as int), t, threshold),
        decreases anchors@.len() - i,
    {
        proof {
            assert(anchors@.take(i as int + 1).drop_last() =~= anchors@.take(i as int));
            assert(anchors@.take(i as int + 1).last() == anchors@[i as int]);
        }
        let a = anchors[i];
        let d = if a > t { a - t } else { t - a };
        if d <= best_d {
            best_d = d;
            best = a;
        }
        i = i + 1;
    }
    proof {
        assert(anchors@.take(anchors@.len() as int) =~= anchors@);
    }
    best
}

/// Snap both edges of a placement; the end stays at least 250 ms after the start.
pub fn snap_placement_edges(start: u64, end: u64, anchors: &Vec<u64>, threshold: u64) -> (r: (u64, u64))
    requires
        snap_fold(anchors@, start, threshold).0 <= u64::MAX - 250,
    ensures
        r.0 == snap_fold(anchors@, start, threshold).0,
        r.1 == (if snap_fold(anchors@, end, threshold).0 > r.0 + 250 { snap_fold(anchors@, end, threshold).0 } else { (r.0 + 250) as u64 }),
{
    let s = snap_time(start, anchors, threshold);
    let e = snap_time(end, anchors, threshold);
    (s, if e > s + 250 { e } else { s + 250 })
}

/// Strictly ascending.
pub open spec fn strictly_ascending(v: Seq<u64>) -> bool {
    forall|i: int, j: int| 0 <= i < j < v.len() ==> #[trigger] v[i] < #[trigger] v[j]
}

/// Snap anchors: time zero and every transcript, cut and placement edge,
/// ascending, each once.
pub fn collect_snap_anchors(transcript_edges: &Vec<u64>, cut_edges: &Vec<u64>, placement_edges: &Vec<u64>) -> (r: Vec<u64>)
    ensures
        strictly_ascending(r@),
        r@.to_set() == seq![0u64].to_set() + transcript_edges@.to_set() + cut_edges@.to_set() + placement_edges@.to_set(),
{
    let ghost all = seq![0u64] + transcript_edges@ + cut_edges@ + placement_edges@;
    let mut src: Vec<u64> = Vec::new();
    src.push(0);
    let mut k: usize = 0;
    while k < transcript_edges.len()
        invariant
            0 <= k <= transcript_edges@.len(),
            src@ == seq![0u64] + transcript_edges@.take(k as int),
        decreases transcript_edges@.len() - k,
    {
        src.push(transcript_edges[k]);
        proof {
            assert(seq![0u64] + transcript_edges@.take(k as int + 1) =~= (seq![0u64] + transcript_edges@.take(k as int)).push(transcript_edges@[k as int]));
        }
        k = k + 1;
    }
    proof {
        assert(transcript_edges@.take(transcript_edges@.len() as int) =~= transcript_edges@);
    }
    let ghost s1 = src@;
    k = 0;
    while k < cut_edges.len()
        invariant
            0 <= k <= cut_edges@.len(),
            src@ == s1 + cut_edges@.take(k as int),
        decreases cut_edges@.len() - k,
    {
        src.push(cut_edges[k]);
        proof {
            assert(s1 + cut_edges@.take(k as int + 1) =~= (s1 + cut_edges@.take(k as int)).push(cut_edges@[k as int]));
        }
        k = k + 1;
    }
    proof {
        assert(cut_edges@.take(cut_edges@.len() as int) =~= cut_edges@);
    }
    let ghost s2 = src@;
    k = 0;
    while k < placement_edges.len()
        invariant
            0 <= k <= placement_edges@.len(),
            src@ == s2 + placement_edges@.take(k as int),
        decreases placement_edges@.len() - k,
    {
        src.push(placement_edges[k]);
        proof {
            assert(s2 + placement_edges@.take(k as int + 1) =~= (s2 + placement_edges@.take(k as int)).push(placement_edges@[k as int]));
        }
        k = k + 1;
    }
    proof {
        assert(placement_edges@.take(placement_edges@.len() as int) =~= placement_edges@);
        assert(src@ =~= all);
    }
    let mut keyed: Vec<(u64, ())> = Vec::new();
    let mut i: usize = 0;
    while i < src.len()
        invariant
            0 <= i <= src@.len(),
            keyed@.len() == i,
            forall|m: int| 0 <= m < i ==> (#[trigger] keyed@[m]).0 == src@[m],
        decreases src@.len() - i,
    {
        keyed.push((src[i], ()));
        i = i + 1;
    }
    let ghost kb = keyed@;
    let sorted = crate::sort::sort_by_key(keyed);
    proof {
        broadcast use vstd::seq_lib::group_to_multiset_ensures;
        assert forall|x: (u64, ())| sorted@.contains(x) <==> kb.contains(x) by {
            assert(sorted@.to_multiset().count(x) == kb.to_multiset().count(x));
        }
    }
    let mut r: Vec<u64> = Vec::new();
    let mut j: usize = 0;
    while j < sorted.len()
        invariant
            0 <= j <= sorted@.len(),
            crate::sort::keys_ascending(sorted@),
            strictly_ascending(r@),
            r@.len() > 0 ==> j > 0 && r@.last() == sorted@[j - 1].0,
            j > 0 ==> r@.len() > 0,
            forall|m: int| 0 <= m < r@.len() ==> exists|q: int| 0 <= q < j && (#[trigger] r@[m]) == sorted@[q].0,
            forall|q: int| 0 <= q < j ==> r@.contains(#[trigger] sorted@[q].0),
        decreases sorted@.len() - j,
    {
        let x = sorted[j].0;
        let ghost before = r@;
        if r.len() == 0 || r[r.len() - 1] != x {
            proof {
                if before.len() > 0 {
                    assert(sorted@[j - 1].0 <= sorted@[j as int].0);
                }
            }
            r.push(x);
            proof {
                assert forall|m: int| 0 <= m < r@.len() implies exists|q: int| 0 <= q < j + 1 && (#[trigger] r@[m]) == sorted@[q].0 by {
                    if m < before.len() {
                        assert(r@[m] == before[m]);
                    } else {
                        assert(r@[m] == sorted@[j as int].0);
                    }
                }
                assert forall|q: int| 0 <= q < j + 1 implies r@.contains(#[trigger] sorted@[q].0) by {
                    if q < j {
                        assert(before.contains(sorted@[q].0));
                        let w = choose|w: int| 0 <= w < before.len() && before[w] == sorted@[q].0;
                        assert(r@[w] == before[w]);
                    } else {
                        assert(r@[r@.len() - 1] == sorted@[q].0);
                    }
                }
            }
        } else {
            proof {
                assert(r@[r@.len() - 1] == sorted@[j as int].0);
            }
        }
        j = j + 1;
    }
    proof {
        let target = seq![0u64].to_set() + transcript_edges@.to_set() + cut_edges@.to_set() + placement_edges@.to_set();
        assert forall|x: u64| r@.to_set().contains(x) <==> target.contains(x) by {
            if r@.to_set().contains(x) {
                assert(r@.contains(x));
                let m = choose|m: int| 0 <= m < r@.len() && r@[m] == x;
                let q = choose|q: int| 0 <= q < sorted@.len() && r@[m] == sorted@[q].0;
                assert(sorted@.contains(sorted@[q]));
                assert(kb.contains(sorted@[q]));
                let w = choose|w: int| 0 <= w < kb.len() && kb[w] == sorted@[q];
                assert(all[w] == x);
                lemma_in_concat4(seq![0u64], transcript_edges@, cut_edges@, placement_edges@, w);
            }
            if target.contains(x) {
                let w = lemma_find_concat4(seq![0u64], transcript_edges@, cut_edges@, placement_edges@, x);
                assert(all[w] == x);
                assert(kb[w] == (x, ()));
                assert(kb.contains((x, ())));
                assert(sorted@.contains((x, ())));
                let q = choose|q: int| 0 <= q < sorted@.len() && sorted@[q] == (x, ());
                assert(r@.contains(sorted@[q].0));
            }
        }
        assert(r@.to_set() =~= target);
    }
    r
}

proof fn lemma_in_concat4(a: Seq<u64>, b: Seq<u64>, c: Seq<u64>, d: Seq<u64>, w: int)
    requires
        0 <= w < (a + b + c + d).len(),
    ensures
        (a.to_set() + b.to_set() + c.to_set() + d.to_set()).contains((a + b + c + d)[w]),
{
    let x = (a + b + c + d)[w];
    if w < a.len() {
        assert(a[w] == x);
        assert(a.contains(x));
    } else if w < a.len() + b.len() {
        assert(b[w - a.len()] == x);
        assert(b.contains(x));
    } else if w < a.len() + b.len() + c.len() {
        assert(c[w - a.len() - b.len()] == x);
        assert(c.contains(x));
    } else {
        assert(d[w - a.len() - b.len() - c.len()] == x);
        assert(d.contains(x));
    }
}

proof fn lemma_find_concat4(a: Seq<u64>, b: Seq<u64>, c: Seq<u64>, d: Seq<u64>, x: u64) -> (w: int)
    requires
        (a.to_set() + b.to_set() + c.to_set() + d.to_set()).contains(x),
    ensures
        0 <= w < (a + b + c + d).len(),
        (a + b + c + d)[w] == x,
{
    let s = a + b + c + d;
    if a.to_set().contains(x) {
        let k = choose|k: int| 0 <= k < a.len() && a[k] == x;
        assert(s[k] == x);
        k
    } else if b.to_set().contains(x) {
        let k = choose|k: int| 0 <= k < b.len() && b[k] == x;
        assert(s[a.len() + k] == x);
        a.len() + k
    } else if c.to_set().contains(x) {
        let k = choose|k: int| 0 <= k < c.len() && c[k] == x;
        assert(s[a.len() + b.len() + k] == x);
        a.len() + b.len() + k
    } else {
        let k = choose|k: int| 0 <= k < d.len() && d[k] == x;
        assert(s[a.len() + b.len() + c.len() + k] == x);
        a.len() + b.len() + c.len() + k
    }
}

/// `q` is `p` with the AI-suggested layout and mode restored and manual
/// override cleared.
pub open spec fn restored(p: VisualPlacement, q: VisualPlacement) -> bool {
    let layout = match p.suggested_layout { Some(l) => layout_clamped(l), None => layout_for(p.mode) };
    let mode = match p.suggested_mode { Some(m) => m, None => p.mode };
    q == VisualPlacement { layout, mode, manual_override: false, ..p }
}

/// Restore the AI-suggested layout and mode of a placement.
pub fn restore_suggested(pl: &mut VisualPlacement)
    ensures
        restored(*old(pl), *final(pl)),
{
    match pl.suggested_layout {
        Some(l) => {
            pl.layout = l.clamp();
        },
        None => {
            pl.layout = PlacementLayout::for_mode(pl.mode);
        },
    }
    match pl.suggested_mode {
        Some(m) => {
            pl.mode = m;
        },
        None => {},
    }
    pl.manual_override = false;
}

/// The placements whose id is not `id`, in order.
pub open spec fn without_placement(ps: Seq<VisualPlacement>, id: Seq<char>) -> Seq<VisualPlacement>
    decreases ps.len(),
{
    if ps.len() == 0 {
        Seq::empty()
    } else {
        let p = without_placement(ps.drop_last(), id);
        if ps.last().id@ == id { p } else { p.push(ps.last()) }
    }
}

proof fn lemma_without_placement_len(ps: Seq<VisualPlacement>, id: Seq<char>)
    ensures
        without_placement(ps, id).len() <= ps.len(),
        without_placement(ps, id).len() == ps.len() <==> forall|k: int| 0 <= k < ps.len() ==> (#[trigger] ps[k]).id@ != id,
    decreases ps.len(),
{
    if ps.len() > 0 {
        lemma_without_placement_len(ps.drop_last(), id);
        if forall|k: int| 0 <= k < ps.len() ==> (#[trigger] ps[k]).id@ != id {
            assert forall|k: int| 0 <= k < ps.drop_last().len() implies (#[trigger] ps.drop_last()[k]).id@ != id by {
                assert(ps.drop_last()[k] == ps[k]);
            }
        } else {
            let k = choose|k: int| 0 <= k < ps.len() && (#[trigger] ps[k]).id@ == id;
            if k < ps.len() - 1 {
                assert(ps.drop_last()[k] == ps[k]);
            }
        }
    }
}

/// Remove the placements with the given id; `NotFound` with the id when
/// there is none (the plan then stays as it was).
pub fn remove_placement(plan: &mut VisualPlan, placement_id: &str) -> (r: Result<(), AppError>)
    ensures
        (exists|k: int| 0 <= k < old(plan).placements@.len() && (#[trigger] old(plan).placements@[k]).id@ == placement_id@) <==> r is Ok,
        r is Ok ==> final(plan).placements@ == without_placement(old(plan).placements@, placement_id@),
        r matches Err(e) ==> (e matches AppError::NotFound(m) && m@ == placement_id@) && final(plan).placements@ == old(plan).placements@,
        final(plan).protected_ranges == old(plan).protected_ranges,
        final(plan).issues == old(plan).issues && final(plan).warnings == old(plan).warnings,
        final(plan).id == old(plan).id,
{
    let target = String::from_str(placement_id);
    let ghost orig = plan.placements@;
    let mut ps: Vec<VisualPlacement> = Vec::new();
    std::mem::swap(&mut ps, &mut plan.placements);
    let mut kept: Vec<VisualPlacement> = Vec::new();
    let n = ps.len();
    let mut i: usize = 0;
    while ps.len() > 0
        invariant
            0 <= i <= n == orig.len(),
            ps@ == orig.skip(i as int),
            target@ == placement_id@,
            kept@ == without_placement(orig.take(i as int), placement_id@),
        decreases ps@.len(),
    {
        proof {
            assert(orig.take(i as int + 1).drop_last() =~= orig.take(i as int));
            assert(orig.take(i as int + 1).last() == orig[i as int]);
            assert(ps@[0] == orig[i as int]);
        }
        let x = ps.remove(0);
        proof {
            assert(ps@ =~= orig.skip(i as int + 1));
        }
        if x.id != target {
            kept.push(x);
        }
        i = i + 1;
    }
    proof {
        assert(orig.take(n as int) =~= orig);
        lemma_without_placement_len(orig, placement_id@);
    }
    if kept.len() == n {
        proof {
            lemma_without_all_kept(orig, placement_id@);
        }
        plan.placements = kept;
        return Err(AppError::NotFound(target));
    }
    plan.placements = kept;
    Ok(())
}

proof fn lemma_without_all_kept(ps: Seq<VisualPlacement>, id: Seq<char>)
    requires
        forall|k: int| 0 <= k < ps.len() ==> (#[trigger] ps[k]).id@ != id,
    ensures
        without_placement(ps, id) == ps,
    decreases ps.len(),
{
    if ps.len() > 0 {
        assert forall|k: int| 0 <= k < ps.drop_last().len() implies (#[trigger] ps.drop_last()[k]).id@ != id by {
            assert(ps.drop_last()[k] == ps[k]);
        }
        lemma_without_all_kept(ps.drop_last(), id);
        assert(ps.drop_last().push(ps.last()) =~= ps);
    }
}

/// `q` is `p` with status `st` when `cond`, else `p` unchanged.
pub open spec fn status_if(p: VisualPlacement, q: VisualPlacement, cond: bool, st: Seq<char>) -> bool {
    if cond { q.status@ == st && q == VisualPlacement { status: q.status, ..p } } else { q == p }
}

/// Protect an interval of the output: placements overlapping it are blocked
/// ("blocked_protected") and the range joins the plan.
pub fn add_protected_range(plan: &mut VisualPlan, pr: ProtectedRange)
    ensures
        final(plan).protected_ranges@ == old(plan).protected_ranges@.push(pr),
        final(plan).placements@.len() == old(plan).placements@.len(),
        forall|k: int| 0 <= k < old(plan).placements@.len() ==> status_if(old(plan).placements@[k], #[trigger] final(plan).placements@[k],
            overlaps(old(plan).placements@[k].output_start, old(plan).placements@[k].output_end, pr.output_start, pr.output_end),
            "blocked_protected"@),
        final(plan).spatial_zones == old(plan).spatial_zones && final(plan).issues == old(plan).issues,
        final(plan).warnings == old(plan).warnings && final(plan).id == old(plan).id,
{
    let n = plan.placements.len();
    let ghost orig = plan.placements@;
    let mut k: usize = 0;
    while k < n
        invariant
            0 <= k <= n == orig.len() == plan.placements@.len(),
            plan.protected_ranges == old(plan).protected_ranges,
            plan.spatial_zones == old(plan).spatial_zones && plan.issues == old(plan).issues,
            plan.warnings == old(plan).warnings && plan.id == old(plan).id,
            orig == old(plan).placements@,
            forall|m: int| 0 <= m < k ==> status_if(orig[m], #[trigger] plan.placements@[m],
                overlaps(orig[m].output_start, orig[m].output_end, pr.output_start, pr.output_end), "blocked_protected"@),
            forall|m: int| k <= m < n ==> #[trigger] plan.placements@[m] == orig[m],
        decreases n - k,
    {
        let mut pl = plan.placements.remove(k);
        let ghost removed = plan.placements@;
        if pr.overlaps(pl.output_start, pl.output_end) {
            pl.status = String::from_str("blocked_protected");
        }
        plan.placements.insert(k, pl);
        proof {
            assert forall|m: int| 0 <= m < k + 1 implies status_if(orig[m], #[trigger] plan.placements@[m],
                overlaps(orig[m].output_start, orig[m].output_end, pr.output_start, pr.output_end), "blocked_protected"@) by {
                if m < k {
                    assert(plan.placements@[m] == removed[m]);
                }
            }
            assert forall|m: int| k + 1 <= m < n implies #[trigger] plan.placements@[m] == orig[m] by {
                assert(plan.placements@[m] == removed[m - 1]);
            }
        }
        k = k + 1;
    }
    plan.protected_ranges.push(pr);
}

/// The ranges whose id is not `id`, in order.
pub open spec fn without_range(rs: Seq<ProtectedRange>, id: Seq<char>) -> Seq<ProtectedRange>
    decreases rs.len(),
{
    if rs.len() == 0 {
        Seq::empty()
    } else {
        let p = without_range(rs.drop_last(), id);
        if rs.last().id@ == id { p } else { p.push(rs.last()) }
    }
}

proof fn lemma_without_range_len(rs: Seq<ProtectedRange>, id: Seq<char>)
    ensures
        without_range(rs, id).len() == rs.len() ==> without_range(rs, id) == rs,
        without_range(rs, id).len() <= rs.len(),
        without_range(rs, id).len() == rs.len() <==> forall|k: int| 0 <= k < rs.len() ==> (#[trigger] rs[k]).id@ != id,
    decreases rs.len(),
{
    if rs.len() > 0 {
        lemma_without_range_len(rs.drop_last(), id);
        if forall|k: int| 0 <= k < rs.len() ==> (#[trigger] rs[k]).id@ != id {
            assert forall|k: int| 0 <= k < rs.drop_last().len() implies (#[trigger] rs.drop_last()[k]).id@ != id by {
                assert(rs.drop_last()[k] == rs[k]);
            }
            assert(rs.drop_last().push(rs.last()) =~= rs);
        } else {
            let k = choose|k: int| 0 <= k < rs.len() && (#[trigger] rs[k]).id@ == id;
            if k < rs.len() - 1 {
                assert(rs.drop_last()[k] == rs[k]);
            }
        }
    }
}

/// Remove the protected ranges with the given id (`NotFound` with the id when
/// there is none); blocked placements that no remaining range overlaps
/// become active again.
pub fn remove_protected_range(plan: &mut VisualPlan, range_id: &str) -> (r: Result<(), AppError>)
    ensures
        (exists|k: int| 0 <= k < old(plan).protected_ranges@.len() && (#[trigger] old(plan).protected_ranges@[k]).id@ == range_id@) <==> r is Ok,
        r matches Err(e) ==> (e matches AppError::NotFound(m) && m@ == range_id@) && final(plan).protected_ranges@ == old(plan).protected_ranges@
            && final(plan).placements@ == old(plan).placements@,
        r is Ok ==> ({
            let rest = without_range(old(plan).protected_ranges@, range_id@);
            &&& final(plan).protected_ranges@ == rest
            &&& final(plan).placements@.len() == old(plan).placements@.len()
            &&& forall|k: int| 0 <= k < old(plan).placements@.len() ==> status_if(old(plan).placements@[k], #[trigger] final(plan).placements@[k],
                old(plan).placements@[k].status@ == "blocked_protected"@
                    && !protected_in(rest, old(plan).placements@[k].output_start, old(plan).placements@[k].output_end),
                "active"@)
        }),
        final(plan).id == old(plan).id,
{
    let target = String::from_str(range_id);
    let ghost orig = plan.protected_ranges@;
    let mut rs: Vec<ProtectedRange> = Vec::new();
    std::mem::swap(&mut rs, &mut plan.protected_ranges);
    let mut kept: Vec<ProtectedRange> = Vec::new();
    let n = rs.len();
    let mut i: usize = 0;
    while rs.len() > 0
        invariant
            0 <= i <= n == orig.len(),
            rs@ == orig.skip(i as int),
            target@ == range_id@,
            kept@ == without_range(orig.take(i as int), range_id@),
        decreases rs@.len(),
    {
        proof {
            assert(orig.take(i as int + 1).drop_last() =~= orig.take(i as int));
            assert(orig.take(i as int + 1).last() == orig[i as int]);
            assert(rs@[0] == orig[i as int]);
        }
        let x = rs.remove(0);
        proof {
            assert(rs@ =~= orig.skip(i as int + 1));
        }
        if x.id != target {
            kept.push(x);
        }
        i = i + 1;
    }
    proof {
        assert(orig.take(n as int) =~= orig);
        lemma_without_range_len(orig, range_id@);
    }
    plan.protected_ranges = kept;
    if plan.protected_ranges.len() == n {
        return Err(AppError::NotFound(target));
    }
    let m = plan.placements.len();
    let ghost ops = plan.placements@;
    let mut k: usize = 0;
    while k < m
        invariant
            0 <= k <= m == ops.len() == plan.placements@.len(),
            ops == old(plan).placements@,
            plan.protected_ranges@ == without_range(orig, range_id@),
            plan.id == old(plan).id,
            forall|q: int| 0 <= q < k ==> status_if(ops[q], #[trigger] plan.placements@[q],
                ops[q].status@ == "blocked_protected"@ && !protected_in(plan.protected_ranges@, ops[q].output_start, ops[q].output_end), "active"@),
            forall|q: int| k <= q < m ==> #[trigger] plan.placements@[q] == ops[q],
        decreases m - k,
    {
        let blocked = str_is(&plan.placements[k].status, "blocked_protected");
        let still = plan.is_protected(plan.placements[k].output_start, plan.placements[k].output_end);
        let mut pl = plan.placements.remove(k);
        let ghost removed = plan.placements@;
        if blocked && !still {
            pl.status = String::from_str("active");
        }
        plan.placements.insert(k, pl);
        proof {
            assert forall|q: int| 0 <= q < k + 1 implies status_if(ops[q], #[trigger] plan.placements@[q],
                ops[q].status@ == "blocked_protected"@ && !protected_in(plan.protected_ranges@, ops[q].output_start, ops[q].output_end), "active"@) by {
                if q < k {
                    assert(plan.placements@[q] == removed[q]);
                }
            }
            assert forall|q: int| k + 1 <= q < m implies #[trigger] plan.placements@[q] == ops[q] by {
                assert(plan.placements@[q] == removed[q - 1]);
            }
        }
        k = k + 1;
    }
    Ok(())
}

/// What a visual run keeps between requests: the plan under work, the
/// fingerprint of the cut it was made for, and where it was saved.
pub struct VisualSession {
    pub plan: Option<VisualPlan>,
    pub edl_fp: Option<String>,
    pub plan_path: Option<String>,
}

impl VisualSession {
    /// An empty session.
    pub fn new() -> (r: VisualSession)
        ensures
            r.plan is None && r.edl_fp is None && r.plan_path is None,
    {
        VisualSession { plan: None, edl_fp: None, plan_path: None }
    }

    /// Forget everything the session holds.
    pub fn clear(&mut self)
        ensures
            final(self).plan is None && final(self).edl_fp is None && final(self).plan_path is None,
    {
        *self = VisualSession::new();
    }
}

/// Evaluate the composition of the session's plan in place (see
/// `evaluate_composition`); `Invalid` when the session has no plan.
pub fn evaluate_plan(session: &mut VisualSession) -> (r: Result<(), AppError>)
    ensures
        old(session).plan is None ==> (r matches Err(AppError::Invalid(m)) && m@
            == "No hay VisualPlan en sesión."@) && *final(session) == *old(session),
        old(session).plan is Some ==> r is Ok,
        old(session).plan matches Some(p0) ==> (final(session).plan matches Some(p1) && {
            &&& issue_views(p1.issues@) == plan_issues(p0, p0.placements@.len() as int)
            &&& p1.placements@.len() == p0.placements@.len()
            &&& forall|k: int| 0 <= k < p0.placements@.len() ==> same_but_review(p0.placements@[k],
                #[trigger] p1.placements@[k], reviewed(p0.placements@[k], issue_views(p1.issues@)))
            &&& crate::export::views(p1.warnings@) == warning_lines(issue_views(p1.issues@))
            &&& p1.id == p0.id && p1.protected_ranges == p0.protected_ranges
        }),
        final(session).edl_fp == old(session).edl_fp && final(session).plan_path == old(session).plan_path,
{
    match session.plan.take() {
        None => Err(AppError::Invalid(String::from_str("No hay VisualPlan en sesión."))),
        Some(mut p) => {
            evaluate_composition(&mut p);
            session.plan = Some(p);
            Ok(())
        },
    }
}

} // verus!
