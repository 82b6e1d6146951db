//! Explainable ranking of library images for the semantic events of a run:
//! each event, best first, gets the best-scoring active image, spaced out on
//! the output timeline. Scores are in twenty-thousandths (20000 = 1.0),
//! times in milliseconds, image qualities in thousandths.
use vstd::prelude::*;
use crate::captions::char_views;
use crate::export::views;
use crate::matching::{
    AssetStatus, LicenseStatus, MediaAsset, lows, concept_reasons, tag_reasons, title_term,
    lower_all, lower_chars, push_prefixed, push_concept_reasons, push_tag_reasons, title_term_exec,
    contains_id,
};
use crate::needs::{SemanticEvent, event_keys, order_of};
use crate::text::lowercase;
use crate::timeline::Span;

verus! {

/// How densely suggestions are placed.
pub struct MatchConfig {
    /// Most suggestions per minute of output, in thousandths (3500 = 3.5).
    pub max_per_minute_milli: u64,
    /// Least gap between the end of one suggestion and the start of the next.
    pub min_gap_ms: u64,
    /// How long a suggestion lasts, at most.
    pub duration_ms: u64,
}

impl MatchConfig {
    /// At most 3.5 suggestions a minute, 8 s apart, 4 s each.
    pub fn default_config() -> (c: MatchConfig)
        ensures
            c.max_per_minute_milli == 3500 && c.min_gap_ms == 8000 && c.duration_ms == 4000,
    {
        MatchConfig { max_per_minute_milli: 3500, min_gap_ms: 8000, duration_ms: 4000 }
    }
}

/// Where a suggestion stands in its review.
#[derive(Clone, Copy, Debug, PartialEq, Eq, Structural)]
pub enum SuggestionStatus {
    Suggested,
    Accepted,
    Rejected,
}

/// An image suggested over a stretch of the output timeline.
pub struct VisualSuggestion {
    pub id: String,
    pub semantic_event_id: String,
    pub asset_id: String,
    pub source_span: Span,
    pub output_span: Span,
    pub match_reasons: Vec<String>,
    /// Twenty-thousandths, within 0..=20000.
    pub match_score: u32,
    pub alternatives: Vec<String>,
    pub status: SuggestionStatus,
    pub asset_title: Option<String>,
    pub thumbnail_path: Option<String>,
}

/// A score kept within 0..=1.
pub open spec fn unit_clamp(s: int) -> int {
    if s < 0 { 0 } else if s > 20000 { 20000 } else { s }
}

/// The score of an image for an event (within 0..=1) and the reasons for it:
/// 0.45 for each concept of the image that is the label or related to a term,
/// 0.25 for each tag that a term is or mentions or that the label mentions,
/// 0.15 when the title mentions a term, 0.05 of its quality, less 0.08 for
/// each earlier use (at most five) and 0.12 when its license is unknown.
pub open spec fn pair_score(e: SemanticEvent, a: MediaAsset) -> (int, Seq<Seq<char>>) {
    let label = lowercase(e.label@);
    let terms = lows(e.terms@);
    let r1 = concept_reasons(a.concepts@, label, terms);
    let r2 = tag_reasons(a.tags@, label, terms);
    let tt = title_term(terms, lowercase(a.title@));
    let r3 = match tt { Some(t) => seq!["title:"@ + t], None => Seq::empty() };
    let r4 = if a.times_used > 0 { seq!["penalty:used_before"@] } else { Seq::empty() };
    let unknown = a.license_status == LicenseStatus::Unknown;
    let r5 = if unknown { seq!["penalty:license_unknown"@] } else { Seq::empty() };
    let q = match a.quality_score { Some(q) => q as int, None => 0 };
    let used = if a.times_used > 5 { 5int } else { a.times_used as int };
    let s = 9000 * r1.len() + 5000 * r2.len() + (if tt is Some { 3000int } else { 0 }) + q
        - 1600 * used - (if unknown { 2400int } else { 0 });
    (unit_clamp(s), r1 + r2 + r3 + r4 + r5)
}

/// The score and reasons of an image for an event (see `pair_score`), given
/// the event's label and terms in lower case.
fn score_pair(e: &SemanticEvent, label: &Vec<char>, terms: &Vec<Vec<char>>, a: &MediaAsset) -> (r: (u32, Vec<String>))
    requires
        label@ == lowercase(e.label@),
        char_views(terms@) == lows(e.terms@),
    ensures
        r.0 as int == pair_score(*e, *a).0,
        views(r.1@) == pair_score(*e, *a).1,
{
    let mut reasons: Vec<String> = Vec::new();
    proof {
        assert(views(reasons@) =~= Seq::<Seq<char>>::empty());
        reveal_strlit("");
        assert("penalty:used_before"@ + ""@ =~= "penalty:used_before"@);
        assert("penalty:license_unknown"@ + ""@ =~= "penalty:license_unknown"@);
    }
    let n1 = push_concept_reasons(&mut reasons, &a.concepts, label, terms);
    let n2 = push_tag_reasons(&mut reasons, &a.tags, label, terms);
    let title = lower_chars(a.title.as_str());
    let tt = title_term_exec(terms, &title);
    let mut score: i128 = 9000 * (n1 as i128) + 5000 * (n2 as i128);
    match tt {
        Some(i) => {
            let t = crate::text::from_chars(&terms[i]);
            push_prefixed(&mut reasons, "title:", t.as_str());
            score = score + 3000;
        },
        None => {},
    }
    if a.times_used > 0 {
        push_prefixed(&mut reasons, "penalty:used_before", "");
    }
    let unknown = match a.license_status {
        LicenseStatus::Unknown => true,
        _ => false,
    };
    if unknown {
        push_prefixed(&mut reasons, "penalty:license_unknown", "");
    }
    match a.quality_score {
        Some(q) => { score = score + q as i128; },
        None => {},
    }
    let used: i128 = if a.times_used > 5 { 5 } else { a.times_used as i128 };
    score = score - 1600 * used;
    if unknown {
        score = score - 2400;
    }
    let clamped: u32 = if score < 0 { 0 } else if score > 20000 { 20000 } else { score as u32 };
    (clamped, reasons)
}


/// Each earlier use of an image, up to five, costs it exactly 0.08: of two
/// images that differ only in how often they were used, the more used one
/// never scores higher, and when neither score is clamped (the more used
/// one above 0, the less used one below 1) and both were used at most five
/// times, the less used one scores 1600 twenty-thousandths more per use.
pub proof fn lemma_reuse_penalty(e: SemanticEvent, a: MediaAsset, b: MediaAsset)
    requires
        b == (MediaAsset { times_used: b.times_used, ..a }),
        a.times_used <= b.times_used,
    ensures
        pair_score(e, b).0 <= pair_score(e, a).0,
        b.times_used <= 5 && pair_score(e, b).0 > 0 && pair_score(e, a).0 < 20000
            ==> pair_score(e, a).0 - pair_score(e, b).0 == 1600 * (b.times_used - a.times_used),
{
}

/// The most suggestions for an output of `out_ms`: the rate per minute times
/// the minutes, rounded up, and at least one.
pub open spec fn max_total(out_ms: u64, cfg: MatchConfig) -> int {
    let c = (out_ms * cfg.max_per_minute_milli + 59_999_999) / 60_000_000;
    if c < 1 { 1 } else { c }
}

/// The image can be suggested for the event: active, not used already in
/// this run unless it allows repeats, and scoring at least 0.25.
pub open spec fn eligible(e: SemanticEvent, a: MediaAsset, used: Seq<Seq<char>>) -> bool {
    &&& a.status == AssetStatus::Active
    &&& !(used.contains(a.id@) && !a.allow_same_video_repeat)
    &&& pair_score(e, a).0 >= 5000
}

/// The first image, among the first `k`, with the highest score of the
/// eligible ones.
pub open spec fn best_asset(e: SemanticEvent, assets: Seq<MediaAsset>, used: Seq<Seq<char>>, k: int) -> Option<usize>
    decreases k,
{
    if k <= 0 {
        None
    } else {
        let b = best_asset(e, assets, used, k - 1);
        let a = assets[k - 1];
        if eligible(e, a, used) && (match b {
            None => true,
            Some(j) => pair_score(e, a).0 > pair_score(e, assets[j as int]).0,
        }) {
            Some((k - 1) as usize)
        } else {
            b
        }
    }
}

/// The ids of the images a plan uses. A plan entry is (event index, image
/// index, output start, output end).
pub open spec fn used_ids(plan: Seq<(usize, usize, u64, u64)>, assets: Seq<MediaAsset>) -> Seq<Seq<char>> {
    plan.map_values(|p: (usize, usize, u64, u64)| assets[p.1 as int].id@)
}

/// Where the last suggestion of a plan ends (far before zero when there is none).
pub open spec fn last_end(plan: Seq<(usize, usize, u64, u64)>) -> int {
    if plan.len() == 0 { -999000 } else { plan.last().3 as int }
}

/// One event considered: it gets its best image when the plan is not full,
/// it lies on the output, starts a gap after the last suggestion, some image
/// is eligible, and at least 1.5 s remain before the end of the output.
pub open spec fn rank_step(
    events: Seq<SemanticEvent>,
    assets: Seq<MediaAsset>,
    out_ms: u64,
    cfg: MatchConfig,
    plan: Seq<(usize, usize, u64, u64)>,
    ei: usize,
) -> Seq<(usize, usize, u64, u64)> {
    let e = events[ei as int];
    if plan.len() >= max_total(out_ms, cfg) {
        plan
    } else {
        match e.output_span {
            None => plan,
            Some(out) => if out.start < last_end(plan) + cfg.min_gap_ms {
                plan
            } else {
                match best_asset(e, assets, used_ids(plan, assets), assets.len() as int) {
                    None => plan,
                    Some(ai) => {
                        let end = if out.start + cfg.duration_ms < out_ms { out.start + cfg.duration_ms } else { out_ms as int };
                        if end - out.start < 1500 { plan } else { plan.push((ei, ai, out.start, end as u64)) }
                    },
                }
            },
        }
    }
}

/// The suggestions planned for the events taken in the order `ord`.
pub open spec fn rank_plan(
    events: Seq<SemanticEvent>,
    assets: Seq<MediaAsset>,
    out_ms: u64,
    cfg: MatchConfig,
    ord: Seq<usize>,
) -> Seq<(usize, usize, u64, u64)>
    decreases ord.len(),
{
    if ord.len() == 0 {
        Seq::empty()
    } else {
        rank_step(events, assets, out_ms, cfg, rank_plan(events, assets, out_ms, cfg, ord.drop_last()), ord.last())
    }
}

/// A plan keyed for ordering by output start, then by position.
pub open spec fn plan_keys(plan: Seq<(usize, usize, u64, u64)>) -> Seq<((u64, u64, u64), usize)> {
    Seq::new(plan.len(), |j: int| ((plan[j].2, j as u64, 0u64), j as usize))
}

/// The suggestion carries the plan entry `p`.
pub open spec fn suggestion_of(s: VisualSuggestion, p: (usize, usize, u64, u64), events: Seq<SemanticEvent>, assets: Seq<MediaAsset>) -> bool {
    let e = events[p.0 as int];
    let a = assets[p.1 as int];
    &&& s.id@.len() == 36
    &&& s.semantic_event_id@ == e.id@ && s.asset_id@ == a.id@
    &&& s.source_span == e.source_span && s.output_span == (Span { start: p.2, end: p.3 })
    &&& views(s.match_reasons@) == pair_score(e, a).1 && s.match_score as int == pair_score(e, a).0
    &&& s.alternatives@.len() == 0 && s.status == SuggestionStatus::Suggested
    &&& (s.asset_title matches Some(t) && t@ == a.title@)
    &&& crate::safe_paths::opt_view(s.thumbnail_path) == crate::safe_paths::opt_view(a.thumbnail_path)
}

/// The best eligible image for an event, with its score and reasons.
fn best_for(e: &SemanticEvent, label: &Vec<char>, terms: &Vec<Vec<char>>, assets: &Vec<MediaAsset>, used: &Vec<String>) -> (r: Option<(usize, u32, Vec<String>)>)
    requires
        label@ == lowercase(e.label@),
        char_views(terms@) == lows(e.terms@),
    ensures
        match r {
            None => best_asset(*e, assets@, views(used@), assets@.len() as int) is None,
            Some(b) => best_asset(*e, assets@, views(used@), assets@.len() as int) == Some(b.0)
                && b.0 < assets@.len() && b.1 as int == pair_score(*e, assets@[b.0 as int]).0
                && views(b.2@) == pair_score(*e, assets@[b.0 as int]).1,
        },
{
    let ghost uv = views(used@);
    let mut best: Option<(usize, u32, Vec<String>)> = None;
    let mut k: usize = 0;
    while k < assets.len()
        invariant
            k <= assets@.len(),
            uv == views(used@),
            label@ == lowercase(e.label@),
            char_views(terms@) == lows(e.terms@),
            match best {
                None => best_asset(*e, assets@, uv, k as int) is None,
                Some(b) => best_asset(*e, assets@, uv, k as int) == Some(b.0)
                    && b.0 < k && b.1 as int == pair_score(*e, assets@[b.0 as int]).0
                    && views(b.2@) == pair_score(*e, assets@[b.0 as int]).1,
            },
        decreases assets@.len() - k,
    {
        let a = &assets[k];
        let active = match a.status {
            AssetStatus::Active => true,
            _ => false,
        };
        if active {
            let seen = contains_id(used, a.id.as_str());
            if !(seen && !a.allow_same_video_repeat) {
                let (sc, rs) = score_pair(e, label, terms, a);
                if sc >= 5000 {
                    let better = match &best {
                        None => true,
                        Some(b) => sc > b.1,
                    };
                    if better {
                        best = Some((k, sc, rs));
                    }
                }
            }
        }
        k = k + 1;
    }
    best
}

/// A suggestion for the plan entry (event `ei`, image `ai`, `start`..`end`).
fn make_suggestion(e: &SemanticEvent, a: &MediaAsset, start: u64, end: u64, score: u32, reasons: &Vec<String>) -> (s: VisualSuggestion)
    ensures
        s.id@.len() == 36,
        s.semantic_event_id@ == e.id@ && s.asset_id@ == a.id@,
        s.source_span == e.source_span && s.output_span == (Span { start, end }),
        views(s.match_reasons@) == views(reasons@) && s.match_score == score,
        s.alternatives@.len() == 0 && s.status == SuggestionStatus::Suggested,
        s.asset_title matches Some(t) && t@ == a.title@,
        crate::safe_paths::opt_view(s.thumbnail_path) == crate::safe_paths::opt_view(a.thumbnail_path),
{
    VisualSuggestion {
        id: crate::events::new_id(),
        semantic_event_id: e.id.clone(),
        asset_id: a.id.clone(),
        source_span: e.source_span,
        output_span: Span::new(start, end),
        match_reasons: crate::events::copy_strings(reasons),
        match_score: score,
        alternatives: Vec::new(),
        status: SuggestionStatus::Suggested,
        asset_title: Some(a.title.clone()),
        thumbnail_path: crate::events::copy_opt_string(&a.thumbnail_path),
    }
}


/// Suggestions for the semantic events of a run: events are taken by score,
/// highest first (ties in the given order), and each gets its best image
/// (see `rank_step`); the suggestions come out by output start (ties in the
/// order they were planned).
pub fn rank_suggestions(events: &Vec<SemanticEvent>, assets: &Vec<MediaAsset>, output_duration_ms: u64, cfg: &MatchConfig) -> (r: Vec<VisualSuggestion>)
    ensures
        exists|ks: Seq<((u64, u64, u64), usize)>| #![trigger crate::sort::keys3_ascending(ks)]
            crate::sort::keys3_ascending(ks) && ks.to_multiset() == event_keys(events@).to_multiset() && {
                let plan = rank_plan(events@, assets@, output_duration_ms, *cfg, order_of(ks));
                exists|ps: Seq<((u64, u64, u64), usize)>| #![trigger crate::sort::keys3_ascending(ps)]
                    crate::sort::keys3_ascending(ps) && ps.to_multiset() == plan_keys(plan).to_multiset()
                    && r@.len() == plan.len()
                    && forall|k: int| 0 <= k < r@.len() ==> suggestion_of(#[trigger] r@[k], plan[ps[k].1 as int], events@, assets@)
            },
{
    let ghost evs = events@;
    let ghost avs = assets@;
    // events by score, highest first
    let n = events.len();
    let mut keyed: Vec<((u64, u64, u64), usize)> = Vec::new();
    let mut k: usize = 0;
    while k < n
        invariant
            k <= n == evs.len(),
            evs == events@,
            keyed@ =~= event_keys(evs).take(k as int),
        decreases n - k,
    {
        keyed.push(((0xffff_ffffu64 - events[k].score as u64, k as u64, 0u64), k));
        k = k + 1;
    }
    proof {
        assert(keyed@ =~= event_keys(evs));
    }
    let sorted = crate::sort::sort_by_key3(keyed);
    let ghost ks = sorted@;
    let ghost ord = order_of(ks);
    proof {
        broadcast use vstd::seq_lib::group_to_multiset_ensures;
        let ek = event_keys(evs);
        assert forall|t: int| 0 <= t < ks.len() implies (#[trigger] ks[t]).1 < n by {
            assert(ks.contains(ks[t]));
            assert(ks.to_multiset().count(ks[t]) > 0);
            assert(ek.to_multiset().count(ks[t]) > 0);
            assert(ek.contains(ks[t]));
            let w = choose|w: int| 0 <= w < ek.len() && ek[w] == ks[t];
            assert(ek[w].1 == w as usize);
        }
    }
    // the most suggestions
    let per: u64 = cfg.max_per_minute_milli;
    assert((output_duration_ms as int) * (per as int) <= 0xffff_ffff_ffff_ffff * 0xffff_ffff_ffff_ffff) by (nonlinear_arith)
        requires
            output_duration_ms <= 0xffff_ffff_ffff_ffffu64,
            per <= 0xffff_ffff_ffff_ffffu64,
    ;
    let prod: u128 = output_duration_ms as u128 * per as u128;
    let c: u128 = (prod + 59_999_999) / 60_000_000;
    let maxt: u128 = if c < 1 { 1 } else { c };
    assert(maxt as int == max_total(output_duration_ms, *cfg));
    // the plan, event by event
    let mut plan: Vec<(usize, usize, u64, u64, u32, Vec<String>)> = Vec::new();
    let ghost mut gp: Seq<(usize, usize, u64, u64)> = Seq::empty();
    let mut used: Vec<String> = Vec::new();
    let mut last: i128 = -999000;
    let mut m: usize = 0;
    proof {
        assert(ord.take(0) =~= Seq::<usize>::empty());
        assert(views(used@) =~= used_ids(gp, avs));
    }
    while m < sorted.len()
        invariant
            m <= sorted@.len() == ks.len(),
            sorted@ == ks,
            ord == order_of(ks),
            forall|t: int| 0 <= t < ks.len() ==> (#[trigger] ks[t]).1 < n,
            n == evs.len(),
            evs == events@ && avs == assets@,
            maxt as int == max_total(output_duration_ms, *cfg),
            gp == rank_plan(evs, avs, output_duration_ms, *cfg, ord.take(m as int)),
            plan@.len() == gp.len(),
            views(used@) == used_ids(gp, avs),
            last as int == last_end(gp),
            forall|j: int| 0 <= j < gp.len() ==> (#[trigger] gp[j]).0 < evs.len() && gp[j].1 < avs.len(),
            forall|j: int| 0 <= j < gp.len() ==> {
                let q = #[trigger] plan@[j];
                &&& (q.0, q.1, q.2, q.3) == gp[j]
                &&& q.4 as int == pair_score(evs[q.0 as int], avs[q.1 as int]).0
                &&& views(q.5@) == pair_score(evs[q.0 as int], avs[q.1 as int]).1
            },
        decreases ks.len() - m,
    {
        let ei = sorted[m].1;
        let ghost g0 = gp;
        proof {
            let t = ord.take(m as int + 1);
            assert(t.drop_last() =~= ord.take(m as int));
            assert(t.last() == ks[m as int].1);
        }
        let e = &events[ei];
        if (plan.len() as u128) < maxt {
            match e.output_span {
                None => {},
                Some(out) => {
                    if (out.start as i128) >= last + cfg.min_gap_ms as i128 {
                        let label = lower_chars(e.label.as_str());
                        let terms = lower_all(&e.terms);
                        let best = best_for(e, &label, &terms, assets, &used);
                        match best {
                            None => {},
                            Some(b) => {
                                let ai = b.0;
                                let reach: u128 = out.start as u128 + cfg.duration_ms as u128;
                                let end: u64 = if reach < output_duration_ms as u128 { reach as u64 } else { output_duration_ms };
                                if (end as i128) - (out.start as i128) >= 1500 {
                                    let idc = assets[ai].id.clone();
                                    let ghost u0 = views(used@);
                                    used.push(idc);
                                    last = end as i128;
                                    plan.push((ei, ai, out.start, end, b.1, b.2));
                                    proof {
                                        assert(views(used@) =~= u0.push(avs[ai as int].id@));
                                        gp = gp.push((ei, ai, out.start, end));
                                        assert(used_ids(gp, avs) =~= used_ids(g0, avs).push(avs[ai as int].id@));
                                        assert(views(used@) =~= used_ids(gp, avs));
                                    }
                                }
                            },
                        }
                    }
                },
            }
        }
        proof {
            assert(gp == rank_step(evs, avs, output_duration_ms, *cfg, g0, ei));
        }
        m = m + 1;
    }
    proof {
        assert(ord.take(ks.len() as int) =~= ord);
    }
    // by output start
    let np = plan.len();
    let mut pk: Vec<((u64, u64, u64), usize)> = Vec::new();
    let mut j: usize = 0;
    while j < np
        invariant
            j <= np == plan@.len() == gp.len(),
            forall|i: int| 0 <= i < gp.len() ==> (#[trigger] plan@[i]).2 == gp[i].2,
            pk@ =~= plan_keys(gp).take(j as int),
        decreases np - j,
    {
        assert(plan@[j as int].2 == gp[j as int].2);
        pk.push(((plan[j].2, j as u64, 0u64), j));
        j = j + 1;
    }
    proof {
        assert(pk@ =~= plan_keys(gp));
    }
    let ps_v = crate::sort::sort_by_key3(pk);
    let ghost ps = ps_v@;
    proof {
        broadcast use vstd::seq_lib::group_to_multiset_ensures;
        let pkk = plan_keys(gp);
        assert forall|t: int| 0 <= t < ps.len() implies (#[trigger] ps[t]).1 < np by {
            assert(ps.contains(ps[t]));
            assert(ps.to_multiset().count(ps[t]) > 0);
            assert(pkk.to_multiset().count(ps[t]) > 0);
            assert(pkk.contains(ps[t]));
            let w = choose|w: int| 0 <= w < pkk.len() && pkk[w] == ps[t];
            assert(pkk[w].1 == w as usize);
        }
    }
    let mut r: Vec<VisualSuggestion> = Vec::new();
    let mut q: usize = 0;
    while q < ps_v.len()
        invariant
            q <= ps_v@.len() == ps.len() == np,
            ps_v@ == ps,
            forall|t: int| 0 <= t < ps.len() ==> (#[trigger] ps[t]).1 < np,
            np == plan@.len() == gp.len(),
            evs == events@ && avs == assets@,
            forall|j: int| 0 <= j < gp.len() ==> (#[trigger] gp[j]).0 < evs.len() && gp[j].1 < avs.len(),
            forall|j: int| 0 <= j < gp.len() ==> {
                let q = #[trigger] plan@[j];
                &&& (q.0, q.1, q.2, q.3) == gp[j]
                &&& q.4 as int == pair_score(evs[q.0 as int], avs[q.1 as int]).0
                &&& views(q.5@) == pair_score(evs[q.0 as int], avs[q.1 as int]).1
            },
            r@.len() == q,
            forall|k: int| 0 <= k < q ==> suggestion_of(#[trigger] r@[k], gp[ps[k].1 as int], evs, avs),
        decreases np - q,
    {
        let i = ps_v[q].1;
        let pe = &plan[i];
        assert(gp[i as int] == (pe.0, pe.1, pe.2, pe.3));
        let s = make_suggestion(&events[pe.0], &assets[pe.1], pe.2, pe.3, pe.4, &pe.5);
        r.push(s);
        q = q + 1;
    }
    proof {
        assert(crate::sort::keys3_ascending(ps));
        assert(crate::sort::keys3_ascending(ks));
    }
    r
}

} // verus!
