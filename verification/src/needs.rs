//! Visual needs: the images a video calls for, and the prompts that ask a
//! generator for one.
use vstd::prelude::*;
use crate::text::push_str;
use crate::export::views;
use crate::text::lowercase;
use crate::timeline::Span;

verus! {

/// How far a visual need is served.
#[derive(Clone, Copy, Debug, PartialEq, Eq)]
pub enum NeedCoverage {
    Uncovered,
    Matched,
    Covered,
    Generating,
    NeedsReview,
    Failed,
    Skipped,
}

/// An image that a video calls for at some point. Times are milliseconds;
/// the match score is in twenty-thousandths (see `matching`).
pub struct VisualNeed {
    pub id: String,
    pub project_key: String,
    pub media_path: Option<String>,
    pub semantic_event_id: Option<String>,
    pub concept_id: Option<String>,
    pub label: String,
    pub terms: Vec<String>,
    pub required_contexts: Vec<String>,
    pub forbidden_contexts: Vec<String>,
    pub hard_exclusions: Vec<String>,
    pub desired_aspect: String,
    pub approx_duration_ms: u64,
    pub source_start: Option<u64>,
    pub source_end: Option<u64>,
    pub output_start: Option<u64>,
    pub output_end: Option<u64>,
    pub priority: i32,
    pub coverage: NeedCoverage,
    pub matched_asset_id: Option<String>,
    pub match_score: Option<u32>,
    pub match_reasons: Vec<String>,
    pub generation_job_id: Option<String>,
    pub created_at: String,
    pub updated_at: String,
}

/// A fresh need for `label` in a project: a new id, landscape 16:9, middle
/// priority, five seconds long, nothing matched yet.
pub open spec fn fresh_need(n: VisualNeed, project_key: Seq<char>, label: Seq<char>, now: Seq<char>) -> bool {
    &&& n.id@.len() == 36
    &&& n.project_key@ == project_key
    &&& n.label@ == label
    &&& n.media_path is None && n.semantic_event_id is None && n.concept_id is None
    &&& n.terms@.len() == 0 && n.required_contexts@.len() == 0
    &&& n.forbidden_contexts@.len() == 0 && n.hard_exclusions@.len() == 0
    &&& n.desired_aspect@ == "16:9"@
    &&& n.approx_duration_ms == 5000
    &&& n.source_start is None && n.source_end is None
    &&& n.output_start is None && n.output_end is None
    &&& n.priority == 50
    &&& n.coverage == NeedCoverage::Uncovered
    &&& n.matched_asset_id is None && n.match_score is None && n.match_reasons@.len() == 0
    &&& n.generation_job_id is None
    &&& n.created_at@ == now && n.updated_at@ == now
}

impl VisualNeed {
    /// A fresh need for `label` in the project `project_key`, made at `now`.
    pub fn from_label(project_key: &str, label: &str, now: &str) -> (r: VisualNeed)
        ensures
            fresh_need(r, project_key@, label@, now@),
    {
        VisualNeed {
            id: crate::events::new_id(),
            project_key: String::from_str(project_key),
            media_path: None,
            semantic_event_id: None,
            concept_id: None,
            label: String::from_str(label),
            terms: Vec::new(),
            required_contexts: Vec::new(),
            forbidden_contexts: Vec::new(),
            hard_exclusions: Vec::new(),
            desired_aspect: String::from_str("16:9"),
            approx_duration_ms: 5000,
            source_start: None,
            source_end: None,
            output_start: None,
            output_end: None,
            priority: 50,
            coverage: NeedCoverage::Uncovered,
            matched_asset_id: None,
            match_score: None,
            match_reasons: Vec::new(),
            generation_job_id: None,
            created_at: String::from_str(now),
            updated_at: String::from_str(now),
        }
    }
}

/// Texts joined with `sep` between them.
pub open spec fn join_with(parts: Seq<Seq<char>>, sep: Seq<char>) -> Seq<char>
    decreases parts.len(),
{
    if parts.len() == 0 {
        Seq::empty()
    } else if parts.len() == 1 {
        parts[0]
    } else {
        join_with(parts.drop_last(), sep) + sep + parts.last()
    }
}

/// Append the texts of `parts`, separated by `sep`, to `s`.
pub fn push_joined(s: &mut String, parts: &Vec<String>, sep: &str)
    ensures
        final(s)@ == old(s)@ + join_with(views(parts@), sep@),
{
    let ghost s0 = s@;
    let mut i: usize = 0;
    proof {
        assert(views(parts@).take(0) =~= Seq::<Seq<char>>::empty());
        assert(s0 + Seq::<char>::empty() =~= s0);
    }
    while i < parts.len()
        invariant
            i <= parts@.len(),
            s@ == s0 + join_with(views(parts@).take(i as int), sep@),
        decreases parts@.len() - i,
    {
        let ghost t = views(parts@).take(i as int + 1);
        proof {
            assert(t.drop_last() =~= views(parts@).take(i as int));
            assert(t.last() == parts@[i as int]@);
        }
        if i > 0 {
            push_str(s, sep);
        }
        push_str(s, parts[i].as_str());
        proof {
            if i == 0 {
                assert(t.len() == 1);
                assert(s@ =~= s0 + join_with(t, sep@));
            } else {
                assert(s@ =~= s0 + join_with(t, sep@));
            }
        }
        i = i + 1;
    }
    proof {
        assert(views(parts@).take(parts@.len() as int) =~= views(parts@));
    }
}

/// The positive prompt for a need.
pub open spec fn prompt_text(n: VisualNeed) -> Seq<char> {
    "Photorealistic stock photo, no logos, no readable brand text: "@ + n.label@ + ". Aspect ratio "@
        + n.desired_aspect@ + "."@ + if n.required_contexts@.len() == 0 {
        Seq::empty()
    } else {
        " Context: "@ + join_with(views(n.required_contexts@), ", "@) + "."@
    }
}

/// The negative prompt for a need: its hard exclusions, then its forbidden
/// contexts, or a default list when it has neither.
pub open spec fn negative_text(n: VisualNeed) -> Seq<char> {
    let hard = join_with(views(n.hard_exclusions@), ", "@);
    let both = if n.forbidden_contexts@.len() == 0 {
        hard
    } else {
        hard + (if hard.len() == 0 { Seq::empty() } else { ", "@ }) + join_with(
            views(n.forbidden_contexts@),
            ", "@,
        )
    };
    if both.len() == 0 {
        "watermark, logo, text overlay, NSFW, celebrity"@
    } else {
        both
    }
}

/// The prompt and the negative prompt that ask a generator for a need's image.
pub fn build_prompt(need: &VisualNeed) -> (r: (String, String))
    ensures
        r.0@ == prompt_text(*need),
        r.1@ == negative_text(*need),
{
    let mut prompt = String::from_str("Photorealistic stock photo, no logos, no readable brand text: ");
    push_str(&mut prompt, need.label.as_str());
    push_str(&mut prompt, ". Aspect ratio ");
    push_str(&mut prompt, need.desired_aspect.as_str());
    push_str(&mut prompt, ".");
    if need.required_contexts.len() > 0 {
        push_str(&mut prompt, " Context: ");
        push_joined(&mut prompt, &need.required_contexts, ", ");
        push_str(&mut prompt, ".");
    } else {
        proof {
            assert(prompt@ + Seq::<char>::empty() =~= prompt@);
        }
    }
    let mut negative = String::new();
    push_joined(&mut negative, &need.hard_exclusions, ", ");
    proof {
        assert(Seq::<char>::empty() + join_with(views(need.hard_exclusions@), ", "@) =~= join_with(
            views(need.hard_exclusions@),
            ", "@,
        ));
    }
    if need.forbidden_contexts.len() > 0 {
        if !negative.as_str().is_empty() {
            push_str(&mut negative, ", ");
        } else {
            proof {
                assert(negative@ + Seq::<char>::empty() =~= negative@);
            }
        }
        push_joined(&mut negative, &need.forbidden_contexts, ", ");
    }
    if negative.as_str().is_empty() {
        negative = String::from_str("watermark, logo, text overlay, NSFW, celebrity");
    }
    (prompt, negative)
}

/// The idempotency key of the first generation request for a need: `need:<id>:v1`.
pub fn need_generation_key(need_id: &str) -> (r: String)
    ensures
        r@ == "need:"@ + need_id@ + ":v1"@,
{
    let mut k = String::from_str("need:");
    push_str(&mut k, need_id);
    push_str(&mut k, ":v1");
    k
}

/// How a semantic event was found.
#[derive(Clone, Copy, Debug, PartialEq, Eq, Structural)]
pub enum SemanticKind {
    Keyword,
    Phrase,
    Concept,
}

/// A moment of the transcript worth illustrating (score in thousandths).
pub struct SemanticEvent {
    pub id: String,
    pub run_id: String,
    pub kind: SemanticKind,
    pub source_span: Span,
    pub output_span: Option<Span>,
    pub label: String,
    pub terms: Vec<String>,
    pub score: u32,
    pub transcript_segment_ids: Vec<String>,
    pub method: String,
}

/// Events keyed for ordering by score, highest first, then by position.
pub open spec fn event_keys(ev: Seq<SemanticEvent>) -> Seq<((u64, u64, u64), usize)> {
    Seq::new(ev.len(), |i: int| (((0xffff_ffffu64 - ev[i].score) as u64, i as u64, 0u64), i as usize))
}

/// The order of a keyed list.
pub open spec fn order_of(ks: Seq<((u64, u64, u64), usize)>) -> Seq<usize> {
    ks.map_values(|x: ((u64, u64, u64), usize)| x.1)
}

/// The de-duplication key of an event: its label in lower case.
pub open spec fn label_key(e: SemanticEvent) -> Seq<char> {
    lowercase(e.label@)
}

/// Some event already picked has this key.
pub open spec fn key_taken(ev: Seq<SemanticEvent>, picked: Seq<usize>, key: Seq<char>) -> bool {
    exists|j: int| 0 <= j < picked.len() && label_key(ev[picked[j] as int]) == key
}

/// The events picked, in `ord`, as needs: at most `max`, each with a key of
/// four characters or more that no earlier pick had.
pub open spec fn picked(ev: Seq<SemanticEvent>, ord: Seq<usize>, max: nat) -> Seq<usize>
    decreases ord.len(),
{
    if ord.len() == 0 {
        Seq::empty()
    } else {
        let p = picked(ev, ord.drop_last(), max);
        let i = ord.last();
        let key = label_key(ev[i as int]);
        if p.len() < max && key.len() >= 4 && !key_taken(ev, p, key) { p.push(i) } else { p }
    }
}

/// The priority of a need from its event's score: the score in hundredths,
/// kept in 1..=100.
pub open spec fn priority_of(score: u32) -> i32 {
    let p = score / 10;
    if p < 1 { 1 } else if p > 100 { 100 } else { p as i32 }
}

/// `n` is the need made for event `e`.
pub open spec fn need_of(n: VisualNeed, e: SemanticEvent, project_key: Seq<char>, media_path: Option<Seq<char>>, now: Seq<char>) -> bool {
    &&& n.id@.len() == 36
    &&& n.project_key@ == project_key
    &&& n.label@ == e.label@
    &&& crate::safe_paths::opt_view(n.media_path) == media_path
    &&& n.semantic_event_id matches Some(x) && x@ == e.id@
    &&& n.concept_id is None
    &&& views(n.terms@) == views(e.terms@)
    &&& n.required_contexts@.len() == 0 && n.forbidden_contexts@.len() == 0 && n.hard_exclusions@.len() == 0
    &&& n.desired_aspect@ == "16:9"@
    &&& n.priority == priority_of(e.score)
    &&& n.source_start == Some(e.source_span.start) && n.source_end == Some(e.source_span.end)
    &&& match e.output_span {
        Some(o) => {
            let end = if o.end as int > o.start + 3500 { o.end as int } else { o.start + 3500 };
            let end2 = if o.start + 5000 < end { o.start + 5000 } else { end };
            &&& n.output_start == Some(o.start)
            &&& n.output_end == Some(end2 as u64)
            &&& n.approx_duration_ms == end2 - o.start
        },
        None => n.output_start is None && n.output_end is None && n.approx_duration_ms == 5000,
    }
    &&& n.coverage == NeedCoverage::Uncovered
    &&& n.matched_asset_id is None && n.match_score is None && n.match_reasons@.len() == 0
    &&& n.generation_job_id is None
    &&& n.created_at@ == now && n.updated_at@ == now
}

fn need_for_event(e: &SemanticEvent, project_key: &str, media_path: Option<&str>, now: &str) -> (n: VisualNeed)
    requires
        e.output_span matches Some(o) ==> o.start <= u64::MAX - 5000,
    ensures
        need_of(n, *e, project_key@, match media_path { Some(m) => Some(m@), None => None }, now@),
{
    let mut n = VisualNeed::from_label(project_key, e.label.as_str(), now);
    n.media_path = match media_path {
        Some(m) => Some(String::from_str(m)),
        None => None,
    };
    n.semantic_event_id = Some(e.id.clone());
    n.terms = crate::events::copy_strings(&e.terms);
    let p = e.score / 10;
    n.priority = if p < 1 { 1 } else if p > 100 { 100 } else { p as i32 };
    match e.output_span {
        Some(o) => {
            let end = if o.end > o.start + 3500 { o.end } else { o.start + 3500 };
            let end2 = if o.start + 5000 < end { o.start + 5000 } else { end };
            n.output_start = Some(o.start);
            n.output_end = Some(end2);
            n.approx_duration_ms = end2 - o.start;
        },
        None => {},
    }
    n.source_start = Some(e.source_span.start);
    n.source_end = Some(e.source_span.end);
    n
}

/// Needs from semantic events, highest score first (ties in input order):
/// at most `max_needs`, one per label (compared in lower case), skipping
/// labels shorter than four characters.
pub fn detect_needs_from_semantics(
    project_key: &str,
    media_path: Option<&str>,
    events: &Vec<SemanticEvent>,
    max_needs: usize,
    now: &str,
) -> (r: Vec<VisualNeed>)
    requires
        events@.len() < u64::MAX,
        forall|i: int| 0 <= i < events@.len() ==> ((#[trigger] events@[i]).output_span matches Some(o)
            ==> o.start <= u64::MAX - 5000),
    ensures
        exists|ks: Seq<((u64, u64, u64), usize)>| #![trigger crate::sort::keys3_ascending(ks)]
            crate::sort::keys3_ascending(ks) && ks.to_multiset() == event_keys(events@).to_multiset() && {
                let p = picked(events@, order_of(ks), max_needs as nat);
                &&& r@.len() == p.len()
                &&& forall|k: int| 0 <= k < p.len() ==> need_of(#[trigger] r@[k], events@[p[k] as int],
                    project_key@, match media_path { Some(m) => Some(m@), None => None }, now@)
            },
{
    let n = events.len();
    let mut keyed: Vec<((u64, u64, u64), usize)> = Vec::new();
    let mut i: usize = 0;
    while i < n
        invariant
            i <= n == events@.len() < u64::MAX,
            keyed@ =~= event_keys(events@).take(i as int),
        decreases n - i,
    {
        keyed.push(((0xffff_ffffu64 - events[i].score as u64, i as u64, 0u64), i));
        i = i + 1;
    }
    proof {
        assert(keyed@ =~= event_keys(events@));
    }
    let sorted = crate::sort::sort_by_key3(keyed);
    let ghost ks = sorted@;
    let ghost ord = order_of(ks);
    proof {
        broadcast use vstd::seq_lib::group_to_multiset_ensures;
        let ek = event_keys(events@);
        assert forall|q: int| 0 <= q < ks.len() implies (#[trigger] ks[q]).1 < n by {
            assert(ks.contains(ks[q]));
            assert(ks.to_multiset().count(ks[q]) > 0);
            assert(ek.to_multiset().count(ks[q]) > 0);
            assert(ek.contains(ks[q]));
            let w = choose|w: int| 0 <= w < ek.len() && ek[w] == ks[q];
            assert(ek[w].1 == w as usize);
        }
    }
    let mut out: Vec<VisualNeed> = Vec::new();
    let mut keys: Vec<Vec<char>> = Vec::new();
    let ghost mut pk: Seq<usize> = Seq::empty();
    let mut q: usize = 0;
    proof {
        assert(ord.take(0) =~= Seq::<usize>::empty());
    }
    while q < sorted.len()
        invariant
            q <= sorted@.len() == ks.len(),
            sorted@ == ks,
            ord == order_of(ks),
            forall|t: int| 0 <= t < ks.len() ==> (#[trigger] ks[t]).1 < events@.len(),
            forall|i: int| 0 <= i < events@.len() ==> ((#[trigger] events@[i]).output_span matches Some(o)
                ==> o.start <= u64::MAX - 5000),
            pk == picked(events@, ord.take(q as int), max_needs as nat),
            out@.len() == pk.len() && keys@.len() == pk.len(),
            forall|j: int| 0 <= j < pk.len() ==> pk[j] < events@.len(),
            forall|j: int| 0 <= j < pk.len() ==> (#[trigger] keys@[j])@ == label_key(events@[pk[j] as int]),
            forall|k: int| 0 <= k < pk.len() ==> need_of(#[trigger] out@[k], events@[pk[k] as int],
                project_key@, match media_path { Some(m) => Some(m@), None => None }, now@),
        decreases ks.len() - q,
    {
        let idx = sorted[q].1;
        proof {
            let t = ord.take(q as int + 1);
            assert(t.drop_last() =~= ord.take(q as int));
            assert(t.last() == ks[q as int].1);
        }
        let e = &events[idx];
        let low = crate::text::to_lowercase(e.label.as_str());
        let key = crate::text::to_chars(low.as_str());
        let mut taken = false;
        let mut j: usize = 0;
        while j < keys.len()
            invariant
                j <= keys@.len() == pk.len(),
                key@ == label_key(events@[idx as int]),
                forall|m: int| 0 <= m < pk.len() ==> (#[trigger] keys@[m])@ == label_key(events@[pk[m] as int]),
                taken == exists|m: int| 0 <= m < j && label_key(events@[pk[m] as int]) == key@,
            decreases keys@.len() - j,
        {
            let same = crate::text::chars_eq(&keys[j], &key);
            proof {
                assert(keys@[j as int]@ == label_key(events@[pk[j as int] as int]));
            }
            taken = taken || same;
            j = j + 1;
        }
        if out.len() < max_needs && key.len() >= 4 && !taken {
            let need = need_for_event(e, project_key, media_path, now);
            out.push(need);
            keys.push(key);
            proof {
                pk = pk.push(idx);
            }
        }
        q = q + 1;
    }
    proof {
        assert(ord.take(ks.len() as int) =~= ord);
    }
    out
}

/// How the needs of a project are served: their number and how many are in
/// each state.
pub struct CoverageSummary {
    pub total: u64,
    pub uncovered: u64,
    pub matched: u64,
    pub covered: u64,
    pub generating: u64,
    pub needs_review: u64,
    pub failed: u64,
    pub skipped: u64,
}

/// Number of needs of `s` in state `c`.
pub open spec fn count_coverage(s: Seq<VisualNeed>, c: NeedCoverage) -> nat
    decreases s.len(),
{
    if s.len() == 0 {
        0
    } else {
        count_coverage(s.drop_last(), c) + if s.last().coverage == c { 1nat } else { 0nat }
    }
}

proof fn lemma_count_coverage_le(s: Seq<VisualNeed>, c: NeedCoverage)
    ensures
        count_coverage(s, c) <= s.len(),
    decreases s.len(),
{
    if s.len() > 0 {
        lemma_count_coverage_le(s.drop_last(), c);
    }
}

impl CoverageSummary {
    /// The summary of a list of needs.
    pub fn from_needs(needs: &Vec<VisualNeed>) -> (r: CoverageSummary)
        ensures
            r.total == needs@.len(),
            r.uncovered == count_coverage(needs@, NeedCoverage::Uncovered),
            r.matched == count_coverage(needs@, NeedCoverage::Matched),
            r.covered == count_coverage(needs@, NeedCoverage::Covered),
            r.generating == count_coverage(needs@, NeedCoverage::Generating),
            r.needs_review == count_coverage(needs@, NeedCoverage::NeedsReview),
            r.failed == count_coverage(needs@, NeedCoverage::Failed),
            r.skipped == count_coverage(needs@, NeedCoverage::Skipped),
    {
        let mut r = CoverageSummary {
            total: 0,
            uncovered: 0,
            matched: 0,
            covered: 0,
            generating: 0,
            needs_review: 0,
            failed: 0,
            skipped: 0,
        };
        let mut i: usize = 0;
        proof {
            assert(needs@.take(0) =~= Seq::<VisualNeed>::empty());
        }
        while i < needs.len()
            invariant
                i <= needs@.len(),
                r.total == i,
                r.uncovered == count_coverage(needs@.take(i as int), NeedCoverage::Uncovered),
                r.matched == count_coverage(needs@.take(i as int), NeedCoverage::Matched),
                r.covered == count_coverage(needs@.take(i as int), NeedCoverage::Covered),
                r.generating == count_coverage(needs@.take(i as int), NeedCoverage::Generating),
                r.needs_review == count_coverage(needs@.take(i as int), NeedCoverage::NeedsReview),
                r.failed == count_coverage(needs@.take(i as int), NeedCoverage::Failed),
                r.skipped == count_coverage(needs@.take(i as int), NeedCoverage::Skipped),
            decreases needs@.len() - i,
        {
            proof {
                let t = needs@.take(i as int + 1);
                assert(t.drop_last() =~= needs@.take(i as int));
                assert(t.last() == needs@[i as int]);
                lemma_count_coverage_le(needs@.take(i as int), needs@[i as int].coverage);
            }
            r.total = r.total + 1;
            match needs[i].coverage {
                NeedCoverage::Uncovered => r.uncovered = r.uncovered + 1,
                NeedCoverage::Matched => r.matched = r.matched + 1,
                NeedCoverage::Covered => r.covered = r.covered + 1,
                NeedCoverage::Generating => r.generating = r.generating + 1,
                NeedCoverage::NeedsReview => r.needs_review = r.needs_review + 1,
                NeedCoverage::Failed => r.failed = r.failed + 1,
                NeedCoverage::Skipped => r.skipped = r.skipped + 1,
            }
            i = i + 1;
        }
        proof {
            assert(needs@.take(needs@.len() as int) =~= needs@);
        }
        r
    }
}

/// The coverage of a project from its stored needs (the read's error passes through).
pub fn coverage_for_project(needs: Result<Vec<VisualNeed>, crate::error::AppError>) -> (r: Result<
    CoverageSummary,
    crate::error::AppError,
>)
    ensures
        needs is Err ==> (r matches Err(e) && e == needs->Err_0),
        needs matches Ok(v) ==> (r matches Ok(c) && c.total == v@.len() && c.covered == count_coverage(
            v@,
            NeedCoverage::Covered,
        ) && c.uncovered == count_coverage(v@, NeedCoverage::Uncovered)),
{
    match needs {
        Ok(v) => Ok(CoverageSummary::from_needs(&v)),
        Err(e) => Err(e),
    }
}

/// A stored need is kept as it is when a job works on it, an asset was
/// matched to it, or it is served in any way (not uncovered nor skipped).
pub open spec fn protected_need(n: VisualNeed) -> bool {
    n.generation_job_id is Some || n.matched_asset_id is Some || !(n.coverage == NeedCoverage::Uncovered
        || n.coverage == NeedCoverage::Skipped)
}

/// Merge a newly detected need into the stored need with the same label:
/// `None` keeps a protected stored need untouched; otherwise the detection
/// is stored, keeping the stored need's identity, creation time and match
/// state, and stamped `now`.
pub fn merge_need(prev: &VisualNeed, detected: VisualNeed, now: &str) -> (r: Option<VisualNeed>)
    ensures
        protected_need(*prev) ==> r is None,
        !protected_need(*prev) ==> (r matches Some(n) && {
            &&& n.id@ == prev.id@ && n.created_at@ == prev.created_at@ && n.updated_at@ == now@
            &&& n.coverage == prev.coverage && n.matched_asset_id is None && n.generation_job_id is None
            &&& n.match_score == prev.match_score && views(n.match_reasons@) == views(prev.match_reasons@)
            &&& n.label == detected.label && n.priority == detected.priority
            &&& n.output_start == detected.output_start && n.output_end == detected.output_end
            &&& n.source_start == detected.source_start && n.source_end == detected.source_end
            &&& n.terms == detected.terms && n.project_key == detected.project_key
        }),
{
    let protected = prev.generation_job_id.is_some() || prev.matched_asset_id.is_some() || !(match prev.coverage {
        NeedCoverage::Uncovered => true,
        NeedCoverage::Skipped => true,
        _ => false,
    });
    if protected {
        return None;
    }
    let mut d = detected;
    d.id = prev.id.clone();
    d.created_at = prev.created_at.clone();
    d.coverage = prev.coverage;
    d.matched_asset_id = None;
    d.generation_job_id = None;
    d.match_score = prev.match_score;
    d.match_reasons = crate::events::copy_strings(&prev.match_reasons);
    d.updated_at = String::from_str(now);
    Some(d)
}

} // verus!
