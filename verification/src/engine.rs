//! Analysis runs: events, decisions, EDL and supervision view kept consistent.
use vstd::prelude::*;

use crate::edl::{edl_removes, Edl};
use crate::events::Event;
use crate::policy::{
    accepted_removes, effective_removes, op_removes, EditOp, ExceptionItem, ExceptionResolution,
    PolicyConfig,
};
use crate::ranges::in_ranges;
use crate::segments::{project_segments, segment_of, Segment, SegmentDecision, SegmentKind};

verus! {

/// Counters of an analysis run (durations in milliseconds).
#[derive(Clone, Copy, Debug, PartialEq, Eq)]
pub struct AnalysisStats {
    pub event_count: u64,
    pub silence_event_count: u64,
    pub auto_cut_count: u64,
    pub exception_count: u64,
    pub pending_exception_count: u64,
    pub speech_duration: u64,
    pub silence_duration: u64,
    pub auto_removed_duration: u64,
    pub output_duration: u64,
}

/// A file produced or cached by a run.
#[derive(Clone, Debug)]
pub struct ArtifactRef {
    pub kind: String,
    pub path: String,
    pub label: Option<String>,
}

/// One analysis of a media file.
#[derive(Clone, Debug)]
pub struct AnalysisRun {
    pub id: String,
    pub media_path: String,
    pub duration: u64,
    pub method: String,
    pub policy: PolicyConfig,
    pub events: Vec<Event>,
    pub edit_ops: Vec<EditOp>,
    pub exceptions: Vec<ExceptionItem>,
    pub edl: Edl,
    pub segments: Vec<Segment>,
    pub stats: AnalysisStats,
    pub artifacts: Vec<ArtifactRef>,
}

/// Number of pending exceptions.
pub open spec fn pending_count(xs: Seq<ExceptionItem>) -> nat
    decreases xs.len(),
{
    if xs.len() == 0 {
        0
    } else {
        pending_count(xs.drop_last()) + if xs.last().resolution == ExceptionResolution::Pending { 1nat } else { 0nat }
    }
}

/// The remove spans the run's decisions imply: operations, then accepted exceptions.
pub open spec fn run_removes(ops: Seq<EditOp>, xs: Seq<ExceptionItem>) -> Seq<(u64, u64)> {
    op_removes(ops) + accepted_removes(xs)
}

/// The run's EDL and supervision view follow from its events and decisions.
pub open spec fn run_consistent(r: AnalysisRun) -> bool {
    &&& edl_removes(r.edl, r.duration, run_removes(r.edit_ops@, r.exceptions@))
    &&& (r.events@.len() > 0 ==> r.segments@.len() == r.events@.len()
        && forall|i: int| 0 <= i < r.events@.len() ==> segment_of(#[trigger] r.segments@[i], r.events@[i], r.edit_ops@, r.exceptions@))
    &&& r.stats.pending_exception_count == pending_count(r.exceptions@)
    &&& r.stats.output_duration == r.edl.output_duration
    &&& r.stats.auto_removed_duration == r.edl.removed_duration
}

fn count_pending(xs: &Vec<ExceptionItem>) -> (n: u64)
    ensures
        n == pending_count(xs@),
{
    let mut n: u64 = 0;
    let mut i: usize = 0;
    while i < xs.len()
        invariant
            0 <= i <= xs@.len(),
            n == pending_count(xs@.take(i as int)),
            n <= i,
        decreases xs@.len() - i,
    {
        proof {
            assert(xs@.take(i as int + 1).drop_last() =~= xs@.take(i as int));
        }
        if xs[i].resolution == ExceptionResolution::Pending {
            n = n + 1;
        }
        i = i + 1;
    }
    proof {
        assert(xs@.take(xs@.len() as int) =~= xs@);
    }
    n
}

/// Rebuild EDL, segments and the derived counters after decisions changed.
pub fn recompile_run(run: AnalysisRun) -> (r: AnalysisRun)
    ensures
        run_consistent(r),
        r.id == run.id && r.media_path == run.media_path && r.duration == run.duration,
        r.method == run.method && r.policy == run.policy,
        r.events == run.events && r.edit_ops == run.edit_ops && r.exceptions == run.exceptions,
        r.artifacts == run.artifacts,
        r.edl.media_path@ == run.media_path@,
        r.stats.event_count == run.stats.event_count,
        r.stats.silence_event_count == run.stats.silence_event_count,
        r.stats.auto_cut_count == run.stats.auto_cut_count,
        r.stats.exception_count == run.stats.exception_count,
        r.stats.speech_duration == run.stats.speech_duration,
        r.stats.silence_duration == run.stats.silence_duration,
{
    let mut run = run;
    let remove = effective_removes(&run.edit_ops, &run.exceptions);
    run.edl = Edl::from_remove_spans(run.media_path.as_str(), run.duration, &remove);
    run.segments = project_segments(run.duration, &run.events, &run.edit_ops, &run.exceptions);
    run.stats.pending_exception_count = count_pending(&run.exceptions);
    run.stats.output_duration = run.edl.output_duration;
    run.stats.auto_removed_duration = run.edl.removed_duration;
    run
}

/// `xs` with each exception whose id is `id` resolved to `res`.
pub open spec fn resolved_by_id(old_xs: Seq<ExceptionItem>, xs: Seq<ExceptionItem>, id: Seq<char>, res: ExceptionResolution) -> bool {
    &&& xs.len() == old_xs.len()
    &&& forall|i: int| 0 <= i < xs.len() ==> {
        let (o, n) = (old_xs[i], #[trigger] xs[i]);
        &&& n.id == o.id && n.event_ids == o.event_ids && n.reason == o.reason
        &&& n.span == o.span && n.score == o.score && n.message == o.message
        &&& n.resolution == (if o.id@ == id { res } else { o.resolution })
    }
}

/// `xs` with every pending exception resolved to `res`, the others untouched.
pub open spec fn pending_resolved(old_xs: Seq<ExceptionItem>, xs: Seq<ExceptionItem>, res: ExceptionResolution) -> bool {
    &&& xs.len() == old_xs.len()
    &&& forall|i: int| 0 <= i < xs.len() ==> {
        let (o, n) = (old_xs[i], #[trigger] xs[i]);
        &&& n.id == o.id && n.event_ids == o.event_ids && n.reason == o.reason
        &&& n.span == o.span && n.score == o.score && n.message == o.message
        &&& n.resolution == (if o.resolution == ExceptionResolution::Pending { res } else { o.resolution })
    }
}

fn set_resolution(xs: &mut Vec<ExceptionItem>, i: usize, res: ExceptionResolution)
    requires
        i < old(xs)@.len(),
    ensures
        final(xs)@.len() == old(xs)@.len(),
        forall|k: int| 0 <= k < old(xs)@.len() && k != i ==> #[trigger] final(xs)@[k] == old(xs)@[k],
        final(xs)@[i as int] == (ExceptionItem { resolution: res, ..old(xs)@[i as int] }),
{
    let mut x = xs.remove(i);
    x.resolution = res;
    xs.insert(i, x);
    proof {
        assert(forall|k: int| 0 <= k < old(xs)@.len() && k != i ==> #[trigger] xs@[k] == old(xs)@[k]) by {
            assert forall|k: int| 0 <= k < old(xs)@.len() && k != i implies #[trigger] xs@[k] == old(xs)@[k] by {
                if k < i {
                } else {
                }
            }
        }
    }
}

/// Resolve the exception(s) with the given id, then recompile.
pub fn resolve_exception(run: AnalysisRun, exception_id: &str, accept: bool) -> (r: AnalysisRun)
    ensures
        run_consistent(r),
        resolved_by_id(run.exceptions@, r.exceptions@, exception_id@,
            if accept { ExceptionResolution::Accepted } else { ExceptionResolution::Rejected }),
        r.events == run.events && r.edit_ops == run.edit_ops && r.duration == run.duration,
        r.media_path == run.media_path,
{
    let mut run = run;
    let target = String::from_str(exception_id);
    let res = if accept { ExceptionResolution::Accepted } else { ExceptionResolution::Rejected };
    let ghost old_xs = run.exceptions@;
    let ghost old_run = run;
    let mut i: usize = 0;
    while i < run.exceptions.len()
        invariant
            0 <= i <= run.exceptions@.len(),
            run.events == old_run.events && run.edit_ops == old_run.edit_ops,
            run.duration == old_run.duration && run.media_path == old_run.media_path,
            run.exceptions@.len() == old_xs.len(),
            target@ == exception_id@,
            forall|k: int| i <= k < old_xs.len() ==> #[trigger] run.exceptions@[k] == old_xs[k],
            forall|k: int| 0 <= k < i ==> {
                let (o, n) = (old_xs[k], #[trigger] run.exceptions@[k]);
                &&& n.id == o.id && n.event_ids == o.event_ids && n.reason == o.reason
                &&& n.span == o.span && n.score == o.score && n.message == o.message
                &&& n.resolution == (if o.id@ == exception_id@ { res } else { o.resolution })
            },
        decreases run.exceptions@.len() - i,
    {
        if run.exceptions[i].id == target {
            set_resolution(&mut run.exceptions, i, res);
        }
        i = i + 1;
    }
    recompile_run(run)
}

fn resolve_pending(run: AnalysisRun, res: ExceptionResolution) -> (r: AnalysisRun)
    ensures
        run_consistent(r),
        pending_resolved(run.exceptions@, r.exceptions@, res),
        r.events == run.events && r.edit_ops == run.edit_ops && r.duration == run.duration,
        r.media_path == run.media_path,
{
    let mut run = run;
    let ghost old_xs = run.exceptions@;
    let ghost old_run = run;
    let mut i: usize = 0;
    while i < run.exceptions.len()
        invariant
            0 <= i <= run.exceptions@.len(),
            run.events == old_run.events && run.edit_ops == old_run.edit_ops,
            run.duration == old_run.duration && run.media_path == old_run.media_path,
            run.exceptions@.len() == old_xs.len(),
            forall|k: int| i <= k < old_xs.len() ==> #[trigger] run.exceptions@[k] == old_xs[k],
            forall|k: int| 0 <= k < i ==> {
                let (o, n) = (old_xs[k], #[trigger] run.exceptions@[k]);
                &&& n.id == o.id && n.event_ids == o.event_ids && n.reason == o.reason
                &&& n.span == o.span && n.score == o.score && n.message == o.message
                &&& n.resolution == (if o.resolution == ExceptionResolution::Pending { res } else { o.resolution })
            },
        decreases run.exceptions@.len() - i,
    {
        if run.exceptions[i].is_pending() {
            set_resolution(&mut run.exceptions, i, res);
        }
        i = i + 1;
    }
    recompile_run(run)
}

/// Accept every pending exception, then recompile.
pub fn accept_all_exceptions(run: AnalysisRun) -> (r: AnalysisRun)
    ensures
        run_consistent(r),
        pending_resolved(run.exceptions@, r.exceptions@, ExceptionResolution::Accepted),
        r.events == run.events && r.edit_ops == run.edit_ops && r.duration == run.duration,
        r.media_path == run.media_path,
{
    resolve_pending(run, ExceptionResolution::Accepted)
}

/// Reject every pending exception, then recompile.
pub fn reject_all_exceptions(run: AnalysisRun) -> (r: AnalysisRun)
    ensures
        run_consistent(r),
        pending_resolved(run.exceptions@, r.exceptions@, ExceptionResolution::Rejected),
        r.events == run.events && r.edit_ops == run.edit_ops && r.duration == run.duration,
        r.media_path == run.media_path,
{
    resolve_pending(run, ExceptionResolution::Rejected)
}

/// An accepted exception's span is among the accepted remove spans.
pub proof fn lemma_accepted_span_removed(xs: Seq<ExceptionItem>, i: int)
    requires
        0 <= i < xs.len(),
        xs[i].resolution == ExceptionResolution::Accepted,
    ensures
        accepted_removes(xs).contains((xs[i].span.start, xs[i].span.end)),
    decreases xs.len(),
{
    let p = xs.drop_last();
    if i == xs.len() - 1 {
        assert(accepted_removes(xs) == accepted_removes(p).push((xs[i].span.start, xs[i].span.end)));
        assert(accepted_removes(xs)[accepted_removes(p).len() as int] == (xs[i].span.start, xs[i].span.end));
    } else {
        assert(p[i] == xs[i]);
        lemma_accepted_span_removed(p, i);
        let k = choose|k: int| 0 <= k < accepted_removes(p).len() && accepted_removes(p)[k] == (xs[i].span.start, xs[i].span.end);
        if xs.last().resolution == ExceptionResolution::Accepted {
            assert(accepted_removes(xs)[k] == accepted_removes(p)[k]);
        }
    }
}

/// Accepting all: every instant of the source inside an exception that was not
/// rejected is cut from the recompiled EDL.
pub proof fn lemma_accept_all_cuts_every_doubt(old_xs: Seq<ExceptionItem>, r: AnalysisRun, i: int, t: int)
    requires
        run_consistent(r),
        pending_resolved(old_xs, r.exceptions@, ExceptionResolution::Accepted),
        0 <= i < old_xs.len(),
        old_xs[i].resolution != ExceptionResolution::Rejected,
        old_xs[i].span.start <= t < old_xs[i].span.end,
        0 <= t < r.duration,
    ensures
        !in_ranges(r.edl.spec_keep(), t),
{
    let xs = r.exceptions@;
    assert(xs[i].resolution == ExceptionResolution::Accepted);
    lemma_accepted_span_removed(xs, i);
    let a = accepted_removes(xs);
    let k = choose|k: int| 0 <= k < a.len() && a[k] == (xs[i].span.start, xs[i].span.end);
    let all = run_removes(r.edit_ops@, xs);
    let idx = op_removes(r.edit_ops@).len() + k;
    assert(all[idx] == a[k]);
    assert(all[idx].0 <= t && t < all[idx].1);
    assert(in_ranges(all, t));
}

/// Conservative default: after rejecting all pending exceptions, an instant that
/// no remove operation and no previously accepted exception covers is kept.
pub proof fn lemma_reject_all_keeps_undecided(old_xs: Seq<ExceptionItem>, r: AnalysisRun, t: int)
    requires
        run_consistent(r),
        pending_resolved(old_xs, r.exceptions@, ExceptionResolution::Rejected),
        0 <= t < r.duration,
        !in_ranges(op_removes(r.edit_ops@), t),
        !in_ranges(accepted_removes(old_xs), t),
    ensures
        in_ranges(r.edl.spec_keep(), t),
{
    lemma_accepted_same(old_xs, r.exceptions@);
    let all = run_removes(r.edit_ops@, r.exceptions@);
    let o = op_removes(r.edit_ops@);
    let a = accepted_removes(r.exceptions@);
    if in_ranges(all, t) {
        let j = choose|j: int| 0 <= j < all.len() && #[trigger] all[j].0 <= t && t < all[j].1;
        if j < o.len() {
            assert(all[j] == o[j]);
        } else {
            assert(all[j] == a[j - o.len()]);
        }
    }
}

/// Rejecting pending exceptions leaves the accepted spans as they were.
proof fn lemma_accepted_same(old_xs: Seq<ExceptionItem>, xs: Seq<ExceptionItem>)
    requires
        pending_resolved(old_xs, xs, ExceptionResolution::Rejected),
    ensures
        accepted_removes(xs) == accepted_removes(old_xs),
    decreases xs.len(),
{
    if xs.len() > 0 {
        let n = xs.len() - 1;
        assert(xs[n].resolution == ExceptionResolution::Accepted <==> old_xs[n].resolution == ExceptionResolution::Accepted);
        assert(pending_resolved(old_xs.drop_last(), xs.drop_last(), ExceptionResolution::Rejected)) by {
            assert forall|i: int| 0 <= i < xs.drop_last().len() implies #[trigger] xs.drop_last()[i] == xs[i] && old_xs.drop_last()[i] == old_xs[i] by {}
        }
        lemma_accepted_same(old_xs.drop_last(), xs.drop_last());
    }
}


/// User-facing silence detection knobs (scores in thousandths, durations in ms).
#[derive(Clone, Copy, Debug, PartialEq, Eq)]
pub struct SilenceDetectionOptions {
    pub threshold: u32,
    pub min_silence_duration: u64,
    pub padding: u64,
    pub auto_cut_silence: bool,
    pub auto_approve_min_score: u32,
    pub prefer_silero: bool,
    pub prefer_whisper: bool,
}

/// Result shape of the segment-based silence API.
#[derive(Clone, Debug)]
pub struct SilenceDetectionResult {
    pub media_path: String,
    pub duration: u64,
    pub segments: Vec<Segment>,
    pub method: String,
    pub speech_duration: u64,
    pub silence_duration: u64,
    pub cut_duration: u64,
}

/// `x` clamped to `[lo, hi]`.
pub open spec fn clamped(x: int, lo: int, hi: int) -> int {
    if x < lo { lo } else if x > hi { hi } else { x }
}

/// The policy the silence options ask for; the auto-approve score is kept
/// within 500..=990 thousandths.
pub fn policy_from_silence_options(opts: &SilenceDetectionOptions) -> (p: PolicyConfig)
    ensures
        p.auto_approve_min_score == clamped(opts.auto_approve_min_score as int, 500, 990),
        p.min_silence_duration == opts.min_silence_duration,
        p.padding == opts.padding,
        p.threshold == opts.threshold,
        p.prefer_silero == opts.prefer_silero,
        p.prefer_whisper == opts.prefer_whisper,
{
    let s = opts.auto_approve_min_score;
    let score = if s < 500 { 500 } else if s > 990 { 990 } else { s };
    PolicyConfig {
        auto_approve_min_score: score,
        min_silence_duration: opts.min_silence_duration,
        padding: opts.padding,
        threshold: opts.threshold,
        prefer_silero: opts.prefer_silero,
        prefer_whisper: opts.prefer_whisper,
    }
}

/// A segment as the legacy API shows it: with auto-cut of silence switched
/// off, every silence waits for review.
pub open spec fn legacy_segment(o: Segment, n: Segment, auto_cut_silence: bool) -> bool {
    &&& n.start == o.start && n.end == o.end && n.kind == o.kind
    &&& n.confidence == o.confidence && n.event_id == o.event_id && n.label == o.label
    &&& if !auto_cut_silence && o.kind == SegmentKind::Silence {
        n.decision == SegmentDecision::Pending && !n.auto_applied && n.needs_review
    } else {
        n.decision == o.decision && n.auto_applied == o.auto_applied && n.needs_review == o.needs_review
    }
}

/// Total duration of the segments of the given kind.
pub open spec fn kind_total(segs: Seq<Segment>, k: SegmentKind) -> int
    decreases segs.len(),
{
    if segs.len() == 0 {
        0
    } else {
        kind_total(segs.drop_last(), k) + if segs.last().kind == k {
            crate::timeline::len_of(segs.last().start, segs.last().end) as int
        } else {
            0
        }
    }
}

/// Total duration of the segments decided as cut.
pub open spec fn cut_total(segs: Seq<Segment>) -> int
    decreases segs.len(),
{
    if segs.len() == 0 {
        0
    } else {
        cut_total(segs.drop_last()) + if segs.last().decision == SegmentDecision::Cut {
            crate::timeline::len_of(segs.last().start, segs.last().end) as int
        } else {
            0
        }
    }
}

proof fn lemma_totals_prefix(segs: Seq<Segment>, i: int)
    requires
        0 <= i <= segs.len(),
    ensures
        0 <= kind_total(segs.take(i), SegmentKind::Speech) <= kind_total(segs, SegmentKind::Speech),
        0 <= kind_total(segs.take(i), SegmentKind::Silence) <= kind_total(segs, SegmentKind::Silence),
        0 <= cut_total(segs.take(i)) <= cut_total(segs),
    decreases segs.len() - i,
{
    if i < segs.len() {
        lemma_totals_prefix(segs, i + 1);
        lemma_totals_nonneg(segs.take(i));
        assert(segs.take(i + 1).drop_last() =~= segs.take(i));
    } else {
        assert(segs.take(i) =~= segs);
        lemma_totals_nonneg(segs);
    }
}

proof fn lemma_totals_nonneg(segs: Seq<Segment>)
    ensures
        kind_total(segs, SegmentKind::Speech) >= 0,
        kind_total(segs, SegmentKind::Silence) >= 0,
        cut_total(segs) >= 0,
    decreases segs.len(),
{
    if segs.len() > 0 {
        lemma_totals_nonneg(segs.drop_last());
    }
}

/// The legacy silence result of a finished run: its segments (silences held
/// for review unless auto-cut is on) and their speech, silence and cut totals.
pub fn legacy_result(run: AnalysisRun, auto_cut_silence: bool) -> (res: SilenceDetectionResult)
    requires
        ({
            let segs = run.segments@;
            &&& kind_total(segs, SegmentKind::Speech) <= u64::MAX
            &&& kind_total(segs, SegmentKind::Silence) <= u64::MAX
            &&& cut_total(segs) <= u64::MAX
        }),
    ensures
        res.media_path == run.media_path,
        res.duration == run.duration,
        res.method == run.method,
        res.segments@.len() == run.segments@.len(),
        forall|i: int| 0 <= i < res.segments@.len() ==> legacy_segment(run.segments@[i], #[trigger] res.segments@[i], auto_cut_silence),
        res.speech_duration == kind_total(res.segments@, SegmentKind::Speech),
        res.silence_duration == kind_total(res.segments@, SegmentKind::Silence),
        res.cut_duration == cut_total(res.segments@),
{
    let ghost orig = run.segments@;
    let mut segments: Vec<Segment> = Vec::new();
    let mut speech: u64 = 0;
    let mut silence: u64 = 0;
    let mut cut: u64 = 0;
    let mut i: usize = 0;
    while i < run.segments.len()
        invariant
            0 <= i <= orig.len(),
            orig == run.segments@,
            kind_total(orig, SegmentKind::Speech) <= u64::MAX,
            kind_total(orig, SegmentKind::Silence) <= u64::MAX,
            cut_total(orig) <= u64::MAX,
            segments@.len() == i,
            forall|k: int| 0 <= k < i ==> legacy_segment(orig[k], #[trigger] segments@[k], auto_cut_silence),
            speech == kind_total(segments@, SegmentKind::Speech),
            silence == kind_total(segments@, SegmentKind::Silence),
            cut == cut_total(segments@),
            speech == kind_total(orig.take(i as int), SegmentKind::Speech),
            silence == kind_total(orig.take(i as int), SegmentKind::Silence),
            cut <= cut_total(orig.take(i as int)),
        decreases orig.len() - i,
    {
        let o = &run.segments[i];
        let pend = !auto_cut_silence && o.kind == SegmentKind::Silence;
        let n = Segment {
            start: o.start,
            end: o.end,
            kind: o.kind,
            decision: if pend { SegmentDecision::Pending } else { o.decision },
            confidence: o.confidence,
            event_id: o.event_id.clone(),
            auto_applied: if pend { false } else { o.auto_applied },
            needs_review: if pend { true } else { o.needs_review },
            label: o.label.clone(),
        };
        let d = n.duration();
        let nk = n.kind;
        let nd = n.decision;
        let ghost old_segs = segments@;
        proof {
            assert(orig.take(i as int + 1).drop_last() =~= orig.take(i as int));
            assert(orig.take(i as int + 1).last() == orig[i as int]);
            lemma_totals_prefix(orig, i as int + 1);
            lemma_totals_nonneg(orig.take(i as int));
        }
        segments.push(n);
        proof {
            assert(segments@.drop_last() =~= old_segs);
        }
        if nk == SegmentKind::Speech {
            speech = speech + d;
        } else {
            silence = silence + d;
        }
        if nd == SegmentDecision::Cut {
            cut = cut + d;
        }
        i = i + 1;
    }
    SilenceDetectionResult {
        media_path: run.media_path,
        duration: run.duration,
        segments,
        method: run.method,
        speech_duration: speech,
        silence_duration: silence,
        cut_duration: cut,
    }
}

} // verus!
