//! Policies turn events into edit operations and exceptions for human review.
//!
//! Detectors never decide cuts. Every auto-cut or exception goes through a
//! policy registered by event type.
use vstd::prelude::*;

use crate::events::{new_id, Event, EventType};
use crate::text::{dec, pct, push_pct, push_secs2, push_str, secs2};
use crate::timeline::{len_of, Span};

verus! {

/// Knobs of the cut policy. Scores in thousandths, durations in milliseconds.
#[derive(Clone, Copy, Debug, PartialEq, Eq)]
pub struct PolicyConfig {
    pub auto_approve_min_score: u32,
    pub min_silence_duration: u64,
    pub padding: u64,
    pub threshold: u32,
    pub prefer_silero: bool,
    pub prefer_whisper: bool,
}

impl PolicyConfig {
    /// Factory defaults.
    pub fn default_config() -> (c: PolicyConfig)
        ensures
            c.auto_approve_min_score == 800,
            c.min_silence_duration == 500,
            c.padding == 100,
            c.threshold == 500,
            !c.prefer_silero,
            !c.prefer_whisper,
    {
        PolicyConfig {
            auto_approve_min_score: 800,
            min_silence_duration: 500,
            padding: 100,
            threshold: 500,
            prefer_silero: false,
            prefer_whisper: false,
        }
    }
}

#[derive(Clone, Copy, Debug, PartialEq, Eq, Structural)]
pub enum EditOpKind {
    RemoveSpan,
    KeepSpan,
}

/// One edit operation on the source timeline.
#[derive(Clone, Debug)]
pub struct EditOp {
    pub id: String,
    pub op: EditOpKind,
    pub span: Span,
    pub source_event_ids: Vec<String>,
    pub reason: String,
    pub auto_applied: bool,
}

impl EditOp {
    /// A remove operation with a fresh id.
    pub fn remove(span: Span, source_event_ids: Vec<String>, reason: String, auto_applied: bool) -> (o: EditOp)
        ensures
            o.op == EditOpKind::RemoveSpan,
            o.span == span,
            o.source_event_ids@ == source_event_ids@,
            o.reason == reason,
            o.auto_applied == auto_applied,
    {
        EditOp { id: new_id(), op: EditOpKind::RemoveSpan, span, source_event_ids, reason, auto_applied }
    }
}

#[derive(Clone, Copy, Debug, PartialEq, Eq, Structural)]
pub enum ExceptionReason {
    LowConfidence,
}

#[derive(Clone, Copy, Debug, PartialEq, Eq, Structural)]
pub enum ExceptionResolution {
    Pending,
    Accepted,
    Rejected,
}

/// A doubtful case left to a human.
#[derive(Clone, Debug)]
pub struct ExceptionItem {
    pub id: String,
    pub event_ids: Vec<String>,
    pub reason: ExceptionReason,
    pub span: Span,
    pub score: u32,
    pub message: String,
    pub resolution: ExceptionResolution,
}

impl ExceptionItem {
    /// A pending exception with a fresh id.
    pub fn new(event_ids: Vec<String>, reason: ExceptionReason, span: Span, score: u32, message: String) -> (x: ExceptionItem)
        ensures
            x.event_ids@ == event_ids@,
            x.reason == reason,
            x.span == span,
            x.score == score,
            x.message == message,
            x.resolution == ExceptionResolution::Pending,
    {
        ExceptionItem { id: new_id(), event_ids, reason, span, score, message, resolution: ExceptionResolution::Pending }
    }

    pub fn is_pending(&self) -> (r: bool)
        ensures
            r == (self.resolution == ExceptionResolution::Pending),
    {
        self.resolution == ExceptionResolution::Pending
    }
}

/// Result of applying one or more policies.
#[derive(Clone, Debug)]
pub struct PolicyOutcome {
    pub ops: Vec<EditOp>,
    pub exceptions: Vec<ExceptionItem>,
}

impl PolicyOutcome {
    pub fn empty() -> (o: PolicyOutcome)
        ensures
            o.ops@.len() == 0,
            o.exceptions@.len() == 0,
    {
        PolicyOutcome { ops: Vec::new(), exceptions: Vec::new() }
    }

    /// Operations and exceptions of `self` followed by those of `other`.
    pub fn merge(self, other: PolicyOutcome) -> (r: PolicyOutcome)
        ensures
            r.ops@ == self.ops@ + other.ops@,
            r.exceptions@ == self.exceptions@ + other.exceptions@,
    {
        let mut s = self;
        let mut o = other;
        s.ops.append(&mut o.ops);
        s.exceptions.append(&mut o.exceptions);
        s
    }
}

/// A silence that the policy cuts by itself.
pub open spec fn is_auto_silence(e: Event, thr: u32) -> bool {
    e.event_type == EventType::AudioSilence && e.score >= thr
}

/// A silence that goes to human review.
pub open spec fn is_doubtful_silence(e: Event, thr: u32) -> bool {
    e.event_type == EventType::AudioSilence && e.score < thr
}

/// Bar for removing speech-like filler: slightly above the auto-approve score, at most 950.
pub open spec fn filler_threshold(auto_min: u32) -> u32 {
    if auto_min + 50 < 950 { (auto_min + 50) as u32 } else { 950 }
}

/// A filler that the policy cuts; low-confidence fillers stay in.
pub open spec fn is_auto_filler(e: Event, auto_min: u32) -> bool {
    e.event_type == EventType::SpeechFiller && e.score >= filler_threshold(auto_min)
}

/// The events of `evs` that satisfy `p`, in order.
pub open spec fn select(evs: Seq<Event>, p: spec_fn(Event) -> bool) -> Seq<Event>
    decreases evs.len(),
{
    if evs.len() == 0 {
        Seq::empty()
    } else {
        let prev = select(evs.drop_last(), p);
        if p(evs.last()) { prev.push(evs.last()) } else { prev }
    }
}

/// One step of `select` along a prefix.
pub proof fn lemma_select_step(evs: Seq<Event>, i: int, p: spec_fn(Event) -> bool)
    requires
        0 <= i < evs.len(),
    ensures
        select(evs.take(i + 1), p) == (if p(evs[i]) {
            select(evs.take(i), p).push(evs[i])
        } else {
            select(evs.take(i), p)
        }),
{
    assert(evs.take(i + 1).drop_last() =~= evs.take(i));
    assert(evs.take(i + 1).last() == evs[i]);
}

/// A selection is no longer than what it selects from.
pub proof fn lemma_select_len(evs: Seq<Event>, p: spec_fn(Event) -> bool)
    ensures
        select(evs, p).len() <= evs.len(),
    decreases evs.len(),
{
    if evs.len() > 0 {
        lemma_select_len(evs.drop_last(), p);
    }
}

pub open spec fn auto_silences(evs: Seq<Event>, thr: u32) -> Seq<Event> {
    select(evs, |e: Event| is_auto_silence(e, thr))
}

pub open spec fn doubtful_silences(evs: Seq<Event>, thr: u32) -> Seq<Event> {
    select(evs, |e: Event| is_doubtful_silence(e, thr))
}

pub open spec fn auto_fillers(evs: Seq<Event>, auto_min: u32) -> Seq<Event> {
    select(evs, |e: Event| is_auto_filler(e, auto_min))
}

/// The events that a selection holds are events of the list that satisfy the
/// test, and every such event is among them.
pub proof fn lemma_select_members(evs: Seq<Event>, p: spec_fn(Event) -> bool)
    ensures
        forall|i: int| 0 <= i < select(evs, p).len() ==> p(#[trigger] select(evs, p)[i])
            && exists|k: int| 0 <= k < evs.len() && evs[k] == select(evs, p)[i],
        forall|k: int| 0 <= k < evs.len() && p(#[trigger] evs[k]) ==> exists|i: int| 0 <= i < select(evs, p).len()
            && select(evs, p)[i] == evs[k],
    decreases evs.len(),
{
    if evs.len() > 0 {
        let e0 = evs.drop_last();
        lemma_select_members(e0, p);
        let prev = select(e0, p);
        let cur = select(evs, p);
        assert forall|i: int| 0 <= i < cur.len() implies p(#[trigger] cur[i])
            && exists|k: int| 0 <= k < evs.len() && evs[k] == cur[i] by {
            if i < prev.len() {
                assert(cur[i] == prev[i]);
                let k = choose|k: int| 0 <= k < e0.len() && e0[k] == prev[i];
                assert(evs[k] == e0[k]);
            } else {
                assert(cur[i] == evs.last());
                assert(evs[evs.len() - 1] == evs.last());
            }
        }
        assert forall|k: int| 0 <= k < evs.len() && p(#[trigger] evs[k]) implies exists|i: int| 0 <= i < cur.len()
            && cur[i] == evs[k] by {
            if k < e0.len() {
                assert(e0[k] == evs[k]);
                let i = choose|i: int| 0 <= i < prev.len() && prev[i] == e0[k];
                assert(cur[i] == prev[i]);
            } else {
                assert(evs[k] == evs.last());
                assert(cur[prev.len() as int] == evs.last());
            }
        }
    }
}

/// `op` removes the stretch of event `e` on its behalf.
pub open spec fn removes_event(op: EditOp, e: Event) -> bool {
    op.op == EditOpKind::RemoveSpan && op.span == e.span && op.source_event_ids@ == seq![e.id]
}

/// `op` removes a filler event of `events` that scores at least the bar.
pub open spec fn cuts_confident_filler(op: EditOp, events: Seq<Event>, auto_min: u32) -> bool {
    exists|k: int| 0 <= k < events.len() && events[k].event_type == EventType::SpeechFiller
        && events[k].score >= filler_bar(auto_min) && #[trigger] removes_event(op, events[k])
}

/// The bar a filler must reach to be cut by itself: the auto-approve score
/// plus 0.05, at most 0.95.
pub open spec fn filler_bar(auto_min: u32) -> int {
    if auto_min + 50 < 950 { auto_min + 50 } else { 950 }
}

/// Fillers are cut exactly when confident: every filler event scoring at
/// least the bar (auto-approve score plus 0.05, at most 0.95) has an
/// automatic removal over its span, and every removal the filler policy
/// makes is of a filler event scoring at least the bar, so a filler below
/// the bar is never cut.
pub proof fn lemma_filler_cuts_follow_bar(events: Seq<Event>, auto_min: u32, ops: Seq<EditOp>)
    requires
        ops.len() == auto_fillers(events, auto_min).len(),
        forall|i: int| 0 <= i < ops.len() ==> op_cuts_filler(#[trigger] ops[i], auto_fillers(events, auto_min)[i]),
    ensures
        forall|k: int| 0 <= k < events.len() && (#[trigger] events[k]).event_type == EventType::SpeechFiller
            && events[k].score >= filler_bar(auto_min)
            ==> exists|i: int| 0 <= i < ops.len() && removes_event(ops[i], events[k]),
        forall|i: int| 0 <= i < ops.len() ==> cuts_confident_filler(#[trigger] ops[i], events, auto_min),
{
    let pf = |e: Event| is_auto_filler(e, auto_min);
    lemma_select_members(events, pf);
    let sel = select(events, pf);
    assert(sel == auto_fillers(events, auto_min));
    assert forall|k: int| 0 <= k < events.len() && (#[trigger] events[k]).event_type == EventType::SpeechFiller
        && events[k].score >= filler_bar(auto_min)
        implies exists|i: int| 0 <= i < ops.len() && removes_event(ops[i], events[k]) by {
        assert(pf(events[k]));
        let i = choose|i: int| 0 <= i < sel.len() && sel[i] == events[k];
        assert(op_cuts_filler(ops[i], sel[i]));
    }
    assert forall|i: int| 0 <= i < ops.len() implies cuts_confident_filler(#[trigger] ops[i], events, auto_min) by {
        assert(op_cuts_filler(ops[i], sel[i]));
        assert(pf(sel[i]));
        let k = choose|k: int| 0 <= k < events.len() && events[k] == sel[i];
        assert(removes_event(ops[i], events[k]));
    }
}

/// Reason recorded on an auto-cut silence.
pub open spec fn silence_cut_reason(score: u32, span: Span) -> Seq<char> {
    "Auto-cut silence (score heurístico "@ + dec(pct(score)) + ", "@ + secs2(len_of(span.start, span.end) as u64) + "s)"@
}

/// Question put to the human for a doubtful silence.
pub open spec fn silence_doubt_message(score: u32, thr: u32) -> Seq<char> {
    "Silencio dudoso (score "@ + dec(pct(score)) + " < umbral "@ + dec(pct(thr))
        + "). ¿Cortar? (estimación operativa, no probabilidad científica)"@
}

/// Reason recorded on an auto-cut filler.
pub open spec fn filler_cut_reason(score: u32, text: Option<String>) -> Seq<char> {
    "Auto-cut filler ("@ + dec(pct(score)) + "%): "@ + match text {
        Some(t) => t@,
        None => "?"@,
    }
}

/// `op` is the auto-cut of silence event `e`.
pub open spec fn op_cuts_silence(op: EditOp, e: Event) -> bool {
    &&& op.op == EditOpKind::RemoveSpan
    &&& op.span == e.span
    &&& op.source_event_ids@ == seq![e.id]
    &&& op.auto_applied
    &&& op.reason@ == silence_cut_reason(e.score, e.span)
}

/// `op` is the auto-cut of filler event `e`.
pub open spec fn op_cuts_filler(op: EditOp, e: Event) -> bool {
    &&& op.op == EditOpKind::RemoveSpan
    &&& op.span == e.span
    &&& op.source_event_ids@ == seq![e.id]
    &&& op.auto_applied
    &&& op.reason@ == filler_cut_reason(e.score, e.payload.text)
}

/// `x` is the pending review item for doubtful silence `e`.
pub open spec fn exception_for(x: ExceptionItem, e: Event, thr: u32) -> bool {
    &&& x.event_ids@ == seq![e.id]
    &&& x.reason == ExceptionReason::LowConfidence
    &&& x.span == e.span
    &&& x.score == e.score
    &&& x.message@ == silence_doubt_message(e.score, thr)
    &&& x.resolution == ExceptionResolution::Pending
}

/// Policy for a single namespaced event type.
pub trait EventPolicy {
    fn event_type(&self) -> EventType;

    fn apply(&self, events: &Vec<Event>, config: &PolicyConfig) -> PolicyOutcome;
}

/// Silences at or above the auto-approve score are cut; the others become exceptions.
pub struct SilencePolicy;

/// Fillers at or above the filler bar are cut; the others stay in.
pub struct FillerPolicy;

fn silence_reason(score: u32, span: Span) -> (r: String)
    ensures
        r@ == silence_cut_reason(score, span),
{
    let mut s = String::new();
    push_str(&mut s, "Auto-cut silence (score heurístico ");
    push_pct(&mut s, score);
    push_str(&mut s, ", ");
    push_secs2(&mut s, span.duration());
    push_str(&mut s, "s)");
    proof {
        assert(s@ =~= silence_cut_reason(score, span));
    }
    s
}

fn silence_message(score: u32, thr: u32) -> (r: String)
    ensures
        r@ == silence_doubt_message(score, thr),
{
    let mut s = String::new();
    push_str(&mut s, "Silencio dudoso (score ");
    push_pct(&mut s, score);
    push_str(&mut s, " < umbral ");
    push_pct(&mut s, thr);
    push_str(&mut s, "). ¿Cortar? (estimación operativa, no probabilidad científica)");
    proof {
        assert(s@ =~= silence_doubt_message(score, thr));
    }
    s
}

fn filler_reason(score: u32, text: &Option<String>) -> (r: String)
    ensures
        r@ == filler_cut_reason(score, *text),
{
    let mut s = String::new();
    push_str(&mut s, "Auto-cut filler (");
    push_pct(&mut s, score);
    push_str(&mut s, "%): ");
    match text {
        Some(t) => push_str(&mut s, t.as_str()),
        None => push_str(&mut s, "?"),
    }
    proof {
        assert(s@ =~= filler_cut_reason(score, *text));
    }
    s
}

fn one_id(id: &String) -> (r: Vec<String>)
    ensures
        r@ == seq![*id],
{
    let mut r: Vec<String> = Vec::new();
    r.push(id.clone());
    proof {
        assert(r@ =~= seq![*id]);
    }
    r
}

impl SilencePolicy {
    pub fn run(&self, events: &Vec<Event>, config: &PolicyConfig) -> (out: PolicyOutcome)
        ensures
            ({
                let thr = config.auto_approve_min_score;
                let cuts = auto_silences(events@, thr);
                let doubts = doubtful_silences(events@, thr);
                &&& out.ops@.len() == cuts.len()
                &&& forall|i: int| 0 <= i < cuts.len() ==> op_cuts_silence(#[trigger] out.ops@[i], cuts[i])
                &&& out.exceptions@.len() == doubts.len()
                &&& forall|i: int| 0 <= i < doubts.len() ==> exception_for(#[trigger] out.exceptions@[i], doubts[i], thr)
            }),
    {
        let thr = config.auto_approve_min_score;
        let ghost pa = |e: Event| is_auto_silence(e, thr);
        let ghost pd = |e: Event| is_doubtful_silence(e, thr);
        let mut out = PolicyOutcome::empty();
        let mut i: usize = 0;
        while i < events.len()
            invariant
                0 <= i <= events@.len(),
                pa == (|e: Event| is_auto_silence(e, thr)),
                pd == (|e: Event| is_doubtful_silence(e, thr)),
                out.ops@.len() == select(events@.take(i as int), pa).len(),
                forall|k: int| 0 <= k < out.ops@.len() ==> op_cuts_silence(#[trigger] out.ops@[k], select(events@.take(i as int), pa)[k]),
                out.exceptions@.len() == select(events@.take(i as int), pd).len(),
                forall|k: int| 0 <= k < out.exceptions@.len() ==> exception_for(#[trigger] out.exceptions@[k], select(events@.take(i as int), pd)[k], thr),
            decreases events@.len() - i,
        {
            let ev = &events[i];
            proof {
                lemma_select_step(events@, i as int, pa);
                lemma_select_step(events@, i as int, pd);
            }
            if ev.event_type == EventType::AudioSilence {
                if ev.score >= thr {
                    let reason = silence_reason(ev.score, ev.span);
                    let op = EditOp::remove(ev.span, one_id(&ev.id), reason, true);
                    out.ops.push(op);
                } else {
                    let msg = silence_message(ev.score, thr);
                    let x = ExceptionItem::new(one_id(&ev.id), ExceptionReason::LowConfidence, ev.span, ev.score, msg);
                    out.exceptions.push(x);
                }
            }

            i = i + 1;
        }
        proof {
            assert(events@.take(events@.len() as int) =~= events@);
        }
        out
    }
}

impl FillerPolicy {
    pub fn run(&self, events: &Vec<Event>, config: &PolicyConfig) -> (out: PolicyOutcome)
        ensures
            ({
                let cuts = auto_fillers(events@, config.auto_approve_min_score);
                &&& out.ops@.len() == cuts.len()
                &&& forall|i: int| 0 <= i < cuts.len() ==> op_cuts_filler(#[trigger] out.ops@[i], cuts[i])
                &&& out.exceptions@.len() == 0
            }),
            forall|k: int| 0 <= k < events@.len() && (#[trigger] events@[k]).event_type == EventType::SpeechFiller
                && events@[k].score >= filler_bar(config.auto_approve_min_score)
                ==> exists|i: int| 0 <= i < out.ops@.len() && removes_event(out.ops@[i], events@[k]),
            forall|i: int| 0 <= i < out.ops@.len() ==> cuts_confident_filler(#[trigger] out.ops@[i], events@,
                config.auto_approve_min_score),
    {
        let am = config.auto_approve_min_score;
        let thr: u32 = if am < 900 { am + 50 } else { 950 };
        let ghost pf = |e: Event| is_auto_filler(e, am);
        let mut out = PolicyOutcome::empty();
        let mut i: usize = 0;
        while i < events.len()
            invariant
                0 <= i <= events@.len(),
                thr == filler_threshold(am),
                pf == (|e: Event| is_auto_filler(e, am)),
                out.ops@.len() == select(events@.take(i as int), pf).len(),
                forall|k: int| 0 <= k < out.ops@.len() ==> op_cuts_filler(#[trigger] out.ops@[k], select(events@.take(i as int), pf)[k]),
                out.exceptions@.len() == 0,
            decreases events@.len() - i,
        {
            let ev = &events[i];
            proof {
                lemma_select_step(events@, i as int, pf);
            }
            if ev.event_type == EventType::SpeechFiller && ev.score >= thr {
                let reason = filler_reason(ev.score, &ev.payload.text);
                let op = EditOp::remove(ev.span, one_id(&ev.id), reason, true);
                out.ops.push(op);
            }
            i = i + 1;
        }
        proof {
            assert(events@.take(events@.len() as int) =~= events@);
            lemma_filler_cuts_follow_bar(events@, am, out.ops@);
        }
        out
    }
}

impl EventPolicy for SilencePolicy {
    fn event_type(&self) -> EventType {
        EventType::AudioSilence
    }

    fn apply(&self, events: &Vec<Event>, config: &PolicyConfig) -> PolicyOutcome {
        self.run(events, config)
    }
}

impl EventPolicy for FillerPolicy {
    fn event_type(&self) -> EventType {
        EventType::SpeechFiller
    }

    fn apply(&self, events: &Vec<Event>, config: &PolicyConfig) -> PolicyOutcome {
        self.run(events, config)
    }
}

/// Apply all built-in policies (silence, then filler) to the event set.
pub fn apply_policies(events: &Vec<Event>, config: &PolicyConfig) -> (out: PolicyOutcome)
    ensures
        ({
            let thr = config.auto_approve_min_score;
            let cuts = auto_silences(events@, thr);
            let fills = auto_fillers(events@, thr);
            let doubts = doubtful_silences(events@, thr);
            &&& out.ops@.len() == cuts.len() + fills.len()
            &&& forall|i: int| 0 <= i < cuts.len() ==> op_cuts_silence(#[trigger] out.ops@[i], cuts[i])
            &&& forall|i: int| 0 <= i < fills.len() ==> op_cuts_filler(#[trigger] out.ops@[cuts.len() + i], fills[i])
            &&& out.exceptions@.len() == doubts.len()
            &&& forall|i: int| 0 <= i < doubts.len() ==> exception_for(#[trigger] out.exceptions@[i], doubts[i], thr)
        }),
        forall|k: int| 0 <= k < events@.len() && (#[trigger] events@[k]).event_type == EventType::SpeechFiller
            && events@[k].score >= filler_bar(config.auto_approve_min_score)
            ==> exists|i: int| 0 <= i < out.ops@.len() && removes_event(out.ops@[i], events@[k]),
{
    let s = SilencePolicy.run(events, config);
    let f = FillerPolicy.run(events, config);
    let ghost so = s.ops@;
    let ghost fo = f.ops@;
    let ghost se = s.exceptions@;
    let r = PolicyOutcome::empty().merge(s).merge(f);
    proof {
        assert(r.ops@ =~= so + fo);
        assert(r.exceptions@ =~= se);
        let cuts = auto_silences(events@, config.auto_approve_min_score);
        let fills = auto_fillers(events@, config.auto_approve_min_score);
        assert forall|i: int| 0 <= i < fills.len() implies op_cuts_filler(#[trigger] r.ops@[cuts.len() + i], fills[i]) by {
            assert(r.ops@[cuts.len() + i] == fo[i]);
        }
        assert forall|k: int| 0 <= k < events@.len() && (#[trigger] events@[k]).event_type == EventType::SpeechFiller
            && events@[k].score >= filler_bar(config.auto_approve_min_score)
            implies exists|i: int| 0 <= i < r.ops@.len() && removes_event(r.ops@[i], events@[k]) by {
            let j = choose|j: int| 0 <= j < fo.len() && removes_event(fo[j], events@[k]);
            assert(r.ops@[so.len() + j] == fo[j]);
        }
    }
    r
}

/// The remove spans an operation list contributes, in order.
pub open spec fn op_removes(ops: Seq<EditOp>) -> Seq<(u64, u64)>
    decreases ops.len(),
{
    if ops.len() == 0 {
        Seq::empty()
    } else {
        let prev = op_removes(ops.drop_last());
        let o = ops.last();
        if o.op == EditOpKind::RemoveSpan { prev.push((o.span.start, o.span.end)) } else { prev }
    }
}

/// The spans of the exceptions a human accepted, in order.
pub open spec fn accepted_removes(xs: Seq<ExceptionItem>) -> Seq<(u64, u64)>
    decreases xs.len(),
{
    if xs.len() == 0 {
        Seq::empty()
    } else {
        let prev = accepted_removes(xs.drop_last());
        let x = xs.last();
        if x.resolution == ExceptionResolution::Accepted { prev.push((x.span.start, x.span.end)) } else { prev }
    }
}

/// Effective remove spans: remove operations followed by human-accepted
/// exceptions. Pending and rejected exceptions do not cut.
pub fn effective_removes(ops: &Vec<EditOp>, exceptions: &Vec<ExceptionItem>) -> (r: Vec<(u64, u64)>)
    ensures
        r@ == op_removes(ops@) + accepted_removes(exceptions@),
{
    let mut r: Vec<(u64, u64)> = Vec::new();
    let mut i: usize = 0;
    while i < ops.len()
        invariant
            0 <= i <= ops@.len(),
            r@ == op_removes(ops@.take(i as int)),
        decreases ops@.len() - i,
    {
        proof {
            assert(ops@.take(i as int + 1).drop_last() =~= ops@.take(i as int));
        }
        if ops[i].op == EditOpKind::RemoveSpan {
            r.push((ops[i].span.start, ops[i].span.end));
        }
        i = i + 1;
    }
    proof {
        assert(ops@.take(ops@.len() as int) =~= ops@);
    }
    let ghost base = r@;
    let mut j: usize = 0;
    while j < exceptions.len()
        invariant
            0 <= j <= exceptions@.len(),
            base == op_removes(ops@),
            r@ == base + accepted_removes(exceptions@.take(j as int)),
        decreases exceptions@.len() - j,
    {
        proof {
            assert(exceptions@.take(j as int + 1).drop_last() =~= exceptions@.take(j as int));
        }
        if exceptions[j].resolution == ExceptionResolution::Accepted {
            r.push((exceptions[j].span.start, exceptions[j].span.end));
            proof {
                assert(r@ =~= base + accepted_removes(exceptions@.take(j as int + 1)));
            }
        }
        j = j + 1;
    }
    proof {
        assert(exceptions@.take(exceptions@.len() as int) =~= exceptions@);
    }
    r
}

} // verus!
