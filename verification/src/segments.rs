//! Segments: the supervision view derived from events and decisions.
use vstd::prelude::*;

use crate::events::{Event, EventType};
use crate::policy::{EditOp, ExceptionItem, ExceptionResolution};

verus! {

#[derive(Clone, Copy, Debug, PartialEq, Eq, Structural)]
pub enum SegmentKind {
    Speech,
    Silence,
}

#[derive(Clone, Copy, Debug, PartialEq, Eq, Structural)]
pub enum SegmentDecision {
    Keep,
    Cut,
    Pending,
}

/// A projected segment of the source timeline (milliseconds, confidence in thousandths).
#[derive(Clone, Debug)]
pub struct Segment {
    pub start: u64,
    pub end: u64,
    pub kind: SegmentKind,
    pub decision: SegmentDecision,
    pub confidence: u32,
    pub event_id: Option<String>,
    pub auto_applied: bool,
    pub needs_review: bool,
    pub label: Option<String>,
}

impl Segment {
    /// A segment with full confidence, no event, no flags and no label.
    pub fn new(start: u64, end: u64, kind: SegmentKind, decision: SegmentDecision) -> (s: Segment)
        ensures
            s.start == start && s.end == end && s.kind == kind && s.decision == decision,
            s.confidence == 1000,
            s.event_id is None,
            !s.auto_applied && !s.needs_review,
            s.label is None,
    {
        Segment {
            start,
            end,
            kind,
            decision,
            confidence: 1000,
            event_id: None,
            auto_applied: false,
            needs_review: false,
            label: None,
        }
    }

    pub fn duration(&self) -> (d: u64)
        ensures
            d == crate::timeline::len_of(self.start, self.end),
    {
        if self.end > self.start { self.end - self.start } else { 0 }
    }
}

/// Event `id` is a source of some auto-applied operation.
pub open spec fn auto_cut_id(ops: Seq<EditOp>, id: Seq<char>) -> bool {
    exists|i: int, j: int|
        0 <= i < ops.len() && ops[i].auto_applied && 0 <= j < ops[i].source_event_ids@.len()
            && (#[trigger] ops[i].source_event_ids@[j])@ == id
}

/// The exception item names event `id`.
pub open spec fn names_event(x: ExceptionItem, id: Seq<char>) -> bool {
    exists|j: int| 0 <= j < x.event_ids@.len() && (#[trigger] x.event_ids@[j])@ == id
}

/// The last exception that names event `id`.
pub open spec fn last_exception_for(xs: Seq<ExceptionItem>, id: Seq<char>) -> Option<ExceptionItem>
    decreases xs.len(),
{
    if xs.len() == 0 {
        None
    } else if names_event(xs.last(), id) {
        Some(xs.last())
    } else {
        last_exception_for(xs.drop_last(), id)
    }
}

/// Decision, auto flag, review flag and label that the supervision view gives an event.
pub open spec fn projected(ev: Event, ops: Seq<EditOp>, xs: Seq<ExceptionItem>) -> (SegmentDecision, bool, bool, Option<Seq<char>>) {
    if ev.event_type != EventType::AudioSilence {
        (SegmentDecision::Keep, false, false, None)
    } else if auto_cut_id(ops, ev.id@) {
        (SegmentDecision::Cut, true, false, Some("auto"@))
    } else {
        match last_exception_for(xs, ev.id@) {
            Some(x) => match x.resolution {
                ExceptionResolution::Pending => (SegmentDecision::Pending, false, true, Some("revisar"@)),
                ExceptionResolution::Accepted => (SegmentDecision::Cut, false, false, Some("aprobado"@)),
                ExceptionResolution::Rejected => (SegmentDecision::Keep, false, false, Some("conservar"@)),
            },
            None => (SegmentDecision::Keep, false, false, None),
        }
    }
}

pub open spec fn opt_view(o: Option<String>) -> Option<Seq<char>> {
    match o {
        Some(s) => Some(s@),
        None => None,
    }
}

/// `seg` is the projection of event `ev` under the given decisions.
pub open spec fn segment_of(seg: Segment, ev: Event, ops: Seq<EditOp>, xs: Seq<ExceptionItem>) -> bool {
    let (d, a, r, l) = projected(ev, ops, xs);
    &&& seg.start == ev.span.start
    &&& seg.end == ev.span.end
    &&& seg.kind == (if ev.event_type == EventType::AudioSilence { SegmentKind::Silence } else { SegmentKind::Speech })
    &&& seg.decision == d
    &&& seg.auto_applied == a
    &&& seg.needs_review == r
    &&& opt_view(seg.label) == l
    &&& seg.confidence == ev.score
    &&& opt_view(seg.event_id) == Some(ev.id@)
}

fn is_auto_cut(ops: &Vec<EditOp>, id: &String) -> (r: bool)
    ensures
        r == auto_cut_id(ops@, id@),
{
    let mut i: usize = 0;
    while i < ops.len()
        invariant
            0 <= i <= ops@.len(),
            forall|a: int, b: int|
                0 <= a < i && ops@[a].auto_applied && 0 <= b < ops@[a].source_event_ids@.len()
                    ==> (#[trigger] ops@[a].source_event_ids@[b])@ != id@,
        decreases ops@.len() - i,
    {
        if ops[i].auto_applied {
            let ids = &ops[i].source_event_ids;
            let mut j: usize = 0;
            while j < ids.len()
                invariant
                    0 <= i < ops@.len(),
                    ops@[i as int].auto_applied,
                    ids@ == ops@[i as int].source_event_ids@,
                    0 <= j <= ids@.len(),
                    forall|b: int| 0 <= b < j ==> (#[trigger] ids@[b])@ != id@,
                    forall|a: int, b: int|
                        0 <= a < i && ops@[a].auto_applied && 0 <= b < ops@[a].source_event_ids@.len()
                            ==> (#[trigger] ops@[a].source_event_ids@[b])@ != id@,
                decreases ids@.len() - j,
            {
                if ids[j] == *id {
                    proof {
                        assert(ops@[i as int].source_event_ids@[j as int]@ == id@);
                    }
                    return true;
                }
                j = j + 1;
            }
        }
        i = i + 1;
    }
    false
}

fn names(x: &ExceptionItem, id: &String) -> (r: bool)
    ensures
        r == names_event(*x, id@),
{
    let mut j: usize = 0;
    while j < x.event_ids.len()
        invariant
            0 <= j <= x.event_ids@.len(),
            forall|b: int| 0 <= b < j ==> (#[trigger] x.event_ids@[b])@ != id@,
        decreases x.event_ids@.len() - j,
    {
        if x.event_ids[j] == *id {
            return true;
        }
        j = j + 1;
    }
    false
}

fn find_last_exception(xs: &Vec<ExceptionItem>, id: &String) -> (r: Option<usize>)
    ensures
        r matches Some(k) ==> k < xs@.len() && last_exception_for(xs@, id@) == Some(xs@[k as int]),
        r is None ==> last_exception_for(xs@, id@) is None,
{
    let mut k: usize = xs.len();
    proof {
        assert(xs@.take(k as int) =~= xs@);
    }
    while k > 0
        invariant
            0 <= k <= xs@.len(),
            last_exception_for(xs@, id@) == last_exception_for(xs@.take(k as int), id@),
        decreases k,
    {
        proof {
            assert(xs@.take(k as int).last() == xs@[k - 1]);
            assert(xs@.take(k as int).drop_last() =~= xs@.take(k - 1));
        }
        if names(&xs[k - 1], id) {
            return Some(k - 1);
        }
        k = k - 1;
    }
    None
}

fn opt_label(s: &str) -> (r: Option<String>)
    ensures
        opt_view(r) == Some(s@),
{
    Some(String::from_str(s))
}

/// Project every event onto a segment for the supervision view; a lone full
/// speech segment when there are no events and the source is not empty.
pub fn project_segments(duration: u64, events: &Vec<Event>, ops: &Vec<EditOp>, exceptions: &Vec<ExceptionItem>) -> (segs: Vec<Segment>)
    ensures
        events@.len() > 0 ==> segs@.len() == events@.len()
            && forall|i: int| 0 <= i < events@.len() ==> segment_of(#[trigger] segs@[i], events@[i], ops@, exceptions@),
        events@.len() == 0 && duration > 0 ==> segs@.len() == 1 && segs@[0].start == 0 && segs@[0].end == duration
            && segs@[0].kind == SegmentKind::Speech && segs@[0].decision == SegmentDecision::Keep,
        events@.len() == 0 && duration == 0 ==> segs@.len() == 0,
{
    let mut segs: Vec<Segment> = Vec::new();
    let mut i: usize = 0;
    while i < events.len()
        invariant
            0 <= i <= events@.len(),
            segs@.len() == i,
            forall|k: int| 0 <= k < i ==> segment_of(#[trigger] segs@[k], events@[k], ops@, exceptions@),
        decreases events@.len() - i,
    {
        let ev = &events[i];
        let is_sil = ev.event_type == EventType::AudioSilence;
        let kind = if is_sil { SegmentKind::Silence } else { SegmentKind::Speech };
        let mut seg = Segment::new(ev.span.start, ev.span.end, kind, SegmentDecision::Keep);
        seg.confidence = ev.score;
        seg.event_id = Some(ev.id.clone());
        if is_sil {
            if is_auto_cut(ops, &ev.id) {
                seg.decision = SegmentDecision::Cut;
                seg.auto_applied = true;
                seg.needs_review = false;
                seg.label = opt_label("auto");
            } else {
                match find_last_exception(exceptions, &ev.id) {
                    Some(k) => {
                        match exceptions[k].resolution {
                            ExceptionResolution::Pending => {
                                seg.decision = SegmentDecision::Pending;
                                seg.needs_review = true;
                                seg.auto_applied = false;
                                seg.label = opt_label("revisar");
                            },
                            ExceptionResolution::Accepted => {
                                seg.decision = SegmentDecision::Cut;
                                seg.needs_review = false;
                                seg.label = opt_label("aprobado");
                            },
                            ExceptionResolution::Rejected => {
                                seg.decision = SegmentDecision::Keep;
                                seg.needs_review = false;
                                seg.label = opt_label("conservar");
                            },
                        }
                    },
                    None => {},
                }
            }
        }
        segs.push(seg);
        i = i + 1;
    }
    if segs.len() == 0 && duration > 0 {
        segs.push(Segment::new(0, duration, SegmentKind::Speech, SegmentDecision::Keep));
    }
    segs
}

} // verus!
