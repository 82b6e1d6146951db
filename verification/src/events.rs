//! Detector events: evidence on the source timeline, never edit decisions.
use vstd::prelude::*;

use crate::timeline::Span;

verus! {

/// Namespaced event types.
#[derive(Clone, Copy, Debug, PartialEq, Eq, Structural)]
pub enum EventType {
    AudioSilence,
    AudioSpeech,
    AudioBreath,
    SpeechFiller,
    StructureChapter,
    StructureShort,
}

/// The wire name of an event type.
pub open spec fn event_type_name(t: EventType) -> Seq<char> {
    match t {
        EventType::AudioSilence => "audio.silence"@,
        EventType::AudioSpeech => "audio.speech"@,
        EventType::AudioBreath => "audio.breath"@,
        EventType::SpeechFiller => "speech.filler"@,
        EventType::StructureChapter => "structure.chapter"@,
        EventType::StructureShort => "short.candidate"@,
    }
}

impl EventType {
    /// The wire name of the event type.
    pub fn as_str(self) -> (r: &'static str)
        ensures
            r@ == event_type_name(self),
    {
        match self {
            EventType::AudioSilence => "audio.silence",
            EventType::AudioSpeech => "audio.speech",
            EventType::AudioBreath => "audio.breath",
            EventType::SpeechFiller => "speech.filler",
            EventType::StructureChapter => "structure.chapter",
            EventType::StructureShort => "short.candidate",
        }
    }
}

/// Typed detector payload.
#[derive(Clone, Debug, PartialEq, Eq)]
pub struct EventPayload {
    /// Caption text (fillers).
    pub text: Option<String>,
    /// Chapter title.
    pub title: Option<String>,
    /// Chapter index.
    pub index: Option<u64>,
    /// Why a short candidate was proposed.
    pub reason: Option<String>,
    /// Silence event a breath was refined from.
    pub parent_id: Option<String>,
    /// Silence detection method.
    pub method: Option<String>,
}

/// A detector event on the source timeline; `score` in thousandths.
#[derive(Clone, Debug, PartialEq, Eq)]
pub struct Event {
    pub id: String,
    pub run_id: String,
    pub event_type: EventType,
    pub source: String,
    pub span: Span,
    pub score: u32,
    pub payload: EventPayload,
    pub tags: Vec<String>,
}

/// A fresh random identifier: `uuid::Uuid::new_v4()` in its `Display` form,
/// which the uuid crate writes hyphenated, 36 characters long. Which
/// identifier comes out is chance; only its length is stated.
#[verifier::external_body]
pub fn new_id() -> (r: String)
    ensures
        r@.len() == 36,
{
    uuid::Uuid::new_v4().to_string()
}

/// A copy of an optional text.
pub fn copy_opt_string(o: &Option<String>) -> (r: Option<String>)
    ensures
        r == *o,
{
    match o {
        Some(s) => Some(s.clone()),
        None => None,
    }
}

/// A copy of a list of texts.
pub fn copy_strings(v: &Vec<String>) -> (r: Vec<String>)
    ensures
        r@ == v@,
{
    let mut r: Vec<String> = Vec::new();
    let mut i: usize = 0;
    while i < v.len()
        invariant
            0 <= i <= v.len(),
            r@ == v@.take(i as int),
        decreases v.len() - i,
    {
        r.push(v[i].clone());
        proof {
            assert(v@.take(i as int + 1) =~= v@.take(i as int).push(v@[i as int]));
        }
        i = i + 1;
    }
    proof {
        assert(v@.take(v@.len() as int) =~= v@);
    }
    r
}

impl EventPayload {
    /// A payload with no field set.
    pub fn empty() -> (p: EventPayload)
        ensures
            p.text is None && p.title is None && p.index is None && p.reason is None
                && p.parent_id is None && p.method is None,
    {
        EventPayload { text: None, title: None, index: None, reason: None, parent_id: None, method: None }
    }

    /// A field-by-field copy.
    pub fn duplicate(&self) -> (r: EventPayload)
        ensures
            r == *self,
    {
        EventPayload {
            text: copy_opt_string(&self.text),
            title: copy_opt_string(&self.title),
            index: self.index,
            reason: copy_opt_string(&self.reason),
            parent_id: copy_opt_string(&self.parent_id),
            method: copy_opt_string(&self.method),
        }
    }
}

impl Event {
    /// Field-wise equality, comparing tag lists by their contents.
    pub open spec fn same_as(&self, o: Event) -> bool {
        &&& self.id == o.id
        &&& self.run_id == o.run_id
        &&& self.event_type == o.event_type
        &&& self.source == o.source
        &&& self.span == o.span
        &&& self.score == o.score
        &&& self.payload == o.payload
        &&& self.tags@ == o.tags@
    }

    /// A new event with a fresh id and no tags.
    pub fn new(run_id: &str, event_type: EventType, source: &str, span: Span, score: u32, payload: EventPayload) -> (e: Event)
        ensures
            e.run_id@ == run_id@,
            e.event_type == event_type,
            e.source@ == source@,
            e.span == span,
            e.score == score,
            e.payload == payload,
            e.tags@.len() == 0,
    {
        Event {
            id: new_id(),
            run_id: String::from_str(run_id),
            event_type,
            source: String::from_str(source),
            span,
            score,
            payload,
            tags: Vec::new(),
        }
    }

    /// The event with one more tag.
    pub fn with_tag(self, tag: &str) -> (e: Event)
        ensures
            e.id == self.id,
            e.run_id == self.run_id,
            e.event_type == self.event_type,
            e.source == self.source,
            e.span == self.span,
            e.score == self.score,
            e.payload == self.payload,
            e.tags@.len() == self.tags@.len() + 1,
            e.tags@.take(self.tags@.len() as int) == self.tags@,
            e.tags@.last()@ == tag@,
    {
        let mut e = self;
        let ghost old_tags = e.tags@;
        e.tags.push(String::from_str(tag));
        proof {
            assert(e.tags@.take(old_tags.len() as int) =~= old_tags);
        }
        e
    }

    /// A field-by-field copy.
    pub fn duplicate(&self) -> (r: Event)
        ensures
            r.same_as(*self),
    {
        Event {
            id: self.id.clone(),
            run_id: self.run_id.clone(),
            event_type: self.event_type,
            source: self.source.clone(),
            span: self.span,
            score: self.score,
            payload: self.payload.duplicate(),
            tags: copy_strings(&self.tags),
        }
    }
}

} // verus!
