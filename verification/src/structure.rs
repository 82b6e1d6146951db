//! Secondary detectors (breaths, chapters, short candidates) and their
//! projection onto the output timeline.
use vstd::prelude::*;

use crate::events::{new_id, Event, EventPayload, EventType};
use crate::export::views;
use crate::policy::{lemma_select_step, select};
use crate::segments::opt_view;
use crate::sort::{keys_ascending, sort_by_key};
use crate::text::{dec, push_dec, push_str};
use crate::timeline::{len_of, Span};

verus! {

/// A silence long and clear enough to suggest a topic change.
pub open spec fn is_long_pause(e: Event) -> bool {
    e.event_type == EventType::AudioSilence && len_of(e.span.start, e.span.end) >= 1400 && e.score >= 750
}

/// Chapter confidence for a pause of `d` ms: 550 plus one per 20 ms, at most 900.
pub open spec fn chapter_score(d: int) -> u32 {
    if 550 + d / 20 > 900 { 900 } else { (550 + d / 20) as u32 }
}

/// Some event is speech.
pub open spec fn has_speech(evs: Seq<Event>) -> bool {
    exists|i: int| 0 <= i < evs.len() && (#[trigger] evs[i]).event_type == EventType::AudioSpeech
}

/// `e` is a chapter mark at `at` with the given score, index and title.
pub open spec fn is_chapter_mark(e: Event, run_id: Seq<char>, at: u64, score: u32, index: u64, title: Seq<char>) -> bool {
    &&& e.event_type == EventType::StructureChapter
    &&& e.span == Span { start: at, end: at }
    &&& e.score == score
    &&& e.payload.index == Some(index)
    &&& opt_view(e.payload.title) == Some(title)
    &&& e.run_id@ == run_id
    &&& e.source@ == "structure@1.0.0"@
    &&& views(e.tags@) == seq!["chapter"@]
}

fn chapter_event(run_id: &str, at: u64, score: u32, index: u64, title: String) -> (e: Event)
    ensures
        is_chapter_mark(e, run_id@, at, score, index, title@),
{
    let mut payload = EventPayload::empty();
    payload.index = Some(index);
    payload.title = Some(title);
    let e = Event::new(run_id, EventType::StructureChapter, "structure@1.0.0", Span::new(at, at), score, payload);
    let e = e.with_tag("chapter");
    proof {
        assert(views(e.tags@) =~= seq!["chapter"@]);
    }
    e
}

fn any_speech(events: &Vec<Event>) -> (r: bool)
    ensures
        r == has_speech(events@),
{
    let mut i: usize = 0;
    while i < events.len()
        invariant
            0 <= i <= events@.len(),
            forall|k: int| 0 <= k < i ==> (#[trigger] events@[k]).event_type != EventType::AudioSpeech,
        decreases events@.len() - i,
    {
        if events[i].event_type == EventType::AudioSpeech {
            return true;
        }
        i = i + 1;
    }
    false
}

/// Chapter candidates: an opening chapter "Inicio" at 0 when there is speech,
/// then one chapter "Parte N" at the end of each long clear pause.
pub fn detect_chapters(run_id: &str, events: &mut Vec<Event>)
    requires
        old(events)@.len() < usize::MAX - 1,
    ensures
        ({
            let o = old(events)@;
            let f = final(events)@;
            let base: int = if has_speech(o) { 1 } else { 0 };
            let pauses = select(o, |e: Event| is_long_pause(e));
            &&& f.len() == o.len() + base + pauses.len()
            &&& f.take(o.len() as int) == o
            &&& has_speech(o) ==> is_chapter_mark(f[o.len() as int], run_id@, 0, 700, 0, "Inicio"@)
            &&& forall|j: int| 0 <= j < pauses.len() ==> is_chapter_mark(
                #[trigger] f[o.len() + base + j],
                run_id@,
                pauses[j].span.end,
                chapter_score(len_of(pauses[j].span.start, pauses[j].span.end)),
                (base + j) as u64,
                "Parte "@ + dec((base + j + 1) as nat),
            )
        }),
{
    let ghost o = events@;
    let ghost pl = |e: Event| is_long_pause(e);
    let n0 = events.len();
    let mut idx: u64 = 0;
    if any_speech(events) {
        let e = chapter_event(run_id, 0, 700, 0, String::from_str("Inicio"));
        events.push(e);
        idx = 1;
    }
    let ghost base: int = idx as int;
    let n1 = events.len();
    let mut i: usize = 0;
    while i < n0
        invariant
            0 <= i <= n0,
            n0 == o.len(),
            n0 < usize::MAX - 1,
            pl == (|e: Event| is_long_pause(e)),
            base == (if has_speech(o) { 1int } else { 0int }),
            n1 == n0 + base,
            idx == base + select(o.take(i as int), pl).len(),
            events@.len() == n1 + select(o.take(i as int), pl).len(),
            events@.take(n0 as int) == o,
            has_speech(o) ==> is_chapter_mark(events@[n0 as int], run_id@, 0, 700, 0, "Inicio"@),
            forall|j: int| 0 <= j < select(o.take(i as int), pl).len() ==> is_chapter_mark(
                #[trigger] events@[n1 + j],
                run_id@,
                select(o.take(i as int), pl)[j].span.end,
                chapter_score(len_of(select(o.take(i as int), pl)[j].span.start, select(o.take(i as int), pl)[j].span.end)),
                (base + j) as u64,
                "Parte "@ + dec((base + j + 1) as nat),
            ),
        decreases n0 - i,
    {
        proof {
            lemma_select_step(o, i as int, pl);
            assert(events@[i as int] == o[i as int]);
            crate::policy::lemma_select_len(o.take(i as int), pl);
        }
        let ev = &events[i];
        let d = ev.span.duration();
        if ev.event_type == EventType::AudioSilence && d >= 1400 && ev.score >= 750 {
            let at = ev.span.end;
            let score: u32 = if 550 + d / 20 > 900 { 900 } else { (550 + d / 20) as u32 };
            let mut title = String::new();
            push_str(&mut title, "Parte ");
            push_dec(&mut title, idx + 1);
            let c = chapter_event(run_id, at, score, idx, title);
            let ghost before = events@;
            events.push(c);
            proof {
                assert(events@.take(n0 as int) =~= before.take(n0 as int));
            }
            idx = idx + 1;
        }
        i = i + 1;
    }
    proof {
        assert(o.take(n0 as int) =~= o);
    }
}

/// A continuous speech block of 12 to 75 s: a candidate for a vertical short.
pub open spec fn is_short_block(e: Event) -> bool {
    e.event_type == EventType::AudioSpeech && 12000 <= len_of(e.span.start, e.span.end) <= 75000
}

/// Short-candidate confidence: denser mid-length blocks score higher.
pub open spec fn short_score(d: int) -> u32 {
    if 20000 <= d < 45000 { 780 } else if 12000 <= d < 20000 { 650 } else { 600 }
}

/// `e` is the short candidate proposed for speech block `b`.
pub open spec fn is_short_mark(e: Event, b: Event, run_id: Seq<char>) -> bool {
    &&& e.event_type == EventType::StructureShort
    &&& e.span == b.span
    &&& e.score == short_score(len_of(b.span.start, b.span.end))
    &&& opt_view(e.payload.reason) == Some("speech_block_length"@)
    &&& e.run_id@ == run_id
    &&& e.source@ == "shorts@1.0.0"@
    &&& views(e.tags@) == seq!["short"@]
}

/// Short candidates: one per speech block lasting 12 to 75 s.
pub fn detect_short_candidates(run_id: &str, events: &mut Vec<Event>)
    ensures
        ({
            let o = old(events)@;
            let f = final(events)@;
            let blocks = select(o, |e: Event| is_short_block(e));
            &&& f.len() == o.len() + blocks.len()
            &&& f.take(o.len() as int) == o
            &&& forall|j: int| 0 <= j < blocks.len() ==> is_short_mark(#[trigger] f[o.len() + j], blocks[j], run_id@)
        }),
{
    let ghost o = events@;
    let ghost ps = |e: Event| is_short_block(e);
    let n0 = events.len();
    let mut i: usize = 0;
    while i < n0
        invariant
            0 <= i <= n0,
            n0 == o.len(),
            ps == (|e: Event| is_short_block(e)),
            events@.len() == n0 + select(o.take(i as int), ps).len(),
            events@.take(n0 as int) == o,
            forall|j: int| 0 <= j < select(o.take(i as int), ps).len() ==> is_short_mark(#[trigger] events@[n0 + j], select(o.take(i as int), ps)[j], run_id@),
        decreases n0 - i,
    {
        proof {
            lemma_select_step(o, i as int, ps);
            assert(events@[i as int] == o[i as int]);
        }
        let ev = &events[i];
        let d = ev.span.duration();
        if ev.event_type == EventType::AudioSpeech && d >= 12000 && d <= 75000 {
            let score: u32 = if d >= 20000 && d < 45000 { 780 } else if d >= 12000 && d < 20000 { 650 } else { 600 };
            let mut payload = EventPayload::empty();
            payload.reason = Some(String::from_str("speech_block_length"));
            let e = Event::new(run_id, EventType::StructureShort, "shorts@1.0.0", ev.span, score, payload);
            let e = e.with_tag("short");
            proof {
                assert(views(e.tags@) =~= seq!["short"@]);
            }
            let ghost before = events@;
            events.push(e);
            proof {
                assert(events@.take(n0 as int) =~= before.take(n0 as int));
            }
        }
        i = i + 1;
    }
    proof {
        assert(o.take(n0 as int) =~= o);
    }
}

/// A short silence in the middle of speech: a breath or micro-pause.
pub open spec fn is_breath_gap(e: Event) -> bool {
    e.event_type == EventType::AudioSilence && 120 <= len_of(e.span.start, e.span.end) < 450
}

/// Breath confidence: shorter pauses score higher, within 500..750.
pub open spec fn breath_score(d: int) -> u32 {
    let v = 550 + (450 - d);
    if v < 500 { 500 } else if v > 750 { 750 } else { v as u32 }
}

/// `e` is the breath event refined from silence `s`.
pub open spec fn is_breath_mark(e: Event, s: Event, run_id: Seq<char>) -> bool {
    &&& e.event_type == EventType::AudioBreath
    &&& e.span == s.span
    &&& e.score == breath_score(len_of(s.span.start, s.span.end))
    &&& opt_view(e.payload.parent_id) == Some(s.id@)
    &&& e.run_id@ == run_id
    &&& e.source@ == "breath@1.0.0"@
    &&& views(e.tags@) == seq!["breath"@, "optional_trim"@]
}

/// Tag short mid-speech silences as breath / micro-pause candidates; no new spans are invented.
pub fn detect_breaths(run_id: &str, events: &mut Vec<Event>)
    ensures
        ({
            let o = old(events)@;
            let f = final(events)@;
            let gaps = select(o, |e: Event| is_breath_gap(e));
            &&& f.len() == o.len() + gaps.len()
            &&& f.take(o.len() as int) == o
            &&& forall|j: int| 0 <= j < gaps.len() ==> is_breath_mark(#[trigger] f[o.len() + j], gaps[j], run_id@)
        }),
{
    let ghost o = events@;
    let ghost pb = |e: Event| is_breath_gap(e);
    let n0 = events.len();
    let mut i: usize = 0;
    while i < n0
        invariant
            0 <= i <= n0,
            n0 == o.len(),
            pb == (|e: Event| is_breath_gap(e)),
            events@.len() == n0 + select(o.take(i as int), pb).len(),
            events@.take(n0 as int) == o,
            forall|j: int| 0 <= j < select(o.take(i as int), pb).len() ==> is_breath_mark(#[trigger] events@[n0 + j], select(o.take(i as int), pb)[j], run_id@),
        decreases n0 - i,
    {
        proof {
            lemma_select_step(o, i as int, pb);
            assert(events@[i as int] == o[i as int]);
        }
        let ev = &events[i];
        let d = ev.span.duration();
        if ev.event_type == EventType::AudioSilence && d >= 120 && d < 450 {
            let v: u64 = 550 + (450 - d);
            let score: u32 = if v > 750 { 750 } else { v as u32 };
            let mut payload = EventPayload::empty();
            payload.parent_id = Some(ev.id.clone());
            let e = Event::new(run_id, EventType::AudioBreath, "breath@1.0.0", ev.span, score, payload);
            let e = e.with_tag("breath");
            let e = e.with_tag("optional_trim");
            proof {
                assert(views(e.tags@) =~= seq!["breath"@, "optional_trim"@]);
            }
            let ghost before = events@;
            events.push(e);
            proof {
                assert(events@.take(n0 as int) =~= before.take(n0 as int));
            }
        }
        i = i + 1;
    }
    proof {
        assert(o.take(n0 as int) =~= o);
    }
}

/// Output instant of source instant `t` given keep ranges: instants in a cut map
/// to the start of the next kept range; instants past the end map to the total.
pub open spec fn keep_s2o(keep: Seq<(u64, u64)>, t: u64) -> int
    decreases keep.len(),
{
    if keep.len() == 0 {
        0
    } else if t < keep[0].0 {
        0
    } else if t <= keep[0].1 {
        t - keep[0].0
    } else {
        (keep[0].1 - keep[0].0) + keep_s2o(keep.drop_first(), t)
    }
}

/// Sum of the lengths of well-ordered keep ranges.
pub open spec fn keep_len(keep: Seq<(u64, u64)>) -> int
    decreases keep.len(),
{
    if keep.len() == 0 { 0 } else { (keep[0].1 - keep[0].0) + keep_len(keep.drop_first()) }
}

proof fn lemma_keep_s2o_bound(keep: Seq<(u64, u64)>, t: u64)
    requires
        forall|k: int| 0 <= k < keep.len() ==> #[trigger] keep[k].0 <= keep[k].1,
    ensures
        0 <= keep_s2o(keep, t) <= keep_len(keep),
        keep_len(keep) >= 0,
    decreases keep.len(),
{
    if keep.len() > 0 {
        assert forall|k: int| 0 <= k < keep.drop_first().len() implies #[trigger] keep.drop_first()[k].0 <= keep.drop_first()[k].1 by {
            assert(keep.drop_first()[k] == keep[k + 1]);
        }
        lemma_keep_s2o_bound(keep.drop_first(), t);
    }
}

/// Map a source instant onto the output timeline of the given keep ranges.
pub fn keep_source_to_output(t: u64, keep: &Vec<(u64, u64)>) -> (o: u64)
    requires
        forall|k: int| 0 <= k < keep@.len() ==> #[trigger] keep@[k].0 <= keep@[k].1,
        keep_len(keep@) <= u64::MAX,
    ensures
        o == keep_s2o(keep@, t),
{
    let mut acc: u64 = 0;
    let mut i: usize = 0;
    proof {
        lemma_keep_s2o_bound(keep@, t);
        assert(keep@.skip(0) =~= keep@);
    }
    while i < keep.len()
        invariant
            0 <= i <= keep@.len(),
            forall|k: int| 0 <= k < keep@.len() ==> #[trigger] keep@[k].0 <= keep@[k].1,
            keep_len(keep@) <= u64::MAX,
            acc + keep_len(keep@.skip(i as int)) == keep_len(keep@),
            acc + keep_s2o(keep@.skip(i as int), t) == keep_s2o(keep@, t),
        decreases keep@.len() - i,
    {
        let ghost rest = keep@.skip(i as int);
        proof {
            assert(rest[0] == keep@[i as int]);
            assert(rest.drop_first() =~= keep@.skip(i as int + 1));
            assert forall|k: int| 0 <= k < rest.len() implies #[trigger] rest[k].0 <= rest[k].1 by {
                assert(rest[k] == keep@[i + k]);
            }
            lemma_keep_s2o_bound(rest, t);
            assert forall|k: int| 0 <= k < rest.drop_first().len() implies #[trigger] rest.drop_first()[k].0 <= rest.drop_first()[k].1 by {
                assert(rest.drop_first()[k] == keep@[i + 1 + k]);
            }
            lemma_keep_s2o_bound(rest.drop_first(), t);
        }
        let (s, e) = keep[i];
        if t < s {
            return acc;
        }
        if t <= e {
            return acc + (t - s);
        }
        acc = acc + (e - s);
        i = i + 1;
    }
    acc
}

/// A chapter marker on the output timeline.
#[derive(Clone, Debug)]
pub struct ChapterMarker {
    pub index: u64,
    pub title: String,
    pub at_output: u64,
    pub at_source: u64,
}

/// A short candidate on the source timeline (score in thousandths).
#[derive(Clone, Debug)]
pub struct ShortCandidate {
    pub id: String,
    pub start: u64,
    pub end: u64,
    pub score: u32,
    pub reason: String,
}

/// A chapter event.
pub open spec fn is_chapter(e: Event) -> bool {
    e.event_type == EventType::StructureChapter
}

/// The chapter events, in order.
pub open spec fn chapter_events(evs: Seq<Event>) -> Seq<Event> {
    select(evs, |e: Event| is_chapter(e))
}

/// The title a chapter event shows: its payload title, or "Capítulo".
pub open spec fn chapter_title(e: Event) -> Seq<char> {
    match e.payload.title {
        Some(t) => t@,
        None => "Capítulo"@,
    }
}

/// `m` places chapter event `e` on the output timeline of `keep`.
pub open spec fn marks_chapter(m: ChapterMarker, e: Event, keep: Seq<(u64, u64)>) -> bool {
    &&& m.at_source == e.span.start
    &&& m.at_output == keep_s2o(keep, e.span.start)
    &&& m.title@ == chapter_title(e)
}

/// `m` marks one of the chapter events `ch`.
pub open spec fn marks_some(m: ChapterMarker, ch: Seq<Event>, keep: Seq<(u64, u64)>) -> bool {
    exists|j: int| 0 <= j < ch.len() && marks_chapter(m, #[trigger] ch[j], keep)
}

/// Chapter event `e` is marked by one of the markers `r`.
pub open spec fn marked_in(e: Event, r: Seq<ChapterMarker>, keep: Seq<(u64, u64)>) -> bool {
    exists|i: int| 0 <= i < r.len() && marks_chapter(#[trigger] r[i], e, keep)
}

/// A keyed marker for chapter `e`: keyed by its output time.
pub open spec fn keyed_ok(x: (u64, ChapterMarker), e: Event, keep: Seq<(u64, u64)>) -> bool {
    x.0 == x.1.at_output && marks_chapter(x.1, e, keep)
}

/// Chapter events as markers on the output timeline, ordered by output time
/// and numbered from 0 in that order.
pub fn chapters_from_events(events: &Vec<Event>, keep: &Vec<(u64, u64)>) -> (r: Vec<ChapterMarker>)
    requires
        forall|k: int| 0 <= k < keep@.len() ==> #[trigger] keep@[k].0 <= keep@[k].1,
        keep_len(keep@) <= u64::MAX,
    ensures
        ({
            let ch = chapter_events(events@);
            &&& r@.len() == ch.len()
            &&& forall|i: int| 0 <= i < r@.len() ==> (#[trigger] r@[i]).index == i
            &&& forall|i: int, j: int| 0 <= i < j < r@.len() ==> #[trigger] r@[i].at_output <= #[trigger] r@[j].at_output
            &&& forall|i: int| 0 <= i < r@.len() ==> marks_some(#[trigger] r@[i], ch, keep@)
            &&& forall|j: int| 0 <= j < ch.len() ==> marked_in(#[trigger] ch[j], r@, keep@)
        }),
{
    let ghost pc = |e: Event| is_chapter(e);
    let mut keyed: Vec<(u64, ChapterMarker)> = Vec::new();
    let mut i: usize = 0;
    while i < events.len()
        invariant
            0 <= i <= events@.len(),
            pc == (|e: Event| is_chapter(e)),
            forall|k: int| 0 <= k < keep@.len() ==> #[trigger] keep@[k].0 <= keep@[k].1,
            keep_len(keep@) <= u64::MAX,
            keyed@.len() == select(events@.take(i as int), pc).len(),
            forall|k: int| 0 <= k < keyed@.len() ==> keyed_ok(#[trigger] keyed@[k], select(events@.take(i as int), pc)[k], keep@),
        decreases events@.len() - i,
    {
        proof {
            lemma_select_step(events@, i as int, pc);
        }
        let ev = &events[i];
        let ghost old_keyed = keyed@;
        if ev.event_type == EventType::StructureChapter {
            let at_source = ev.span.start;
            let at_output = keep_source_to_output(at_source, keep);
            let title = match &ev.payload.title {
                Some(t) => t.clone(),
                None => String::from_str("Capítulo"),
            };
            keyed.push((at_output, ChapterMarker { index: 0, title, at_output, at_source }));
        }
        proof {
            let sel = select(events@.take(i as int + 1), pc);
            let sel0 = select(events@.take(i as int), pc);
            assert forall|k: int| 0 <= k < keyed@.len() implies keyed_ok(#[trigger] keyed@[k], sel[k], keep@) by {
                if k < old_keyed.len() {
                    assert(keyed@[k] == old_keyed[k]);
                    assert(keyed_ok(old_keyed[k], sel0[k], keep@));
                    assert(sel[k] == sel0[k]);
                } else {
                    assert(sel[k] == events@[i as int]);
                }
            }
        }
        i = i + 1;
    }
    proof {
        assert(events@.take(events@.len() as int) =~= events@);
    }
    let ghost ch = chapter_events(events@);
    proof {
        assert(ch == select(events@, pc));
    }
    let ghost before = keyed@;
    let sorted = sort_by_key(keyed);
    proof {
        broadcast use vstd::seq_lib::group_to_multiset_ensures;
        assert forall|x: (u64, ChapterMarker)| sorted@.contains(x) <==> before.contains(x) by {
            assert(sorted@.to_multiset().count(x) == before.to_multiset().count(x));
        }
    }
    let mut r: Vec<ChapterMarker> = Vec::new();
    let mut k: usize = 0;
    let mut sorted = sorted;
    let ghost sv = sorted@;
    let sv_len = sorted.len();
    // take the markers out front to back, numbering them
    let mut rev: Vec<(u64, ChapterMarker)> = Vec::new();
    while sorted.len() > 0
        invariant
            sorted@.len() + rev@.len() == sv.len(),
            forall|m: int| 0 <= m < sorted@.len() ==> #[trigger] sorted@[m] == sv[m],
            forall|m: int| 0 <= m < rev@.len() ==> #[trigger] rev@[m] == sv[sv.len() - 1 - m],
        decreases sorted@.len(),
    {
        let x = sorted.pop().unwrap();
        rev.push(x);
    }
    while rev.len() > 0
        invariant
            rev@.len() + r@.len() == sv.len(),
            forall|m: int| 0 <= m < rev@.len() ==> #[trigger] rev@[m] == sv[sv.len() - 1 - m],
            forall|m: int| 0 <= m < r@.len() ==> (#[trigger] r@[m]).index == m && r@[m].title == sv[m].1.title
                && r@[m].at_output == sv[m].1.at_output && r@[m].at_source == sv[m].1.at_source,
            k == r@.len(),
            sv_len == sv.len(),
        decreases rev@.len(),
    {
        let (_, mk) = rev.pop().unwrap();
        let m2 = ChapterMarker { index: k as u64, title: mk.title, at_output: mk.at_output, at_source: mk.at_source };
        r.push(m2);
        k = k + 1;
    }
    proof {
        assert forall|i2: int, j2: int| 0 <= i2 < j2 < r@.len() implies #[trigger] r@[i2].at_output <= #[trigger] r@[j2].at_output by {
            assert(sv[i2].0 <= sv[j2].0);
            assert(before.contains(sv[i2]));
            assert(before.contains(sv[j2]));
            let a = choose|a: int| 0 <= a < before.len() && before[a] == sv[i2];
            let b = choose|b: int| 0 <= b < before.len() && before[b] == sv[j2];
            assert(keyed_ok(before[a], ch[a], keep@));
            assert(keyed_ok(before[b], ch[b], keep@));
        }
        assert forall|i2: int| 0 <= i2 < r@.len() implies marks_some(#[trigger] r@[i2], ch, keep@) by {
            assert(sorted_contains(sv, i2));
            assert(before.contains(sv[i2]));
            let a = choose|a: int| 0 <= a < before.len() && before[a] == sv[i2];
            assert(keyed_ok(before[a], ch[a], keep@));
            assert(marks_chapter(r@[i2], ch[a], keep@));
        }
        assert forall|j: int| 0 <= j < ch.len() implies marked_in(#[trigger] ch[j], r@, keep@) by {
            assert(before.contains(before[j]));
            let a = choose|a: int| 0 <= a < sv.len() && sv[a] == before[j];
            assert(keyed_ok(before[j], ch[j], keep@));
            assert(r@[a].index == a);
            assert(marks_chapter(r@[a], ch[j], keep@));
        }
        assert(r@.len() == ch.len());
        assert(forall|i: int| 0 <= i < r@.len() ==> (#[trigger] r@[i]).index == i);
    }
    r
}

spec fn sorted_contains(sv: Seq<(u64, ChapterMarker)>, i: int) -> bool {
    0 <= i < sv.len() ==> sv.contains(sv[i])
}


/// A short-candidate event.
pub open spec fn is_short(e: Event) -> bool {
    e.event_type == EventType::StructureShort
}

/// The short-candidate events, in order.
pub open spec fn short_events(evs: Seq<Event>) -> Seq<Event> {
    select(evs, |e: Event| is_short(e))
}

/// The reason a short event gives: its payload reason, or "speech_block".
pub open spec fn short_reason(e: Event) -> Seq<char> {
    match e.payload.reason {
        Some(t) => t@,
        None => "speech_block"@,
    }
}

/// `c` presents short event `e`, with the event's id where it has one and a
/// fresh non-empty id otherwise.
pub open spec fn presents_short(c: ShortCandidate, e: Event) -> bool {
    &&& c.start == e.span.start
    &&& c.end == e.span.end
    &&& c.score == e.score
    &&& c.reason@ == short_reason(e)
    &&& (if e.id@.len() > 0 { c.id@ == e.id@ } else { c.id@.len() > 0 })
}

/// `c` presents one of the short events `sh`.
pub open spec fn presents_some(c: ShortCandidate, sh: Seq<Event>) -> bool {
    exists|j: int| 0 <= j < sh.len() && presents_short(c, #[trigger] sh[j])
}

/// Short event `e` is presented by one of the candidates `r`.
pub open spec fn presented_in(e: Event, r: Seq<ShortCandidate>) -> bool {
    exists|i: int| 0 <= i < r.len() && presents_short(#[trigger] r[i], e)
}

/// A keyed short candidate for event `e`: keyed so that higher scores come first.
pub open spec fn short_keyed_ok(x: (u64, ShortCandidate), e: Event) -> bool {
    x.0 == 4294967295 - x.1.score && x.1.start == e.span.start && x.1.end == e.span.end
        && x.1.score == e.score && x.1.reason@ == short_reason(e) && x.1.id@ == e.id@
}

spec fn short_sorted_contains(sv: Seq<(u64, ShortCandidate)>, i: int) -> bool {
    0 <= i < sv.len() ==> sv.contains(sv[i])
}

/// Short-candidate events as candidates, highest score first; an event
/// without an id gets a fresh one.
pub fn shorts_from_events(events: &Vec<Event>) -> (r: Vec<ShortCandidate>)
    ensures
        ({
            let sh = short_events(events@);
            &&& r@.len() == sh.len()
            &&& forall|i: int, j: int| 0 <= i < j < r@.len() ==> #[trigger] r@[i].score >= #[trigger] r@[j].score
            &&& forall|i: int| 0 <= i < r@.len() ==> presents_some(#[trigger] r@[i], sh)
            &&& forall|j: int| 0 <= j < sh.len() ==> presented_in(#[trigger] sh[j], r@)
        }),
{
    let ghost pc = |e: Event| is_short(e);
    let mut keyed: Vec<(u64, ShortCandidate)> = Vec::new();
    let mut i: usize = 0;
    while i < events.len()
        invariant
            0 <= i <= events@.len(),
            pc == (|e: Event| is_short(e)),
            keyed@.len() == select(events@.take(i as int), pc).len(),
            forall|k: int| 0 <= k < keyed@.len() ==> short_keyed_ok(#[trigger] keyed@[k], select(events@.take(i as int), pc)[k]),
        decreases events@.len() - i,
    {
        proof {
            lemma_select_step(events@, i as int, pc);
        }
        let ev = &events[i];
        let ghost old_keyed = keyed@;
        if ev.event_type == EventType::StructureShort {
            let reason = match &ev.payload.reason {
                Some(t) => t.clone(),
                None => String::from_str("speech_block"),
            };
            let c = ShortCandidate { id: ev.id.clone(), start: ev.span.start, end: ev.span.end, score: ev.score, reason };
            keyed.push((4294967295u64 - ev.score as u64, c));
        }
        proof {
            let sel = select(events@.take(i as int + 1), pc);
            let sel0 = select(events@.take(i as int), pc);
            assert forall|k: int| 0 <= k < keyed@.len() implies short_keyed_ok(#[trigger] keyed@[k], sel[k]) by {
                if k < old_keyed.len() {
                    assert(keyed@[k] == old_keyed[k]);
                    assert(short_keyed_ok(old_keyed[k], sel0[k]));
                    assert(sel[k] == sel0[k]);
                } else {
                    assert(sel[k] == events@[i as int]);
                }
            }
        }
        i = i + 1;
    }
    proof {
        assert(events@.take(events@.len() as int) =~= events@);
    }
    let ghost sh = short_events(events@);
    proof {
        assert(sh == select(events@, pc));
    }
    let ghost before = keyed@;
    let sorted = sort_by_key(keyed);
    proof {
        broadcast use vstd::seq_lib::group_to_multiset_ensures;
        assert forall|x: (u64, ShortCandidate)| sorted@.contains(x) <==> before.contains(x) by {
            assert(sorted@.to_multiset().count(x) == before.to_multiset().count(x));
        }
    }
    let mut sorted = sorted;
    let ghost sv = sorted@;
    // take the candidates out front to back
    let mut rev: Vec<(u64, ShortCandidate)> = Vec::new();
    while sorted.len() > 0
        invariant
            sorted@.len() + rev@.len() == sv.len(),
            forall|m: int| 0 <= m < sorted@.len() ==> #[trigger] sorted@[m] == sv[m],
            forall|m: int| 0 <= m < rev@.len() ==> #[trigger] rev@[m] == sv[sv.len() - 1 - m],
        decreases sorted@.len(),
    {
        let x = sorted.pop().unwrap();
        rev.push(x);
    }
    let mut r: Vec<ShortCandidate> = Vec::new();
    while rev.len() > 0
        invariant
            rev@.len() + r@.len() == sv.len(),
            forall|m: int| 0 <= m < rev@.len() ==> #[trigger] rev@[m] == sv[sv.len() - 1 - m],
            forall|m: int| 0 <= m < r@.len() ==> (#[trigger] r@[m]).start == sv[m].1.start
                && r@[m].end == sv[m].1.end && r@[m].score == sv[m].1.score && r@[m].reason == sv[m].1.reason
                && (if sv[m].1.id@.len() > 0 { r@[m].id@ == sv[m].1.id@ } else { r@[m].id@.len() > 0 }),
        decreases rev@.len(),
    {
        let (_, c) = rev.pop().unwrap();
        let id = if c.id.as_str().is_empty() { new_id() } else { c.id };
        r.push(ShortCandidate { id, start: c.start, end: c.end, score: c.score, reason: c.reason });
    }
    proof {
        assert forall|i2: int, j2: int| 0 <= i2 < j2 < r@.len() implies #[trigger] r@[i2].score >= #[trigger] r@[j2].score by {
            assert(sv[i2].0 <= sv[j2].0);
            assert(before.contains(sv[i2]));
            assert(before.contains(sv[j2]));
            let a = choose|a: int| 0 <= a < before.len() && before[a] == sv[i2];
            let b = choose|b: int| 0 <= b < before.len() && before[b] == sv[j2];
            assert(short_keyed_ok(before[a], sh[a]));
            assert(short_keyed_ok(before[b], sh[b]));
        }
        assert forall|i2: int| 0 <= i2 < r@.len() implies presents_some(#[trigger] r@[i2], sh) by {
            assert(short_sorted_contains(sv, i2));
            assert(before.contains(sv[i2]));
            let a = choose|a: int| 0 <= a < before.len() && before[a] == sv[i2];
            assert(short_keyed_ok(before[a], sh[a]));
            assert(presents_short(r@[i2], sh[a]));
        }
        assert forall|j: int| 0 <= j < sh.len() implies presented_in(#[trigger] sh[j], r@) by {
            assert(before.contains(before[j]));
            let a = choose|a: int| 0 <= a < sv.len() && sv[a] == before[j];
            assert(short_keyed_ok(before[j], sh[j]));
            assert(presents_short(r@[a], sh[j]));
        }
        assert(r@.len() == sh.len());
    }
    r
}

} // verus!
