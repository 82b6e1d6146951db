//! From raw silence ranges to speech/silence events with heuristic scores.
use vstd::prelude::*;

use crate::events::{Event, EventPayload, EventType};
use crate::export::views;
use crate::policy::PolicyConfig;
use crate::ranges::{merge_sorted, merged_from, lemma_merged_same_elems, sort_by_start};
use crate::text::{has_sub, to_chars, chars_eq, contains_sub};
use crate::timeline::Span;

verus! {

/// Heuristic confidence (thousandths) that a silence of `d` ms found by `method`
/// is a true gap: base by method, longer silences up to +100, very short ones -80,
/// clamped to 500..980.
pub open spec fn silence_conf(d: u64, method: Seq<char>) -> u32 {
    let base: int = if method == "silero_vad"@ { 930 } else if has_sub(method, "silero"@) { 880 } else { 840 };
    let boost: int = if d <= 500 { 0 } else if (d - 500) / 2 > 100 { 100 } else { (d - 500) / 2 };
    let penalty: int = if d < 550 { 80 } else { 0 };
    let v = base + boost - penalty;
    (if v < 500 { 500 } else if v > 980 { 980 } else { v }) as u32
}

/// Confidence (thousandths) of a silence of `duration` ms found by `method`.
pub fn silence_confidence(duration: u64, method: &str) -> (c: u32)
    ensures
        c == silence_conf(duration, method@),
{
    let m = to_chars(method);
    let sv = to_chars("silero_vad");
    let si = to_chars("silero");
    let base: i64 = if chars_eq(&m, &sv) { 930 } else if contains_sub(&m, &si) { 880 } else { 840 };
    let boost: i64 = if duration <= 500 { 0 } else if (duration - 500) / 2 > 100 { 100 } else { ((duration - 500) / 2) as i64 };
    let penalty: i64 = if duration < 550 { 80 } else { 0 };
    let v = base + boost - penalty;
    (if v < 500 { 500 } else if v > 980 { 980 } else { v }) as u32
}

/// Noise floor in hundredths of a dB for a detection threshold in thousandths:
/// -50 dB plus 30 dB times the threshold clamped to 0.05..0.95.
pub fn threshold_to_noise_db(threshold: u32) -> (db: i64)
    ensures
        db == -5000 + 3 * (if threshold < 50 { 50 } else if threshold > 950 { 950 } else { threshold as int }),
{
    let t: i64 = if threshold < 50 { 50 } else if threshold > 950 { 950 } else { threshold as i64 };
    -5000 + 3 * t
}

/// A raw silence range after padding is taken off both ends and it is clipped to the source.
pub open spec fn cleaned_range(x: (u64, u64), pad: u64, duration: u64) -> (u64, u64) {
    let sp: int = if x.0 + pad > u64::MAX { u64::MAX as int } else { x.0 + pad };
    let start: int = if sp < x.1 { sp } else { x.1 as int };
    let ep: int = if x.1 >= pad { x.1 - pad } else { 0 };
    let end: int = if ep > start { ep } else { start };
    (start as u64, (if end < duration { end } else { duration as int }) as u64)
}

/// A cleaned silence is kept when it is not inverted and lasts at least the minimum.
pub open spec fn silence_kept(c: (u64, u64), min_dur: u64) -> bool {
    c.1 >= c.0 && c.1 - c.0 >= min_dur
}

/// The cleaned silences that are kept, in input order.
pub open spec fn cleaned_silences(v: Seq<(u64, u64)>, pad: u64, duration: u64, min_dur: u64) -> Seq<(u64, u64)>
    decreases v.len(),
{
    if v.len() == 0 {
        Seq::empty()
    } else {
        let prev = cleaned_silences(v.drop_last(), pad, duration, min_dur);
        let c = cleaned_range(v.last(), pad, duration);
        if silence_kept(c, min_dur) { prev.push(c) } else { prev }
    }
}

/// One planned event: type, start, end, score.
pub type Planned = (EventType, u64, u64, u32);

/// End of the last merged silence (0 when none).
pub open spec fn last_end(m: Seq<(u64, u64)>) -> u64 {
    if m.len() == 0 { 0 } else { m.last().1 }
}

/// Speech before each merged silence (when the gap exceeds 10 ms) and the silence itself.
pub open spec fn plan_body(m: Seq<(u64, u64)>, method: Seq<char>) -> Seq<Planned>
    decreases m.len(),
{
    if m.len() == 0 {
        Seq::empty()
    } else {
        let p = m.drop_last();
        let c = last_end(p);
        let (s, e) = m.last();
        let gap: Seq<Planned> = if s > c + 10 { seq![(EventType::AudioSpeech, c, s, 900u32)] } else { Seq::empty() };
        plan_body(p, method) + gap + seq![(EventType::AudioSilence, s, e, silence_conf((e - s) as u64, method))]
    }
}

/// The full plan: body, trailing speech when more than 10 ms remain, or one full
/// speech event when nothing else was planned and the source is not empty.
pub open spec fn plan_events(m: Seq<(u64, u64)>, duration: u64, method: Seq<char>) -> Seq<Planned> {
    let c = last_end(m);
    let tail: Seq<Planned> = if c + 10 < duration { seq![(EventType::AudioSpeech, c, duration, 900u32)] } else { Seq::empty() };
    let all = plan_body(m, method) + tail;
    if all.len() == 0 && duration > 0 { seq![(EventType::AudioSpeech, 0u64, duration, 1000u32)] } else { all }
}

/// Tags of a planned event.
pub open spec fn plan_tags(p: Planned, thr: u32) -> Seq<Seq<char>> {
    if p.0 == EventType::AudioSilence {
        seq!["removable_candidate"@, if p.3 >= thr { "auto_cut_eligible"@ } else { "needs_review"@ }]
    } else {
        seq!["keep_default"@]
    }
}

/// `e` is the event planned as `p`.
pub open spec fn event_is(e: Event, p: Planned, run_id: Seq<char>, method: Seq<char>, thr: u32) -> bool {
    &&& e.event_type == p.0
    &&& e.span == Span { start: p.1, end: p.2 }
    &&& e.score == p.3
    &&& e.run_id@ == run_id
    &&& e.source@ == method
    &&& views(e.tags@) == plan_tags(p, thr)
}

fn clean_silences(silences: &Vec<(u64, u64)>, pad: u64, duration: u64, min_dur: u64) -> (c: Vec<(u64, u64)>)
    ensures
        c@ == cleaned_silences(silences@, pad, duration, min_dur),
{
    let mut c: Vec<(u64, u64)> = Vec::new();
    let mut i: usize = 0;
    while i < silences.len()
        invariant
            0 <= i <= silences@.len(),
            c@ == cleaned_silences(silences@.take(i as int), pad, duration, min_dur),
        decreases silences@.len() - i,
    {
        proof {
            assert(silences@.take(i as int + 1).drop_last() =~= silences@.take(i as int));
        }
        let (s, e) = silences[i];
        let sp = if s > u64::MAX - pad { u64::MAX } else { s + pad };
        let start = if sp < e { sp } else { e };
        let ep = if e >= pad { e - pad } else { 0 };
        let end0 = if ep > start { ep } else { start };
        let end = if end0 < duration { end0 } else { duration };
        if end >= start && end - start >= min_dur {
            c.push((start, end));
        }
        i = i + 1;
    }
    proof {
        assert(silences@.take(silences@.len() as int) =~= silences@);
    }
    c
}

fn speech_event(run_id: &str, method: &str, s: u64, e: u64, score: u32) -> (ev: Event)
    ensures
        forall|thr: u32| event_is(ev, (EventType::AudioSpeech, s, e, score), run_id@, method@, thr),
{
    let ev = Event::new(run_id, EventType::AudioSpeech, method, Span::new(s, e), score, EventPayload::empty());
    let ev = ev.with_tag("keep_default");
    proof {
        assert(views(ev.tags@) =~= seq!["keep_default"@]);
    }
    ev
}

fn silence_event(run_id: &str, method: &str, s: u64, e: u64, score: u32, thr: u32) -> (ev: Event)
    ensures
        event_is(ev, (EventType::AudioSilence, s, e, score), run_id@, method@, thr),
        ev.payload.method matches Some(m) && m@ == method@,
{
    let mut payload = EventPayload::empty();
    payload.method = Some(String::from_str(method));
    let ev = Event::new(run_id, EventType::AudioSilence, method, Span::new(s, e), score, payload);
    let ev = ev.with_tag("removable_candidate");
    let ev = if score >= thr { ev.with_tag("auto_cut_eligible") } else { ev.with_tag("needs_review") };
    proof {
        assert(views(ev.tags@) =~= plan_tags((EventType::AudioSilence, s, e, score), thr));
    }
    ev
}

/// A silence range that lasts at least `min_dur`.
pub open spec fn lasts_at_least(c: (u64, u64), min_dur: u64) -> bool {
    c.0 <= c.1 && c.1 - c.0 >= min_dur
}

proof fn lemma_cleaned_silences(v: Seq<(u64, u64)>, pad: u64, duration: u64, min_dur: u64)
    ensures
        forall|q: int| 0 <= q < cleaned_silences(v, pad, duration, min_dur).len()
            ==> lasts_at_least(#[trigger] cleaned_silences(v, pad, duration, min_dur)[q], min_dur),
        forall|k: int| 0 <= k < v.len() && lasts_at_least(cleaned_range(#[trigger] v[k], pad, duration), min_dur)
            ==> cleaned_silences(v, pad, duration, min_dur).contains(cleaned_range(v[k], pad, duration)),
    decreases v.len(),
{
    if v.len() > 0 {
        let v0 = v.drop_last();
        lemma_cleaned_silences(v0, pad, duration, min_dur);
        let prev = cleaned_silences(v0, pad, duration, min_dur);
        let cur = cleaned_silences(v, pad, duration, min_dur);
        assert forall|k: int| 0 <= k < v.len() && lasts_at_least(cleaned_range(#[trigger] v[k], pad, duration), min_dur)
            implies cur.contains(cleaned_range(v[k], pad, duration)) by {
            let c = cleaned_range(v[k], pad, duration);
            if k < v0.len() {
                assert(v0[k] == v[k]);
                let q = choose|q: int| 0 <= q < prev.len() && prev[q] == c;
                assert(cur[q] == prev[q]);
            } else {
                assert(v[k] == v.last());
                assert(cur[prev.len() as int] == c);
            }
        }
    }
}

/// Planned event `i` has the bounds of one of the merged silences.
pub open spec fn from_merged(p: Seq<Planned>, i: int, m: Seq<(u64, u64)>) -> bool {
    exists|j: int| 0 <= j < m.len() && p[i].1 == #[trigger] m[j].0 && p[i].2 == m[j].1
}

/// Some planned silence has the bounds of `r`.
pub open spec fn planned_silence(p: Seq<Planned>, r: (u64, u64)) -> bool {
    exists|i: int| 0 <= i < p.len() && (#[trigger] p[i]).0 == EventType::AudioSilence && p[i].1 == r.0 && p[i].2 == r.1
}

proof fn lemma_plan_body_silences(m: Seq<(u64, u64)>, method: Seq<char>)
    ensures
        forall|i: int| 0 <= i < plan_body(m, method).len() && (#[trigger] plan_body(m, method)[i]).0 == EventType::AudioSilence
            ==> from_merged(plan_body(m, method), i, m),
        forall|j: int| 0 <= j < m.len() ==> planned_silence(plan_body(m, method), #[trigger] m[j]),
        m.len() > 0 ==> plan_body(m, method).len() > 0,
    decreases m.len(),
{
    if m.len() > 0 {
        let p = m.drop_last();
        lemma_plan_body_silences(p, method);
        let pb = plan_body(p, method);
        let cur = plan_body(m, method);
        let c = last_end(p);
        let (s, e) = m.last();
        let gap: Seq<Planned> = if s > c + 10 { seq![(EventType::AudioSpeech, c, s, 900u32)] } else { Seq::empty() };
        assert(cur == pb + gap + seq![(EventType::AudioSilence, s, e, silence_conf((e - s) as u64, method))]);
        let last = cur.len() - 1;
        assert forall|i: int| 0 <= i < cur.len() && (#[trigger] cur[i]).0 == EventType::AudioSilence
            implies from_merged(cur, i, m) by {
            if i < pb.len() {
                assert(cur[i] == pb[i]);
                assert(from_merged(pb, i, p));
                let j = choose|j: int| 0 <= j < p.len() && pb[i].1 == #[trigger] p[j].0 && pb[i].2 == p[j].1;
                assert(m[j] == p[j]);
            } else if i < pb.len() + gap.len() {
                assert(cur[i] == gap[i - pb.len()]);
            } else {
                assert(m[m.len() - 1] == m.last());
            }
        }
        assert forall|j: int| 0 <= j < m.len() implies planned_silence(cur, #[trigger] m[j]) by {
            if j < p.len() {
                assert(m[j] == p[j]);
                assert(planned_silence(pb, p[j]));
                let i = choose|i: int| 0 <= i < pb.len() && (#[trigger] pb[i]).0 == EventType::AudioSilence
                    && pb[i].1 == p[j].0 && pb[i].2 == p[j].1;
                assert(cur[i] == pb[i]);
            } else {
                assert(m[j] == m.last());
                assert(cur[last] == (EventType::AudioSilence, s, e, silence_conf((e - s) as u64, method)));
            }
        }
    }
}

proof fn lemma_merged_lengths(m: Seq<(u64, u64)>, v: Seq<(u64, u64)>, min_dur: u64)
    requires
        merged_from(m, v, 0, 0),
        forall|q: int| 0 <= q < v.len() ==> lasts_at_least(#[trigger] v[q], min_dur),
    ensures
        forall|j: int| 0 <= j < m.len() ==> lasts_at_least(#[trigger] m[j], min_dur),
{
    reveal(crate::ranges::mf_sep);
    reveal(crate::ranges::mf_wf);
    reveal(crate::ranges::mf_cover);
    reveal(crate::ranges::mf_starts);
    assert forall|j: int| 0 <= j < m.len() implies lasts_at_least(#[trigger] m[j], min_dur) by {
        assert(crate::ranges::start_of_some(v, 0, m[j].0));
        let k = choose|k: int| 0 <= k < v.len() && crate::ranges::long_enough(#[trigger] v[k], 0) && v[k].0 == m[j].0;
        assert(lasts_at_least(v[k], min_dur));
        if min_dur > 0 {
            assert(crate::ranges::inside_some(m, v[k]));
            let a = choose|a: int| 0 <= a < m.len() && #[trigger] m[a].0 <= v[k].0 && v[k].1 <= m[a].1;
            if a < j {
                assert(m[a].1 + 0 < m[j].0);
            } else if a > j {
                assert(m[j].1 + 0 < m[a].0);
            }
        }
    }
}

/// Turn raw silence ranges into alternating speech/silence events covering the
/// source: padding taken off each silence, too-short ones dropped, the rest
/// merged where they overlap, speech filling the gaps longer than 10 ms.
pub fn ranges_to_events(run_id: &str, duration: u64, silences: &Vec<(u64, u64)>, method: &str, policy: &PolicyConfig) -> (events: Vec<Event>)
    ensures
        exists|m: Seq<(u64, u64)>| {
            &&& #[trigger] merged_from(m, cleaned_silences(silences@, policy.padding, duration, policy.min_silence_duration), 0, 0)
            &&& events@.len() == plan_events(m, duration, method@).len()
            &&& forall|i: int| 0 <= i < events@.len() ==> event_is(#[trigger] events@[i], plan_events(m, duration, method@)[i], run_id@, method@, policy.auto_approve_min_score)
        },
        forall|i: int| 0 <= i < events@.len() && (#[trigger] events@[i]).event_type == EventType::AudioSilence
            ==> events@[i].span.start <= events@[i].span.end
                && events@[i].span.end - events@[i].span.start >= policy.min_silence_duration,
        forall|k: int| 0 <= k < silences@.len()
            && lasts_at_least(cleaned_range(#[trigger] silences@[k], policy.padding, duration), policy.min_silence_duration)
            ==> exists|i: int| 0 <= i < events@.len() && events@[i].event_type == EventType::AudioSilence
                && events@[i].span.start <= cleaned_range(silences@[k], policy.padding, duration).0
                && cleaned_range(silences@[k], policy.padding, duration).1 <= events@[i].span.end,
{
    let thr = policy.auto_approve_min_score;
    let cleaned = clean_silences(silences, policy.padding, duration, policy.min_silence_duration);
    let sorted = sort_by_start(&cleaned);
    let merged = merge_sorted(&sorted, 0, 0);
    proof {
        lemma_merged_same_elems(merged@, sorted@, cleaned@, 0, 0);
        reveal(crate::ranges::mf_wf);
    }
    let mut events: Vec<Event> = Vec::new();
    let mut cursor: u64 = 0;
    let mut i: usize = 0;
    while i < merged.len()
        invariant
            0 <= i <= merged@.len(),
            forall|k: int| 0 <= k < merged@.len() ==> #[trigger] merged@[k].0 <= merged@[k].1,
            cursor == last_end(merged@.take(i as int)),
            events@.len() == plan_body(merged@.take(i as int), method@).len(),
            forall|k: int| 0 <= k < events@.len() ==> event_is(#[trigger] events@[k], plan_body(merged@.take(i as int), method@)[k], run_id@, method@, thr),
        decreases merged@.len() - i,
    {
        let (s, e) = merged[i];
        let ghost p = merged@.take(i as int);
        let ghost q = merged@.take(i as int + 1);
        let ghost old_ev = events@;
        proof {
            assert(q.drop_last() =~= p);
            assert(q.last() == (s, e));
        }
        if cursor < s && s - cursor > 10 {
            let sp = speech_event(run_id, method, cursor, s, 900);
            events.push(sp);
        }
        let ghost mid = events@;
        let score = silence_confidence(if e >= s { e - s } else { 0 }, method);
        let sil = silence_event(run_id, method, s, e, score, thr);
        events.push(sil);
        proof {
            assert(merged@[i as int].0 <= merged@[i as int].1);
            let gap: Seq<Planned> = if s > cursor + 10 { seq![(EventType::AudioSpeech, cursor, s, 900u32)] } else { Seq::empty() };
            let newp = plan_body(q, method@);
            assert(newp == plan_body(p, method@) + gap + seq![(EventType::AudioSilence, s, e, silence_conf((e - s) as u64, method@))]);
            assert forall|k: int| 0 <= k < events@.len() implies event_is(#[trigger] events@[k], newp[k], run_id@, method@, thr) by {
                if k < old_ev.len() {
                    assert(events@[k] == old_ev[k]);
                    assert(newp[k] == plan_body(p, method@)[k]);
                } else if k < mid.len() {
                    assert(newp[k] == gap[0]);
                } else {
                    assert(events@[k] == sil);
                }
            }
        }
        cursor = e;
        i = i + 1;
    }
    proof {
        assert(merged@.take(merged@.len() as int) =~= merged@);
    }
    let ghost body = events@;
    if duration > 10 && cursor < duration - 10 {
        let sp = speech_event(run_id, method, cursor, duration, 900);
        events.push(sp);
    }
    let ghost after_tail = events@;
    if events.len() == 0 && duration > 0 {
        let sp = speech_event(run_id, method, 0, duration, 1000);
        events.push(sp);
    }
    proof {
        let m = merged@;
        let planned = plan_events(m, duration, method@);
        let c = last_end(m);
        let tail: Seq<Planned> = if c + 10 < duration { seq![(EventType::AudioSpeech, c, duration, 900u32)] } else { Seq::empty() };
        let all = plan_body(m, method@) + tail;
        assert(after_tail.len() == all.len());
        assert forall|k: int| 0 <= k < events@.len() implies event_is(#[trigger] events@[k], planned[k], run_id@, method@, thr) by {
            if all.len() == 0 && duration > 0 {
                assert(planned[k] == (EventType::AudioSpeech, 0u64, duration, 1000u32));
            } else if k < body.len() {
                assert(planned[k] == plan_body(m, method@)[k]);
                assert(events@[k] == body[k]);
            } else {
                assert(planned[k] == tail[0]);
            }
        }
        assert(merged_from(m, cleaned_silences(silences@, policy.padding, duration, policy.min_silence_duration), 0, 0));
        let cl = cleaned_silences(silences@, policy.padding, duration, policy.min_silence_duration);
        lemma_cleaned_silences(silences@, policy.padding, duration, policy.min_silence_duration);
        lemma_merged_lengths(m, cl, policy.min_silence_duration);
        lemma_plan_body_silences(m, method@);
        let pb = plan_body(m, method@);
        assert forall|i: int| 0 <= i < events@.len() && (#[trigger] events@[i]).event_type == EventType::AudioSilence
            implies events@[i].span.start <= events@[i].span.end
                && events@[i].span.end - events@[i].span.start >= policy.min_silence_duration by {
            assert(event_is(events@[i], planned[i], run_id@, method@, thr));
            assert(!(all.len() == 0 && duration > 0));
            assert(i < pb.len());
            assert(planned[i] == pb[i]);
            assert(from_merged(pb, i, m));
            let j = choose|j: int| 0 <= j < m.len() && pb[i].1 == #[trigger] m[j].0 && pb[i].2 == m[j].1;
            assert(lasts_at_least(m[j], policy.min_silence_duration));
        }
        assert forall|k: int| 0 <= k < silences@.len()
            && lasts_at_least(cleaned_range(#[trigger] silences@[k], policy.padding, duration), policy.min_silence_duration)
            implies exists|i: int| 0 <= i < events@.len() && events@[i].event_type == EventType::AudioSilence
                && events@[i].span.start <= cleaned_range(silences@[k], policy.padding, duration).0
                && cleaned_range(silences@[k], policy.padding, duration).1 <= events@[i].span.end by {
            let c = cleaned_range(silences@[k], policy.padding, duration);
            assert(cl.contains(c));
            let q = choose|q: int| 0 <= q < cl.len() && cl[q] == c;
            reveal(crate::ranges::mf_cover);
            assert(crate::ranges::long_enough(cl[q], 0));
            assert(crate::ranges::inside_some(m, cl[q]));
            let a = choose|a: int| 0 <= a < m.len() && #[trigger] m[a].0 <= c.0 && c.1 <= m[a].1;
            assert(planned_silence(pb, m[a]));
            let i = choose|i: int| 0 <= i < pb.len() && (#[trigger] pb[i]).0 == EventType::AudioSilence
                && pb[i].1 == m[a].0 && pb[i].2 == m[a].1;
            assert(m.len() > 0);
            assert(!(all.len() == 0 && duration > 0));
            assert(planned[i] == pb[i]);
            assert(event_is(events@[i], planned[i], run_id@, method@, thr));
        }
    }
    events
}

} // verus!
