//! Source timeline <-> output timeline mapping built from keep ranges.
use vstd::prelude::*;

use crate::timeline::{len_of, Span};

verus! {

/// Sum of the lengths of the non-empty keep ranges of `keep`.
pub open spec fn keep_total(keep: Seq<(u64, u64)>) -> int
    decreases keep.len(),
{
    if keep.len() == 0 {
        0
    } else {
        keep_total(keep.drop_last()) + len_of(keep.last().0, keep.last().1)
    }
}

/// The mapped ranges that a keep list yields: inverted or empty entries are
/// skipped and each kept range starts on the output timeline where the
/// previous one ended.
pub open spec fn mapped_ranges(keep: Seq<(u64, u64)>) -> Seq<(u64, u64, u64)>
    decreases keep.len(),
{
    if keep.len() == 0 {
        Seq::empty()
    } else {
        let prev = mapped_ranges(keep.drop_last());
        let (s, e) = keep.last();
        if e > s {
            prev.push((s, e, keep_total(keep.drop_last()) as u64))
        } else {
            prev
        }
    }
}

/// Total output length of mapped ranges.
pub open spec fn out_total(r: Seq<(u64, u64, u64)>) -> int
    decreases r.len(),
{
    if r.len() == 0 {
        0
    } else {
        out_total(r.drop_last()) + (r.last().1 - r.last().0)
    }
}

/// Mapped ranges are non-empty and laid end to end on the output timeline from zero.
pub open spec fn ranges_wf(r: Seq<(u64, u64, u64)>) -> bool {
    &&& forall|i: int| 0 <= i < r.len() ==> #[trigger] r[i].0 < r[i].1
    &&& forall|i: int| 0 <= i < r.len() ==> #[trigger] r[i].2 == out_total(r.take(i))
}

/// Source time `t` mapped through ranges `i..`: the first range with
/// `start <= t <= end` gives `output_start + (t - start)`.
pub open spec fn s2o_from(r: Seq<(u64, u64, u64)>, t: u64, i: int) -> Option<int>
    decreases r.len() - i,
{
    if i < 0 || i >= r.len() {
        None
    } else if r[i].0 <= t && t <= r[i].1 {
        Some(r[i].2 + (t - r[i].0))
    } else {
        s2o_from(r, t, i + 1)
    }
}

/// Index of the first range with `start <= t <= end`, searching from `i`.
pub open spec fn s2o_index(r: Seq<(u64, u64, u64)>, t: u64, i: int) -> int
    decreases r.len() - i,
{
    if i < 0 || i >= r.len() {
        r.len() as int
    } else if r[i].0 <= t && t <= r[i].1 {
        i
    } else {
        s2o_index(r, t, i + 1)
    }
}

/// Output time `t` mapped back through ranges `i..`: the first range whose
/// output interval `[o, o + len]` holds `t` gives `start + (t - o)`.
pub open spec fn o2s_from(r: Seq<(u64, u64, u64)>, t: u64, i: int) -> Option<int>
    decreases r.len() - i,
{
    if i < 0 || i >= r.len() {
        None
    } else if r[i].2 <= t && t <= r[i].2 + (r[i].1 - r[i].0) {
        Some(r[i].0 + (t - r[i].2))
    } else {
        o2s_from(r, t, i + 1)
    }
}

/// The output spans that the source span `[a, b)` survives as: one per mapped
/// range whose intersection with `[a, b)` is non-empty, in range order.
pub open spec fn map_span_seq(r: Seq<(u64, u64, u64)>, a: u64, b: u64) -> Seq<Span>
    decreases r.len(),
{
    if b <= a || r.len() == 0 {
        Seq::empty()
    } else {
        let prev = map_span_seq(r.drop_last(), a, b);
        let (s, e, o) = r.last();
        let is = if a > s { a } else { s };
        let ie = if b < e { b } else { e };
        if ie > is {
            prev.push(Span { start: (o + (is - s)) as u64, end: (o + (ie - s)) as u64 })
        } else {
            prev
        }
    }
}

/// Index of the longest span of `v` (the last one among equals); `-1` when empty.
pub open spec fn longest_index(v: Seq<Span>) -> int
    decreases v.len(),
{
    if v.len() == 0 {
        -1
    } else {
        let j = longest_index(v.drop_last());
        if j < 0 || len_of(v.last().start, v.last().end) >= len_of(v[j].start, v[j].end) {
            v.len() - 1
        } else {
            j
        }
    }
}

/// Map from the source timeline to the output timeline of an edit.
#[derive(Debug, Clone)]
pub struct TimeMap {
    /// (source_start, source_end, output_start)
    pub ranges: Vec<(u64, u64, u64)>,
    pub source_duration: u64,
    pub output_duration: u64,
}

impl TimeMap {
    /// The mapped ranges, in order.
    pub open spec fn spec_ranges(&self) -> Seq<(u64, u64, u64)> {
        self.ranges@
    }

    /// Well-formedness: ranges laid end to end, output duration is their total.
    pub open spec fn wf(&self) -> bool {
        &&& ranges_wf(self.ranges@)
        &&& self.output_duration == out_total(self.ranges@)
    }

    /// Build a map from keep ranges on the source timeline. Inverted or empty
    /// entries are skipped; the others are laid end to end on the output.
    pub fn from_keep_ranges(keep: &Vec<(u64, u64)>, source_duration: u64) -> (m: TimeMap)
        requires
            keep_total(keep@) <= u64::MAX,
        ensures
            m.wf(),
            m.spec_ranges() == mapped_ranges(keep@),
            m.source_duration == source_duration,
            m.output_duration == keep_total(keep@),
    {
        let mut ranges: Vec<(u64, u64, u64)> = Vec::new();
        let mut out_cursor: u64 = 0;
        let mut i: usize = 0;
        while i < keep.len()
            invariant
                0 <= i <= keep.len(),
                keep_total(keep@) <= u64::MAX,
                ranges@ == mapped_ranges(keep@.take(i as int)),
                out_cursor == keep_total(keep@.take(i as int)),
                ranges_wf(ranges@),
                out_cursor == out_total(ranges@),
            decreases keep.len() - i,
        {
            proof {
                lemma_keep_total_prefix(keep@, i as int + 1);
                assert(keep@.take(i as int + 1).drop_last() =~= keep@.take(i as int));
            }
            let (s, e) = keep[i];
            if e > s {
                let ghost old_r = ranges@;
                ranges.push((s, e, out_cursor));
                proof {
                    assert(ranges@.drop_last() =~= old_r);
                    assert forall|j: int| 0 <= j < ranges@.len() implies #[trigger] ranges@[j].2
                        == out_total(ranges@.take(j)) by {
                        if j < old_r.len() {
                            assert(ranges@.take(j) =~= old_r.take(j));
                        } else {
                            assert(ranges@.take(j) =~= old_r);
                        }
                    }
                }
                out_cursor = out_cursor + (e - s);
            }
            i = i + 1;
        }
        proof {
            assert(keep@.take(keep.len() as int) =~= keep@);
        }
        TimeMap { ranges, source_duration, output_duration: out_cursor }
    }

    /// Identity map over `[0, duration)`; empty when the duration is zero.
    pub fn identity(duration: u64) -> (m: TimeMap)
        ensures
            m.wf(),
            duration > 0 ==> m.spec_ranges() == seq![(0u64, duration, 0u64)],
            duration == 0 ==> m.spec_ranges().len() == 0,
            m.source_duration == duration,
            m.output_duration == duration,
    {
        let mut ranges: Vec<(u64, u64, u64)> = Vec::new();
        if duration > 0 {
            ranges.push((0, duration, 0));
            proof {
                assert(ranges@.take(0) =~= Seq::<(u64, u64, u64)>::empty());
                assert(ranges@.drop_last() =~= Seq::<(u64, u64, u64)>::empty());
                assert(out_total(ranges@.drop_last()) == 0);
                assert(out_total(ranges@) == duration);
                assert(ranges@[0].2 == out_total(ranges@.take(0)));
            }
        }
        TimeMap { ranges, source_duration: duration, output_duration: duration }
    }

    /// Map a source time to output time; `None` when the instant was cut.
    /// The end instant of a kept range maps to the end of its output range.
    pub fn source_to_output(&self, t: u64) -> (r: Option<u64>)
        requires
            self.wf(),
        ensures
            r matches Some(o) ==> s2o_from(self.spec_ranges(), t, 0) == Some(o as int),
            r is None ==> s2o_from(self.spec_ranges(), t, 0) is None,
    {
        let mut i: usize = 0;
        while i < self.ranges.len()
            invariant
                self.wf(),
                0 <= i <= self.ranges@.len(),
                s2o_from(self.ranges@, t, 0) == s2o_from(self.ranges@, t, i as int),
            decreases self.ranges@.len() - i,
        {
            let (s, e, o0) = self.ranges[i];
            if t >= s && t <= e {
                proof {
                    lemma_offset_bound(self.ranges@, i as int);
                }
                return Some(o0 + (t - s));
            }
            i = i + 1;
        }
        None
    }

    /// Map an output time back to the source timeline.
    pub fn output_to_source(&self, t: u64) -> (r: Option<u64>)
        requires
            self.wf(),
        ensures
            r matches Some(s) ==> o2s_from(self.spec_ranges(), t, 0) == Some(s as int),
            r is None ==> o2s_from(self.spec_ranges(), t, 0) is None,
    {
        let mut i: usize = 0;
        while i < self.ranges.len()
            invariant
                self.wf(),
                0 <= i <= self.ranges@.len(),
                o2s_from(self.ranges@, t, 0) == o2s_from(self.ranges@, t, i as int),
            decreases self.ranges@.len() - i,
        {
            let (s, e, o0) = self.ranges[i];
            proof {
                lemma_offset_bound(self.ranges@, i as int);
            }
            let len = e - s;
            if t >= o0 && t <= o0 + len {
                return Some(s + (t - o0));
            }
            i = i + 1;
        }
        None
    }

    /// Map a source span into zero or more output spans, split by cuts.
    pub fn map_source_span(&self, span: Span) -> (out: Vec<Span>)
        requires
            self.wf(),
        ensures
            out@ == map_span_seq(self.spec_ranges(), span.start, span.end),
    {
        let mut out: Vec<Span> = Vec::new();
        let a = span.start;
        let b = span.end;
        if b <= a {
            return out;
        }
        let mut i: usize = 0;
        while i < self.ranges.len()
            invariant
                self.wf(),
                b > a,
                0 <= i <= self.ranges@.len(),
                out@ == map_span_seq(self.ranges@.take(i as int), a, b),
            decreases self.ranges@.len() - i,
        {
            proof {
                assert(self.ranges@.take(i as int + 1).drop_last() =~= self.ranges@.take(i as int));
                lemma_offset_bound(self.ranges@, i as int);
            }
            let (s, e, o0) = self.ranges[i];
            let is = if a > s { a } else { s };
            let ie = if b < e { b } else { e };
            if ie > is {
                let os = o0 + (is - s);
                let oe = o0 + (ie - s);
                out.push(Span::new(os, oe));
            }
            i = i + 1;
        }
        proof {
            assert(self.ranges@.take(self.ranges@.len() as int) =~= self.ranges@);
        }
        out
    }

    /// The longest surviving output part of a source span (the last one among
    /// equally long parts); `None` when the span was fully removed.
    pub fn primary_output_span(&self, span: Span) -> (r: Option<Span>)
        requires
            self.wf(),
        ensures
            ({
                let parts = map_span_seq(self.spec_ranges(), span.start, span.end);
                &&& parts.len() == 0 ==> r is None
                &&& parts.len() > 0 ==> r == Some(parts[longest_index(parts)])
            }),
    {
        let parts = self.map_source_span(span);
        if parts.len() == 0 {
            return None;
        }
        let mut best: usize = 0;
        let mut k: usize = 1;
        proof {
            assert(parts@.take(1).drop_last() =~= Seq::<Span>::empty());
            assert(longest_index(parts@.take(1).drop_last()) == -1);
            assert(longest_index(parts@.take(1)) == 0);
        }
        while k < parts.len()
            invariant
                1 <= k <= parts@.len(),
                best < k,
                best as int == longest_index(parts@.take(k as int)),
            decreases parts@.len() - k,
        {
            proof {
                assert(parts@.take(k as int + 1).drop_last() =~= parts@.take(k as int));
                lemma_longest_index_bounds(parts@.take(k as int));
            }
            if parts[k].duration() >= parts[best].duration() {
                best = k;
            }
            k = k + 1;
        }
        proof {
            assert(parts@.take(parts@.len() as int) =~= parts@);
        }
        Some(parts[best])
    }

    /// A source span is fully removed when no part of it survives.
    pub fn is_fully_removed(&self, span: Span) -> (r: bool)
        requires
            self.wf(),
        ensures
            r == (map_span_seq(self.spec_ranges(), span.start, span.end).len() == 0),
    {
        let parts = self.map_source_span(span);
        parts.len() == 0
    }
}

/// Round trip on kept instants: a source instant that survives the edit maps to
/// an output instant that maps back to it. The one exception is the first
/// instant of a kept range other than the first, whose output instant is also
/// the end of the previous range and maps back to that end.
pub proof fn lemma_roundtrip_kept_point(m: TimeMap, t: u64)
    requires
        m.wf(),
        s2o_from(m.spec_ranges(), t, 0) is Some,
        s2o_index(m.spec_ranges(), t, 0) == 0 || t > m.spec_ranges()[s2o_index(m.spec_ranges(), t, 0)].0,
    ensures
        ({
            let o = s2o_from(m.spec_ranges(), t, 0)->0;
            &&& 0 <= o <= m.output_duration
            &&& o2s_from(m.spec_ranges(), o as u64, 0) == Some(t as int)
        }),
{
    let r = m.spec_ranges();
    lemma_s2o_index(r, t, 0);
    let j = s2o_index(r, t, 0);
    let o = s2o_from(r, t, 0)->0;
    lemma_offset_bound(r, j);
    assert forall|i: int| 0 <= i < j implies !(r[i].2 <= o && o <= r[i].2 + (r[i].1 - r[i].0)) by {
        lemma_offset_bound(r, i);
        lemma_out_total_mono(r, i + 1, j);
    }
    lemma_o2s_skip(r, o as u64, 0, j);
}

/// Keep ranges in order without overlap: each ends before the next starts.
pub open spec fn keep_sorted_disjoint(keep: Seq<(u64, u64)>) -> bool {
    forall|i: int, j: int| 0 <= i < j < keep.len() ==> #[trigger] keep[i].1 <= #[trigger] keep[j].0
}

proof fn lemma_mapped_from_keep(keep: Seq<(u64, u64)>, i: int)
    requires
        0 <= i < mapped_ranges(keep).len(),
    ensures
        exists|j: int| 0 <= j < keep.len() && #[trigger] keep[j].0 == mapped_ranges(keep)[i].0
            && keep[j].1 == mapped_ranges(keep)[i].1,
    decreases keep.len(),
{
    let prev = mapped_ranges(keep.drop_last());
    if i < prev.len() {
        lemma_mapped_from_keep(keep.drop_last(), i);
        let j = choose|j: int| 0 <= j < keep.drop_last().len() && #[trigger] keep.drop_last()[j].0 == prev[i].0
            && keep.drop_last()[j].1 == prev[i].1;
        assert(keep[j] == keep.drop_last()[j]);
    } else {
        assert(keep[keep.len() - 1] == keep.last());
    }
}

proof fn lemma_s2o_push_found(r: Seq<(u64, u64, u64)>, x: (u64, u64, u64), t: u64, i: int)
    requires
        0 <= i <= r.len(),
        s2o_index(r, t, i) < r.len(),
    ensures
        s2o_index(r.push(x), t, i) == s2o_index(r, t, i),
        s2o_from(r.push(x), t, i) == s2o_from(r, t, i),
    decreases r.len() - i,
{
    if !(r[i].0 <= t && t <= r[i].1) {
        lemma_s2o_push_found(r, x, t, i + 1);
    }
}

proof fn lemma_s2o_push_past(r: Seq<(u64, u64, u64)>, x: (u64, u64, u64), t: u64, i: int)
    requires
        0 <= i <= r.len(),
        forall|j: int| i <= j < r.len() ==> (#[trigger] r[j]).1 < t,
        x.0 <= t <= x.1,
    ensures
        s2o_index(r.push(x), t, i) == r.len(),
        s2o_from(r.push(x), t, i) == Some(x.2 + (t - x.0)),
    decreases r.len() - i,
{
    if i < r.len() {
        lemma_s2o_push_past(r, x, t, i + 1);
    }
}

proof fn lemma_s2o_in_keep(keep: Seq<(u64, u64)>, t: u64, k: int)
    requires
        keep_sorted_disjoint(keep),
        0 <= k < keep.len(),
        keep[k].0 < t < keep[k].1,
    ensures
        ({
            let r = mapped_ranges(keep);
            let j = s2o_index(r, t, 0);
            &&& j < r.len() && s2o_from(r, t, 0) is Some
            &&& t > r[j].0
        }),
    decreases keep.len(),
{
    let d = keep.drop_last();
    let prev = mapped_ranges(d);
    let r = mapped_ranges(keep);
    let (s, e) = keep.last();
    if k < keep.len() - 1 {
        assert(d[k] == keep[k]);
        assert forall|i: int, j: int| 0 <= i < j < d.len() implies #[trigger] d[i].1 <= #[trigger] d[j].0 by {
            assert(d[i] == keep[i] && d[j] == keep[j]);
        }
        lemma_s2o_in_keep(d, t, k);
        lemma_s2o_index(prev, t, 0);
        if e > s {
            lemma_s2o_push_found(prev, (s, e, keep_total(d) as u64), t, 0);
            assert(r == prev.push((s, e, keep_total(d) as u64)));
            assert(r[s2o_index(r, t, 0)] == prev[s2o_index(prev, t, 0)]);
        }
    } else {
        assert(keep[k] == keep.last());
        assert forall|j: int| 0 <= j < prev.len() implies (#[trigger] prev[j]).1 < t by {
            lemma_mapped_from_keep(d, j);
            let i = choose|i: int| 0 <= i < d.len() && #[trigger] d[i].0 == prev[j].0 && d[i].1 == prev[j].1;
            assert(d[i] == keep[i]);
            assert(keep[i].1 <= keep[k].0);
        }
        lemma_s2o_push_past(prev, (s, e, keep_total(d) as u64), t, 0);
        assert(r == prev.push((s, e, keep_total(d) as u64)));
    }
}

/// Round trip through a map built from keep ranges (`from_keep_ranges`
/// gives `m`): when the keep ranges are in order without overlap, an instant
/// strictly inside one of them maps to an output instant, and that output
/// instant maps back to it.
pub proof fn lemma_roundtrip_keep_ranges(keep: Seq<(u64, u64)>, m: TimeMap, t: u64, k: int)
    requires
        m.wf(),
        m.spec_ranges() == mapped_ranges(keep),
        keep_sorted_disjoint(keep),
        0 <= k < keep.len(),
        keep[k].0 < t < keep[k].1,
    ensures
        s2o_from(m.spec_ranges(), t, 0) is Some,
        o2s_from(m.spec_ranges(), s2o_from(m.spec_ranges(), t, 0)->0 as u64, 0) == Some(t as int),
{
    lemma_s2o_in_keep(keep, t, k);
    lemma_roundtrip_kept_point(m, t);
}

proof fn lemma_s2o_index(r: Seq<(u64, u64, u64)>, t: u64, i: int)
    requires
        0 <= i <= r.len(),
    ensures
        i <= s2o_index(r, t, i) <= r.len(),
        s2o_index(r, t, i) < r.len() ==> s2o_from(r, t, i) == Some(
            r[s2o_index(r, t, i)].2 + (t - r[s2o_index(r, t, i)].0),
        ),
        s2o_index(r, t, i) < r.len() ==> r[s2o_index(r, t, i)].0 <= t <= r[s2o_index(r, t, i)].1,
        s2o_index(r, t, i) == r.len() ==> s2o_from(r, t, i) is None,
    decreases r.len() - i,
{
    if i < r.len() && !(r[i].0 <= t && t <= r[i].1) {
        lemma_s2o_index(r, t, i + 1);
    }
}

proof fn lemma_o2s_skip(r: Seq<(u64, u64, u64)>, o: u64, i: int, j: int)
    requires
        0 <= i <= j < r.len(),
        forall|k: int| i <= k < j ==> !(r[k].2 <= o && o <= r[k].2 + (r[k].1 - r[k].0)),
        r[j].2 <= o && o <= r[j].2 + (r[j].1 - r[j].0),
    ensures
        o2s_from(r, o, i) == Some(r[j].0 + (o - r[j].2)),
    decreases j - i,
{
    if i < j {
        lemma_o2s_skip(r, o, i + 1, j);
    }
}

proof fn lemma_out_total_mono(r: Seq<(u64, u64, u64)>, a: int, b: int)
    requires
        ranges_wf(r),
        0 <= a <= b <= r.len(),
    ensures
        out_total(r.take(a)) <= out_total(r.take(b)),
    decreases b - a,
{
    if a < b {
        lemma_out_total_mono(r, a, b - 1);
        assert(r.take(b).drop_last() =~= r.take(b - 1));
    }
}

proof fn lemma_longest_index_bounds(v: Seq<Span>)
    ensures
        v.len() == 0 ==> longest_index(v) == -1,
        v.len() > 0 ==> 0 <= longest_index(v) < v.len(),
    decreases v.len(),
{
    if v.len() > 0 {
        lemma_longest_index_bounds(v.drop_last());
    }
}

proof fn lemma_keep_total_prefix(keep: Seq<(u64, u64)>, k: int)
    requires
        0 <= k <= keep.len(),
    ensures
        keep_total(keep.take(k)) <= keep_total(keep),
        keep_total(keep.take(k)) >= 0,
    decreases keep.len() - k,
{
    if k < keep.len() {
        lemma_keep_total_prefix(keep, k + 1);
        assert(keep.take(k + 1).drop_last() =~= keep.take(k));
    } else {
        assert(keep.take(k) =~= keep);
    }
    lemma_keep_total_nonneg(keep.take(k));
}

proof fn lemma_keep_total_nonneg(keep: Seq<(u64, u64)>)
    ensures
        keep_total(keep) >= 0,
    decreases keep.len(),
{
    if keep.len() > 0 {
        lemma_keep_total_nonneg(keep.drop_last());
    }
}

/// In well-formed ranges, each output start plus its length stays within the total.
proof fn lemma_offset_bound(r: Seq<(u64, u64, u64)>, i: int)
    requires
        ranges_wf(r),
        0 <= i < r.len(),
    ensures
        r[i].2 + (r[i].1 - r[i].0) <= out_total(r),
        r[i].2 + (r[i].1 - r[i].0) == out_total(r.take(i + 1)),
    decreases r.len() - i,
{
    assert(r.take(i + 1).drop_last() =~= r.take(i));
    lemma_out_total_prefix(r, i + 1);
}

proof fn lemma_out_total_prefix(r: Seq<(u64, u64, u64)>, k: int)
    requires
        ranges_wf(r),
        0 <= k <= r.len(),
    ensures
        out_total(r.take(k)) <= out_total(r),
    decreases r.len() - k,
{
    if k < r.len() {
        lemma_out_total_prefix(r, k + 1);
        assert(r.take(k + 1).drop_last() =~= r.take(k));
    } else {
        assert(r.take(k) =~= r);
    }
}

} // verus!
