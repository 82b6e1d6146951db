//! Lists of half-open time ranges `(start, end)` in milliseconds.
use vstd::prelude::*;

verus! {

/// `t` lies in one of the ranges of `r`.
pub open spec fn in_ranges(r: Seq<(u64, u64)>, t: int) -> bool {
    exists|i: int| 0 <= i < r.len() && #[trigger] r[i].0 <= t && t < r[i].1
}

/// Ranges ordered by start.
pub open spec fn sorted_by_start(r: Seq<(u64, u64)>) -> bool {
    forall|i: int, j: int| 0 <= i < j < r.len() ==> #[trigger] r[i].0 <= #[trigger] r[j].0
}

/// Non-empty ranges in increasing order, each ending strictly before the next starts.
pub open spec fn separated(r: Seq<(u64, u64)>) -> bool {
    &&& forall|i: int| 0 <= i < r.len() ==> #[trigger] r[i].0 < r[i].1
    &&& forall|i: int, j: int| 0 <= i < j < r.len() ==> #[trigger] r[i].1 < #[trigger] r[j].0
}

/// Sum of the lengths of the ranges (inverted ranges count as zero).
pub open spec fn ranges_total(r: Seq<(u64, u64)>) -> int
    decreases r.len(),
{
    if r.len() == 0 {
        0
    } else {
        ranges_total(r.drop_last()) + crate::timeline::len_of(r.last().0, r.last().1)
    }
}

/// Sort ranges by start (stable insertion sort).
pub fn sort_by_start(v: &Vec<(u64, u64)>) -> (r: Vec<(u64, u64)>)
    ensures
        sorted_by_start(r@),
        r@.to_multiset() == v@.to_multiset(),
        r@.len() == v@.len(),
        forall|x: (u64, u64)| r@.contains(x) <==> v@.contains(x),
{
    broadcast use vstd::seq_lib::group_to_multiset_ensures;
    broadcast use vstd::multiset::group_multiset_axioms;
    let mut r: Vec<(u64, u64)> = Vec::new();
    let mut i: usize = 0;
    while i < v.len()
        invariant
            0 <= i <= v.len(),
            sorted_by_start(r@),
            r@.len() == i,
            r@.to_multiset() == v@.take(i as int).to_multiset(),
        decreases v.len() - i,
    {
        let x = v[i];
        let mut pos: usize = r.len();
        let mut k: usize = 0;
        while k < r.len() && r[k].0 <= x.0
            invariant
                0 <= k <= r@.len(),
                pos == r@.len(),
                forall|m: int| 0 <= m < k ==> #[trigger] r@[m].0 <= x.0,
            decreases r@.len() - k,
        {
            k = k + 1;
        }
        pos = k;
        let ghost old_r = r@;
        proof {
            assert(forall|m: int| pos <= m < old_r.len() ==> #[trigger] old_r[m].0 > x.0) by {
                assert forall|m: int| pos <= m < old_r.len() implies #[trigger] old_r[m].0 > x.0 by {
                    if pos < old_r.len() {
                        assert(old_r[pos as int].0 > x.0);
                        assert(old_r[pos as int].0 <= old_r[m].0);
                    }
                }
            }
        }
        r.insert(pos, x);
        proof {
            assert(r@ =~= old_r.take(pos as int).push(x) + old_r.skip(pos as int));
            vstd::seq_lib::lemma_multiset_commutative(old_r.take(pos as int).push(x), old_r.skip(pos as int));
            vstd::seq_lib::lemma_multiset_commutative(old_r.take(pos as int), old_r.skip(pos as int));
            assert(old_r =~= old_r.take(pos as int) + old_r.skip(pos as int));
            assert(v@.take(i as int + 1) =~= v@.take(i as int).push(x));
            old_r.take(pos as int).to_multiset_ensures();
            v@.take(i as int).to_multiset_ensures();
            let ta = old_r.take(pos as int).to_multiset();
            let sk = old_r.skip(pos as int).to_multiset();
            assert(old_r.take(pos as int).push(x).to_multiset() =~= ta.insert(x));
            assert(ta.insert(x).add(sk) =~= ta.add(sk).insert(x));
            assert(r@.to_multiset() =~= v@.take(i as int + 1).to_multiset());
            assert forall|a: int, b: int| 0 <= a < b < r@.len() implies #[trigger] r@[a].0 <= #[trigger] r@[b].0 by {
                if b < pos {
                } else if b == pos {
                } else if a < pos {
                    assert(r@[b] == old_r[b - 1]);
                } else if a == pos {
                    assert(r@[b] == old_r[b - 1]);
                } else {
                    assert(r@[a] == old_r[a - 1]);
                    assert(r@[b] == old_r[b - 1]);
                }
            }
        }
        i = i + 1;
    }
    proof {
        assert(v@.take(v@.len() as int) =~= v@);
        assert forall|x: (u64, u64)| r@.contains(x) <==> v@.contains(x) by {
            assert(r@.to_multiset().count(x) == v@.to_multiset().count(x));
        }
    }
    r
}

/// Two lists with the same elements cover the same instants.
pub proof fn lemma_in_ranges_same_elems(a: Seq<(u64, u64)>, b: Seq<(u64, u64)>, t: int)
    requires
        forall|x: (u64, u64)| a.contains(x) <==> b.contains(x),
    ensures
        in_ranges(a, t) <==> in_ranges(b, t),
{
    if in_ranges(a, t) {
        let i = choose|i: int| 0 <= i < a.len() && #[trigger] a[i].0 <= t && t < a[i].1;
        assert(a.contains(a[i]));
        let j = choose|j: int| 0 <= j < b.len() && b[j] == a[i];
        assert(b[j].0 <= t && t < b[j].1);
    }
    if in_ranges(b, t) {
        let i = choose|i: int| 0 <= i < b.len() && #[trigger] b[i].0 <= t && t < b[i].1;
        assert(b.contains(b[i]));
        let j = choose|j: int| 0 <= j < a.len() && a[j] == b[i];
        assert(a[j].0 <= t && t < a[j].1);
    }
}

/// Membership in a list extended by one range.
pub proof fn lemma_in_ranges_push(r: Seq<(u64, u64)>, x: (u64, u64), t: int)
    ensures
        in_ranges(r.push(x), t) <==> (in_ranges(r, t) || (x.0 <= t && t < x.1)),
{
    if in_ranges(r, t) {
        let i = choose|i: int| 0 <= i < r.len() && #[trigger] r[i].0 <= t && t < r[i].1;
        assert(r.push(x)[i] == r[i]);
    }
    if x.0 <= t && t < x.1 {
        assert(r.push(x)[r.len() as int] == x);
    }
    if in_ranges(r.push(x), t) {
        let i = choose|i: int| 0 <= i < r.push(x).len() && #[trigger] r.push(x)[i].0 <= t && t < r.push(x)[i].1;
        if i < r.len() {
            assert(r[i] == r.push(x)[i]);
        }
    }
}

/// Clip each range to `[0, limit)` and drop those left empty.
pub fn clamp_ranges(limit: u64, v: &Vec<(u64, u64)>) -> (c: Vec<(u64, u64)>)
    ensures
        forall|i: int| 0 <= i < c@.len() ==> #[trigger] c@[i].0 < c@[i].1 && c@[i].1 <= limit,
        forall|t: int| 0 <= t < limit ==> (in_ranges(c@, t) <==> in_ranges(v@, t)),
{
    let mut c: Vec<(u64, u64)> = Vec::new();
    let mut i: usize = 0;
    while i < v.len()
        invariant
            0 <= i <= v.len(),
            forall|m: int| 0 <= m < c@.len() ==> #[trigger] c@[m].0 < c@[m].1 && c@[m].1 <= limit,
            forall|t: int| 0 <= t < limit ==> (in_ranges(c@, t) <==> in_ranges(v@.take(i as int), t)),
        decreases v.len() - i,
    {
        let (s, e) = v[i];
        let s2 = if s < limit { s } else { limit };
        let e2 = if e < limit { e } else { limit };
        let ghost old_c = c@;
        if e2 > s2 {
            c.push((s2, e2));
        }
        proof {
            assert(v@.take(i as int + 1) =~= v@.take(i as int).push((s, e)));
            assert forall|t: int| 0 <= t < limit implies (in_ranges(c@, t) <==> in_ranges(v@.take(i as int + 1), t)) by {
                lemma_in_ranges_push(v@.take(i as int), (s, e), t);
                if e2 > s2 {
                    lemma_in_ranges_push(old_c, (s2, e2), t);
                }
            }
        }
        i = i + 1;
    }
    proof {
        assert(v@.take(v@.len() as int) =~= v@);
    }
    c
}

/// The ranges of `[0, duration)` left after removing the given spans: separated,
/// within the duration, and covering exactly the instants no remove span covers.
pub fn complement_within(duration: u64, removes: &Vec<(u64, u64)>) -> (k: Vec<(u64, u64)>)
    ensures
        separated(k@),
        forall|i: int| 0 <= i < k@.len() ==> #[trigger] k@[i].1 <= duration,
        forall|t: int| 0 <= t < duration ==> (in_ranges(k@, t) <==> !in_ranges(removes@, t)),
{
    let c = clamp_ranges(duration, removes);
    let p = sort_by_start(&c);
    proof {
        assert forall|m: int| 0 <= m < p@.len() implies #[trigger] p@[m].0 < p@[m].1 && p@[m].1 <= duration by {
            assert(p@.contains(p@[m]));
            assert(c@.contains(p@[m]));
            let n = choose|n: int| 0 <= n < c@.len() && c@[n] == p@[m];
            assert(c@[n].0 < c@[n].1 && c@[n].1 <= duration);
        }
    }
    let mut k: Vec<(u64, u64)> = Vec::new();
    let mut cursor: u64 = 0;
    let ghost mut ls: int = 0;
    let mut j: usize = 0;
    while j < p.len()
        invariant
            0 <= j <= p@.len(),
            sorted_by_start(p@),
            forall|m: int| 0 <= m < p@.len() ==> #[trigger] p@[m].0 < p@[m].1 && p@[m].1 <= duration,
            separated(k@),
            cursor <= duration,
            forall|m: int| 0 <= m < k@.len() ==> #[trigger] k@[m].1 < cursor,
            0 <= ls <= cursor,
            j > 0 ==> ls == p@[j - 1].0,
            j == 0 ==> cursor == 0,
            forall|t: int| ls <= t < cursor ==> in_ranges(p@.take(j as int), t),
            forall|t: int| 0 <= t < cursor ==> (in_ranges(k@, t) <==> !in_ranges(p@.take(j as int), t)),
            forall|t: int| t >= cursor ==> !in_ranges(k@, t) && !in_ranges(p@.take(j as int), t),
        decreases p@.len() - j,
    {
        let (s, e) = p[j];
        let ghost old_k = k@;
        let ghost old_cursor = cursor;
        let ghost pj = p@.take(j as int);
        let ghost pj1 = p@.take(j as int + 1);
        proof {
            assert(pj1 =~= pj.push((s, e)));
            if j > 0 {
                assert(p@[j - 1].0 <= p@[j as int].0);
            }
        }
        if s > cursor {
            k.push((cursor, s));
        }
        let new_cursor = if e > cursor { e } else { cursor };
        proof {
            assert forall|t: int| 0 <= t < new_cursor implies (in_ranges(k@, t) <==> !in_ranges(pj1, t)) by {
                lemma_in_ranges_push(pj, (s, e), t);
                if s > old_cursor {
                    lemma_in_ranges_push(old_k, (old_cursor, s), t);
                }
            }
            assert forall|t: int| t >= new_cursor implies !in_ranges(k@, t) && !in_ranges(pj1, t) by {
                lemma_in_ranges_push(pj, (s, e), t);
                if s > old_cursor {
                    lemma_in_ranges_push(old_k, (old_cursor, s), t);
                }
            }
            assert forall|t: int| s <= t < new_cursor implies in_ranges(pj1, t) by {
                lemma_in_ranges_push(pj, (s, e), t);
            }
            assert forall|a: int, b: int| 0 <= a < b < k@.len() implies #[trigger] k@[a].1 < #[trigger] k@[b].0 by {
                if b == old_k.len() {
                    assert(old_k[a].1 < old_cursor);
                }
            }
            ls = s as int;
        }
        cursor = new_cursor;
        j = j + 1;
    }
    let ghost old_k = k@;
    if cursor < duration {
        k.push((cursor, duration));
    }
    proof {
        assert(p@.take(p@.len() as int) =~= p@);
        assert forall|t: int| 0 <= t < duration implies (in_ranges(k@, t) <==> !in_ranges(removes@, t)) by {
            lemma_in_ranges_same_elems(p@, c@, t);
            if t < cursor {
                assert(in_ranges(old_k, t) <==> !in_ranges(p@.take(j as int), t));
            } else {
                assert(!in_ranges(old_k, t) && !in_ranges(p@.take(j as int), t));
            }
            if cursor < duration {
                lemma_in_ranges_push(old_k, (cursor, duration), t);
            }
        }
        assert forall|a: int, b: int| 0 <= a < b < k@.len() implies #[trigger] k@[a].1 < #[trigger] k@[b].0 by {
            if b == old_k.len() {
                assert(old_k[a].1 < cursor);
            }
        }
    }
    k
}

/// `t` lies in `[x.0, x.1)`.
pub open spec fn within(x: (u64, u64), t: int) -> bool {
    x.0 <= t && t < x.1
}

/// `t` lies in `[x.0, x.1 + tol]`.
pub open spec fn near(x: (u64, u64), t: int, tol: u64) -> bool {
    x.0 <= t && t <= x.1 + tol
}

/// A range worth keeping when merging: not inverted and at least `min_keep` long.
pub open spec fn long_enough(x: (u64, u64), min_keep: u64) -> bool {
    x.1 >= x.0 && x.1 - x.0 >= min_keep
}

/// `x` lies inside one of the ranges of `m`.
pub open spec fn inside_some(m: Seq<(u64, u64)>, x: (u64, u64)) -> bool {
    exists|a: int| 0 <= a < m.len() && #[trigger] m[a].0 <= x.0 && x.1 <= m[a].1
}

/// `s` is the start of a long-enough range of `v`.
pub open spec fn start_of_some(v: Seq<(u64, u64)>, min_keep: u64, s: u64) -> bool {
    exists|k: int| 0 <= k < v.len() && long_enough(#[trigger] v[k], min_keep) && v[k].0 == s
}

/// `e` is the end of a long-enough range of `v`.
pub open spec fn end_of_some(v: Seq<(u64, u64)>, min_keep: u64, e: u64) -> bool {
    exists|k: int| 0 <= k < v.len() && long_enough(#[trigger] v[k], min_keep) && v[k].1 == e
}

/// `t` is within `tol` after some long-enough range of `v` (or inside it).
pub open spec fn near_some(v: Seq<(u64, u64)>, min_keep: u64, t: int, tol: u64) -> bool {
    exists|k: int| 0 <= k < v.len() && long_enough(#[trigger] v[k], min_keep) && near(v[k], t, tol)
}

/// Merged ranges are in order and more than `tol` apart.
#[verifier::opaque]
pub open spec fn mf_sep(m: Seq<(u64, u64)>, tol: u64) -> bool {
    forall|a: int, b: int| 0 <= a < b < m.len() ==> #[trigger] m[a].1 + tol < #[trigger] m[b].0
}

/// Merged ranges are not inverted.
#[verifier::opaque]
pub open spec fn mf_wf(m: Seq<(u64, u64)>) -> bool {
    forall|a: int| 0 <= a < m.len() ==> #[trigger] m[a].0 <= m[a].1
}

/// Each long-enough input lies inside a merged range.
#[verifier::opaque]
pub open spec fn mf_cover(m: Seq<(u64, u64)>, v: Seq<(u64, u64)>, min_keep: u64) -> bool {
    forall|k: int| 0 <= k < v.len() && long_enough(#[trigger] v[k], min_keep) ==> inside_some(m, v[k])
}

/// Each merged range starts at the start of a long-enough input.
#[verifier::opaque]
pub open spec fn mf_starts(m: Seq<(u64, u64)>, v: Seq<(u64, u64)>, min_keep: u64) -> bool {
    forall|a: int| 0 <= a < m.len() ==> start_of_some(v, min_keep, #[trigger] m[a].0)
}

/// Each merged range ends at the end of a long-enough input.
#[verifier::opaque]
pub open spec fn mf_ends(m: Seq<(u64, u64)>, v: Seq<(u64, u64)>, min_keep: u64) -> bool {
    forall|a: int| 0 <= a < m.len() ==> end_of_some(v, min_keep, #[trigger] m[a].1)
}

/// Each merged instant is within `tol` of a long-enough input.
#[verifier::opaque]
pub open spec fn mf_near(m: Seq<(u64, u64)>, v: Seq<(u64, u64)>, min_keep: u64, tol: u64) -> bool {
    forall|a: int, t: int| 0 <= a < m.len() && #[trigger] within(m[a], t) ==> near_some(v, min_keep, t, tol)
}

/// `m` is a merge of the long-enough ranges of `v` where ranges closer than `tol` fuse:
/// the merged ranges are in order and more than `tol` apart, each long-enough
/// input lies inside one of them, each merged range starts at an input start and
/// ends at an input end, and each merged instant is within `tol` of an input.
pub open spec fn merged_from(m: Seq<(u64, u64)>, v: Seq<(u64, u64)>, tol: u64, min_keep: u64) -> bool {
    &&& mf_sep(m, tol)
    &&& mf_wf(m)
    &&& mf_cover(m, v, min_keep)
    &&& mf_starts(m, v, min_keep)
    &&& mf_ends(m, v, min_keep)
    &&& mf_near(m, v, min_keep, tol)
}

/// Facts about `v` carry over to `v.push(x)`.
proof fn lemma_some_push(v: Seq<(u64, u64)>, x: (u64, u64), min_keep: u64, tol: u64)
    ensures
        forall|s: u64| start_of_some(v, min_keep, s) ==> #[trigger] start_of_some(v.push(x), min_keep, s),
        forall|e: u64| end_of_some(v, min_keep, e) ==> #[trigger] end_of_some(v.push(x), min_keep, e),
        forall|t: int| near_some(v, min_keep, t, tol) ==> #[trigger] near_some(v.push(x), min_keep, t, tol),
        long_enough(x, min_keep) ==> start_of_some(v.push(x), min_keep, x.0),
        long_enough(x, min_keep) ==> end_of_some(v.push(x), min_keep, x.1),
        forall|t: int| long_enough(x, min_keep) && near(x, t, tol) ==> #[trigger] near_some(v.push(x), min_keep, t, tol),
{
    let v1 = v.push(x);
    assert forall|s: u64| start_of_some(v, min_keep, s) implies #[trigger] start_of_some(v1, min_keep, s) by {
        let k = choose|k: int| 0 <= k < v.len() && long_enough(#[trigger] v[k], min_keep) && v[k].0 == s;
        assert(v1[k] == v[k]);
    }
    assert forall|e: u64| end_of_some(v, min_keep, e) implies #[trigger] end_of_some(v1, min_keep, e) by {
        let k = choose|k: int| 0 <= k < v.len() && long_enough(#[trigger] v[k], min_keep) && v[k].1 == e;
        assert(v1[k] == v[k]);
    }
    assert forall|t: int| near_some(v, min_keep, t, tol) implies #[trigger] near_some(v1, min_keep, t, tol) by {
        let k = choose|k: int| 0 <= k < v.len() && long_enough(#[trigger] v[k], min_keep) && near(v[k], t, tol);
        assert(v1[k] == v[k]);
    }
    if long_enough(x, min_keep) {
        assert(v1[v.len() as int] == x);
    }
    assert forall|t: int| long_enough(x, min_keep) && near(x, t, tol) implies #[trigger] near_some(v1, min_keep, t, tol) by {
        assert(v1[v.len() as int] == x);
    }
}

proof fn lemma_mf_empty(v: Seq<(u64, u64)>, tol: u64, min_keep: u64)
    requires
        forall|k: int| 0 <= k < v.len() ==> !long_enough(#[trigger] v[k], min_keep),
    ensures
        merged_from(Seq::empty(), v, tol, min_keep),
{
    reveal(mf_sep);
    reveal(mf_wf);
    reveal(mf_cover);
    reveal(mf_starts);
    reveal(mf_ends);
    reveal(mf_near);
}

proof fn lemma_merge_skip(m: Seq<(u64, u64)>, vi: Seq<(u64, u64)>, x: (u64, u64), tol: u64, min_keep: u64)
    requires
        merged_from(m, vi, tol, min_keep),
        !long_enough(x, min_keep),
    ensures
        merged_from(m, vi.push(x), tol, min_keep),
{
    lemma_some_push(vi, x, min_keep, tol);
    let vi1 = vi.push(x);
    reveal(mf_cover);
    reveal(mf_starts);
    reveal(mf_ends);
    reveal(mf_near);
    assert forall|k: int| 0 <= k < vi1.len() && long_enough(#[trigger] vi1[k], min_keep) implies inside_some(m, vi1[k]) by {
        assert(vi1[k] == vi[k]);
    }
}

proof fn lemma_cover_push(m: Seq<(u64, u64)>, vi: Seq<(u64, u64)>, x: (u64, u64), min_keep: u64)
    requires
        mf_cover(m, vi, min_keep),
    ensures
        mf_cover(m.push(x), vi.push(x), min_keep),
{
    reveal(mf_cover);
    let vi1 = vi.push(x);
    let m1 = m.push(x);
    assert forall|k: int| 0 <= k < vi1.len() && long_enough(#[trigger] vi1[k], min_keep) implies inside_some(m1, vi1[k]) by {
        if k < vi.len() {
            assert(vi1[k] == vi[k]);
            assert(inside_some(m, vi[k]));
            let a = choose|a: int| 0 <= a < m.len() && #[trigger] m[a].0 <= vi[k].0 && vi[k].1 <= m[a].1;
            assert(m1[a] == m[a]);
        } else {
            assert(m1[m.len() as int] == x);
        }
    }
}

proof fn lemma_merge_push(m: Seq<(u64, u64)>, vi: Seq<(u64, u64)>, x: (u64, u64), tol: u64, min_keep: u64)
    requires
        merged_from(m, vi, tol, min_keep),
        long_enough(x, min_keep),
        forall|k: int| 0 <= k < vi.len() ==> #[trigger] vi[k].0 <= x.0,
        m.len() > 0 ==> m.last().1 + tol < x.0,
    ensures
        merged_from(m.push(x), vi.push(x), tol, min_keep),
{
    lemma_some_push(vi, x, min_keep, tol);
    lemma_cover_push(m, vi, x, min_keep);
    let vi1 = vi.push(x);
    let m1 = m.push(x);
    assert(mf_sep(m1, tol)) by {
        reveal(mf_sep);
        reveal(mf_starts);
        assert forall|a: int, b: int| 0 <= a < b < m1.len() implies #[trigger] m1[a].1 + tol < #[trigger] m1[b].0 by {
            if b == m.len() {
                if a < m.len() - 1 {
                    let l = m.len() - 1;
                    assert(m[a].1 + tol < m[l].0);
                    assert(start_of_some(vi, min_keep, m[l].0));
                    let k0 = choose|k: int| 0 <= k < vi.len() && long_enough(#[trigger] vi[k], min_keep) && vi[k].0 == m[l].0;
                    assert(vi[k0].0 <= x.0);
                }
            } else {
                assert(m[a].1 + tol < m[b].0);
            }
        }
    }
    assert(mf_wf(m1)) by {
        reveal(mf_wf);
        assert forall|a: int| 0 <= a < m1.len() implies #[trigger] m1[a].0 <= m1[a].1 by {
            if a < m.len() {
                assert(m1[a] == m[a]);
            }
        }
    }
    assert(mf_starts(m1, vi1, min_keep)) by {
        reveal(mf_starts);
        assert forall|a: int| 0 <= a < m1.len() implies start_of_some(vi1, min_keep, #[trigger] m1[a].0) by {
            if a < m.len() {
                assert(m1[a] == m[a]);
            }
        }
    }
    assert(mf_ends(m1, vi1, min_keep)) by {
        reveal(mf_ends);
        assert forall|a: int| 0 <= a < m1.len() implies end_of_some(vi1, min_keep, #[trigger] m1[a].1) by {
            if a < m.len() {
                assert(m1[a] == m[a]);
            }
        }
    }
    assert(mf_near(m1, vi1, min_keep, tol)) by {
        reveal(mf_near);
        assert forall|a: int, t: int| 0 <= a < m1.len() && #[trigger] within(m1[a], t) implies near_some(vi1, min_keep, t, tol) by {
            if a < m.len() {
                assert(m1[a] == m[a]);
                assert(within(m[a], t));
            } else {
                assert(near(x, t, tol));
            }
        }
    }
}

proof fn lemma_merge_extend(m: Seq<(u64, u64)>, vi: Seq<(u64, u64)>, x: (u64, u64), tol: u64, min_keep: u64)
    requires
        merged_from(m, vi, tol, min_keep),
        long_enough(x, min_keep),
        forall|k: int| 0 <= k < vi.len() ==> #[trigger] vi[k].0 <= x.0,
        m.len() > 0,
        x.0 <= m.last().1 + tol,
    ensures
        merged_from(
            m.update(m.len() - 1, (m.last().0, if x.1 > m.last().1 { x.1 } else { m.last().1 })),
            vi.push(x),
            tol,
            min_keep,
        ),
{
    lemma_some_push(vi, x, min_keep, tol);
    let l = m.len() - 1;
    let (ls, le) = m[l];
    let ne = if x.1 > le { x.1 } else { le };
    let vi1 = vi.push(x);
    let m1 = m.update(l, (ls, ne));
    assert(start_of_some(vi, min_keep, m[l].0)) by {
        reveal(mf_starts);
    }
    let k0 = choose|k: int| 0 <= k < vi.len() && long_enough(#[trigger] vi[k], min_keep) && vi[k].0 == m[l].0;
    assert(vi[k0].0 <= x.0);
    assert(m[l].0 <= m[l].1) by {
        reveal(mf_wf);
    }
    assert(mf_sep(m1, tol)) by {
        reveal(mf_sep);
        assert forall|a: int, b: int| 0 <= a < b < m1.len() implies #[trigger] m1[a].1 + tol < #[trigger] m1[b].0 by {
            assert(m[a].1 + tol < m[b].0);
        }
    }
    assert(mf_wf(m1)) by {
        reveal(mf_wf);
        assert forall|a: int| 0 <= a < m1.len() implies #[trigger] m1[a].0 <= m1[a].1 by {
            if a != l {
                assert(m1[a] == m[a]);
            }
        }
    }
    assert(mf_cover(m1, vi1, min_keep)) by {
        reveal(mf_cover);
        assert forall|k: int| 0 <= k < vi1.len() && long_enough(#[trigger] vi1[k], min_keep) implies inside_some(m1, vi1[k]) by {
            if k < vi.len() {
                assert(vi1[k] == vi[k]);
                assert(inside_some(m, vi[k]));
                let a = choose|a: int| 0 <= a < m.len() && #[trigger] m[a].0 <= vi[k].0 && vi[k].1 <= m[a].1;
                assert(m1[a].0 <= vi1[k].0 && vi1[k].1 <= m1[a].1);
            } else {
                assert(m1[l].0 <= vi1[k].0 && vi1[k].1 <= m1[l].1);
            }
        }
    }
    assert(mf_starts(m1, vi1, min_keep)) by {
        reveal(mf_starts);
        assert forall|a: int| 0 <= a < m1.len() implies start_of_some(vi1, min_keep, #[trigger] m1[a].0) by {
            assert(m1[a].0 == m[a].0);
        }
    }
    assert(mf_ends(m1, vi1, min_keep)) by {
        reveal(mf_ends);
        assert forall|a: int| 0 <= a < m1.len() implies end_of_some(vi1, min_keep, #[trigger] m1[a].1) by {
            if a != l || x.1 <= le {
                assert(m1[a].1 == m[a].1);
            }
        }
    }
    assert(end_of_some(vi, min_keep, m[l].1)) by {
        reveal(mf_ends);
    }
    let kl = choose|k: int| 0 <= k < vi.len() && long_enough(#[trigger] vi[k], min_keep) && vi[k].1 == m[l].1;
    assert(mf_near(m1, vi1, min_keep, tol)) by {
        reveal(mf_near);
        assert forall|a: int, t: int| 0 <= a < m1.len() && #[trigger] within(m1[a], t) implies near_some(vi1, min_keep, t, tol) by {
            if a == l && t >= le {
                if t >= x.0 {
                    assert(near(x, t, tol));
                } else {
                    assert(near(vi[kl], t, tol));
                    assert(near_some(vi, min_keep, t, tol));
                }
            } else {
                assert(m1[a].0 == m[a].0);
                assert(within(m[a], t));
            }
        }
    }
}

/// Merge ranges sorted by start: drop those shorter than `min_keep` (or inverted),
/// fuse a range into the previous one when it starts at most `tol` after its end.
pub fn merge_sorted(v: &Vec<(u64, u64)>, tol: u64, min_keep: u64) -> (m: Vec<(u64, u64)>)
    requires
        sorted_by_start(v@),
    ensures
        merged_from(m@, v@, tol, min_keep),
{
    let mut m: Vec<(u64, u64)> = Vec::new();
    let mut i: usize = 0;
    proof {
        lemma_mf_empty(v@.take(0), tol, min_keep);
    }
    while i < v.len()
        invariant
            0 <= i <= v@.len(),
            sorted_by_start(v@),
            merged_from(m@, v@.take(i as int), tol, min_keep),
        decreases v@.len() - i,
    {
        let (s, e) = v[i];
        let ghost vi = v@.take(i as int);
        let ghost old_m = m@;
        proof {
            assert(v@.take(i as int + 1) =~= vi.push((s, e)));
            assert forall|k: int| 0 <= k < vi.len() implies #[trigger] vi[k].0 <= s by {
                assert(v@[k].0 <= v@[i as int].0);
            }
        }
        if e >= s && e - s >= min_keep {
            if m.len() > 0 && (s <= tol || s - tol <= m[m.len() - 1].1) {
                let l = m.len() - 1;
                let (ls, le) = m[l];
                let ne = if e > le { e } else { le };
                m.set(l, (ls, ne));
                proof {
                    lemma_merge_extend(old_m, vi, (s, e), tol, min_keep);
                }
            } else {
                m.push((s, e));
                proof {
                    lemma_merge_push(old_m, vi, (s, e), tol, min_keep);
                }
            }
        } else {
            proof {
                lemma_merge_skip(old_m, vi, (s, e), tol, min_keep);
            }
        }
        i = i + 1;
    }
    proof {
        assert(v@.take(v@.len() as int) =~= v@);
    }
    m
}

/// Some range of `v` is long enough to survive a merge.
pub open spec fn has_long(v: Seq<(u64, u64)>, min_keep: u64) -> bool {
    exists|k: int| 0 <= k < v.len() && long_enough(#[trigger] v[k], min_keep)
}

/// A merge is empty exactly when no input is long enough.
pub proof fn lemma_merged_empty(m: Seq<(u64, u64)>, v: Seq<(u64, u64)>, tol: u64, min_keep: u64)
    requires
        merged_from(m, v, tol, min_keep),
    ensures
        (m.len() == 0) <==> !has_long(v, min_keep),
{
    reveal(mf_cover);
    reveal(mf_starts);
    if has_long(v, min_keep) {
        let k = choose|k: int| 0 <= k < v.len() && long_enough(#[trigger] v[k], min_keep);
        assert(inside_some(m, v[k]));
    }
    if m.len() > 0 {
        assert(start_of_some(v, min_keep, m[0].0));
    }
}

/// Merging is insensitive to the order of the inputs.
pub proof fn lemma_merged_same_elems(m: Seq<(u64, u64)>, a: Seq<(u64, u64)>, b: Seq<(u64, u64)>, tol: u64, min_keep: u64)
    requires
        merged_from(m, a, tol, min_keep),
        forall|x: (u64, u64)| a.contains(x) <==> b.contains(x),
    ensures
        merged_from(m, b, tol, min_keep),
{
    assert forall|s: u64| start_of_some(a, min_keep, s) implies #[trigger] start_of_some(b, min_keep, s) by {
        let k = choose|k: int| 0 <= k < a.len() && long_enough(#[trigger] a[k], min_keep) && a[k].0 == s;
        assert(a.contains(a[k]));
        let j = choose|j: int| 0 <= j < b.len() && b[j] == a[k];
        assert(long_enough(b[j], min_keep));
    }
    assert forall|e: u64| end_of_some(a, min_keep, e) implies #[trigger] end_of_some(b, min_keep, e) by {
        let k = choose|k: int| 0 <= k < a.len() && long_enough(#[trigger] a[k], min_keep) && a[k].1 == e;
        assert(a.contains(a[k]));
        let j = choose|j: int| 0 <= j < b.len() && b[j] == a[k];
        assert(long_enough(b[j], min_keep));
    }
    assert forall|t: int| near_some(a, min_keep, t, tol) implies #[trigger] near_some(b, min_keep, t, tol) by {
        let k = choose|k: int| 0 <= k < a.len() && long_enough(#[trigger] a[k], min_keep) && near(a[k], t, tol);
        assert(a.contains(a[k]));
        let j = choose|j: int| 0 <= j < b.len() && b[j] == a[k];
        assert(long_enough(b[j], min_keep));
    }
    assert(mf_cover(m, b, min_keep)) by {
        reveal(mf_cover);
        assert forall|k: int| 0 <= k < b.len() && long_enough(#[trigger] b[k], min_keep) implies inside_some(m, b[k]) by {
            assert(b.contains(b[k]));
            let j = choose|j: int| 0 <= j < a.len() && a[j] == b[k];
            assert(long_enough(a[j], min_keep));
        }
    }
    assert(mf_starts(m, b, min_keep)) by {
        reveal(mf_starts);
    }
    assert(mf_ends(m, b, min_keep)) by {
        reveal(mf_ends);
    }
    assert(mf_near(m, b, min_keep, tol)) by {
        reveal(mf_near);
    }
}

/// Ranges in order, each ending no later than the next starts, add up to at most the last end.
pub proof fn lemma_total_le_last_end(r: Seq<(u64, u64)>)
    requires
        forall|a: int, b: int| 0 <= a < b < r.len() ==> #[trigger] r[a].1 <= #[trigger] r[b].0,
        forall|a: int| 0 <= a < r.len() ==> #[trigger] r[a].0 <= r[a].1,
    ensures
        r.len() == 0 ==> ranges_total(r) == 0,
        r.len() > 0 ==> 0 <= ranges_total(r) <= r.last().1,
    decreases r.len(),
{
    if r.len() > 0 {
        let p = r.drop_last();
        assert forall|a: int, b: int| 0 <= a < b < p.len() implies #[trigger] p[a].1 <= #[trigger] p[b].0 by {
            assert(r[a].1 <= r[b].0);
        }
        assert forall|a: int| 0 <= a < p.len() implies #[trigger] p[a].0 <= p[a].1 by {
            assert(r[a].0 <= r[a].1);
        }
        lemma_total_le_last_end(p);
        if p.len() > 0 {
            assert(r[r.len() - 2].1 <= r[r.len() - 1].0);
        }
    }
}

/// Sum of the lengths of a merged list (in order, disjoint) as an exact integer.
pub fn total_length(m: &Vec<(u64, u64)>) -> (t: u64)
    requires
        forall|a: int, b: int| 0 <= a < b < m@.len() ==> #[trigger] m@[a].1 <= #[trigger] m@[b].0,
        forall|a: int| 0 <= a < m@.len() ==> #[trigger] m@[a].0 <= m@[a].1,
    ensures
        t == ranges_total(m@),
{
    let mut t: u64 = 0;
    let mut i: usize = 0;
    while i < m.len()
        invariant
            0 <= i <= m@.len(),
            forall|a: int, b: int| 0 <= a < b < m@.len() ==> #[trigger] m@[a].1 <= #[trigger] m@[b].0,
            forall|a: int| 0 <= a < m@.len() ==> #[trigger] m@[a].0 <= m@[a].1,
            t == ranges_total(m@.take(i as int)),
        decreases m@.len() - i,
    {
        let ghost p = m@.take(i as int + 1);
        proof {
            assert(p.drop_last() =~= m@.take(i as int));
            assert forall|a: int, b: int| 0 <= a < b < p.len() implies #[trigger] p[a].1 <= #[trigger] p[b].0 by {
                assert(m@[a].1 <= m@[b].0);
            }
            assert forall|a: int| 0 <= a < p.len() implies #[trigger] p[a].0 <= p[a].1 by {
                assert(m@[a].0 <= m@[a].1);
            }
            lemma_total_le_last_end(p);
        }
        let (s, e) = m[i];
        t = t + (e - s);
        i = i + 1;
    }
    proof {
        assert(m@.take(m@.len() as int) =~= m@);
    }
    t
}

} // verus!
