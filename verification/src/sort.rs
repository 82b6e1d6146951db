//! Sorting of keyed items.
use vstd::prelude::*;

verus! {

/// Items ordered by ascending key.
pub open spec fn keys_ascending<T>(v: Seq<(u64, T)>) -> bool {
    forall|i: int, j: int| 0 <= i < j < v.len() ==> #[trigger] v[i].0 <= #[trigger] v[j].0
}

/// Sort keyed items by ascending key (insertion sort).
pub fn sort_by_key<T>(v: Vec<(u64, T)>) -> (r: Vec<(u64, T)>)
    ensures
        keys_ascending(r@),
        r@.to_multiset() == v@.to_multiset(),
        r@.len() == v@.len(),
{
    broadcast use vstd::seq_lib::group_to_multiset_ensures;
    broadcast use vstd::multiset::group_multiset_axioms;
    let ghost orig = v@;
    let mut src = v;
    let mut r: Vec<(u64, T)> = Vec::new();
    // consume the input from the back so that each removal is cheap
    while src.len() > 0
        invariant
            keys_ascending(r@),
            r@.to_multiset().add(src@.to_multiset()) == orig.to_multiset(),
            r@.len() + src@.len() == orig.len(),
        decreases src@.len(),
    {
        let ghost old_src = src@;
        let x = src.pop().unwrap();
        proof {
            assert(old_src =~= src@.push(x));
            src@.to_multiset_ensures();
        }
        let key = x.0;
        let mut k: usize = 0;
        while k < r.len() && r[k].0 < key
            invariant
                0 <= k <= r@.len(),
                forall|m: int| 0 <= m < k ==> #[trigger] r@[m].0 < key,
            decreases r@.len() - k,
        {
            k = k + 1;
        }
        let ghost old_r = r@;
        proof {
            assert forall|m: int| k <= m < old_r.len() implies #[trigger] old_r[m].0 >= key by {
                if k < old_r.len() {
                    assert(old_r[k as int].0 >= key);
                    assert(old_r[k as int].0 <= old_r[m].0);
                }
            }
        }
        r.insert(k, x);
        proof {
            assert(r@ =~= old_r.take(k as int).push(x) + old_r.skip(k as int));
            vstd::seq_lib::lemma_multiset_commutative(old_r.take(k as int).push(x), old_r.skip(k as int));
            vstd::seq_lib::lemma_multiset_commutative(old_r.take(k as int), old_r.skip(k as int));
            assert(old_r =~= old_r.take(k as int) + old_r.skip(k as int));
            old_r.take(k as int).to_multiset_ensures();
            let ta = old_r.take(k as int).to_multiset();
            let sk = old_r.skip(k as int).to_multiset();
            assert(old_r.take(k as int).push(x).to_multiset() =~= ta.insert(x));
            assert(r@.to_multiset() =~= old_r.to_multiset().insert(x));
            assert(r@.to_multiset().add(src@.to_multiset()) =~= old_r.to_multiset().add(old_src.to_multiset()));
            assert forall|a: int, b: int| 0 <= a < b < r@.len() implies #[trigger] r@[a].0 <= #[trigger] r@[b].0 by {
                if b < k {
                } else if b == k {
                } else if a < k {
                    assert(r@[b] == old_r[b - 1]);
                } else if a == k {
                    assert(r@[b] == old_r[b - 1]);
                } else {
                    assert(r@[a] == old_r[a - 1]);
                    assert(r@[b] == old_r[b - 1]);
                }
            }
        }
    }
    proof {
        assert(src@.to_multiset() =~= vstd::multiset::Multiset::<(u64, T)>::empty());
        assert(r@.to_multiset() =~= orig.to_multiset());
    }
    r
}

/// Where a stable ascending insertion puts an item with key `k`: just after
/// the last item whose key is at most `k`.
pub open spec fn stable_slot<T>(s: Seq<(u64, T)>, k: u64) -> int
    decreases s.len(),
{
    if s.len() == 0 {
        0
    } else if s.last().0 <= k {
        s.len() as int
    } else {
        stable_slot(s.drop_last(), k)
    }
}

/// The items ordered by ascending key; items with equal keys keep the
/// order they had.
pub open spec fn stably_sorted<T>(s: Seq<(u64, T)>) -> Seq<(u64, T)>
    decreases s.len(),
{
    if s.len() == 0 {
        s
    } else {
        let r = stably_sorted(s.drop_last());
        r.insert(stable_slot(r, s.last().0), s.last())
    }
}

/// The items of a keyed list, without their keys.
pub open spec fn values_of<T>(s: Seq<(u64, T)>) -> Seq<T> {
    Seq::new(s.len(), |i: int| s[i].1)
}

/// A stable sort keeps the length and only holds items of its input.
pub proof fn lemma_stably_sorted_items<T>(s: Seq<(u64, T)>)
    ensures
        stably_sorted(s).len() == s.len(),
        forall|i: int| 0 <= i < s.len() ==> s.contains(#[trigger] stably_sorted(s)[i]),
    decreases s.len(),
{
    if s.len() > 0 {
        let s1 = s.drop_last();
        lemma_stably_sorted_items(s1);
        let r = stably_sorted(s1);
        lemma_stable_slot_bounds(r, s.last().0);
        let p = stable_slot(r, s.last().0);
        assert forall|i: int| 0 <= i < s.len() implies s.contains(#[trigger] stably_sorted(s)[i]) by {
            if i < p {
                assert(stably_sorted(s)[i] == r[i]);
                let j = choose|j: int| 0 <= j < s1.len() && s1[j] == r[i];
                assert(s[j] == s1[j]);
            } else if i == p {
                assert(s[s.len() - 1] == s.last());
            } else {
                assert(stably_sorted(s)[i] == r[i - 1]);
                let j = choose|j: int| 0 <= j < s1.len() && s1[j] == r[i - 1];
                assert(s[j] == s1[j]);
            }
        }
    }
}

proof fn lemma_stable_slot_bounds<T>(s: Seq<(u64, T)>, k: u64)
    ensures
        0 <= stable_slot(s, k) <= s.len(),
        forall|m: int| stable_slot(s, k) <= m < s.len() ==> #[trigger] s[m].0 > k,
        stable_slot(s, k) > 0 ==> s[stable_slot(s, k) - 1].0 <= k,
    decreases s.len(),
{
    if s.len() > 0 && s.last().0 > k {
        lemma_stable_slot_bounds(s.drop_last(), k);
        assert forall|m: int| stable_slot(s, k) <= m < s.len() implies #[trigger] s[m].0 > k by {
            if m < s.len() - 1 {
                assert(s[m] == s.drop_last()[m]);
            }
        }
        if stable_slot(s, k) > 0 {
            assert(s[stable_slot(s, k) - 1] == s.drop_last()[stable_slot(s, k) - 1]);
        }
    }
}

/// Sort keyed items by ascending key, keeping the order of items with equal
/// keys (insertion sort).
pub fn stable_sort_by_key<T>(v: Vec<(u64, T)>) -> (r: Vec<(u64, T)>)
    ensures
        r@ == stably_sorted(v@),
        keys_ascending(r@),
{
    let ghost orig = v@;
    let n = v.len();
    let mut src = v;
    let mut r: Vec<(u64, T)> = Vec::new();
    let mut i: usize = 0;
    proof {
        assert(orig.take(0) =~= Seq::<(u64, T)>::empty());
    }
    while src.len() > 0
        invariant
            src@ == orig.skip(i as int),
            i <= orig.len() == n,
            r@ == stably_sorted(orig.take(i as int)),
            keys_ascending(r@),
        decreases src@.len(),
    {
        proof {
            assert(src@[0] == orig[i as int]);
        }
        let x = src.remove(0);
        proof {
            assert(src@ =~= orig.skip(i as int + 1));
        }
        let key = x.0;
        let mut p: usize = r.len();
        proof {
            assert(r@.take(p as int) =~= r@);
        }
        while p > 0 && r[p - 1].0 > key
            invariant
                0 <= p <= r@.len(),
                stable_slot(r@.take(p as int), key) == stable_slot(r@, key),
                forall|m: int| p <= m < r@.len() ==> #[trigger] r@[m].0 > key,
            decreases p,
        {
            proof {
                assert(r@.take(p as int).drop_last() =~= r@.take(p as int - 1));
            }
            p = p - 1;
        }
        let ghost old_r = r@;
        proof {
            if p > 0 {
                assert(old_r.take(p as int).last() == old_r[p as int - 1]);
            }
            assert(stable_slot(old_r, key) == p);
        }
        r.insert(p, x);
        proof {
            let ti = orig.take(i as int + 1);
            assert(ti.drop_last() =~= orig.take(i as int));
            assert(ti.last() == x);
            assert(r@ =~= old_r.insert(p as int, x));
            assert forall|a: int, b: int| 0 <= a < b < r@.len() implies #[trigger] r@[a].0 <= #[trigger] r@[b].0 by {
                if b < p {
                } else if b == p {
                    assert(old_r[p as int - 1].0 <= key);
                    if a < p as int - 1 {
                        assert(old_r[a].0 <= old_r[p as int - 1].0);
                    }
                } else if a < p {
                    assert(r@[b] == old_r[b - 1]);
                } else if a == p {
                    assert(r@[b] == old_r[b - 1]);
                } else {
                    assert(r@[a] == old_r[a - 1]);
                    assert(r@[b] == old_r[b - 1]);
                }
            }
        }
        i = i + 1;
    }
    proof {
        assert(orig.take(i as int) =~= orig);
    }
    r
}

/// Drop the keys of a keyed list, keeping the items in order.
pub fn take_values<T>(v: Vec<(u64, T)>) -> (r: Vec<T>)
    ensures
        r@ == values_of(v@),
{
    let ghost orig = v@;
    let n = v.len();
    let mut src = v;
    let mut r: Vec<T> = Vec::new();
    let mut i: usize = 0;
    while src.len() > 0
        invariant
            src@ == orig.skip(i as int),
            i <= orig.len() == n,
            r@.len() == i,
            forall|m: int| 0 <= m < i ==> #[trigger] r@[m] == orig[m].1,
        decreases src@.len(),
    {
        proof {
            assert(src@[0] == orig[i as int]);
        }
        let (_, x) = src.remove(0);
        proof {
            assert(src@ =~= orig.skip(i as int + 1));
        }
        r.push(x);
        i = i + 1;
    }
    proof {
        assert(r@ =~= values_of(orig));
    }
    r
}

/// `a` comes strictly before `b` in lexicographic order.
pub open spec fn lt3_spec(a: (u64, u64, u64), b: (u64, u64, u64)) -> bool {
    a.0 < b.0 || (a.0 == b.0 && (a.1 < b.1 || (a.1 == b.1 && a.2 < b.2)))
}

/// `a` comes no later than `b` in lexicographic order.
pub open spec fn le3_spec(a: (u64, u64, u64), b: (u64, u64, u64)) -> bool {
    !lt3_spec(b, a)
}

fn lt3(a: (u64, u64, u64), b: (u64, u64, u64)) -> (r: bool)
    ensures
        r == lt3_spec(a, b),
{
    a.0 < b.0 || (a.0 == b.0 && (a.1 < b.1 || (a.1 == b.1 && a.2 < b.2)))
}

/// Items ordered by ascending key triple.
pub open spec fn keys3_ascending<T>(v: Seq<((u64, u64, u64), T)>) -> bool {
    forall|i: int, j: int| 0 <= i < j < v.len() ==> le3_spec(#[trigger] v[i].0, #[trigger] v[j].0)
}

/// Sort items by ascending key triple, compared lexicographically (insertion sort).
pub fn sort_by_key3<T>(v: Vec<((u64, u64, u64), T)>) -> (r: Vec<((u64, u64, u64), T)>)
    ensures
        keys3_ascending(r@),
        r@.to_multiset() == v@.to_multiset(),
        r@.len() == v@.len(),
{
    broadcast use vstd::seq_lib::group_to_multiset_ensures;
    broadcast use vstd::multiset::group_multiset_axioms;
    let ghost orig = v@;
    let mut src = v;
    let mut r: Vec<((u64, u64, u64), T)> = Vec::new();
    // consume the input from the back so that each removal is cheap
    while src.len() > 0
        invariant
            keys3_ascending(r@),
            r@.to_multiset().add(src@.to_multiset()) == orig.to_multiset(),
            r@.len() + src@.len() == orig.len(),
        decreases src@.len(),
    {
        let ghost old_src = src@;
        let x = src.pop().unwrap();
        proof {
            assert(old_src =~= src@.push(x));
            src@.to_multiset_ensures();
        }
        let key = x.0;
        let mut k: usize = 0;
        while k < r.len() && lt3(r[k].0, key)
            invariant
                0 <= k <= r@.len(),
                forall|m: int| 0 <= m < k ==> lt3_spec(#[trigger] r@[m].0, key),
            decreases r@.len() - k,
        {
            k = k + 1;
        }
        let ghost old_r = r@;
        proof {
            assert forall|m: int| k <= m < old_r.len() implies !lt3_spec(#[trigger] old_r[m].0, key) by {
                if k < old_r.len() {
                    assert(!lt3_spec(old_r[k as int].0, key));
                    assert(le3_spec(old_r[k as int].0, old_r[m].0));
                }
            }
        }
        r.insert(k, x);
        proof {
            assert(r@ =~= old_r.take(k as int).push(x) + old_r.skip(k as int));
            vstd::seq_lib::lemma_multiset_commutative(old_r.take(k as int).push(x), old_r.skip(k as int));
            vstd::seq_lib::lemma_multiset_commutative(old_r.take(k as int), old_r.skip(k as int));
            assert(old_r =~= old_r.take(k as int) + old_r.skip(k as int));
            old_r.take(k as int).to_multiset_ensures();
            let ta = old_r.take(k as int).to_multiset();
            let sk = old_r.skip(k as int).to_multiset();
            assert(old_r.take(k as int).push(x).to_multiset() =~= ta.insert(x));
            assert(r@.to_multiset() =~= old_r.to_multiset().insert(x));
            assert(r@.to_multiset().add(src@.to_multiset()) =~= old_r.to_multiset().add(old_src.to_multiset()));
            assert forall|a: int, b: int| 0 <= a < b < r@.len() implies le3_spec(#[trigger] r@[a].0, #[trigger] r@[b].0) by {
                if b < k {
                } else if b == k {
                } else if a < k {
                    assert(r@[b] == old_r[b - 1]);
                } else if a == k {
                    assert(r@[b] == old_r[b - 1]);
                } else {
                    assert(r@[a] == old_r[a - 1]);
                    assert(r@[b] == old_r[b - 1]);
                }
            }
        }
    }
    proof {
        assert(src@.to_multiset() =~= vstd::multiset::Multiset::<((u64, u64, u64), T)>::empty());
        assert(r@.to_multiset() =~= orig.to_multiset());
    }
    r
}

/// Rearranging a list and then dropping the keys gives the same items as
/// dropping the keys and then rearranging.
pub proof fn lemma_values_permutation<K, T>(a: Seq<(K, T)>, b: Seq<(K, T)>)
    requires
        a.to_multiset() == b.to_multiset(),
    ensures
        a.map_values(|x: (K, T)| x.1).to_multiset() == b.map_values(|x: (K, T)| x.1).to_multiset(),
    decreases a.len(),
{
    broadcast use vstd::seq_lib::group_to_multiset_ensures;
    broadcast use vstd::multiset::group_multiset_axioms;
    broadcast use vstd::seq_lib::to_multiset_remove;
    broadcast use vstd::seq_lib::to_multiset_insert;
    broadcast use vstd::seq_lib::to_multiset_build;
    let f = |x: (K, T)| x.1;
    if a.len() == 0 {
        assert(b.to_multiset().len() == 0);
        assert(b.len() == 0);
        assert(a.map_values(f) =~= Seq::<T>::empty());
        assert(b.map_values(f) =~= Seq::<T>::empty());
    } else {
        let x = a.last();
        let a1 = a.drop_last();
        assert(a =~= a1.push(x));
        assert(a.to_multiset().count(x) > 0);
        assert(b.to_multiset().count(x) > 0);
        assert(b.contains(x));
        let i = choose|i: int| 0 <= i < b.len() && b[i] == x;
        let b1 = b.remove(i);
        assert(a1.to_multiset() =~= a.to_multiset().remove(x));
        assert(b1.to_multiset() =~= b.to_multiset().remove(x));
        lemma_values_permutation(a1, b1);
        assert(a.map_values(f) =~= a1.map_values(f).push(x.1));
        assert(b.map_values(f) =~= b1.map_values(f).insert(i, x.1));
    }
}

} // verus!
