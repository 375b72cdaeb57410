//! Sorting that keeps the order of equals.
use vstd::prelude::*;

verus! {

/// A sort key: two numbers, of which the first counts more.
pub type Key = (int, int);

/// Whether key `a` comes before key `b`.
pub open spec fn key_before(a: Key, b: Key) -> bool {
    a.0 < b.0 || (a.0 == b.0 && a.1 < b.1)
}

/// The condition that an item has the key `k`.
pub open spec fn has_key<T>(key: spec_fn(T) -> Key, k: Key) -> spec_fn(T) -> bool {
    |x: T| key(x) == k
}

/// The items of `s` whose key is `k`, in the order of `s`.
pub open spec fn with_key<T>(s: Seq<T>, key: spec_fn(T) -> Key, k: Key) -> Seq<T> {
    s.filter(has_key(key, k))
}

/// Whether no item of `s` comes before one that stands left of it.
pub open spec fn is_sorted<T>(s: Seq<T>, key: spec_fn(T) -> Key) -> bool {
    forall|i: int, j: int| 0 <= i < j < s.len() ==> !key_before(key(#[trigger] s[j]), key(#[trigger] s[i]))
}

/// Whether `sorted` holds the items of `s` in the order of their keys, with items of one key in
/// the order in which `s` has them.
pub open spec fn is_stable_sort<T>(s: Seq<T>, sorted: Seq<T>, key: spec_fn(T) -> Key) -> bool {
    &&& is_sorted(sorted, key)
    &&& forall|k: Key| #[trigger] with_key(sorted, key, k) == with_key(s, key, k)
}

/// Items that have a place in an order.
pub trait Keyed: Sized {
    /// The key by which items are sorted.
    spec fn sort_key() -> spec_fn(Self) -> Key;

    /// Whether this item comes before another one.
    fn comes_before(&self, other: &Self) -> (before: bool)
        ensures
            before == key_before((Self::sort_key())(*self), (Self::sort_key())(*other)),
    ;
}

/// Putting an item behind everything that does not come after it keeps a sequence sorted, and
/// keeps the order of equals.
proof fn lemma_insert<T>(s: Seq<T>, sorted: Seq<T>, key: spec_fn(T) -> Key, p: int, x: T)
    requires
        is_stable_sort(s, sorted, key),
        0 <= p <= sorted.len(),
        p > 0 ==> !key_before(key(x), key(sorted[p - 1])),
        forall|q: int| p <= q < sorted.len() ==> key_before(key(x), key(#[trigger] sorted[q])),
    ensures
        is_stable_sort(s.push(x), sorted.insert(p, x), key),
{
    let after = sorted.insert(p, x);
    assert forall|i: int, j: int| 0 <= i < j < after.len() implies !key_before(
        key(#[trigger] after[j]),
        key(#[trigger] after[i]),
    ) by {
        let a = if i < p { i } else { i - 1 };
        let b = if j < p { j } else { j - 1 };
        if i != p && j != p {
            assert(after[i] == sorted[a] && after[j] == sorted[b]);
        } else if j == p {
            assert(after[i] == sorted[i]);
            assert(!key_before(key(sorted[p - 1]), key(sorted[i])));
        } else {
            assert(after[j] == sorted[b]);
        }
    }
    assert forall|k: Key| #[trigger] with_key(after, key, k) == with_key(s.push(x), key, k) by {
        let pred = has_key(key, k);
        let left = sorted.take(p);
        let right = sorted.skip(p);
        assert(sorted =~= left + right);
        assert(after =~= left + seq![x] + right);
        Seq::filter_distributes_over_add(left, right, pred);
        Seq::filter_distributes_over_add(left + seq![x], right, pred);
        Seq::filter_distributes_over_add(left, seq![x], pred);
        assert(s.push(x) =~= s + seq![x]);
        Seq::filter_distributes_over_add(s, seq![x], pred);
        reveal_with_fuel(Seq::filter, 2);
        assert(seq![x].drop_last() =~= Seq::empty());
        assert(with_key(sorted, key, k) == with_key(s, key, k));
        if key(x) == k {
            assert forall|q: int| 0 <= q < right.len() implies !pred(#[trigger] right[q]) by {
                assert(right[q] == sorted[p + q]);
            }
            right.lemma_all_neg_filter_empty(pred);
            assert(right.filter(pred) =~= Seq::empty());
            assert(seq![x].filter(pred) =~= seq![x]);
            assert(with_key(after, key, k) =~= left.filter(pred) + seq![x]);
            assert(with_key(s, key, k) =~= left.filter(pred));
        } else {
            assert(seq![x].filter(pred) =~= Seq::empty());
            assert(with_key(after, key, k) =~= left.filter(pred) + right.filter(pred));
        }
    }
}

/// A filter on one item more.
pub(crate) proof fn lemma_filter_push<T>(s: Seq<T>, p: spec_fn(T) -> bool, i: int)
    requires
        0 <= i < s.len(),
    ensures
        s.take(i + 1).filter(p) == if p(s[i]) {
            s.take(i).filter(p).push(s[i])
        } else {
            s.take(i).filter(p)
        },
        s.take(i + 1).filter(p).len() <= i + 1,
{
    reveal_with_fuel(Seq::filter, 1);
    assert(s.take(i + 1).drop_last() =~= s.take(i));
    s.take(i + 1).lemma_filter_len(p);
}

/// Sorts items by their key; items of one key keep their order.
pub fn stable_sort<T: Keyed>(items: Vec<T>) -> (sorted: Vec<T>)
    ensures
        is_stable_sort(items@, sorted@, T::sort_key()),
        sorted@.len() == items@.len(),
{
    let mut v: Vec<T> = items;
    let n: usize = v.len();
    let ghost all = v@;
    let mut i: usize = 0;
    assert(all.take(0) =~= v@.take(0));
    while i < n
        invariant
            i <= n == v@.len() == all.len(),
            is_stable_sort(all.take(i as int), v@.take(i as int), T::sort_key()),
            v@.skip(i as int) == all.skip(i as int),
        decreases n - i,
    {
        let ghost before = v@;
        let ghost done = v@.take(i as int);
        let x: T = v.remove(i);
        assert(x == all[i as int]) by {
            assert(before.skip(i as int)[0] == all.skip(i as int)[0]);
        }
        assert(v@.take(i as int) =~= done);
        let mut p: usize = i;
        while p > 0 && x.comes_before(&v[p - 1])
            invariant
                p <= i < n,
                v@.len() == n - 1,
                v@.take(i as int) == done,
                forall|q: int|
                    p <= q < i ==> key_before((T::sort_key())(x), (T::sort_key())(#[trigger] done[q])),
            decreases p,
        {
            assert(done[p - 1] == v@[p - 1]);
            p = p - 1;
        }
        let ghost rest = v@;
        v.insert(p, x);
        proof {
            if p > 0 {
                assert(done[p - 1] == rest[p - 1]);
            }
            lemma_insert(all.take(i as int), done, T::sort_key(), p as int, x);
            assert(all.take(i + 1) =~= all.take(i as int).push(x));
            assert(v@.take(i + 1) =~= done.insert(p as int, x));
            assert(v@.skip(i + 1) =~= all.skip(i + 1)) by {
                assert forall|j: int| i + 1 <= j < n implies v@[j] == all[j] by {
                    assert(v@[j] == rest[j - 1]);
                    assert(rest[j - 1] == before[j]);
                    assert(before.skip(i as int)[j - i] == all.skip(i as int)[j - i]);
                }
            }
        }
        i = i + 1;
    }
    assert(all.take(n as int) =~= all);
    assert(v@.take(n as int) =~= v@);
    v
}

/// Two sequences that agree on the items of each key end with the same item, if both are sorted.
proof fn lemma_same_last<T>(a: Seq<T>, b: Seq<T>, key: spec_fn(T) -> Key)
    requires
        is_sorted(a, key),
        is_sorted(b, key),
        forall|k: Key| #[trigger] with_key(a, key, k) == with_key(b, key, k),
        a.len() > 0,
    ensures
        b.len() > 0,
        a.last() == b.last(),
{
    let k = key(a.last());
    let pred = has_key(key, k);
    reveal_with_fuel(Seq::filter, 1);
    assert(with_key(a, key, k).last() == a.last());
    assert(with_key(b, key, k) == with_key(a, key, k));
    assert(with_key(b, key, k).contains(a.last())) by {
        assert(with_key(b, key, k)[with_key(b, key, k).len() - 1] == a.last());
    }
    b.lemma_filter_contains_rev(pred, a.last());
    let m = choose|m: int| 0 <= m < b.len() && b[m] == a.last();
    let k2 = key(b.last());
    let pred2 = has_key(key, k2);
    assert(with_key(b, key, k2).last() == b.last());
    assert(with_key(a, key, k2) == with_key(b, key, k2));
    assert(with_key(a, key, k2).contains(b.last())) by {
        assert(with_key(a, key, k2)[with_key(a, key, k2).len() - 1] == b.last());
    }
    a.lemma_filter_contains_rev(pred2, b.last());
    let n = choose|n: int| 0 <= n < a.len() && a[n] == b.last();
    if m < b.len() - 1 {
        assert(!key_before(key(b[b.len() - 1]), key(b[m])));
    }
    if n < a.len() - 1 {
        assert(!key_before(key(a[a.len() - 1]), key(a[n])));
    }
    assert(k == k2);
}

/// Two sorted sequences that agree on the items of each key are equal.
proof fn lemma_sorted_unique<T>(a: Seq<T>, b: Seq<T>, key: spec_fn(T) -> Key)
    requires
        is_sorted(a, key),
        is_sorted(b, key),
        forall|k: Key| #[trigger] with_key(a, key, k) == with_key(b, key, k),
    ensures
        a == b,
    decreases a.len(),
{
    if a.len() == 0 {
        if b.len() > 0 {
            lemma_same_last(b, a, key);
        }
        assert(a =~= b);
    } else {
        lemma_same_last(a, b, key);
        let x = a.last();
        let a0 = a.drop_last();
        let b0 = b.drop_last();
        assert forall|k: Key| #[trigger] with_key(a0, key, k) == with_key(b0, key, k) by {
            reveal_with_fuel(Seq::filter, 1);
            assert(with_key(a, key, k) == with_key(b, key, k));
            if key(x) == k {
                assert(with_key(a, key, k).drop_last() =~= with_key(a0, key, k));
                assert(with_key(b, key, k).drop_last() =~= with_key(b0, key, k));
            }
        }
        lemma_sorted_unique(a0, b0, key);
        assert(a =~= a0.push(x));
        assert(b =~= b0.push(x));
    }
}

/// There is one way to sort and keep the order of equals.
pub proof fn law_stable_sort_unique<T>(s: Seq<T>, a: Seq<T>, b: Seq<T>, key: spec_fn(T) -> Key)
    requires
        is_stable_sort(s, a, key),
        is_stable_sort(s, b, key),
    ensures
        a == b,
{
    assert forall|k: Key| #[trigger] with_key(a, key, k) == with_key(b, key, k) by {
        assert(with_key(a, key, k) == with_key(s, key, k));
    }
    lemma_sorted_unique(a, b, key);
}

/// What is sorted already stays as it is.
pub proof fn law_sorted_is_unchanged<T>(s: Seq<T>, sorted: Seq<T>, key: spec_fn(T) -> Key)
    requires
        is_sorted(s, key),
        is_stable_sort(s, sorted, key),
    ensures
        sorted == s,
{
    assert(is_stable_sort(s, s, key));
    law_stable_sort_unique(s, s, sorted, key);
}

/// Keeping what meets two conditions, one after the other, keeps what meets both.
pub(crate) proof fn lemma_filter_twice<T>(
    s: Seq<T>,
    p: spec_fn(T) -> bool,
    q: spec_fn(T) -> bool,
    both: spec_fn(T) -> bool,
)
    requires
        forall|x: T| #[trigger] both(x) == (p(x) && q(x)),
    ensures
        s.filter(p).filter(q) == s.filter(both),
    decreases s.len(),
{
    reveal_with_fuel(Seq::filter, 1);
    if s.len() > 0 {
        let s0 = s.drop_last();
        let x = s.last();
        lemma_filter_twice(s0, p, q, both);
        assert(both(x) == (p(x) && q(x)));
        if p(x) {
            let f = s0.filter(p);
            assert(f.push(x).drop_last() =~= f);
            assert(f.push(x).last() == x);
        }
    }
}

/// What is left of a sorted sequence is sorted.
proof fn lemma_filter_sorted<T>(s: Seq<T>, key: spec_fn(T) -> Key, p: spec_fn(T) -> bool)
    requires
        is_sorted(s, key),
    ensures
        is_sorted(s.filter(p), key),
    decreases s.len(),
{
    reveal_with_fuel(Seq::filter, 1);
    if s.len() > 0 {
        let s0 = s.drop_last();
        lemma_filter_sorted(s0, key, p);
        let f = s0.filter(p);
        let g = s.filter(p);
        assert forall|i: int, j: int| 0 <= i < j < g.len() implies !key_before(
            key(#[trigger] g[j]),
            key(#[trigger] g[i]),
        ) by {
            if p(s.last()) && j == g.len() - 1 {
                assert(f.contains(f[i]));
                s0.lemma_filter_contains_rev(p, f[i]);
                let m = choose|m: int| 0 <= m < s0.len() && s0[m] == f[i];
                assert(s[m] == f[i]);
                assert(!key_before(key(s[s.len() - 1]), key(s[m])));
            } else {
                assert(g[i] == f[i] && g[j] == f[j]);
            }
        }
    }
}

/// Two items that are kept are kept in their order.
proof fn lemma_filter_keeps_order<T>(s: Seq<T>, p: spec_fn(T) -> bool, i: int, j: int)
    requires
        0 <= i < j < s.len(),
        p(s[i]),
        p(s[j]),
    ensures
        exists|u: int, v: int|
            0 <= u < v < s.filter(p).len() && #[trigger] s.filter(p)[u] == s[i]
                && #[trigger] s.filter(p)[v] == s[j],
{
    let left = s.take(j);
    let right = s.skip(j);
    assert(s =~= left + right);
    Seq::filter_distributes_over_add(left, right, p);
    assert(left[i] == s[i] && right[0] == s[j]);
    left.lemma_filter_contains(p, i);
    right.lemma_filter_contains(p, 0);
    let u = choose|u: int| 0 <= u < left.filter(p).len() && left.filter(p)[u] == s[i];
    let w = choose|w: int| 0 <= w < right.filter(p).len() && right.filter(p)[w] == s[j];
    let v = left.filter(p).len() + w;
    assert(s.filter(p)[u] == s[i] && s.filter(p)[v] == s[j]);
}

/// Sorting by the lesser part of a key and then by the greater part sorts by the whole key.
pub proof fn law_two_passes<T>(
    s: Seq<T>,
    once: Seq<T>,
    twice: Seq<T>,
    greater: spec_fn(T) -> int,
    lesser: spec_fn(T) -> int,
)
    requires
        is_stable_sort(s, once, |x: T| (lesser(x), 0int)),
        is_stable_sort(once, twice, |x: T| (greater(x), 0int)),
    ensures
        is_stable_sort(s, twice, |x: T| (greater(x), lesser(x))),
{
    let by_lesser = |x: T| (lesser(x), 0int);
    let by_greater = |x: T| (greater(x), 0int);
    let key = |x: T| (greater(x), lesser(x));
    assert forall|i: int, j: int| 0 <= i < j < twice.len() implies !key_before(
        key(#[trigger] twice[j]),
        key(#[trigger] twice[i]),
    ) by {
        assert(!key_before(by_greater(twice[j]), by_greater(twice[i])));
        if greater(twice[i]) == greater(twice[j]) {
            let k = by_greater(twice[i]);
            let p = has_key(by_greater, k);
            lemma_filter_keeps_order(twice, p, i, j);
            let (u, v) = choose|u: int, v: int|
                0 <= u < v < twice.filter(p).len() && #[trigger] twice.filter(p)[u] == twice[i]
                    && #[trigger] twice.filter(p)[v] == twice[j];
            assert(with_key(twice, by_greater, k) == with_key(once, by_greater, k));
            lemma_filter_sorted(once, by_lesser, p);
            let f = once.filter(p);
            assert(!key_before(by_lesser(f[v]), by_lesser(f[u])));
        }
    }
    assert forall|k: Key| #[trigger] with_key(twice, key, k) == with_key(s, key, k) by {
        let p = has_key(by_greater, (k.0, 0int));
        let q = has_key(by_lesser, (k.1, 0int));
        let both = has_key(key, k);
        assert(with_key(twice, by_greater, (k.0, 0int)) == with_key(once, by_greater, (k.0, 0int)));
        assert(with_key(once, by_lesser, (k.1, 0int)) == with_key(s, by_lesser, (k.1, 0int)));
        lemma_filter_twice(twice, p, q, both);
        lemma_filter_twice(once, p, q, both);
        lemma_filter_twice(once, q, p, both);
        lemma_filter_twice(s, q, p, both);
    }
}

/// Two sequences that agree on the items of each key hold the same items, each as often.
proof fn lemma_same_items<T>(a: Seq<T>, b: Seq<T>, key: spec_fn(T) -> Key)
    requires
        forall|k: Key| #[trigger] with_key(a, key, k) == with_key(b, key, k),
    ensures
        a.to_multiset() == b.to_multiset(),
    decreases a.len(),
{
    broadcast use vstd::seq_lib::group_to_multiset_ensures;

    reveal_with_fuel(Seq::filter, 1);
    if a.len() == 0 {
        if b.len() > 0 {
            let k = key(b.last());
            assert(with_key(b, key, k).len() > 0);
            assert(with_key(a, key, k).len() == 0);
        }
        assert(a =~= b);
    } else {
        let x = a.last();
        let a0 = a.drop_last();
        let k = key(x);
        assert(with_key(a, key, k).last() == x);
        let m = lemma_last_of_key(b, key, k);
        assert(b[m] == x) by {
            assert(with_key(a, key, k) == with_key(b, key, k));
        }
        let b0 = b.remove(m);
        assert forall|j: Key| #[trigger] with_key(a0, key, j) == with_key(b0, key, j) by {
            let pred = has_key(key, j);
            let left = b.take(m);
            let right = b.skip(m + 1);
            assert(b =~= left + seq![x] + right);
            assert(b0 =~= left + right);
            Seq::filter_distributes_over_add(left, right, pred);
            Seq::filter_distributes_over_add(left + seq![x], right, pred);
            Seq::filter_distributes_over_add(left, seq![x], pred);
            reveal_with_fuel(Seq::filter, 2);
            assert(seq![x].drop_last() =~= Seq::empty());
            assert(with_key(a, key, j) == with_key(b, key, j));
            if j == k {
                assert(seq![x].filter(pred) =~= seq![x]);
                assert forall|i: int| 0 <= i < right.len() implies !pred(#[trigger] right[i]) by {
                    assert(right[i] == b[m + 1 + i]);
                }
                right.lemma_all_neg_filter_empty(pred);
                assert(right.filter(pred) =~= Seq::empty());
                assert(with_key(b, key, j).drop_last() =~= with_key(b0, key, j));
                assert(with_key(a, key, j).drop_last() =~= with_key(a0, key, j));
            } else {
                assert(seq![x].filter(pred) =~= Seq::empty());
                assert(with_key(b, key, j) =~= with_key(b0, key, j));
            }
        }
        lemma_same_items(a0, b0, key);
        assert(a =~= a0.push(x));
        assert(b0.to_multiset() == b.to_multiset().remove(x));
        assert(b.to_multiset().count(x) > 0) by {
            assert(b.contains(b[m]));
        }
        assert(a.to_multiset() =~= b.to_multiset());
    }
}

/// Where the last item of a key stands.
proof fn lemma_last_of_key<T>(s: Seq<T>, key: spec_fn(T) -> Key, k: Key) -> (m: int)
    requires
        with_key(s, key, k).len() > 0,
    ensures
        0 <= m < s.len(),
        key(s[m]) == k,
        with_key(s, key, k).last() == s[m],
        forall|i: int| m < i < s.len() ==> key(#[trigger] s[i]) != k,
    decreases s.len(),
{
    reveal_with_fuel(Seq::filter, 1);
    if key(s.last()) == k {
        s.len() - 1
    } else {
        let m = lemma_last_of_key(s.drop_last(), key, k);
        assert forall|i: int| m < i < s.len() implies key(#[trigger] s[i]) != k by {
            if i < s.len() - 1 {
                assert(s.drop_last()[i] == s[i]);
            }
        }
        m
    }
}

/// Sorting loses no item, adds none and repeats none.
pub proof fn law_stable_sort_keeps_items<T>(s: Seq<T>, sorted: Seq<T>, key: spec_fn(T) -> Key)
    requires
        is_stable_sort(s, sorted, key),
    ensures
        sorted.to_multiset() == s.to_multiset(),
        sorted.len() == s.len(),
{
    broadcast use vstd::seq_lib::group_to_multiset_ensures;

    lemma_same_items(sorted, s, key);
    assert(sorted.len() == sorted.to_multiset().len());
    assert(s.len() == s.to_multiset().len());
}


/// What sorting achieves: the greater part of the key never falls from left to right, where it stays
/// the lesser part never falls, and the items of one key stand in the order in which they were given.
pub proof fn law_sorted_left_to_right<T>(
    s: Seq<T>,
    sorted: Seq<T>,
    key: spec_fn(T) -> Key,
    i: int,
    j: int,
    k: Key,
)
    requires
        is_stable_sort(s, sorted, key),
        0 <= i <= j < sorted.len(),
    ensures
        key(sorted[i]).0 <= key(sorted[j]).0,
        key(sorted[i]).0 == key(sorted[j]).0 ==> key(sorted[i]).1 <= key(sorted[j]).1,
        sorted.filter(|x: T| key(x) == k) == s.filter(|x: T| key(x) == k),
{
    if i < j {
        assert(!key_before(key(sorted[j]), key(sorted[i])));
    }
    assert(has_key(key, k) =~= (|x: T| key(x) == k));
    assert(with_key(sorted, key, k) == with_key(s, key, k));
}


/// Two sorted arrangements of the items of `s` are equal, where no two items of `s` share a key.
pub(crate) proof fn lemma_same_order<T>(s: Seq<T>, a: Seq<T>, b: Seq<T>, key: spec_fn(T) -> Key)
    requires
        is_sorted(a, key),
        is_sorted(b, key),
        a.to_multiset() == s.to_multiset(),
        b.to_multiset() == s.to_multiset(),
        forall|i: int, j: int|
            0 <= i < s.len() && 0 <= j < s.len() && key(#[trigger] s[i]) == key(#[trigger] s[j])
                ==> s[i] == s[j],
    ensures
        a == b,
    decreases a.len(),
{
    broadcast use vstd::seq_lib::group_to_multiset_ensures;

    assert(a.len() == a.to_multiset().len() && b.len() == b.to_multiset().len());
    if a.len() == 0 {
        assert(a =~= b);
    } else {
        let x = a.last();
        let y = b.last();
        assert(a.contains(x) && b.contains(y)) by {
            assert(a[a.len() - 1] == x && b[b.len() - 1] == y);
        }
        assert(a.to_multiset().count(x) > 0 && b.to_multiset().count(y) > 0);
        assert(s.to_multiset().count(x) > 0 && s.to_multiset().count(y) > 0);
        assert(s.contains(x) && s.contains(y) && a.contains(y) && b.contains(x));
        let m = choose|m: int| 0 <= m < b.len() && b[m] == x;
        let n = choose|n: int| 0 <= n < a.len() && a[n] == y;
        if m < b.len() - 1 {
            assert(!key_before(key(b[b.len() - 1]), key(b[m])));
        }
        if n < a.len() - 1 {
            assert(!key_before(key(a[a.len() - 1]), key(a[n])));
        }
        assert(key(x) == key(y));
        let i = choose|i: int| 0 <= i < s.len() && s[i] == x;
        let j = choose|j: int| 0 <= j < s.len() && s[j] == y;
        assert(key(s[i]) == key(s[j]));
        assert(x == y);
        let a0 = a.drop_last();
        let b0 = b.drop_last();
        let s0 = s.remove(i);
        assert(a =~= a0.push(x) && b =~= b0.push(x));
        assert(a0.to_multiset() =~= a.to_multiset().remove(x));
        assert(b0.to_multiset() =~= b.to_multiset().remove(x));
        assert(s0.to_multiset() =~= s.to_multiset().remove(x));
        assert forall|p: int, q: int|
            0 <= p < s0.len() && 0 <= q < s0.len() && key(#[trigger] s0[p]) == key(#[trigger] s0[q])
            implies s0[p] == s0[q] by {
            let p0 = if p < i { p } else { p + 1 };
            let q0 = if q < i { q } else { q + 1 };
            assert(s0[p] == s[p0] && s0[q] == s[q0]);
        }
        lemma_same_order(s0, a0, b0, key);
    }
}

} // verus!
