//! Stable descending order by an integer key, as a mathematical object.
//!
//! Both the leaderboard and the arena scoreboard rank their rows with a
//! stable sort on a key, highest first.  Here that order is defined by
//! insertion: each row, taken in input order, is placed after every
//! row already placed whose key is at least its own.

use vstd::prelude::*;

verus! {

broadcast use vstd::seq_lib::group_to_multiset_ensures;

/// Number of items of `s` whose key is at least `v`.
pub open spec fn count_key_ge<T>(s: Seq<T>, key: spec_fn(T) -> int, v: int) -> nat
    decreases s.len(),
{
    if s.len() == 0 {
        0
    } else {
        count_key_ge(s.drop_last(), key, v) + if key(s.last()) >= v {
            1nat
        } else {
            0nat
        }
    }
}

/// `x` placed behind every item of `t` whose key is at least its own.
pub open spec fn insert_desc<T>(t: Seq<T>, key: spec_fn(T) -> int, x: T) -> Seq<T> {
    t.insert(count_key_ge(t, key, key(x)) as int, x)
}

/// The stable descending sort of `s` by `key`.
pub open spec fn sort_desc<T>(s: Seq<T>, key: spec_fn(T) -> int) -> Seq<T>
    decreases s.len(),
{
    if s.len() == 0 {
        Seq::empty()
    } else {
        insert_desc(sort_desc(s.drop_last(), key), key, s.last())
    }
}

/// Keys never increase along `s`.
pub open spec fn sorted_desc<T>(s: Seq<T>, key: spec_fn(T) -> int) -> bool {
    forall|i: int, j: int| 0 <= i <= j < s.len() ==> key(s[i]) >= key(s[j])
}

pub proof fn lemma_count_bounded<T>(s: Seq<T>, key: spec_fn(T) -> int, v: int)
    ensures
        count_key_ge(s, key, v) <= s.len(),
    decreases s.len(),
{
    if s.len() > 0 {
        lemma_count_bounded(s.drop_last(), key, v);
    }
}

/// In a sorted sequence the count splits it: items before it reach `v`,
/// items from it on stay below `v`.
pub proof fn lemma_count_splits_sorted<T>(s: Seq<T>, key: spec_fn(T) -> int, v: int)
    requires
        sorted_desc(s, key),
    ensures
        count_key_ge(s, key, v) <= s.len(),
        forall|i: int| 0 <= i < count_key_ge(s, key, v) ==> key(#[trigger] s[i]) >= v,
        forall|i: int| count_key_ge(s, key, v) <= i < s.len() ==> key(#[trigger] s[i]) < v,
    decreases s.len(),
{
    if s.len() > 0 {
        let t = s.drop_last();
        assert(sorted_desc(t, key));
        lemma_count_splits_sorted(t, key, v);
        let k = count_key_ge(t, key, v);
        if key(s.last()) >= v {
            if k < t.len() {
                assert(key(t[k as int]) < v);
                assert(key(s[k as int]) >= key(s[s.len() - 1]));
            }
        }
        assert forall|i: int| 0 <= i < count_key_ge(s, key, v) implies key(#[trigger] s[i]) >= v by {
            if i < t.len() {
                assert(s[i] == t[i]);
            }
        }
        assert forall|i: int| count_key_ge(s, key, v) <= i < s.len() implies key(#[trigger] s[i]) < v by {
            if i < t.len() {
                assert(s[i] == t[i]);
            }
        }
    }
}

/// Placing an item keeps a sorted sequence sorted.
pub proof fn lemma_insert_sorted<T>(t: Seq<T>, key: spec_fn(T) -> int, x: T)
    requires
        sorted_desc(t, key),
    ensures
        sorted_desc(insert_desc(t, key, x), key),
        insert_desc(t, key, x).len() == t.len() + 1,
{
    lemma_count_splits_sorted(t, key, key(x));
    let k = count_key_ge(t, key, key(x)) as int;
    let r = insert_desc(t, key, x);
    t.insert_ensures(k, x);
    assert forall|i: int, j: int| 0 <= i <= j < r.len() implies key(r[i]) >= key(r[j]) by {
        if i < k {
            if j < k {
            } else if j == k {
            } else {
                assert(r[j] == t[j - 1]);
            }
        } else if i == k {
            if j > k {
                assert(r[j] == t[j - 1]);
            }
        } else {
            assert(r[i] == t[i - 1]);
            assert(r[j] == t[j - 1]);
        }
    }
}

/// The stable sort has the length of its input.
pub proof fn lemma_sort_len<T>(s: Seq<T>, key: spec_fn(T) -> int)
    ensures
        sort_desc(s, key).len() == s.len(),
    decreases s.len(),
{
    if s.len() > 0 {
        lemma_sort_len(s.drop_last(), key);
        lemma_count_bounded(sort_desc(s.drop_last(), key), key, key(s.last()));
    }
}

/// The stable sort orders its result by key, highest first.
pub proof fn lemma_sort_sorted<T>(s: Seq<T>, key: spec_fn(T) -> int)
    ensures
        sorted_desc(sort_desc(s, key), key),
    decreases s.len(),
{
    if s.len() > 0 {
        lemma_sort_sorted(s.drop_last(), key);
        lemma_insert_sorted(sort_desc(s.drop_last(), key), key, s.last());
    }
}

/// The stable sort rearranges its input: every item occurs as often as before.
pub proof fn lemma_sort_permutes<T>(s: Seq<T>, key: spec_fn(T) -> int)
    ensures
        sort_desc(s, key).to_multiset() =~= s.to_multiset(),
    decreases s.len(),
{
    if s.len() > 0 {
        let t = s.drop_last();
        lemma_sort_permutes(t, key);
        lemma_sort_len(t, key);
        lemma_count_bounded(sort_desc(t, key), key, key(s.last()));
        assert(s =~= t.push(s.last()));
    }
}

/// The items whose key is `k`.
pub open spec fn key_is<T>(key: spec_fn(T) -> int, k: int) -> spec_fn(T) -> bool {
    |x: T| key(x) == k
}

proof fn lemma_filter_none<T>(s: Seq<T>, p: spec_fn(T) -> bool)
    requires
        forall|i: int| 0 <= i < s.len() ==> !p(#[trigger] s[i]),
    ensures
        s.filter(p) =~= Seq::<T>::empty(),
    decreases s.len(),
{
    reveal(Seq::filter);
    if s.len() > 0 {
        let t = s.drop_last();
        assert forall|i: int| 0 <= i < t.len() implies !p(#[trigger] t[i]) by {
            assert(t[i] == s[i]);
        }
        lemma_filter_none(t, p);
        assert(!p(s[s.len() - 1]));
    }
}

proof fn lemma_filter_single<T>(x: T, p: spec_fn(T) -> bool)
    ensures
        seq![x].filter(p) =~= if p(x) {
            seq![x]
        } else {
            Seq::<T>::empty()
        },
{
    reveal(Seq::filter);
    let s = seq![x];
    assert(s.drop_last() =~= Seq::<T>::empty());
    assert(s.drop_last().filter(p) =~= Seq::<T>::empty());
    assert(s.last() == x);
}

/// The sort is stable: for every key, the items with that key come out in
/// the order they went in.
pub proof fn lemma_sort_stable<T>(s: Seq<T>, key: spec_fn(T) -> int, k: int)
    ensures
        sort_desc(s, key).filter(key_is(key, k)) =~= s.filter(key_is(key, k)),
    decreases s.len(),
{
    reveal(Seq::filter);
    if s.len() > 0 {
        let t = s.drop_last();
        let x = s.last();
        let p = key_is(key, k);
        lemma_sort_stable(t, key, k);
        let u = sort_desc(t, key);
        lemma_sort_sorted(t, key);
        lemma_sort_len(t, key);
        lemma_count_splits_sorted(u, key, key(x));
        let c = count_key_ge(u, key, key(x)) as int;
        let a = u.take(c);
        let b = u.skip(c);
        assert(sort_desc(s, key) =~= a + seq![x] + b);
        assert(u =~= a + b);
        Seq::filter_distributes_over_add(a + seq![x], b, p);
        Seq::filter_distributes_over_add(a, seq![x], p);
        Seq::filter_distributes_over_add(a, b, p);
        lemma_filter_single(x, p);
        if p(x) {
            assert forall|i: int| 0 <= i < b.len() implies !p(#[trigger] b[i]) by {
                assert(b[i] == u[i + c]);
            }
            lemma_filter_none(b, p);
        }
    }
}

/// A sequence that is already in order is left as it is.
pub proof fn lemma_sort_of_sorted<T>(s: Seq<T>, key: spec_fn(T) -> int)
    requires
        sorted_desc(s, key),
    ensures
        sort_desc(s, key) =~= s,
    decreases s.len(),
{
    if s.len() > 0 {
        let t = s.drop_last();
        assert(sorted_desc(t, key));
        lemma_sort_of_sorted(t, key);
        lemma_count_splits_sorted(t, key, key(s.last()));
        let k = count_key_ge(t, key, key(s.last()));
        if k < t.len() {
            assert(key(t[k as int]) < key(s.last()));
            assert(key(s[k as int]) >= key(s[s.len() - 1]));
        }
        assert(k == t.len());
        assert(t.insert(t.len() as int, s.last()) =~= s);
    }
}

/// The stable sort holds exactly the items of its input.
pub proof fn lemma_sort_contains<T>(s: Seq<T>, key: spec_fn(T) -> int, x: T)
    ensures
        sort_desc(s, key).contains(x) <==> s.contains(x),
{
    lemma_sort_permutes(s, key);
    assert(sort_desc(s, key).to_multiset().count(x) == s.to_multiset().count(x));
}

/// No two items of `s` share a projection.
pub open spec fn unique_by<T, P>(s: Seq<T>, proj: spec_fn(T) -> P) -> bool {
    forall|i: int, j: int| 0 <= i < j < s.len() ==> proj(#[trigger] s[i]) != proj(#[trigger] s[j])
}

/// Sorting never makes two items share a projection.
pub proof fn lemma_sort_unique<T, P>(s: Seq<T>, key: spec_fn(T) -> int, proj: spec_fn(T) -> P)
    requires
        unique_by(s, proj),
    ensures
        unique_by(sort_desc(s, key), proj),
    decreases s.len(),
{
    if s.len() > 0 {
        let t = s.drop_last();
        let x = s.last();
        assert(unique_by(t, proj)) by {
            assert forall|i: int, j: int| 0 <= i < j < t.len() implies proj(#[trigger] t[i]) != proj(#[trigger] t[j]) by {
                assert(t[i] == s[i] && t[j] == s[j]);
            }
        }
        lemma_sort_unique(t, key, proj);
        let u = sort_desc(t, key);
        lemma_sort_len(t, key);
        assert forall|m: int| 0 <= m < u.len() implies proj(#[trigger] u[m]) != proj(x) by {
            lemma_sort_contains(t, key, u[m]);
            assert(u.contains(u[m]));
            let j = choose|j: int| 0 <= j < t.len() && t[j] == u[m];
            assert(s[j] == t[j]);
            assert(proj(s[j]) != proj(s[s.len() - 1]));
        }
        lemma_count_bounded(u, key, key(x));
        let k = count_key_ge(u, key, key(x)) as int;
        let r = u.insert(k, x);
        u.insert_ensures(k, x);
        assert forall|i: int, j: int| 0 <= i < j < r.len() implies proj(#[trigger] r[i]) != proj(#[trigger] r[j]) by {
            if i < k {
                if j == k {
                } else if j > k {
                    assert(r[j] == u[j - 1]);
                }
            } else if i == k {
                assert(r[j] == u[j - 1]);
            } else {
                assert(r[i] == u[i - 1]);
                assert(r[j] == u[j - 1]);
            }
        }
    }
}

} // verus!
