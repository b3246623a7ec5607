//! First matches and counts over sequences, as mathematical objects.

use vstd::prelude::*;

verus! {

/// Index of the first item satisfying `p`, or -1 when there is none.
pub open spec fn first_match<T>(s: Seq<T>, p: spec_fn(T) -> bool) -> int
    decreases s.len(),
{
    if s.len() == 0 {
        -1
    } else {
        let r = first_match(s.drop_last(), p);
        if r >= 0 {
            r
        } else if p(s.last()) {
            s.len() - 1
        } else {
            -1
        }
    }
}

/// Number of items satisfying `p`.
pub open spec fn count_where<T>(s: Seq<T>, p: spec_fn(T) -> bool) -> nat
    decreases s.len(),
{
    if s.len() == 0 {
        0
    } else {
        count_where(s.drop_last(), p) + if p(s.last()) {
            1nat
        } else {
            0nat
        }
    }
}

/// The first match satisfies `p`, and nothing before it does.
pub proof fn lemma_first_match<T>(s: Seq<T>, p: spec_fn(T) -> bool)
    ensures
        -1 <= first_match(s, p) < s.len(),
        first_match(s, p) >= 0 ==> p(s[first_match(s, p)]),
        forall|j: int|
            0 <= j < s.len() && (first_match(s, p) < 0 || j < first_match(s, p)) ==> !p(
                #[trigger] s[j],
            ),
    decreases s.len(),
{
    if s.len() > 0 {
        let t = s.drop_last();
        lemma_first_match(t, p);
        assert forall|j: int|
            0 <= j < s.len() && (first_match(s, p) < 0 || j < first_match(s, p)) implies !p(
                #[trigger] s[j],
            ) by {
            if j < t.len() {
                assert(s[j] == t[j]);
            }
        }
    }
}

/// Scanning one more item: the first match of the longer prefix.
pub proof fn lemma_first_match_step<T>(s: Seq<T>, p: spec_fn(T) -> bool, j: int)
    requires
        0 <= j < s.len(),
        first_match(s.take(j), p) == -1,
    ensures
        first_match(s.take(j + 1), p) == if p(s[j]) {
            j
        } else {
            -1
        },
{
    assert(s.take(j + 1).drop_last() =~= s.take(j));
}

/// A match found in a prefix is the first match of the whole sequence.
pub proof fn lemma_first_match_prefix<T>(s: Seq<T>, p: spec_fn(T) -> bool, m: int)
    requires
        0 <= m <= s.len(),
        first_match(s.take(m), p) >= 0,
    ensures
        first_match(s, p) == first_match(s.take(m), p),
    decreases s.len() - m,
{
    if m == s.len() {
        assert(s.take(m) =~= s);
    } else {
        let t = s.drop_last();
        assert(t.take(m) =~= s.take(m));
        lemma_first_match_prefix(t, p, m);
    }
}

/// The first match depends only on which items satisfy `p`.
pub proof fn lemma_first_match_same_hits<T>(s1: Seq<T>, s2: Seq<T>, p: spec_fn(T) -> bool)
    requires
        s1.len() == s2.len(),
        forall|j: int| 0 <= j < s1.len() ==> p(#[trigger] s1[j]) == p(s2[j]),
    ensures
        first_match(s1, p) == first_match(s2, p),
    decreases s1.len(),
{
    if s1.len() > 0 {
        let t1 = s1.drop_last();
        let t2 = s2.drop_last();
        assert forall|j: int| 0 <= j < t1.len() implies p(#[trigger] t1[j]) == p(t2[j]) by {
            assert(t1[j] == s1[j] && t2[j] == s2[j]);
        }
        lemma_first_match_same_hits(t1, t2, p);
        assert(p(s1.last()) == p(s2[s2.len() - 1]));
    }
}

/// The count depends only on which items satisfy `p`.
pub proof fn lemma_count_same_hits<T>(s1: Seq<T>, s2: Seq<T>, p: spec_fn(T) -> bool)
    requires
        s1.len() == s2.len(),
        forall|j: int| 0 <= j < s1.len() ==> p(#[trigger] s1[j]) == p(s2[j]),
    ensures
        count_where(s1, p) == count_where(s2, p),
    decreases s1.len(),
{
    if s1.len() > 0 {
        let t1 = s1.drop_last();
        let t2 = s2.drop_last();
        assert forall|j: int| 0 <= j < t1.len() implies p(#[trigger] t1[j]) == p(t2[j]) by {
            assert(t1[j] == s1[j] && t2[j] == s2[j]);
        }
        lemma_count_same_hits(t1, t2, p);
        assert(p(s1.last()) == p(s2[s2.len() - 1]));
    }
}

/// A count never exceeds the length.
pub proof fn lemma_count_bounded<T>(s: Seq<T>, p: spec_fn(T) -> bool)
    ensures
        count_where(s, p) <= s.len(),
    decreases s.len(),
{
    if s.len() > 0 {
        lemma_count_bounded(s.drop_last(), p);
    }
}

/// Counting one more item.
pub proof fn lemma_count_step<T>(s: Seq<T>, p: spec_fn(T) -> bool, j: int)
    requires
        0 <= j < s.len(),
    ensures
        count_where(s.take(j + 1), p) == count_where(s.take(j), p) + if p(s[j]) {
            1nat
        } else {
            0nat
        },
{
    assert(s.take(j + 1).drop_last() =~= s.take(j));
}

/// Counts grow along prefixes, by one at each item that satisfies `p`.
pub proof fn lemma_count_prefix_monotone<T>(s: Seq<T>, p: spec_fn(T) -> bool, i: int, j: int)
    requires
        0 <= i <= j <= s.len(),
    ensures
        count_where(s.take(i), p) <= count_where(s.take(j), p),
        i < j && p(s[i]) ==> count_where(s.take(i), p) < count_where(s.take(j), p),
    decreases j - i,
{
    if i < j {
        lemma_count_prefix_monotone(s, p, i, j - 1);
        lemma_count_step(s, p, j - 1);
        if p(s[i]) && i + 1 <= j {
            lemma_count_prefix_monotone(s, p, i + 1, j);
            lemma_count_step(s, p, i);
        }
    }
}

} // verus!
