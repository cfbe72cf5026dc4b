//! Folds over sequences: counts, sums and extremes, with the lemmas that
//! loops computing them need.

use vstd::prelude::*;

verus! {

/// How many elements of `s` satisfy `p`.
pub open spec fn count_matching<T>(s: Seq<T>, p: spec_fn(T) -> bool) -> nat
    decreases s.len(),
{
    if s.len() == 0 {
        0
    } else {
        count_matching(s.drop_last(), p) + if p(s.last()) {
            1nat
        } else {
            0nat
        }
    }
}

/// The sum of `f` over `s`.
pub open spec fn sum_of<T>(s: Seq<T>, f: spec_fn(T) -> int) -> int
    decreases s.len(),
{
    if s.len() == 0 {
        0
    } else {
        sum_of(s.drop_last(), f) + f(s.last())
    }
}

/// The least value of `f` over the elements of `s` that satisfy `p`; `None`
/// when there are none.
pub open spec fn min_where<T>(s: Seq<T>, p: spec_fn(T) -> bool, f: spec_fn(T) -> int) -> Option<int>
    decreases s.len(),
{
    if s.len() == 0 {
        None
    } else {
        let rest = min_where(s.drop_last(), p, f);
        if !p(s.last()) {
            rest
        } else {
            match rest {
                None => Some(f(s.last())),
                Some(m) => Some(if f(s.last()) < m {
                    f(s.last())
                } else {
                    m
                }),
            }
        }
    }
}

/// The greatest value of `f` over the elements of `s` that satisfy `p`;
/// `None` when there are none.
pub open spec fn max_where<T>(s: Seq<T>, p: spec_fn(T) -> bool, f: spec_fn(T) -> int) -> Option<int>
    decreases s.len(),
{
    if s.len() == 0 {
        None
    } else {
        let rest = max_where(s.drop_last(), p, f);
        if !p(s.last()) {
            rest
        } else {
            match rest {
                None => Some(f(s.last())),
                Some(m) => Some(if f(s.last()) > m {
                    f(s.last())
                } else {
                    m
                }),
            }
        }
    }
}

/// The extremes over two sequences one after the other are the extremes of
/// the extremes over each.
pub proof fn lemma_extremes_concat<T>(a: Seq<T>, b: Seq<T>, p: spec_fn(T) -> bool, f: spec_fn(T) -> int)
    ensures
        min_where(a + b, p, f) == match (min_where(a, p, f), min_where(b, p, f)) {
            (None, y) => y,
            (Some(x), None) => Some(x),
            (Some(x), Some(y)) => Some(if y < x { y } else { x }),
        },
        max_where(a + b, p, f) == match (max_where(a, p, f), max_where(b, p, f)) {
            (None, y) => y,
            (Some(x), None) => Some(x),
            (Some(x), Some(y)) => Some(if y > x { y } else { x }),
        },
    decreases b.len(),
{
    if b.len() == 0 {
        assert(a + b =~= a);
    } else {
        let b2 = b.drop_last();
        assert((a + b).drop_last() =~= a + b2);
        assert((a + b).last() == b.last());
        lemma_extremes_concat(a, b2, p, f);
    }
}

/// Extending a prefix by one element extends each fold by that element.
pub proof fn lemma_prefix_step<T>(s: Seq<T>, i: int)
    requires
        0 <= i < s.len(),
    ensures
        s.subrange(0, i + 1).drop_last() == s.subrange(0, i),
        s.subrange(0, i + 1).last() == s[i],
{
    assert(s.subrange(0, i + 1).drop_last() =~= s.subrange(0, i));
}

/// At most every element matches.
pub proof fn lemma_count_le<T>(s: Seq<T>, p: spec_fn(T) -> bool)
    ensures
        count_matching(s, p) <= s.len(),
    decreases s.len(),
{
    if s.len() > 0 {
        lemma_count_le(s.drop_last(), p);
    }
}

/// A sum of nonnegative terms over a prefix is at most the whole sum.
pub proof fn lemma_sum_prefix_le<T>(s: Seq<T>, f: spec_fn(T) -> int, i: int)
    requires
        0 <= i <= s.len(),
        forall|j: int| 0 <= j < s.len() ==> f(#[trigger] s[j]) >= 0,
    ensures
        sum_of(s.subrange(0, i), f) <= sum_of(s, f),
    decreases s.len() - i,
{
    if i < s.len() {
        lemma_sum_prefix_le(s, f, i + 1);
        lemma_prefix_step(s, i);
    } else {
        assert(s.subrange(0, i) =~= s);
    }
}

/// Every element that satisfies `p` lies between the extremes.
pub proof fn lemma_extremes_bound<T>(s: Seq<T>, p: spec_fn(T) -> bool, f: spec_fn(T) -> int, j: int)
    requires
        0 <= j < s.len(),
        p(s[j]),
    ensures
        min_where(s, p, f) matches Some(m) && m <= f(s[j]),
        max_where(s, p, f) matches Some(m) && m >= f(s[j]),
    decreases s.len(),
{
    if j < s.len() - 1 {
        lemma_extremes_bound(s.drop_last(), p, f, j);
    }
}

/// The extremes, when there are any, are values of matching elements.
pub proof fn lemma_extremes_attained<T>(s: Seq<T>, p: spec_fn(T) -> bool, f: spec_fn(T) -> int)
    ensures
        min_where(s, p, f) matches Some(m) ==> exists|j: int| 0 <= j < s.len() && p(s[j]) && f(s[j]) == m,
        max_where(s, p, f) matches Some(m) ==> exists|j: int| 0 <= j < s.len() && p(s[j]) && f(s[j]) == m,
        min_where(s, p, f) is None <==> (forall|j: int| 0 <= j < s.len() ==> !p(#[trigger] s[j])),
    decreases s.len(),
{
    if s.len() > 0 {
        let t = s.drop_last();
        lemma_extremes_attained(t, p, f);
        assert forall|j: int| 0 <= j < t.len() implies t[j] == s[j] by {}
        if min_where(t, p, f) is None {
            assert(max_where(t, p, f) is None) by {
                lemma_max_none_iff(t, p, f);
            }
        }
        if min_where(s, p, f) is None {
            assert forall|j: int| 0 <= j < s.len() implies !p(#[trigger] s[j]) by {
                if j < s.len() - 1 {
                    assert(t[j] == s[j]);
                }
            }
        }
    }
}

proof fn lemma_max_none_iff<T>(s: Seq<T>, p: spec_fn(T) -> bool, f: spec_fn(T) -> int)
    ensures
        (max_where(s, p, f) is None) == (min_where(s, p, f) is None),
    decreases s.len(),
{
    if s.len() > 0 {
        lemma_max_none_iff(s.drop_last(), p, f);
    }
}

} // verus!
