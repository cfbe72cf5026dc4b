//! Windows of candles around a time: the index arithmetic behind showing a
//! fixed number of candles, or a span of time, around a center.

use vstd::prelude::*;

verus! {

/// The timestamps never decrease.
pub open spec fn ascending(s: Seq<i64>) -> bool {
    forall|i: int, j: int| 0 <= i <= j < s.len() ==> s[i] <= s[j]
}

/// `t` lies below `x` (or at it, when `inclusive`).
pub open spec fn lies_below(t: i64, x: i64, inclusive: bool) -> bool {
    if inclusive {
        t <= x
    } else {
        t < x
    }
}

/// `p` splits `s` at `x`: every timestamp before `p` lies below `x`, and
/// none from `p` on.
pub open spec fn splits_at(s: Seq<i64>, x: i64, inclusive: bool, p: int) -> bool {
    &&& 0 <= p <= s.len()
    &&& forall|i: int| 0 <= i < p ==> lies_below(#[trigger] s[i], x, inclusive)
    &&& forall|i: int| p <= i < s.len() ==> !lies_below(#[trigger] s[i], x, inclusive)
}

/// Where ascending timestamps cross `bound`: the number of leading
/// timestamps below it (at or below, when `inclusive`), found by binary
/// search.
pub fn split_point(ts: &[i64], bound: i64, inclusive: bool) -> (r: usize)
    ensures
        r <= ts@.len(),
        ascending(ts@) ==> splits_at(ts@, bound, inclusive, r as int),
{
    let mut lo: usize = 0;
    let mut hi: usize = ts.len();
    while lo < hi
        invariant
            lo <= hi <= ts@.len(),
            ascending(ts@) ==> forall|i: int| 0 <= i < lo ==> lies_below(#[trigger] ts@[i], bound, inclusive),
            ascending(ts@) ==> forall|i: int| hi <= i < ts@.len() ==> !lies_below(#[trigger] ts@[i], bound, inclusive),
        decreases hi - lo,
    {
        let mid = lo + (hi - lo) / 2;
        let t = ts[mid];
        let is_below = if inclusive {
            t <= bound
        } else {
            t < bound
        };
        if is_below {
            proof {
                if ascending(ts@) {
                    assert forall|i: int| 0 <= i < mid + 1 implies lies_below(#[trigger] ts@[i], bound, inclusive) by {
                        assert(ts@[i] <= ts@[mid as int]);
                    }
                }
            }
            lo = mid + 1;
        } else {
            proof {
                if ascending(ts@) {
                    assert forall|i: int| mid <= i < ts@.len() implies !lies_below(#[trigger] ts@[i], bound, inclusive) by {
                        assert(ts@[mid as int] <= ts@[i]);
                    }
                }
            }
            hi = mid;
        }
    }
    lo
}

/// The position a search for `center` settles on, given where the
/// timestamps cross it (`p`): the match there, else the timestamp before.
pub open spec fn center_index(s: Seq<i64>, p: int, center: i64) -> int {
    if p < s.len() && s[p] == center {
        p
    } else if p > 0 {
        p - 1
    } else {
        0
    }
}

/// `count` positions around `center_idx` among `len`: half of them before
/// it, clipped to the data, shifted back to keep `count` at the end.
pub open spec fn centered_range(len: int, center_idx: int, count: int) -> (int, int) {
    let start = if center_idx >= count / 2 {
        center_idx - count / 2
    } else {
        0
    };
    let end = if count < len - start {
        start + count
    } else {
        len
    };
    let adjusted = if end == len && end >= count {
        end - count
    } else {
        start
    };
    (adjusted, end)
}

/// The positions of `count` candles (timestamps `ts`, ascending) around
/// the time `center_ns`: an empty range for no candles or a zero count.
pub fn take_window_range(ts: &[i64], center_ns: i64, count: usize) -> (r: (usize, usize))
    ensures
        ts@.len() == 0 || count == 0 ==> r == (0usize, 0usize),
        ts@.len() > 0 && count > 0 && ascending(ts@) ==> exists|p: int|
            #[trigger] splits_at(ts@, center_ns, false, p) && (r.0 as int, r.1 as int) == centered_range(
                ts@.len() as int,
                center_index(ts@, p, center_ns),
                count as int,
            ),
{
    let len = ts.len();
    if len == 0 || count == 0 {
        return (0, 0);
    }
    let p = split_point(ts, center_ns, false);
    let center_idx = if p < len && ts[p] == center_ns {
        p
    } else if p > 0 {
        p - 1
    } else {
        0
    };
    let half = count / 2;
    let start = center_idx.saturating_sub(half);
    let end = if count < len - start {
        start + count
    } else {
        len
    };
    let adjusted = if end == len && end >= count {
        end - count
    } else {
        start
    };
    assert(splits_at(ts@, center_ns, false, p as int) ==> (adjusted as int, end as int) == centered_range(
        len as int,
        center_index(ts@, p as int, center_ns),
        count as int,
    ));
    (adjusted, end)
}

/// The positions of the candles (timestamps `ts`, ascending) from
/// `start_ts` through `end_ts`.
pub fn duration_window_range(ts: &[i64], start_ts: i64, end_ts: i64) -> (r: (usize, usize))
    ensures
        r.1 <= ts@.len(),
        ts@.len() == 0 ==> r == (0usize, 0usize),
        ascending(ts@) ==> splits_at(ts@, start_ts, false, r.0 as int) && splits_at(ts@, end_ts, true, r.1 as int),
{
    if ts.len() == 0 {
        return (0, 0);
    }
    let start_idx = split_point(ts, start_ts, false);
    let end_idx = split_point(ts, end_ts, true);
    (start_idx, end_idx)
}

} // verus!
