//! Level-of-detail choice for line charts: finding the points of a time
//! window in a level, and picking the level that fits a viewport.

use vstd::prelude::*;
use crate::levels::{sorted_distinct, strictly_ascending};

verus! {

/// The keys never decrease.
pub open spec fn keys_ascending(keys: Seq<u64>) -> bool {
    forall|i: int, j: int| 0 <= i <= j < keys.len() ==> keys[i] <= keys[j]
}

/// `k` lies below `bound` (or at it, when `inclusive`).
pub open spec fn below(k: u64, bound: u64, inclusive: bool) -> bool {
    if inclusive {
        k <= bound
    } else {
        k < bound
    }
}

/// The number of leading keys below `bound` (at or below, when
/// `inclusive`), found by binary search as `partition_point` does. For
/// ascending keys that is the number of such keys, and every key before the
/// result lies below and every key from it on does not.
pub fn partition_count(keys: &[u64], bound: u64, inclusive: bool) -> (r: usize)
    ensures
        r <= keys@.len(),
        keys_ascending(keys@) ==> (forall|i: int| 0 <= i < r ==> below(#[trigger] keys@[i], bound, inclusive)) && (
        forall|i: int| r <= i < keys@.len() ==> !below(#[trigger] keys@[i], bound, inclusive)),
{
    let mut lo: usize = 0;
    let mut hi: usize = keys.len();
    while lo < hi
        invariant
            lo <= hi <= keys@.len(),
            keys_ascending(keys@) ==> forall|i: int| 0 <= i < lo ==> below(#[trigger] keys@[i], bound, inclusive),
            keys_ascending(keys@) ==> forall|i: int| hi <= i < keys@.len() ==> !below(#[trigger] keys@[i], bound, inclusive),
        decreases hi - lo,
    {
        let mid = lo + (hi - lo) / 2;
        let k = keys[mid];
        let is_below = if inclusive {
            k <= bound
        } else {
            k < bound
        };
        if is_below {
            assert(keys_ascending(keys@) ==> forall|i: int| 0 <= i <= mid ==> below(#[trigger] keys@[i], bound, inclusive)) by {
                if keys_ascending(keys@) {
                    assert forall|i: int| 0 <= i <= mid implies below(#[trigger] keys@[i], bound, inclusive) by {
                        assert(keys@[i] <= keys@[mid as int]);
                    }
                }
            }
            lo = mid + 1;
        } else {
            assert(keys_ascending(keys@) ==> forall|i: int| mid <= i < keys@.len() ==> !below(#[trigger] keys@[i], bound, inclusive)) by {
                if keys_ascending(keys@) {
                    assert forall|i: int| mid <= i < keys@.len() implies !below(#[trigger] keys@[i], bound, inclusive) by {
                        assert(keys@[mid as int] <= keys@[i]);
                    }
                }
            }
            hi = mid;
        }
    }
    lo
}

/// The positions of the points of a level (timestamps `ts`, ascending) that
/// lie in the window `start_ns..=end_ns`: from the first at or after the
/// start to just past the last at or before the end.
pub fn find_window_indices(ts: &[u64], start_ns: u64, end_ns: u64) -> (r: (usize, usize))
    ensures
        r.0 <= ts@.len() && r.1 <= ts@.len(),
        keys_ascending(ts@) ==> (forall|i: int| 0 <= i < r.0 ==> #[trigger] ts@[i] < start_ns) && (forall|i: int|
            r.0 <= i < ts@.len() ==> #[trigger] ts@[i] >= start_ns) && (forall|i: int|
            0 <= i < r.1 ==> #[trigger] ts@[i] <= end_ns) && (forall|i: int| r.1 <= i < ts@.len() ==> #[trigger] ts@[i] > end_ns),
{
    let start_idx = partition_count(ts, start_ns, false);
    let end_idx = partition_count(ts, end_ns, true);
    (start_idx, end_idx)
}

/// The level a viewport of `duration_ns` nanoseconds shows, for levels of
/// the given intervals (finest first) and `target_points` points on screen:
/// the coarsest level that puts at most twice the target number of points in
/// the viewport; the finest level when none does or when the viewport is
/// empty; none when there are no levels.
pub open spec fn spec_select_level(intervals: Seq<u64>, duration_ns: u64, target_points: u64) -> Option<int> {
    if intervals.len() == 0 {
        None
    } else if duration_ns == 0 {
        Some(0)
    } else {
        match coarsest_fitting(intervals, intervals.len() as int, duration_ns, target_points) {
            Some(i) => Some(i),
            None => Some(0),
        }
    }
}

/// The highest position below `n` whose level puts at most twice the target
/// number of points in the viewport.
pub open spec fn coarsest_fitting(intervals: Seq<u64>, n: int, duration_ns: u64, target_points: u64) -> Option<int>
    decreases n,
{
    if n <= 0 {
        None
    } else if duration_ns / intervals[n - 1] <= target_points * 2 {
        Some(n - 1)
    } else {
        coarsest_fitting(intervals, n - 1, duration_ns, target_points)
    }
}

/// Select the best resolution level for a viewport from `viewport_start_ns`
/// to `viewport_end_ns` (see `spec_select_level`); the levels are given by
/// their intervals, finest first.
pub fn select_lod(intervals: &[u64], viewport_start_ns: u64, viewport_end_ns: u64, target_points: u64) -> (r: Option<usize>)
    requires
        intervals@.len() > 0 && viewport_end_ns > viewport_start_ns ==> (forall|i: int|
            0 <= i < intervals@.len() ==> #[trigger] intervals@[i] > 0) && target_points * 2 <= u64::MAX,
    ensures
        match spec_select_level(
            intervals@,
            if viewport_end_ns >= viewport_start_ns {
                (viewport_end_ns - viewport_start_ns) as u64
            } else {
                0
            },
            target_points,
        ) {
            Some(i) => r == Some(i as usize),
            None => r is None,
        },
{
    if intervals.len() == 0 {
        return None;
    }
    let duration_ns = viewport_end_ns.saturating_sub(viewport_start_ns);
    if duration_ns == 0 {
        return Some(0);
    }
    let mut k = intervals.len();
    while k > 0
        invariant
            k <= intervals@.len(),
            intervals@.len() > 0,
            duration_ns > 0,
            forall|i: int| 0 <= i < intervals@.len() ==> #[trigger] intervals@[i] > 0,
            target_points * 2 <= u64::MAX,
            duration_ns == (if viewport_end_ns >= viewport_start_ns {
                (viewport_end_ns - viewport_start_ns) as u64
            } else {
                0
            }),
            coarsest_fitting(intervals@, intervals@.len() as int, duration_ns, target_points) == coarsest_fitting(
                intervals@,
                k as int,
                duration_ns,
                target_points,
            ),
        decreases k,
    {
        let estimated_points = duration_ns / intervals[k - 1];
        if estimated_points >= target_points / 2 && estimated_points <= target_points * 2 {
            return Some(k - 1);
        }
        if estimated_points > target_points * 2 {
            k = k - 1;
            continue;
        }
        if estimated_points < target_points / 2 {
            return Some(k - 1);
        }
        k = k - 1;
    }
    Some(0)
}

/// The start of the bucket of width `interval` that holds `t`.
pub open spec fn spec_bucket(t: u64, interval: u64) -> int {
    (t / interval) * interval
}

/// `x` is the bucket of one of the timestamps.
pub open spec fn is_bucket_of_some(ts: Seq<u64>, interval: u64, x: u64) -> bool {
    exists|i: int| 0 <= i < ts.len() && x == spec_bucket(#[trigger] ts[i], interval)
}

/// Group timestamps into buckets of width `interval`: the distinct bucket
/// starts, ascending, and for each timestamp the position of its bucket
/// among them.
pub fn bucket_assignment(ts: &[u64], interval: u64) -> (r: (Vec<u64>, Vec<usize>))
    requires
        interval > 0,
    ensures
        strictly_ascending(r.0@),
        forall|x: u64| r.0@.contains(x) <==> is_bucket_of_some(ts@, interval, x),
        r.1@.len() == ts@.len(),
        forall|i: int|
            0 <= i < ts@.len() ==> (#[trigger] r.1@[i]) < r.0@.len() && r.0@[r.1@[i] as int] == spec_bucket(
                ts@[i],
                interval,
            ),
{
    let mut buckets: Vec<u64> = Vec::new();
    let mut i: usize = 0;
    while i < ts.len()
        invariant
            interval > 0,
            i <= ts@.len(),
            buckets@.len() == i,
            forall|j: int| 0 <= j < i ==> buckets@[j] == spec_bucket(#[trigger] ts@[j], interval),
        decreases ts@.len() - i,
    {
        let t = ts[i];
        let q = t / interval;
        assert(q * interval <= t) by (nonlinear_arith)
            requires
                q == t / interval,
                interval > 0,
        ;
        buckets.push(q * interval);
        i = i + 1;
    }
    let keys = sorted_distinct(&buckets);
    assert forall|x: u64| keys@.contains(x) <==> is_bucket_of_some(ts@, interval, x) by {
        if keys@.contains(x) {
            assert(buckets@.contains(x));
            let j = choose|j: int| 0 <= j < buckets@.len() && buckets@[j] == x;
            assert(x == spec_bucket(ts@[j], interval));
        }
        if is_bucket_of_some(ts@, interval, x) {
            let j = choose|j: int| 0 <= j < ts@.len() && x == spec_bucket(#[trigger] ts@[j], interval);
            assert(buckets@[j] == x);
            assert(buckets@.contains(x));
        }
    }
    let mut assign: Vec<usize> = Vec::new();
    let mut k: usize = 0;
    while k < buckets.len()
        invariant
            k <= buckets@.len(),
            buckets@.len() == ts@.len(),
            strictly_ascending(keys@),
            forall|x: u64| keys@.contains(x) <==> buckets@.contains(x),
            forall|j: int| 0 <= j < buckets@.len() ==> buckets@[j] == spec_bucket(#[trigger] ts@[j], interval),
            assign@.len() == k,
            forall|j: int|
                0 <= j < k ==> (#[trigger] assign@[j]) < keys@.len() && keys@[assign@[j] as int] == buckets@[j],
        decreases buckets@.len() - k,
    {
        let x = buckets[k];
        assert(buckets@.contains(x)) by {
            assert(buckets@[k as int] == x);
        }
        let p = partition_count(&keys, x, false);
        proof {
            assert(keys_ascending(keys@)) by {
                assert forall|a: int, b: int| 0 <= a <= b < keys@.len() implies keys@[a] <= keys@[b] by {
                    if a < b {
                        assert(keys@[a] < keys@[b]);
                    }
                }
            }
            assert(keys@.contains(x));
            let w = choose|w: int| 0 <= w < keys@.len() && keys@[w] == x;
            assert(!below(keys@[w], x, false));
            assert(w >= p);
            if (p as int) < w {
                assert(keys@[p as int] < keys@[w]);
                assert(!below(keys@[p as int], x, false));
            }
        }
        assign.push(p);
        k = k + 1;
    }
    (keys, assign)
}

} // verus!
