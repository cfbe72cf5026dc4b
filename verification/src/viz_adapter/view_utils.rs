//! View utilities: slices of data around a position or a time.

use vstd::prelude::*;

verus! {

/// `r` holds clones of `data[start..end]`.
pub open spec fn clones_of<T: Clone>(data: Seq<T>, start: int, end: int, r: Seq<T>) -> bool {
    &&& r.len() == end - start
    &&& forall|i: int| 0 <= i < r.len() ==> cloned::<T>(data[start + i], #[trigger] r[i])
}

fn clone_range<T: Clone>(data: &[T], start: usize, end: usize) -> (r: Vec<T>)
    requires
        start <= end <= data@.len(),
    ensures
        clones_of(data@, start as int, end as int, r@),
{
    let mut r: Vec<T> = Vec::new();
    let mut i: usize = start;
    while i < end
        invariant
            start <= i <= end,
            end <= data@.len(),
            r@.len() == i - start,
            forall|k: int| 0 <= k < r@.len() ==> cloned::<T>(data@[start + k], #[trigger] r@[k]),
        decreases end - i,
    {
        let c = data[i].clone();
        r.push(c);
        i = i + 1;
    }
    r
}

/// The window of `slice_centered`: `radius` items either side of `center`,
/// clipped to the data.
pub open spec fn centered_bounds(len: int, center: int, radius: int) -> (int, int) {
    (
        if center >= radius {
            center - radius
        } else {
            0
        },
        if center + radius + 1 < len {
            center + radius + 1
        } else {
            len
        },
    )
}

/// Slice data centered around a position: clones of the items from
/// `radius` before `center` to `radius` after it, clipped to the data.
pub fn slice_centered<T: Clone>(data: &[T], center: usize, radius: usize) -> (r: Vec<T>)
    requires
        center + radius + 1 <= usize::MAX,
        centered_bounds(data@.len() as int, center as int, radius as int).0 <= centered_bounds(
            data@.len() as int,
            center as int,
            radius as int,
        ).1,
    ensures
        clones_of(
            data@,
            centered_bounds(data@.len() as int, center as int, radius as int).0,
            centered_bounds(data@.len() as int, center as int, radius as int).1,
            r@,
        ),
{
    let start = center.saturating_sub(radius);
    let upper = center + radius + 1;
    let end = if upper < data.len() {
        upper
    } else {
        data.len()
    };
    clone_range(data, start, end)
}

/// The window of `slice_centered_time` after scanning the first `n`
/// timestamps, as (start, end, stopped): `start` is one past the last
/// scanned timestamp below `lo` that is not the final timestamp, `end` the
/// position of the first timestamp above `hi`, where the scan stops.
pub open spec fn time_window_upto(ts: Seq<i64>, n: int, lo: int, hi: int, len: int) -> (int, int, bool)
    decreases n,
{
    if n <= 0 {
        (0, len, false)
    } else {
        let prev = time_window_upto(ts, n - 1, lo, hi, len);
        if prev.2 {
            prev
        } else {
            let i = n - 1;
            let start = if ts[i] < lo && i + 1 < ts.len() {
                i + 1
            } else {
                prev.0
            };
            if ts[i] > hi {
                (start, i, true)
            } else {
                (start, prev.1, false)
            }
        }
    }
}

/// The window of `slice_centered_time` over all of `ts`.
pub open spec fn time_window(ts: Seq<i64>, lo: int, hi: int, len: int) -> (int, int) {
    let w = time_window_upto(ts, ts.len() as int, lo, hi, len);
    (w.0, w.1)
}

/// The timestamps never decrease.
pub open spec fn timestamps_ascending(ts: Seq<i64>) -> bool {
    forall|i: int, j: int| 0 <= i <= j < ts.len() ==> ts[i] <= ts[j]
}

proof fn lemma_window_upto(ts: Seq<i64>, n: int, lo: int, hi: int)
    requires
        timestamps_ascending(ts),
        0 <= n <= ts.len(),
        lo <= hi,
    ensures
        ({
            let w = time_window_upto(ts, n, lo, hi, ts.len() as int);
            &&& 0 <= w.0
            &&& !w.2 ==> w.1 == ts.len() && w.0 <= n && (forall|i: int| 0 <= i < n ==> ts[i] <= hi)
            &&& w.2 ==> w.0 <= w.1 < n && ts[w.1] > hi && (forall|i: int| 0 <= i < w.1 ==> ts[i] <= hi)
            &&& forall|i: int| 0 <= i < w.0 ==> ts[i] < lo
        }),
    decreases n,
{
    if n > 0 {
        lemma_window_upto(ts, n - 1, lo, hi);
        let prev = time_window_upto(ts, n - 1, lo, hi, ts.len() as int);
        let i = n - 1;
        if !prev.2 && ts[i] < lo && i + 1 < ts.len() {
            assert forall|k: int| 0 <= k < i + 1 implies ts[k] < lo by {
                assert(ts[k] <= ts[i]);
            }
        }
    }
}

/// The window of `slice_centered_time` over ascending timestamps, one per
/// item, with `lo <= hi`: every item timed from `lo` through `hi`, both ends
/// included, lies in it; items before it are timed below `lo`, items from
/// its end on above `hi`, and items in it no later than `hi`.
pub proof fn lemma_time_window(ts: Seq<i64>, lo: int, hi: int)
    requires
        timestamps_ascending(ts),
        lo <= hi,
    ensures
        ({
            let (s, e) = time_window(ts, lo, hi, ts.len() as int);
            &&& 0 <= s <= e <= ts.len()
            &&& forall|i: int| 0 <= i < ts.len() && lo <= #[trigger] ts[i] <= hi ==> s <= i < e
            &&& forall|i: int| 0 <= i < s ==> #[trigger] ts[i] < lo
            &&& forall|i: int| e <= i < ts.len() ==> #[trigger] ts[i] > hi
            &&& forall|i: int| s <= i < e ==> #[trigger] ts[i] <= hi
        }),
{
    lemma_window_upto(ts, ts.len() as int, lo, hi);
    let w = time_window_upto(ts, ts.len() as int, lo, hi, ts.len() as int);
    if w.2 {
        assert forall|i: int| w.1 <= i < ts.len() implies #[trigger] ts[i] > hi by {
            assert(ts[w.1] <= ts[i]);
        }
    }
}

/// The window of `slice_centered_time` for items timed `timestamps`, the
/// bounds `lo..=hi` and `len` items (see `time_window`).
pub fn time_window_bounds(timestamps: &[i64], lo: i64, hi: i64, len: usize) -> (r: (usize, usize))
    ensures
        (r.0 as int, r.1 as int) == time_window(timestamps@, lo as int, hi as int, len as int),
        timestamps_ascending(timestamps@) && timestamps@.len() == len && lo <= hi ==> (forall|i: int|
            0 <= i < len && lo <= #[trigger] timestamps@[i] <= hi ==> r.0 <= i < r.1),
        timestamps_ascending(timestamps@) && timestamps@.len() == len && lo <= hi ==> (forall|i: int|
            r.0 <= i < r.1 ==> #[trigger] timestamps@[i] <= hi),
{
    let r = scan_window(timestamps, lo, hi, len);
    proof {
        if timestamps_ascending(timestamps@) && timestamps@.len() == len && lo <= hi {
            lemma_time_window(timestamps@, lo as int, hi as int);
        }
    }
    r
}

fn scan_window(timestamps: &[i64], lo: i64, hi: i64, len: usize) -> (r: (usize, usize))
    ensures
        (r.0 as int, r.1 as int) == time_window(timestamps@, lo as int, hi as int, len as int),
{
    let mut start: usize = 0;
    let mut end: usize = len;
    let n = timestamps.len();
    let mut i: usize = 0;
    while i < n
        invariant
            n == timestamps@.len(),
            i <= n,
            time_window_upto(timestamps@, i as int, lo as int, hi as int, len as int) == (
                start as int,
                end as int,
                false,
            ),
            start <= i,
        decreases n - i,
    {
        let ts = timestamps[i];
        if ts < lo && i + 1 < n {
            start = i + 1;
        }
        if ts > hi {
            end = i;
            assert(time_window_upto(timestamps@, i as int + 1, lo as int, hi as int, len as int) == (
                start as int,
                end as int,
                true,
            ));
            proof {
                lemma_window_stops(timestamps@, i as int + 1, n as int, lo as int, hi as int, len as int);
            }
            return (start, end);
        }
        i = i + 1;
    }
    (start, end)
}

/// Slice data centered around a time value: `timestamps` gives the time of
/// each item; the slice starts after the last item more than `radius_time`
/// before `center_time` (never past the last one) and ends before the first
/// item more than `radius_time` after it.
pub fn slice_centered_time<T: Clone>(data: &[T], timestamps: &[i64], center_time: i64, radius_time: i64) -> (r: Vec<T>)
    requires
        i64::MIN <= center_time - radius_time <= i64::MAX,
        i64::MIN <= center_time + radius_time <= i64::MAX,
        time_window(timestamps@, center_time - radius_time, center_time + radius_time, data@.len() as int).0
            <= time_window(timestamps@, center_time - radius_time, center_time + radius_time, data@.len() as int).1
            <= data@.len(),
    ensures
        clones_of(
            data@,
            time_window(timestamps@, center_time - radius_time, center_time + radius_time, data@.len() as int).0,
            time_window(timestamps@, center_time - radius_time, center_time + radius_time, data@.len() as int).1,
            r@,
        ),
{
    let (start, end) = time_window_bounds(timestamps, center_time - radius_time, center_time + radius_time, data.len());
    clone_range(data, start, end)
}

proof fn lemma_window_stops(ts: Seq<i64>, k: int, n: int, lo: int, hi: int, len: int)
    requires
        0 <= k <= n,
        time_window_upto(ts, k, lo, hi, len).2,
    ensures
        time_window_upto(ts, n, lo, hi, len) == time_window_upto(ts, k, lo, hi, len),
    decreases n - k,
{
    if k < n {
        lemma_window_stops(ts, k, n - 1, lo, hi, len);
    }
}

} // verus!
