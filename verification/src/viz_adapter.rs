//! Adapter types and helpers for the chart front end: the provenance and
//! metadata of candles, timestamp labels, windowing helpers and trading
//! hours.

use vstd::prelude::*;

pub mod format_detection;
pub mod trading_time;
pub mod view_utils;

verus! {

/// Data source type for tracking the origin of candle data
#[derive(Debug, Clone, Copy, PartialEq, Eq, Structural)]
pub enum DataSource {
    Csv,
    Nohlcv,
    Nbbo,
}

/// Metadata structure for additional information
#[derive(Debug, Clone)]
pub struct Metadata {
    pub symbol: String,
    pub instrument_id: u32,
    pub trade_count: Option<u32>,
    pub turnover: Option<u64>,
}

/// Time struct for compatibility: seconds since the Unix epoch
#[derive(Debug, Clone, Copy, PartialEq, PartialOrd)]
pub struct Time(pub i64);

impl From<Time> for i64 {
    fn from(t: Time) -> (r: i64) {
        t.0
    }
}

impl vstd::std_specs::convert::FromSpecImpl<Time> for i64 {
    open spec fn obeys_from_spec() -> bool {
        true
    }

    open spec fn from_spec(t: Time) -> i64 {
        t.0
    }
}

/// The label chrono gives the instant `secs` (seconds since the Unix epoch)
/// in New York time with format `fmt`; `None` when the instant is out of
/// chrono's range.
pub uninterp spec fn new_york_label(secs: i64, fmt: Seq<char>) -> Option<Seq<char>>;

/// The date format of daily labels.
pub open spec fn daily_format() -> Seq<char> {
    "%Y-%m-%d"@
}

/// The format of intraday labels.
pub open spec fn intraday_format() -> Seq<char> {
    "%m-%d %H:%M %Z"@
}

/// chrono's `DateTime::<Utc>::from_timestamp(secs, 0)`, moved to the
/// `America/New_York` zone of chrono-tz and formatted with `fmt`. Claimed:
/// the label depends on `secs` and `fmt` alone.
#[verifier::external_body]
fn label_in_new_york(secs: i64, fmt: &str) -> (r: Option<String>)
    requires
        fmt@ == daily_format() || fmt@ == intraday_format(),
    ensures
        match r {
            Some(s) => new_york_label(secs, fmt@) == Some(s@),
            None => new_york_label(secs, fmt@) is None,
        },
{
    match chrono::DateTime::<chrono::Utc>::from_timestamp(secs, 0) {
        Some(dt) => Some(dt.with_timezone(&chrono_tz::America::New_York).format(fmt).to_string()),
        None => None,
    }
}

/// The format used for an axis step of `step` seconds: dates for steps of a
/// day or more, month, day, time and zone otherwise.
pub open spec fn label_format(step: i64) -> Seq<char> {
    if step >= 86400 {
        daily_format()
    } else {
        intraday_format()
    }
}

fn label_for(value: i64, step: i64) -> (r: Option<String>)
    ensures
        match r {
            Some(s) => new_york_label(value, label_format(step)) == Some(s@),
            None => new_york_label(value, label_format(step)) is None,
        },
{
    if step >= 86400 {
        label_in_new_york(value, "%Y-%m-%d")
    } else {
        label_in_new_york(value, "%m-%d %H:%M %Z")
    }
}

/// Format timestamp: the label of the instant `value` (seconds) for an axis
/// step of `step` seconds, in New York time.
pub fn format_timestamp(value: i64, step: i64) -> (s: String)
    requires
        new_york_label(value, label_format(step)) is Some,
    ensures
        new_york_label(value, label_format(step)) == Some(s@),
{
    match label_for(value, step) {
        Some(s) => s,
        None => String::new(),
    }
}

/// The label of the instant `value` (seconds) for an axis step of `step`
/// seconds, or `None` when the instant is out of range.
pub fn try_format_timestamp(value: i64, step: i64) -> (r: Option<String>)
    ensures
        match r {
            Some(s) => new_york_label(value, label_format(step)) == Some(s@),
            None => new_york_label(value, label_format(step)) is None,
        },
{
    match label_for(value, step) {
        Some(_) => Some(format_timestamp(value, step)),
        None => None,
    }
}

/// The span of `days` days in nanoseconds, read as unsigned (a negative
/// span wraps around, as the cast does).
pub open spec fn days_as_ns(days: i64) -> u64 {
    ((days * 86_400_000_000_000) as i64) as u64
}

/// How many days before `now_ns` a load looking back `days` days starts:
/// `now_ns` less the span of `days` days, floored at 0.
pub fn days_cutoff(now_ns: u64, days: i64) -> (r: u64)
    requires
        i64::MIN <= days * 86_400_000_000_000 <= i64::MAX,
    ensures
        r == if now_ns >= days_as_ns(days) {
            now_ns - days_as_ns(days)
        } else {
            0
        },
{
    let days_in_ns = (days * 86_400_000_000_000) as u64;
    now_ns.saturating_sub(days_in_ns)
}

/// The bucket of width `interval` that timestamp `ts`, read as unsigned,
/// falls in.
pub open spec fn bucket_of(ts: i64, interval: u64) -> u64 {
    ((ts as u64) / interval) as u64
}

/// `runs` splits `ts` into maximal runs of consecutive timestamps that share
/// a bucket: each run is (bucket, first position, end position).
pub open spec fn is_bucket_runs(ts: Seq<i64>, interval: u64, runs: Seq<(u64, usize, usize)>) -> bool {
    &&& ts.len() == 0 <==> runs.len() == 0
    &&& runs.len() > 0 ==> runs[0].1 == 0 && runs.last().2 == ts.len()
    &&& forall|k: int| 0 <= k < runs.len() ==> (#[trigger] runs[k]).1 < runs[k].2
    &&& forall|k: int| 0 <= k < runs.len() - 1 ==> (#[trigger] runs[k]).2 == runs[k + 1].1 && runs[k].0 != runs[k + 1].0
    &&& forall|k: int, i: int|
        0 <= k < runs.len() && runs[k].1 <= i < runs[k].2 ==> bucket_of(#[trigger] ts[i], interval) == (#[trigger] runs[k]).0
}

/// Split timestamps into maximal runs that share a bucket of `interval`
/// (see `is_bucket_runs`), as the candle aggregation groups its input.
pub fn bucket_runs(ts: &[i64], interval: u64) -> (runs: Vec<(u64, usize, usize)>)
    requires
        interval > 0,
    ensures
        is_bucket_runs(ts@, interval, runs@),
{
    let n = ts.len();
    let mut runs: Vec<(u64, usize, usize)> = Vec::new();
    if n == 0 {
        return runs;
    }
    let mut bucket = (ts[0] as u64) / interval;
    let mut first: usize = 0;
    let mut i: usize = 1;
    while i < n
        invariant
            n == ts@.len(),
            interval > 0,
            first < i <= n,
            bucket == bucket_of(ts@[first as int], interval),
            forall|j: int| first <= j < i ==> bucket_of(#[trigger] ts@[j], interval) == bucket,
            runs@.len() == 0 ==> first == 0,
            runs@.len() > 0 ==> runs@[0].1 == 0 && runs@.last().2 == first && runs@.last().0 != bucket,
            forall|k: int| 0 <= k < runs@.len() ==> (#[trigger] runs@[k]).1 < runs@[k].2,
            forall|k: int| 0 <= k < runs@.len() - 1 ==> (#[trigger] runs@[k]).2 == runs@[k + 1].1 && runs@[k].0 != runs@[k + 1].0,
            forall|k: int, j: int|
                0 <= k < runs@.len() && runs@[k].1 <= j < runs@[k].2 ==> bucket_of(#[trigger] ts@[j], interval) == (#[trigger] runs@[k]).0,
        decreases n - i,
    {
        let b = (ts[i] as u64) / interval;
        if b != bucket {
            let ghost before = runs@;
            runs.push((bucket, first, i));
            proof {
                assert forall|k: int, j: int|
                    0 <= k < runs@.len() && runs@[k].1 <= j < runs@[k].2 implies bucket_of(#[trigger] ts@[j], interval)
                    == (#[trigger] runs@[k]).0 by {
                    if k < before.len() {
                        assert(runs@[k] == before[k]);
                    }
                }
                assert forall|k: int| 0 <= k < runs@.len() - 1 implies (#[trigger] runs@[k]).2 == runs@[k + 1].1
                    && runs@[k].0 != runs@[k + 1].0 by {
                    if k < before.len() - 1 {
                        assert(runs@[k] == before[k] && runs@[k + 1] == before[k + 1]);
                    }
                }
            }
            bucket = b;
            first = i;
        }
        i = i + 1;
    }
    let ghost before = runs@;
    runs.push((bucket, first, n));
    proof {
        assert forall|k: int, j: int|
            0 <= k < runs@.len() && runs@[k].1 <= j < runs@[k].2 implies bucket_of(#[trigger] ts@[j], interval)
            == (#[trigger] runs@[k]).0 by {
            if k < before.len() {
                assert(runs@[k] == before[k]);
            }
        }
        assert forall|k: int| 0 <= k < runs@.len() - 1 implies (#[trigger] runs@[k]).2 == runs@[k + 1].1 && runs@[k].0
            != runs@[k + 1].0 by {
            if k < before.len() - 1 {
                assert(runs@[k] == before[k] && runs@[k + 1] == before[k + 1]);
            }
        }
    }
    runs
}

} // verus!
