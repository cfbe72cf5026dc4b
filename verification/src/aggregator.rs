//! The bucket clock of streaming aggregation: which bucket of an interval a
//! timestamp falls in, and when a bucket closes.

use vstd::prelude::*;
use crate::live::{bar_start, spec_bar_start};

verus! {

/// What an update does to the current bucket.
#[derive(Debug, Clone, Copy, PartialEq, Eq, Structural)]
pub enum BucketStep {
    /// The first item: a bucket opens.
    First,
    /// The item falls in the current bucket.
    Same,
    /// The item falls in another bucket: the bucket that started at the
    /// given timestamp closes and a new one opens.
    Rolled(i64),
}

/// An interval's length in nanoseconds is positive and fits in an `i64`.
pub open spec fn interval_ok(interval_secs: u64) -> bool {
    0 < interval_secs * 1_000_000_000 <= i64::MAX
}

/// The bucket bookkeeping of one aggregation interval
#[derive(Debug, Clone, Copy)]
pub struct BucketClock {
    /// Current bucket start timestamp (ns)
    pub bucket_start: i64,
    /// Interval duration in seconds
    pub interval_secs: u64,
    /// Number of items in current bucket
    pub count: u32,
    /// Whether this bucket has data
    pub has_data: bool,
}

impl BucketClock {
    /// A clock for buckets of `interval_secs` seconds, with no data yet.
    pub fn new(interval_secs: u64) -> (c: Self)
        ensures
            c.bucket_start == 0 && c.interval_secs == interval_secs && c.count == 0 && !c.has_data,
    {
        BucketClock { bucket_start: 0, interval_secs, count: 0, has_data: false }
    }

    /// Calculate the bucket for a given timestamp
    pub fn get_bucket_start(&self, ts: i64) -> (b: i64)
        requires
            interval_ok(self.interval_secs),
        ensures
            b == spec_bar_start(ts as int, self.interval_secs * 1_000_000_000),
    {
        let interval_ns = self.interval_secs as i64 * 1_000_000_000;
        bar_start(ts, interval_ns)
    }

    /// Account for an item at `ts`.
    pub fn update(&mut self, ts: i64) -> (step: BucketStep)
        requires
            interval_ok(old(self).interval_secs),
            old(self).count < u32::MAX,
        ensures
            final(self).interval_secs == old(self).interval_secs,
            final(self).has_data,
            final(self).bucket_start == spec_bar_start(ts as int, old(self).interval_secs * 1_000_000_000),
            !old(self).has_data ==> step == BucketStep::First && final(self).count == 1,
            old(self).has_data && final(self).bucket_start != old(self).bucket_start ==> step == BucketStep::Rolled(
                old(self).bucket_start,
            ) && final(self).count == 1,
            old(self).has_data && final(self).bucket_start == old(self).bucket_start ==> step == BucketStep::Same
                && final(self).count == old(self).count + 1,
    {
        let bucket = self.get_bucket_start(ts);
        let step = if self.has_data && bucket != self.bucket_start {
            self.count = 1;
            BucketStep::Rolled(self.bucket_start)
        } else if !self.has_data {
            self.count = 1;
            BucketStep::First
        } else {
            self.count = self.count + 1;
            BucketStep::Same
        };
        self.bucket_start = bucket;
        self.has_data = true;
        step
    }

    /// The start of the bucket still open, if any.
    pub fn seal(&self) -> (b: Option<i64>)
        ensures
            b == if self.has_data {
                Some(self.bucket_start)
            } else {
                None::<i64>
            },
    {
        if self.has_data {
            Some(self.bucket_start)
        } else {
            None
        }
    }
}

} // verus!
