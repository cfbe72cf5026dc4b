//! Records shaped for the aggregation pipeline: a quote and a bar reduced
//! to the fields the aggregator reads.

use vstd::prelude::*;

verus! {

/// NBBO record adapter
#[derive(Debug, Clone, Copy)]
pub struct NbboRecord {
    pub ts_event: u64,
    pub bid_px: Option<i64>,
    pub bid_sz: u32,
    pub ask_px: Option<i64>,
    pub ask_sz: u32,
}

/// The price a quote stands for: the mid (rounded toward zero) when both
/// sides are quoted, else the one quoted side.
pub open spec fn spec_reference_px(r: NbboRecord) -> Option<int> {
    match (r.bid_px, r.ask_px) {
        (Some(bid), Some(ask)) => Some(if bid + ask >= 0 {
            (bid + ask) / 2
        } else {
            -((-(bid + ask)) / 2)
        }),
        (Some(bid), None) => Some(bid as int),
        (None, Some(ask)) => Some(ask as int),
        (None, None) => None,
    }
}

impl NbboRecord {
    /// The price the quote stands for in the aggregation (see
    /// `spec_reference_px`); `None` for an empty quote.
    pub fn reference_px(&self) -> (r: Option<i64>)
        requires
            self.bid_px matches Some(bid) && self.ask_px matches Some(ask) ==> i64::MIN <= bid + ask <= i64::MAX,
        ensures
            match spec_reference_px(*self) {
                Some(p) => r == Some(p as i64),
                None => r is None,
            },
    {
        match (self.bid_px, self.ask_px) {
            (Some(bid), Some(ask)) => Some((bid + ask) / 2),
            (Some(bid), None) => Some(bid),
            (None, Some(ask)) => Some(ask),
            (None, None) => None,
        }
    }

    /// The size quoted on both sides together.
    pub fn quoted_size(&self) -> (n: u32)
        requires
            self.bid_sz + self.ask_sz <= u32::MAX,
        ensures
            n == self.bid_sz + self.ask_sz,
    {
        self.bid_sz + self.ask_sz
    }
}

/// OHLCV record adapter for NOHLCV data
#[derive(Debug, Clone, Copy)]
pub struct OhlcvRecord {
    pub ts_event: u64,
    pub open_px: i64,
    pub high_px: i64,
    pub low_px: i64,
    pub close_px: i64,
    pub volume: u64,
    pub trade_count: u32,
}

/// The adapter view of a decoded bar.
pub open spec fn spec_bar_adapter(r: crate::nohlcv_decoder::OhlcvRecord) -> OhlcvRecord {
    OhlcvRecord {
        ts_event: r.ts_event,
        open_px: r.open_px,
        high_px: r.high_px,
        low_px: r.low_px,
        close_px: r.close_px,
        volume: r.volume,
        trade_count: r.trade_count,
    }
}

impl OhlcvRecord {
    /// The adapter view of a decoded bar (turnover and reserved bytes dropped).
    pub fn from_bar(r: &crate::nohlcv_decoder::OhlcvRecord) -> (a: Self)
        ensures
            a == spec_bar_adapter(*r),
    {
        OhlcvRecord {
            ts_event: r.ts_event,
            open_px: r.open_px,
            high_px: r.high_px,
            low_px: r.low_px,
            close_px: r.close_px,
            volume: r.volume,
            trade_count: r.trade_count,
        }
    }
}

} // verus!
