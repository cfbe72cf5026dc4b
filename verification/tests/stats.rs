use lod::nbbo_decoder;
use lod::nbbo_decoder::{NbboCounts, NbboRecord};
use lod::nohlcv_decoder;
use lod::nohlcv_decoder::{OhlcvCounts, OhlcvRecord};
use lod::ntrd_decoder;
use lod::ntrd_decoder::{TradeCounts, TradeFilter, TradeRecord};

fn trade(ts: u64, price: i64, size: u32, side: u8, flags: u8) -> TradeRecord {
    TradeRecord { ts_event: ts, ts_recv: ts + 1, price, size, side, flags, exchange: 1, trade_id: ts }
}

fn trades() -> Vec<TradeRecord> {
    vec![
        trade(1, 100, 50, b'B', 0x80),
        trade(2, 105, 200, b'S', 0x10),
        trade(3, 95, 100, b'A', 0x20),
        trade(4, 101, 10, b'N', 0x80),
    ]
}

#[test]
fn trade_counts() {
    let c = TradeCounts::calculate(&trades());
    assert_eq!(c.record_count, 4);
    assert_eq!(c.buy_count, 1);
    assert_eq!(c.sell_count, 2);
    assert_eq!(c.other_count, 1);
    assert_eq!(c.odd_lot_count, 2);
    assert_eq!(c.opening_count, 1);
    assert_eq!(c.closing_count, 1);
    assert_eq!(c.min_size, Some(10));
    assert_eq!(c.max_size, Some(200));
    assert_eq!(c.min_price, Some(95));
    assert_eq!(c.max_price, Some(105));
    assert_eq!(c.total_volume, 360);

    let empty = TradeCounts::calculate(&[]);
    assert_eq!(empty.record_count, 0);
    assert_eq!(empty.min_size, None);
    assert_eq!(empty.max_price, None);
    assert_eq!(empty.total_volume, 0);
}

#[test]
fn trade_filters_keep_order() {
    let buys = ntrd_decoder::filter_trades(trades(), TradeFilter::Buys);
    assert_eq!(buys.iter().map(|t| t.ts_event).collect::<Vec<_>>(), vec![1]);
    let sells = ntrd_decoder::filter_trades(trades(), TradeFilter::Sells);
    assert_eq!(sells.iter().map(|t| t.ts_event).collect::<Vec<_>>(), vec![2, 3]);
    let big = ntrd_decoder::filter_trades(trades(), TradeFilter::MinSize(100));
    assert_eq!(big.iter().map(|t| t.ts_event).collect::<Vec<_>>(), vec![2, 3]);
}

#[test]
fn trades_decode_from_a_buffer() {
    let mut bytes = Vec::new();
    for t in trades() {
        bytes.extend_from_slice(&t.to_bytes());
    }
    assert_eq!(ntrd_decoder::decode_records(&bytes), trades());
}

fn bar(ts: u64, o: i64, h: i64, l: i64, c: i64, volume: u64) -> OhlcvRecord {
    OhlcvRecord {
        ts_event: ts,
        open_px: o,
        high_px: h,
        low_px: l,
        close_px: c,
        volume,
        turnover: volume * 2,
        trade_count: 3,
        _reserved: 0,
    }
}

fn bars() -> Vec<OhlcvRecord> {
    vec![
        bar(30, 100, 110, 90, 105, 10),
        bar(10, 105, 104, 95, 100, 20),
        bar(20, 100, 120, 80, 110, 30),
        bar(40, i64::MAX, i64::MAX, i64::MAX, i64::MAX, 5),
    ]
}

#[test]
fn bar_counts() {
    let c = OhlcvCounts::calculate(&bars());
    assert_eq!(c.record_count, 4);
    assert_eq!(c.valid_count, 2);
    assert_eq!(c.invalid_count, 2);
    assert_eq!(c.min_low_px, Some(80));
    assert_eq!(c.max_high_px, Some(120));
    assert_eq!(c.total_volume, 65);
    assert_eq!(c.total_turnover, 130);
    assert_eq!(c.total_trades, 12);
    assert_eq!(c.min_timestamp, Some(10));
    assert_eq!(c.max_timestamp, Some(40));
}

#[test]
fn only_valid_bars_pass_the_filter() {
    let valid = nohlcv_decoder::filter_valid(bars());
    assert_eq!(valid.iter().map(|b| b.ts_event).collect::<Vec<_>>(), vec![30, 20]);
    let mut bytes = Vec::new();
    for b in bars() {
        bytes.extend_from_slice(&b.to_bytes());
    }
    assert_eq!(nohlcv_decoder::decode_records(&bytes), bars());
}

fn quote(ts: u64, bid: Option<i64>, ask: Option<i64>) -> NbboRecord {
    NbboRecord { ts_event: ts, ts_recv: ts, bid_px: bid, bid_sz: 10, bid_ct: 1, ask_px: ask, ask_sz: 20, ask_ct: 2 }
}

fn quotes() -> Vec<NbboRecord> {
    vec![
        quote(1, Some(100), Some(103)),
        quote(2, Some(99), None),
        quote(3, None, Some(104)),
        quote(4, None, None),
        quote(5, Some(101), Some(102)),
    ]
}

#[test]
fn quote_counts() {
    let c = NbboCounts::calculate(&quotes());
    assert_eq!(c.record_count, 5);
    assert_eq!(c.two_sided_count, 2);
    assert_eq!(c.bid_only_count, 1);
    assert_eq!(c.ask_only_count, 1);
    assert_eq!(c.empty_count, 1);
    assert_eq!(c.min_bid, Some(99));
    assert_eq!(c.max_bid, Some(101));
    assert_eq!(c.min_ask, Some(102));
    assert_eq!(c.max_ask, Some(104));
    assert_eq!(c.min_spread, Some(1));
    assert_eq!(c.max_spread, Some(3));
    assert_eq!(c.total_bid_size, 30);
    assert_eq!(c.total_ask_size, 60);
}

#[test]
fn two_sided_quotes_pass_the_filter() {
    let two = nbbo_decoder::filter_two_sided(quotes());
    assert_eq!(two.iter().map(|q| q.ts_event).collect::<Vec<_>>(), vec![1, 5]);
    let mut bytes = Vec::new();
    for q in quotes() {
        bytes.extend_from_slice(&q.to_bytes());
    }
    assert_eq!(nbbo_decoder::decode_records(&bytes), quotes());
}

#[test]
fn test_ohlcv_stats_calculation() {
    let records = vec![
        OhlcvRecord {
            ts_event: 1000000000,
            open_px: 100_000_000_000,
            high_px: 101_000_000_000,
            low_px: 99_000_000_000,
            close_px: 100_500_000_000,
            volume: 1000,
            turnover: 100000,
            trade_count: 10,
            _reserved: 0,
        },
        OhlcvRecord {
            ts_event: 2000000000,
            open_px: 100_500_000_000,
            high_px: 102_000_000_000,
            low_px: 100_000_000_000,
            close_px: 101_500_000_000,
            volume: 2000,
            turnover: 200000,
            trade_count: 20,
            _reserved: 0,
        },
        OhlcvRecord {
            ts_event: 3000000000,
            open_px: i64::MAX,
            high_px: i64::MAX,
            low_px: i64::MAX,
            close_px: i64::MAX,
            volume: 0,
            turnover: 0,
            trade_count: 0,
            _reserved: 0,
        },
    ];

    let stats = OhlcvCounts::calculate(&records);

    assert_eq!(stats.record_count, 3);
    assert_eq!(stats.valid_count, 2);
    assert_eq!(stats.invalid_count, 1);

    // Prices are in nanodollars.
    assert!(stats.min_low_px.is_some());
    assert!((stats.min_low_px.unwrap() as f64 / 1e9 - 99.0).abs() < 0.01);
    assert!((stats.max_high_px.unwrap() as f64 / 1e9 - 102.0).abs() < 0.01);

    assert_eq!(stats.total_volume, 3000);
    assert_eq!(stats.total_turnover, 300000);
    assert_eq!(stats.total_trades, 30);

    assert_eq!(stats.min_timestamp, Some(1000000000));
    assert_eq!(stats.max_timestamp, Some(3000000000));
    let range_secs = (stats.max_timestamp.unwrap() - stats.min_timestamp.unwrap()) as f64 / 1e9;
    assert!((range_secs - 2.0).abs() < 0.01);
}
