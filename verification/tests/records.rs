use lod::nbbo_decoder::NbboRecord;
use lod::nbbo_mmap::NbboRecordZC;
use lod::nohlcv_decoder::OhlcvRecord;
use lod::nohlcv_mmap::OhlcvRecordZC;
use lod::ntrd_decoder::TradeRecord;
use lod::ntrd_mmap::TradeRecordZC;

#[test]
fn test_ohlcv_record_round_trip() {
    let record = OhlcvRecord {
        ts_event: 1234567890000000000,
        open_px: 100_500_000_000,
        high_px: 101_000_000_000,
        low_px: 100_000_000_000,
        close_px: 100_750_000_000,
        volume: 1000000,
        turnover: 100500000,
        trade_count: 250,
        _reserved: 0,
    };

    let bytes = record.to_bytes();
    let decoded = OhlcvRecord::from_bytes(&bytes);

    assert_eq!(record, decoded);
}

#[test]
fn test_ohlc_validation() {
    let valid_record = OhlcvRecord {
        ts_event: 1234567890000000000,
        open_px: 100_500_000_000,
        high_px: 101_000_000_000,
        low_px: 100_000_000_000,
        close_px: 100_750_000_000,
        volume: 1000,
        turnover: 100500,
        trade_count: 10,
        _reserved: 0,
    };
    assert!(valid_record.validate_ohlc());

    let invalid_record = OhlcvRecord {
        ts_event: 1234567890000000000,
        open_px: 100_500_000_000,
        high_px: 99_000_000_000,
        low_px: 100_000_000_000,
        close_px: 100_750_000_000,
        volume: 1000,
        turnover: 100500,
        trade_count: 10,
        _reserved: 0,
    };
    assert!(!invalid_record.validate_ohlc());
}

#[test]
fn test_trade_record_round_trip() {
    let record = TradeRecord {
        ts_event: 1234567890000000000,
        ts_recv: 1234567890000000001,
        price: 25500000000,
        size: 100,
        side: b'B',
        flags: 0x00,
        exchange: 1,
        trade_id: 12345,
    };

    let bytes = record.to_bytes();
    let decoded = TradeRecord::from_bytes(&bytes);

    assert_eq!(record, decoded);
}

#[test]
fn test_side_detection() {
    let buy_record = TradeRecord {
        ts_event: 0,
        ts_recv: 0,
        price: 0,
        size: 0,
        side: b'B',
        flags: 0x00,
        exchange: 0,
        trade_id: 0,
    };

    assert!(buy_record.is_buy());
    assert!(!buy_record.is_sell());
    assert_eq!(buy_record.side_str(), "Buy");

    let sell_record = TradeRecord { side: b'S', ..buy_record };

    assert!(!sell_record.is_buy());
    assert!(sell_record.is_sell());
    assert_eq!(sell_record.side_str(), "Sell");
}

#[test]
fn test_flag_detection() {
    let odd_lot = TradeRecord {
        ts_event: 0,
        ts_recv: 0,
        price: 0,
        size: 50,
        side: b'B',
        flags: 0x80,
        exchange: 0,
        trade_id: 0,
    };

    assert!(odd_lot.is_odd_lot());
    assert!(!odd_lot.is_opening());
    assert!(!odd_lot.is_closing());

    let opening = TradeRecord { flags: 0x10, ..odd_lot };

    assert!(!opening.is_odd_lot());
    assert!(opening.is_opening());
    assert!(!opening.is_closing());

    let closing = TradeRecord { flags: 0x20, ..odd_lot };

    assert!(!closing.is_odd_lot());
    assert!(!closing.is_opening());
    assert!(closing.is_closing());
}

#[test]
fn test_trade_record_conversion() {
    let original = TradeRecord {
        ts_event: 1000,
        ts_recv: 1001,
        price: 100_000_000_000,
        size: 100,
        side: b'B',
        flags: 0x00,
        exchange: 1,
        trade_id: 12345,
    };

    let zc = TradeRecordZC::from_record(&original);
    let converted = zc.to_record();

    assert_eq!(original, converted);
}

#[test]
fn test_nbbo_record_round_trip() {
    let record = NbboRecord {
        ts_event: 1234567890000000000,
        ts_recv: 1234567890000000001,
        bid_px: Some(25500000000),
        bid_sz: 100,
        bid_ct: 1,
        ask_px: Some(25520000000),
        ask_sz: 200,
        ask_ct: 2,
    };

    let bytes = record.to_bytes();
    let decoded = NbboRecord::from_bytes(&bytes);

    assert_eq!(record, decoded);
}

#[test]
fn test_nbbo_record_conversion() {
    let original = NbboRecord {
        ts_event: 1000,
        ts_recv: 1001,
        bid_px: Some(100_000_000_000),
        bid_sz: 100,
        bid_ct: 1,
        ask_px: None,
        ask_sz: 0,
        ask_ct: 0,
    };

    let zc = NbboRecordZC::from_record(&original);
    let converted = zc.to_record();

    assert_eq!(original, converted);
}

#[test]
fn test_ohlcv_record_conversion() {
    let original = OhlcvRecord {
        ts_event: 1_000_000_000,
        open_px: 100_000_000_000,
        high_px: 101_000_000_000,
        low_px: 99_000_000_000,
        close_px: 100_500_000_000,
        volume: 1000,
        turnover: 100000,
        trade_count: 10,
        _reserved: 0,
    };

    let zc = OhlcvRecordZC::from_record(&original);
    let converted = zc.to_record();

    assert_eq!(original, converted);
    assert!(zc.is_valid());
}

#[test]
fn test_invalid_ohlcv_record() {
    let invalid = OhlcvRecordZC {
        ts_event: 1_000_000_000,
        open_px: 100_000_000_000,
        high_px: 99_000_000_000,
        low_px: 101_000_000_000,
        close_px: 100_500_000_000,
        volume: 1000,
        trade_count: 10,
        turnover: 0,
        _padding: 0,
    };

    assert!(!invalid.is_valid());
}

#[test]
fn nbbo_missing_sides_are_written_as_minus_one() {
    let record = NbboRecord {
        ts_event: 5,
        ts_recv: 6,
        bid_px: None,
        bid_sz: 0,
        bid_ct: 0,
        ask_px: Some(7),
        ask_sz: 3,
        ask_ct: 1,
    };
    let bytes = record.to_bytes();
    assert_eq!(&bytes[16..24], &(-1i64).to_le_bytes());
    assert_eq!(&bytes[32..40], &7i64.to_le_bytes());
    assert_eq!(NbboRecord::from_bytes(&bytes), record);
    assert!(record.is_ask_only());
    assert!(!record.is_two_sided());
    assert!(!record.is_bid_only());
    assert!(!record.is_empty());
}

#[test]
fn nbbo_quoted_minus_one_reads_back_as_missing() {
    let record = NbboRecord {
        ts_event: 0,
        ts_recv: 0,
        bid_px: Some(-1),
        bid_sz: 0,
        bid_ct: 0,
        ask_px: None,
        ask_sz: 0,
        ask_ct: 0,
    };
    let decoded = NbboRecord::from_bytes(&record.to_bytes());
    assert_eq!(decoded.bid_px, None);
    assert!(decoded.is_empty());
}

#[test]
fn nbbo_zc_sentinel_is_i64_min() {
    let record = NbboRecord {
        ts_event: 1,
        ts_recv: 2,
        bid_px: None,
        bid_sz: 0,
        bid_ct: 0,
        ask_px: Some(-1),
        ask_sz: 4,
        ask_ct: 1,
    };
    let zc = NbboRecordZC::from_record(&record);
    assert_eq!(zc.bid_px, i64::MIN);
    assert_eq!(zc.ask_px, -1);
    assert_eq!(zc.to_record(), record);
    let quoted_min = NbboRecord { bid_px: Some(i64::MIN), ..record };
    assert_eq!(NbboRecordZC::from_record(&quoted_min).to_record().bid_px, None);
}

#[test]
fn trade_bytes_layout() {
    let record = TradeRecord {
        ts_event: 0x0102030405060708,
        ts_recv: 9,
        price: -2,
        size: 0x0A0B0C0D,
        side: b'S',
        flags: 0x30,
        exchange: 0x1122,
        trade_id: 77,
    };
    let bytes = record.to_bytes();
    assert_eq!(bytes[0], 0x08);
    assert_eq!(bytes[7], 0x01);
    assert_eq!(&bytes[16..24], &(-2i64).to_le_bytes());
    assert_eq!(&bytes[24..28], &[0x0D, 0x0C, 0x0B, 0x0A]);
    assert_eq!(bytes[28], b'S');
    assert_eq!(bytes[29], 0x30);
    assert_eq!(&bytes[30..32], &[0x22, 0x11]);
    assert!(bytes[40..].iter().all(|b| *b == 0));
    assert!(record.is_opening() && record.is_closing());
    assert_eq!(record.aggressor_side(), "Seller (hit bid)");
    assert_eq!(record.side_char(), 'S');
}

#[test]
fn ohlcv_null_prices_fail_validation() {
    let mut r = OhlcvRecord {
        ts_event: 1,
        open_px: 10,
        high_px: 12,
        low_px: 9,
        close_px: 11,
        volume: 1,
        turnover: 1,
        trade_count: 1,
        _reserved: 0,
    };
    assert!(r.has_valid_prices());
    assert!(r.validate_ohlc());
    r.close_px = i64::MAX;
    assert!(!r.has_valid_prices());
    assert!(!r.validate_ohlc());
    r.close_px = -1;
    assert!(!r.has_valid_prices());
}
