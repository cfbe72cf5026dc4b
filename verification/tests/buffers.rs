use lod::nbbo_decoder::NbboRecord;
use lod::nbbo_mmap;
use lod::nohlcv_decoder::OhlcvRecord;
use lod::nohlcv_mmap;
use lod::nbbo_mmap::NbboRecordZC;
use lod::ntrd_decoder::TradeRecord;
use lod::ntrd_mmap;
use lod::ntrd_mmap::TradeRecordZC;
use lod::ring::HotTradesRing;
use lod::search::{find_time_range, find_timestamp};

/// A trade as the live engine queues it: timestamp, price, size, side,
/// flags, exchange.
type Trade = (i64, f32, f32, u8, u8, u16);

fn trade(ts: i64, price: f32, size: f32, side: u8) -> Trade {
    (ts, price, size, side, 0, 0)
}

#[test]
fn test_hot_trades_ring_basic() {
    let mut ring: HotTradesRing<Trade> = HotTradesRing::new(4);

    for i in 0..10 {
        let t = trade(i, 100.0 + i as f32, 1.0, b'B');
        assert!(ring.push_trade(t));
    }

    assert_eq!(ring.len(), 10);

    let mut out = Vec::new();
    let count = ring.drain_to(&mut out);
    assert_eq!(count, 10);
    assert_eq!(out.len(), 10);
    assert!(ring.is_empty());
}

#[test]
fn test_hot_trades_ring_overflow() {
    let mut ring: HotTradesRing<Trade> = HotTradesRing::new(4);

    for i in 0..15 {
        let t = trade(i, 100.0, 1.0, b'B');
        assert!(ring.push_trade(t));
    }

    let t = trade(100, 100.0, 1.0, b'B');
    assert!(!ring.push_trade(t));
}

#[test]
fn ring_drains_oldest_first_and_appends() {
    let mut ring: HotTradesRing<u64> = HotTradesRing::new(4);
    let mut out = vec![7u64];
    for i in 1..=5u64 {
        assert!(ring.push_trade(i * 10));
    }
    assert_eq!(ring.drain_to(&mut out), 5);
    assert_eq!(out, vec![7, 10, 20, 30, 40, 50]);
    assert_eq!(ring.len(), 0);
    // The slots are reused after a drain, across the wrap point.
    for i in 0..15u64 {
        assert!(ring.push_trade(i));
    }
    assert!(!ring.push_trade(99));
    let mut again = Vec::new();
    assert_eq!(ring.drain_to(&mut again), 15);
    assert_eq!(again, (0..15u64).collect::<Vec<_>>());
}

#[test]
fn ring_drain_of_empty_ring_moves_nothing() {
    let mut ring: HotTradesRing<u64> = HotTradesRing::new(5);
    let mut out = Vec::new();
    assert_eq!(ring.drain_to(&mut out), 0);
    assert!(out.is_empty());
    assert!(ring.is_empty());
}

/// Records of 24 bytes: an id, a value and flags with padding.
fn search_records() -> Vec<u8> {
    let mut bytes = Vec::new();
    for i in 0..100u64 {
        bytes.extend_from_slice(&(i * 10).to_le_bytes());
        bytes.extend_from_slice(&(i as f64).to_le_bytes());
        bytes.extend_from_slice(&0u32.to_le_bytes());
        bytes.extend_from_slice(&0u32.to_le_bytes());
    }
    bytes
}

#[test]
fn test_mmap_binary_search() {
    let bytes = search_records();

    let result = find_timestamp(&bytes, 0, 24, 100, 500);
    assert_eq!(result, Ok(50));

    let result = find_timestamp(&bytes, 0, 24, 100, 505);
    assert_eq!(result, Err(51));

    let range = find_time_range(&bytes, 0, 24, 100, 200, 400);
    assert_eq!(range, Some((20, 41)));
}

#[test]
fn binary_search_edges() {
    let bytes = search_records();
    assert_eq!(find_timestamp(&bytes, 0, 24, 100, 0), Ok(0));
    assert_eq!(find_timestamp(&bytes, 0, 24, 100, 990), Ok(99));
    assert_eq!(find_timestamp(&bytes, 0, 24, 100, 5000), Err(100));
    assert_eq!(find_timestamp(&bytes, 0, 24, 0, 10), Err(0));
    // A range that lies past every record is empty.
    assert_eq!(find_time_range(&bytes, 0, 24, 100, 2000, 3000), None);
    // A range between two neighbours is empty too.
    assert_eq!(find_time_range(&bytes, 0, 24, 100, 501, 509), None);
    assert_eq!(find_time_range(&bytes, 0, 24, 100, 0, 990), Some((0, 100)));
}

fn mapped_header(magic: &[u8; 4], version: u16, with_trailer: bool) -> Vec<u8> {
    let mut header = Vec::new();
    header.extend_from_slice(magic);
    header.extend_from_slice(&version.to_le_bytes());
    let header_length: u16 = 64;
    header.extend_from_slice(&header_length.to_le_bytes());
    header.extend_from_slice(&1_u64.to_le_bytes());
    header.extend_from_slice(&2_u64.to_le_bytes());
    header.extend_from_slice(&123_u32.to_le_bytes());
    header.push(4);
    header.extend_from_slice(b"TEST");
    if with_trailer {
        header.push(0);
        header.extend_from_slice(&0_u32.to_le_bytes());
    }
    while header.len() < header_length as usize {
        header.push(0);
    }
    header
}

#[test]
fn test_ntrd_zero_copy_slice_access() {
    let mut file = mapped_header(b"NTRD", 1, true);

    let records = [
        TradeRecord {
            ts_event: 10,
            ts_recv: 11,
            price: 100_000_000_000,
            size: 100,
            side: b'B',
            flags: 0x00,
            exchange: 1,
            trade_id: 1,
        },
        TradeRecord {
            ts_event: 20,
            ts_recv: 21,
            price: 101_000_000_000,
            size: 150,
            side: b'S',
            flags: 0x00,
            exchange: 1,
            trade_id: 2,
        },
    ];

    for record in &records {
        let zc = TradeRecordZC::from_record(record);
        file.extend_from_slice(&zc.to_record().to_bytes());
    }

    let (header, data_offset) = ntrd_mmap::decode_mapped_header(&file).expect("open mapped header");
    assert_eq!(header.record_count, 2);
    assert_eq!(header.symbol, "TEST");
    assert_eq!(data_offset, 64);

    let slice = ntrd_mmap::get_records(&file, data_offset, header.record_count, 0, 2).expect("slice");
    assert_eq!(slice.len(), 2);
    assert_eq!(slice[0].ts_event, 10);
    assert_eq!(slice[1].ts_event, 20);

    let single = ntrd_mmap::get_record(&file, data_offset, header.record_count, 1).expect("record");
    assert_eq!(single, slice[1]);
    assert_eq!(slice, records.to_vec());

    assert!(ntrd_mmap::get_record(&file, data_offset, header.record_count, 2).is_none());
    assert!(ntrd_mmap::get_records(&file, data_offset, header.record_count, 1, 2).is_none());
}

#[test]
fn test_nbbo_zero_copy_slice_access() {
    let mut file = mapped_header(b"NBB0", 1, false);

    let records = [
        NbboRecord {
            ts_event: 10,
            ts_recv: 11,
            bid_px: Some(100_000_000_000),
            bid_sz: 100,
            bid_ct: 1,
            ask_px: Some(100_500_000_000),
            ask_sz: 120,
            ask_ct: 2,
        },
        NbboRecord {
            ts_event: 20,
            ts_recv: 21,
            bid_px: Some(101_000_000_000),
            bid_sz: 150,
            bid_ct: 1,
            ask_px: Some(101_400_000_000),
            ask_sz: 130,
            ask_ct: 2,
        },
    ];

    for record in &records {
        let zc = NbboRecordZC::from_record(record);
        file.extend_from_slice(&zc.to_record().to_bytes());
    }

    let (header, data_offset) = nbbo_mmap::decode_mapped_header(&file).expect("open mapped header");
    assert_eq!(header.record_count, 2);

    let slice = nbbo_mmap::get_records_zc(&file, data_offset, header.record_count, 0, 2).expect("slice");
    assert_eq!(slice.len(), 2);
    assert_eq!(slice[0].ts_event, 10);
    assert_eq!(slice[1].ts_event, 20);

    let single = nbbo_mmap::get_record_zc(&file, data_offset, header.record_count, 1).expect("record");
    assert_eq!(single, slice[1]);

    let owned = nbbo_mmap::get_records(&file, data_offset, header.record_count, 0, 2).expect("records");
    assert_eq!(owned, records.to_vec());
}

#[test]
fn mapped_headers_refuse_short_or_foreign_files() {
    assert!(ntrd_mmap::decode_mapped_header(b"NTRD").is_err());
    assert!(nbbo_mmap::decode_mapped_header(&[0u8; 4]).is_err());
    let foreign = mapped_header(b"XXXX", 1, true);
    assert!(ntrd_mmap::decode_mapped_header(&foreign).is_err());
    let old_version = mapped_header(b"NBB0", 2, false);
    assert!(nbbo_mmap::decode_mapped_header(&old_version).is_err());
}

#[test]
fn mapped_quote_with_missing_side_reads_back_missing() {
    let mut file = mapped_header(b"NBB0", 1, false);
    let one_sided = NbboRecord {
        ts_event: 30,
        ts_recv: 31,
        bid_px: None,
        bid_sz: 0,
        bid_ct: 0,
        ask_px: Some(99_000_000_000),
        ask_sz: 10,
        ask_ct: 1,
    };
    let bytes = one_sided.to_bytes();
    assert_eq!(&bytes[16..24], &(-1i64).to_le_bytes());
    file.extend_from_slice(&bytes);
    file.extend_from_slice(&bytes);
    let (header, data_offset) = nbbo_mmap::decode_mapped_header(&file).expect("header");
    let read = nbbo_mmap::get_record(&file, data_offset, header.record_count, 0).expect("record");
    assert_eq!(read, one_sided);
    assert_eq!(read, NbboRecord::from_bytes(&bytes));
    let zc = nbbo_mmap::get_record_zc(&file, data_offset, header.record_count, 1).expect("zc");
    // The zero-copy view shows the stored bytes as they are.
    assert_eq!(zc.bid_px, -1);
    let all = nbbo_mmap::get_records(&file, data_offset, header.record_count, 0, 2).expect("records");
    assert_eq!(all, vec![one_sided, one_sided]);
    assert!(nbbo_mmap::get_record(&file, data_offset, header.record_count, 2).is_none());
}

#[test]
fn mapped_bars_read_back_as_written() {
    let mut file = mapped_header(b"NOHL", 1, false);
    let bars = [
        OhlcvRecord {
            ts_event: 1_000,
            open_px: 100,
            high_px: 110,
            low_px: 90,
            close_px: 105,
            volume: 7,
            turnover: 700,
            trade_count: 3,
            _reserved: 0,
        },
        OhlcvRecord {
            ts_event: 2_000,
            open_px: 105,
            high_px: 120,
            low_px: 100,
            close_px: 118,
            volume: 9,
            turnover: 1_000,
            trade_count: 4,
            _reserved: 0,
        },
    ];
    for bar in &bars {
        file.extend_from_slice(&bar.to_bytes());
    }
    assert_eq!(lod::nohlcv_mmap::ZC_SIZE, 64);
    let (header, data_offset) = nohlcv_mmap::decode_mapped_header(&file).expect("header");
    assert_eq!(header.record_count, 2);
    for (i, bar) in bars.iter().enumerate() {
        let read = nohlcv_mmap::get_record(&file, data_offset, header.record_count, i as u64).expect("bar");
        assert_eq!(&read, bar);
        let zc = nohlcv_mmap::get_record_zc(&file, data_offset, header.record_count, i as u64).expect("zc");
        assert_eq!(zc.turnover, bar.turnover);
        assert_eq!(zc.trade_count, bar.trade_count);
    }
    assert!(nohlcv_mmap::get_record(&file, data_offset, header.record_count, 2).is_none());
}
