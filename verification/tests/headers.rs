use lod::metadata::insert_entry;
use lod::nbbo_decoder;
use lod::nbbo_decoder::NbboError;
use lod::nohlcv_decoder;
use lod::nohlcv_decoder::{NohlcvError, NohlcvHeader};
use lod::ntrd_decoder;
use lod::ntrd_decoder::NtrdError;

/// A header block: prefix, fixed fields, symbol, flags, checksum and then
/// metadata entries with one-byte key lengths and two-byte value lengths,
/// padded with zeros to `header_length`.
fn header_block(magic: &[u8; 4], version: u16, header_length: u16, symbol: &str, meta: &[(&str, &str)]) -> Vec<u8> {
    let mut b = Vec::new();
    b.extend_from_slice(magic);
    b.extend_from_slice(&version.to_le_bytes());
    b.extend_from_slice(&header_length.to_le_bytes());
    b.extend_from_slice(&1_700_000_000_000_000_000u64.to_le_bytes());
    b.extend_from_slice(&42u64.to_le_bytes());
    b.extend_from_slice(&7u32.to_le_bytes());
    b.push(symbol.len() as u8);
    b.extend_from_slice(symbol.as_bytes());
    b.push(3);
    b.extend_from_slice(&0xABCDu32.to_le_bytes());
    for (k, v) in meta {
        b.push(k.len() as u8);
        b.extend_from_slice(k.as_bytes());
        b.extend_from_slice(&(v.len() as u16).to_le_bytes());
        b.extend_from_slice(v.as_bytes());
    }
    while b.len() < header_length as usize {
        b.push(0);
    }
    b
}

#[test]
fn nohlcv_header_reads_and_validates() {
    let block = header_block(b"NOHL", 2, 96, "AAPL", &[("tz", "UTC"), ("source", "sip"), ("source", "iex")]);
    let (header, offset) = nohlcv_decoder::read_and_validate_header(&block).expect("valid header");
    assert_eq!(offset, 96);
    assert_eq!(header.version, 2);
    assert_eq!(header.record_count, 42);
    assert_eq!(header.instrument_id, 7);
    assert_eq!(header.symbol, "AAPL");
    assert_eq!(header.footprint_flags, 3);
    assert_eq!(header.header_checksum, 0xABCD);
    // Entries come out in key order; a repeated key takes the later value.
    assert_eq!(
        header.metadata,
        vec![("source".to_string(), "iex".to_string()), ("tz".to_string(), "UTC".to_string())]
    );
    assert_eq!(header.expected_file_size(), 96 + 42 * 64);
    assert!(header.check_file_len(96 + 42 * 64).is_ok());
    match header.check_file_len(100) {
        Err(NohlcvError::InvalidData(msg)) => assert_eq!(msg, "File truncated: expected 2784 bytes, found 100"),
        other => panic!("unexpected {:?}", other),
    }
}

#[test]
fn nohlcv_header_errors() {
    let mut short = header_block(b"NOHL", 1, 40, "AAPL", &[]);
    short[6..8].copy_from_slice(&20u16.to_le_bytes());
    match nohlcv_decoder::read_and_validate_header(&short) {
        Err(NohlcvError::CorruptedHeader(msg)) => assert_eq!(msg, "Invalid header length: 20"),
        other => panic!("unexpected {:?}", other),
    }

    let mut long_symbol = header_block(b"NOHL", 1, 40, "AAPL", &[]);
    long_symbol[28] = 200;
    match nohlcv_decoder::read_and_validate_header(&long_symbol) {
        Err(NohlcvError::CorruptedHeader(msg)) => assert_eq!(msg, "Symbol extends beyond header"),
        other => panic!("unexpected {:?}", other),
    }

    let empty_symbol = header_block(b"NOHL", 1, 40, "", &[]);
    match nohlcv_decoder::read_and_validate_header(&empty_symbol) {
        Err(NohlcvError::CorruptedHeader(msg)) => assert_eq!(msg, "Empty symbol"),
        other => panic!("unexpected {:?}", other),
    }

    let bad_version = header_block(b"NOHL", 3, 40, "AAPL", &[]);
    match nohlcv_decoder::read_and_validate_header(&bad_version) {
        Err(NohlcvError::UnsupportedVersion { found, supported }) => {
            assert_eq!(found, 3);
            assert_eq!(supported, vec![1, 2]);
        }
        other => panic!("unexpected {:?}", other),
    }

    let bad_magic = header_block(b"XOHL", 1, 40, "AAPL", &[]);
    match nohlcv_decoder::read_and_validate_header(&bad_magic) {
        Err(NohlcvError::InvalidMagic { found, expected }) => {
            assert_eq!(&found, b"XOHL");
            assert_eq!(&expected, b"NOHL");
        }
        other => panic!("unexpected {:?}", other),
    }

    let mut bad_utf8 = header_block(b"NOHL", 1, 40, "AAPL", &[]);
    bad_utf8[29] = 0xFF;
    assert!(matches!(nohlcv_decoder::read_and_validate_header(&bad_utf8), Err(NohlcvError::InvalidUtf8(_))));

    match nohlcv_decoder::check_min_file_size(10) {
        Err(NohlcvError::InvalidData(msg)) => assert_eq!(msg, "File too small: 10 bytes"),
        other => panic!("unexpected {:?}", other),
    }
    assert!(nohlcv_decoder::check_min_file_size(32).is_ok());
}

#[test]
fn nohlcv_header_validation_order() {
    let header = NohlcvHeader {
        magic: *b"NOHL",
        version: 1,
        header_length: 16,
        created_at_ns: 0,
        record_count: 0,
        instrument_id: 0,
        symbol: "X".to_string(),
        footprint_flags: 0,
        header_checksum: 0,
        metadata: Vec::new(),
    };
    match header.validate() {
        Err(NohlcvError::CorruptedHeader(msg)) => assert_eq!(msg, "Header too small: 16 bytes"),
        other => panic!("unexpected {:?}", other),
    }
}

#[test]
fn nohlcv_reads_are_planned_within_bounds() {
    assert_eq!(nohlcv_decoder::record_offset(10, 64, 3).unwrap(), 64 + 3 * 64);
    match nohlcv_decoder::record_offset(10, 64, 10) {
        Err(NohlcvError::IndexOutOfBounds { index, max }) => {
            assert_eq!(index, 10);
            assert_eq!(max, 9);
        }
        other => panic!("unexpected {:?}", other),
    }
    assert_eq!(nohlcv_decoder::plan_read(10, 64, 8, 5).unwrap(), (64 + 8 * 64, 2));
    assert_eq!(nohlcv_decoder::plan_read(10, 64, 2, 3).unwrap(), (64 + 2 * 64, 3));
    assert!(matches!(
        nohlcv_decoder::plan_read(10, 64, 12, 1),
        Err(NohlcvError::IndexOutOfBounds { index: 12, max: 9 })
    ));
}

#[test]
fn trade_and_quote_reads_are_planned_within_bounds() {
    assert_eq!(ntrd_decoder::record_offset(4, 100, 2).unwrap(), 100 + 2 * 64);
    assert!(ntrd_decoder::record_offset(4, 100, 4).is_err());
    assert_eq!(ntrd_decoder::plan_read(4, 100, 1, 10).unwrap(), (100 + 64, 3));
    assert_eq!(nbbo_decoder::record_offset(4, 100, 2).unwrap(), 100 + 2 * 48);
    assert!(nbbo_decoder::record_offset(4, 100, 4).is_err());
    assert_eq!(nbbo_decoder::plan_read(4, 100, 3, 10).unwrap(), (100 + 3 * 48, 1));
}

#[test]
fn nohlcv_metadata_blocks() {
    let mut block = Vec::new();
    block.push(1);
    block.extend_from_slice(b"a");
    block.extend_from_slice(&2u16.to_le_bytes());
    block.extend_from_slice(b"xy");
    block.push(2);
    block.extend_from_slice(b"bc");
    block.extend_from_slice(&0u16.to_le_bytes());
    let m = nohlcv_decoder::decode_metadata(&block).unwrap();
    assert_eq!(m, vec![("a".to_string(), "xy".to_string()), ("bc".to_string(), String::new())]);

    // An entry whose value runs past the end stops the block.
    let mut cut = block.clone();
    cut.push(1);
    cut.extend_from_slice(b"z");
    cut.extend_from_slice(&9u16.to_le_bytes());
    assert_eq!(nohlcv_decoder::decode_metadata(&cut).unwrap().len(), 2);

    // Keys are kept in the order of `String`: bytes, so "B" < "a" < "ab" < "b".
    let mut unordered = Vec::new();
    for key in ["b", "ab", "a", "B"] {
        unordered.push(key.len() as u8);
        unordered.extend_from_slice(key.as_bytes());
        unordered.extend_from_slice(&1u16.to_le_bytes());
        unordered.push(b'v');
    }
    let keys: Vec<String> = nohlcv_decoder::decode_metadata(&unordered).unwrap().into_iter().map(|e| e.0).collect();
    assert_eq!(keys, vec!["B", "a", "ab", "b"]);

    let bad = vec![1u8, 0xFF, 0, 0];
    assert!(matches!(nohlcv_decoder::decode_metadata(&bad), Err(NohlcvError::InvalidUtf8(_))));
}

#[test]
fn trade_and_quote_headers() {
    let block = header_block(b"NTRD", 1, 64, "MSFT", &[]);
    let (header, offset) = ntrd_decoder::read_header(&block).expect("trade header");
    assert_eq!(offset, 64);
    assert_eq!(header.symbol, "MSFT");
    assert_eq!(header.record_count, 42);

    let bad = header_block(b"NTRX", 1, 64, "MSFT", &[]);
    let mut prefix = [0u8; 8];
    prefix.copy_from_slice(&bad[..8]);
    assert!(matches!(ntrd_decoder::check_prefix(&prefix), Err(NtrdError::InvalidMagic(m)) if &m == b"NTRX"));

    let quote = header_block(b"NBB0", 1, 64, "SPY", &[]);
    let mut qprefix = [0u8; 8];
    qprefix.copy_from_slice(&quote[..8]);
    assert_eq!(nbbo_decoder::check_prefix(&qprefix).unwrap(), (1, 64));
    let (qheader, qoffset) = nbbo_decoder::read_header(&quote).expect("quote header");
    assert_eq!(qoffset, 64);
    assert_eq!(qheader.symbol, "SPY");

    let mut wrong = quote.clone();
    wrong[0] = b'X';
    qprefix.copy_from_slice(&wrong[..8]);
    assert!(matches!(nbbo_decoder::check_prefix(&qprefix), Err(NbboError::InvalidMagic(_))));
}

#[test]
fn metadata_entries_stay_in_key_order() {
    let mut entries: Vec<(String, String)> = Vec::new();
    for (k, v) in [("m", "1"), ("c", "2"), ("x", "3"), ("c", "4")] {
        insert_entry(&mut entries, k.to_string(), v.to_string());
    }
    let pairs: Vec<(&str, &str)> = entries.iter().map(|(k, v)| (k.as_str(), v.as_str())).collect();
    assert_eq!(pairs, vec![("c", "4"), ("m", "1"), ("x", "3")]);
}
