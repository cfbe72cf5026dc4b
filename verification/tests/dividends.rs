use lod::splits::{parse_divbin, DivbinError, DividendType};

/// A `.divbin` buffer: header, then the data sections, then the index.
fn divbin(entries: &[(&[u8], &[(u32, u32)], u32)]) -> Vec<u8> {
    let mut data = Vec::new();
    let mut index = Vec::new();
    let data_start = 18u64;
    for (name, records, announced) in entries {
        let mut padded = [0u8; 8];
        padded[..name.len()].copy_from_slice(name);
        let offset = data_start + data.len() as u64;
        data.extend_from_slice(&padded);
        data.extend_from_slice(&(records.len() as u32).to_le_bytes());
        for (days, cents) in records.iter() {
            data.extend_from_slice(&days.to_le_bytes());
            data.extend_from_slice(&cents.to_le_bytes());
        }
        index.extend_from_slice(&padded);
        index.extend_from_slice(&offset.to_le_bytes());
        index.extend_from_slice(&announced.to_le_bytes());
        index.extend_from_slice(&[0u8; 4]);
    }
    let mut b = Vec::new();
    b.extend_from_slice(b"DIVD");
    b.extend_from_slice(&1u16.to_le_bytes());
    b.extend_from_slice(&(entries.len() as u32).to_le_bytes());
    b.extend_from_slice(&(data_start + data.len() as u64).to_le_bytes());
    b.extend_from_slice(&data);
    b.extend_from_slice(&index);
    b
}

fn sample() -> Vec<u8> {
    divbin(&[
        (b"AAPL", &[(19000, 24), (19091, 24)], 2),
        (b"MSFT", &[(19010, 68)], 1),
        (b"BRKB", &[], 0),
    ])
}

#[test]
fn divbin_finds_each_ticker() {
    let b = sample();
    assert_eq!(parse_divbin(&b, "AAPL").unwrap(), vec![(19000, 24), (19091, 24)]);
    assert_eq!(parse_divbin(&b, "MSFT").unwrap(), vec![(19010, 68)]);
    assert_eq!(parse_divbin(&b, "BRKB").unwrap(), vec![]);
}

#[test]
fn divbin_reports_a_missing_ticker() {
    match parse_divbin(&sample(), "TSLA") {
        Err(DivbinError::TickerNotFound(t)) => assert_eq!(t, "TSLA"),
        other => panic!("unexpected {:?}", other),
    }
}

#[test]
fn divbin_reports_a_count_mismatch() {
    let b = divbin(&[(b"AAPL", &[(19000, 24)], 3)]);
    match parse_divbin(&b, "AAPL") {
        Err(DivbinError::CountMismatch { ticker, found, expected }) => {
            assert_eq!(ticker, "AAPL");
            assert_eq!(found, 1);
            assert_eq!(expected, 3);
        }
        other => panic!("unexpected {:?}", other),
    }
}

#[test]
fn divbin_refuses_bad_headers() {
    let mut bad_magic = sample();
    bad_magic[0] = b'X';
    assert!(matches!(parse_divbin(&bad_magic, "AAPL"), Err(DivbinError::InvalidMagic(m)) if &m == b"XIVD"));

    let mut bad_version = sample();
    bad_version[4] = 2;
    assert!(matches!(parse_divbin(&bad_version, "AAPL"), Err(DivbinError::UnsupportedVersion(2))));

    assert!(matches!(parse_divbin(b"DIV", "AAPL"), Err(DivbinError::Truncated)));
    assert!(matches!(parse_divbin(b"DIVD\x01\x00\x01", "AAPL"), Err(DivbinError::Truncated)));

    let full = sample();
    let cut = &full[..full.len() - 10];
    assert!(matches!(parse_divbin(cut, "BRKB"), Err(DivbinError::Truncated)));

    let mut bad_name = sample();
    let index_offset = u64::from_le_bytes(bad_name[10..18].try_into().unwrap()) as usize;
    bad_name[index_offset] = 0xFF;
    assert!(matches!(parse_divbin(&bad_name, "AAPL"), Err(DivbinError::InvalidUtf8(_))));
}

#[test]
fn dividend_types_from_codes() {
    assert_eq!(DividendType::from(0u8), DividendType::Cash);
    assert_eq!(DividendType::from(1u8), DividendType::Stock);
    assert_eq!(DividendType::from(2u8), DividendType::Special);
    assert_eq!(DividendType::from(9u8), DividendType::Cash);
}
