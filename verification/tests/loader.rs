use lod::loader::{calculate_date_range, DataFile, DataLoader, FileType};
use std::path::PathBuf;

#[test]
fn test_interval_parsing() {
    let _loader = DataLoader::new(vec![]);
}

fn file(start: i64, end: i64, interval: Option<u64>) -> DataFile {
    DataFile {
        path: PathBuf::from("x"),
        file_type: FileType::Csv,
        interval,
        record_count: 0,
        start_date: start,
        end_date: end,
    }
}

#[test]
fn intervals_and_dates() {
    let loader = DataLoader::new(vec![]);
    assert_eq!(loader.parse_interval("1m"), Some(60));
    assert_eq!(loader.parse_interval("15m"), Some(900));
    assert_eq!(loader.parse_interval("4h"), Some(14400));
    assert_eq!(loader.parse_interval("1d"), Some(86400));
    assert_eq!(loader.parse_interval("7d"), Some(7 * 86400));
    assert_eq!(loader.parse_interval("+2m"), Some(120));
    assert_eq!(loader.parse_interval("xm"), None);
    assert_eq!(loader.parse_interval("5s"), None);
    assert_eq!(loader.parse_interval(""), None);
    assert_eq!(loader.parse_date("2021-01-01"), Some(1609459200));
    assert_eq!(loader.parse_date("2021-02-30"), None);
    assert_eq!(loader.parse_date("2021-01"), None);
    assert_eq!(loader.parse_date("2021-01-01-02"), None);
}

#[test]
fn interval_overflow_is_detected() {
    assert!(lod::loader::interval_in_range("5m"));
    assert!(!lod::loader::interval_in_range("18446744073709551615m"));
    assert!(lod::loader::interval_in_range("nonsense"));
}

#[test]
fn file_names_carry_dates_and_intervals() {
    let loader = DataLoader::new(vec![]);
    let name = "2024-01-02_to_2024-01-05-nbbo-1m.nbbo";
    assert_eq!(
        loader.parse_nbbo_filename(name),
        Some((1704153600, 1704412800, 60))
    );
    assert_eq!(
        loader.parse_nbbo_filename("2024-01-01_to_2024-12-31-nbbo-1m.nbbo"),
        Some((1704067200, 1735603200, 60))
    );
    // A name without the `_to_` between the dates is not a data file name.
    assert_eq!(loader.parse_nbbo_filename("2024-01-02-to_2024-01-05-nbbo-1m.nbbo"), None);
    assert_eq!(loader.parse_nbbo_filename("2024-01-02_from_2024-01-05-nbbo-1m.nbbo"), None);
    assert_eq!(loader.parse_nbbo_filename("2024-01-02_to_2024-01-05-nbbo.nbbo"), None);
    assert_eq!(
        loader.parse_nohlcv_filename("2024-01-02_to_2024-01-05-ohlcv-5m.nohlcv"),
        Some((1704153600, 1704412800, 300))
    );
    assert_eq!(
        loader.parse_data_file_name("2024-01-02_to_2024-01-05-ohlcv-1h.nohlcv"),
        Some((FileType::Nohlcv, Some((1704153600, 1704412800, 3600))))
    );
    assert_eq!(loader.parse_data_file_name("data.csv"), Some((FileType::Csv, None)));
    assert_eq!(loader.parse_data_file_name("bad.nbbo"), None);
    assert_eq!(loader.parse_data_file_name("notes.txt"), None);
}

#[test]
fn date_range_of_files() {
    let files = vec![file(10, 20, None), file(5, 15, None), file(12, 30, None)];
    assert_eq!(calculate_date_range(&files), (5, 30));
    assert_eq!(calculate_date_range(&[]), (i64::MAX, i64::MIN));
}

#[test]
fn registry_merges_and_orders_symbols() {
    let mut loader = DataLoader::new(vec![PathBuf::from("/data")]);
    loader.record_symbol_files("MSFT".to_string(), "ex1".to_string(), vec![file(10, 20, Some(60))]);
    loader.record_symbol_files("AAPL".to_string(), "ex1".to_string(), vec![file(5, 6, Some(60))]);
    loader.record_symbol_files("MSFT".to_string(), "ex2".to_string(), vec![file(1, 25, Some(300))]);
    loader.record_symbol_files("MSFT".to_string(), "ex1".to_string(), vec![file(11, 12, None)]);
    loader.record_symbol_files("".to_string(), "ex1".to_string(), vec![file(1, 2, None)]);
    loader.record_symbol_files("IBM".to_string(), "ex1".to_string(), vec![]);

    assert_eq!(loader.get_available_symbols(), vec!["AAPL".to_string(), "MSFT".to_string()]);
    let msft = loader.get_symbol_info("MSFT").unwrap();
    assert_eq!(msft.exchanges, vec!["ex1".to_string(), "ex2".to_string()]);
    assert_eq!(msft.date_range, (1, 25));
    assert_eq!(msft.available_files.len(), 3);
    assert!(loader.get_symbol_info("IBM").is_none());
    assert_eq!(loader.base_paths(), &vec![PathBuf::from("/data")]);

    loader.clear_cache();
    assert!(loader.get_available_symbols().is_empty());
}

#[test]
fn selection_follows_intervals_then_files() {
    let files = vec![
        file(0, 10, Some(60)),
        file(20, 30, Some(300)),
        file(40, 50, Some(60)),
        file(0, 100, None),
    ];
    assert_eq!(lod::loader::select_files(&files, None, None, &[300, 60]), vec![1, 0, 2]);
    assert_eq!(lod::loader::select_files(&files, Some(15), None, &[60]), vec![2]);
    assert_eq!(lod::loader::select_files(&files, None, Some(15), &[60, 300]), vec![0]);
    assert_eq!(lod::loader::select_files(&files, Some(11), Some(19), &[60, 300]), Vec::<usize>::new());
}
