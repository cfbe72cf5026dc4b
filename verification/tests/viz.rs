use lod::viz_adapter::trading_time::{is_trading_hours, try_is_trading_hours};
use lod::viz_adapter::format_detection::{format_of_extension, format_of_magic, DataFormat};
use lod::viz_adapter::trading_time::{is_trading_day, MarketHours, TradingDayMapper, TradingHoursMapper};
use lod::viz_adapter::view_utils::{slice_centered, slice_centered_time};
use lod::viz_adapter::{format_timestamp, try_format_timestamp, Time};

#[test]
fn test_format_timestamp() {
    let formatted = format_timestamp(1609459200, 86400);
    assert!(formatted.contains("2021-01-01") || formatted.contains("2020-12-31"));

    let formatted = format_timestamp(1609459200, 60);
    assert!(formatted.contains(":"));
}

#[test]
fn timestamp_labels_use_new_york_time() {
    assert_eq!(format_timestamp(1609459200, 86400), "2020-12-31");
    assert_eq!(format_timestamp(1609459200, 60), "12-31 19:00 EST");
    assert!(try_format_timestamp(i64::MAX, 60).is_none());
}

#[test]
fn time_converts_to_seconds() {
    let t = Time(42);
    let secs: i64 = t.into();
    assert_eq!(secs, 42);
}

#[test]
fn centered_slices() {
    let data: Vec<i32> = (0..100).collect();
    assert_eq!(slice_centered(&data, 10, 2), vec![8, 9, 10, 11, 12]);
    assert_eq!(slice_centered(&data, 1, 5), vec![0, 1, 2, 3, 4, 5, 6]);
    assert_eq!(slice_centered(&data, 98, 5), vec![93, 94, 95, 96, 97, 98, 99]);
}

#[test]
fn centered_time_slices() {
    let data = vec!['a', 'b', 'c', 'd', 'e', 'f'];
    let ts = vec![10, 20, 30, 40, 50, 60];
    assert_eq!(slice_centered_time(&data, &ts, 35, 10), vec!['c', 'd']);
    assert_eq!(slice_centered_time(&data, &ts, 0, 5), Vec::<char>::new());
    assert_eq!(slice_centered_time(&data, &ts, 100, 5), vec!['f']);
}

#[test]
fn formats_by_extension_and_magic() {
    assert_eq!(format_of_extension("csv"), Some(DataFormat::Csv));
    assert_eq!(format_of_extension("nohlcv"), Some(DataFormat::Nohlcv));
    assert_eq!(format_of_extension("dat"), None);
    assert_eq!(format_of_magic(b"NOHL"), DataFormat::Nohlcv);
    assert_eq!(format_of_magic(b"1,2,"), DataFormat::Csv);
}

#[test]
fn trading_days_and_hours() {
    assert!(!is_trading_day(1, 1, 4));
    assert!(!is_trading_day(3, 6, 5));
    assert!(is_trading_day(3, 4, 2));
    let hours = MarketHours::default();
    assert_eq!(hours.open_hour, 9);
    assert_eq!(hours.open_minute, 30);
    let mapper = TradingHoursMapper::new(hours);
    assert_eq!(mapper.session_duration(), 390 * 60);
    assert!(lod::viz_adapter::trading_time::within_session(mapper.hours(), 9, 30));
    assert!(!lod::viz_adapter::trading_time::within_session(mapper.hours(), 16, 0));

    // 2021-01-01 (Friday, holiday) .. 2021-01-05 (Tuesday)
    let mapper = TradingDayMapper::new(1609459200, 1609459200 + 4 * 86400);
    assert_eq!(mapper.trading_days(), &vec![1609459200 + 3 * 86400, 1609459200 + 4 * 86400]);
    assert_eq!(mapper.index_of_day(1609459200 + 4 * 86400), Some(1));
    assert_eq!(mapper.index_of_day(1609459200), None);
    assert!(TradingDayMapper::try_new(i64::MAX - 10, i64::MAX - 5).is_none());
}

#[test]
fn lookback_cutoff() {
    assert_eq!(lod::viz_adapter::days_cutoff(10 * 86_400_000_000_000, 3), 7 * 86_400_000_000_000);
    assert_eq!(lod::viz_adapter::days_cutoff(5, 1), 0);
}

#[test]
fn bucket_runs_group_consecutive_buckets() {
    let runs = lod::viz_adapter::bucket_runs(&[0, 5, 9, 10, 25, 21, 3], 10);
    assert_eq!(runs, vec![(0, 0, 3), (1, 3, 4), (2, 4, 6), (0, 6, 7)]);
    assert!(lod::viz_adapter::bucket_runs(&[], 10).is_empty());
}

#[test]
fn trading_hours_in_new_york() {
    let hours = MarketHours::default();
    // 2024-01-02, a Tuesday: 15:00 UTC is 10:00 in New York.
    assert!(is_trading_hours(1704207600, &hours));
    // 14:00 UTC is 9:00 in New York, before the opening.
    assert!(!is_trading_hours(1704204000, &hours));
    // 21:00 UTC is 16:00 in New York, the close itself.
    assert!(!is_trading_hours(1704229200, &hours));
    // New Year's Day 2024 at 15:00 UTC.
    assert!(!is_trading_hours(1704121200, &hours));
    // Saturday 2024-01-06 at 15:00 UTC.
    assert!(!is_trading_hours(1704553200, &hours));
    assert_eq!(try_is_trading_hours(1704207600, &hours), Some(true));
    assert_eq!(try_is_trading_hours(i64::MAX, &hours), None);
}

#[test]
fn lookback_of_negative_days_wraps() {
    // A negative span wraps to a huge unsigned one, so nothing is cut off.
    assert_eq!(lod::viz_adapter::days_cutoff(1_700_000_000_000_000_000, -1), 0);
    assert_eq!(lod::viz_adapter::days_cutoff(u64::MAX, -1), 86_400_000_000_000 - 1);
}

#[test]
fn test_view_utils() {
    let data = vec![1, 2, 3, 4, 5, 6, 7, 8, 9];
    let sliced = slice_centered(&data, 4, 2);
    assert_eq!(sliced, vec![3, 4, 5, 6, 7]);
}

#[test]
fn reversed_day_span_gives_an_empty_mapper() {
    let mapper = TradingDayMapper::new(i64::MAX - 5, i64::MAX - 10);
    assert!(mapper.trading_days().is_empty());
    let tried = TradingDayMapper::try_new(i64::MAX - 5, i64::MAX - 10).expect("empty mapper");
    assert!(tried.trading_days().is_empty());
}
