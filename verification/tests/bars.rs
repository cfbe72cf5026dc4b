use lod::aggregator::{BucketClock, BucketStep};
use lod::levels::{sorted_distinct, widen_level_info, LevelIndex, LevelInfo};
use lod::line_lod::{bucket_assignment, find_window_indices, partition_count, select_lod};
use lod::live::{bar_start, closed_windows, lane_position, CompletedBars};
use lod::mmap::{check_mappable, element_count, element_range, MmapError};
use lod::nohlcv_decoder;
use lod::text::{decimal_string, format_number, format_timestamp};
use lod::traits;

#[test]
fn bars_start_at_interval_multiples() {
    assert_eq!(bar_start(0, 10), 0);
    assert_eq!(bar_start(19, 10), 10);
    assert_eq!(bar_start(20, 10), 20);
    // Division truncates toward zero, so early negative times share bar 0.
    assert_eq!(bar_start(-1, 10), 0);
    assert_eq!(bar_start(-15, 10), -10);
    assert_eq!(bar_start(1_500_000_000, 1_000_000_000), 1_000_000_000);
}

#[test]
fn lanes_are_found_by_interval() {
    assert_eq!(lane_position(&[1, 60, 300], 60), Some(1));
    assert_eq!(lane_position(&[1, 60, 60], 60), Some(1));
    assert_eq!(lane_position(&[1, 60, 300], 5), None);
    assert_eq!(lane_position(&[], 5), None);
}

#[test]
fn finer_bars_group_into_closed_windows() {
    assert_eq!(closed_windows(&[0, 5, 10, 25, 26], 10), vec![(0, 0, 2), (10, 2, 3)]);
    assert_eq!(closed_windows(&[3, 4], 10), vec![]);
    assert_eq!(closed_windows(&[], 10), vec![]);
}

#[test]
fn completed_bars_keep_the_latest() {
    let mut bars: CompletedBars<u32> = CompletedBars::new(3);
    for b in 1..=5 {
        bars.push(b);
    }
    assert_eq!(bars.len(), 3);
    assert_eq!(bars.to_vec(), vec![3, 4, 5]);
    assert_eq!(bars.drain_old(1), vec![3, 4]);
    assert_eq!(bars.to_vec(), vec![5]);
    assert_eq!(bars.drain_old(4), vec![]);
    bars.clear();
    assert_eq!(bars.len(), 0);
}

#[test]
fn bucket_clock_rolls_over() {
    let mut clock = BucketClock::new(60);
    assert_eq!(clock.seal(), None);
    assert_eq!(clock.get_bucket_start(61_000_000_000), 60_000_000_000);
    assert_eq!(clock.update(0), BucketStep::First);
    assert_eq!(clock.update(30_000_000_000), BucketStep::Same);
    assert_eq!(clock.count, 2);
    assert_eq!(clock.update(61_000_000_000), BucketStep::Rolled(0));
    assert_eq!(clock.count, 1);
    assert_eq!(clock.bucket_start, 60_000_000_000);
    assert_eq!(clock.seal(), Some(60_000_000_000));
}

#[test]
fn window_indices_and_partitions() {
    let ts = [10u64, 20, 30, 40];
    assert_eq!(find_window_indices(&ts, 15, 30), (1, 3));
    assert_eq!(find_window_indices(&ts, 0, 100), (0, 4));
    assert_eq!(find_window_indices(&ts, 50, 60), (4, 4));
    assert_eq!(partition_count(&ts, 30, false), 2);
    assert_eq!(partition_count(&ts, 30, true), 3);
}

#[test]
fn level_selection() {
    let levels = [1_000_000_000u64, 60_000_000_000, 3_600_000_000_000];
    let day = 86_400_000_000_000u64;
    assert_eq!(select_lod(&levels, 0, day, 20), Some(2));
    assert_eq!(select_lod(&levels, 0, day, 1000), Some(2));
    assert_eq!(select_lod(&levels, 0, day, 10), Some(0));
    assert_eq!(select_lod(&levels, 0, 600_000_000_000, 1), Some(2));
    assert_eq!(select_lod(&[60_000_000_000, 1_000_000_000], 0, 600_000_000_000, 5), Some(0));
    assert_eq!(select_lod(&[60_000_000_000, 1_000_000_000], 0, 600_000_000_000, 300), Some(1));
    assert_eq!(select_lod(&levels, 5, 5, 10), Some(0));
    assert_eq!(select_lod(&levels, 9, 5, 10), Some(0));
    assert_eq!(select_lod(&[], 0, day, 10), None);
}

#[test]
fn levels_widen_to_cover_appended_data() {
    let fresh = widen_level_info(None, 60, 5, 10);
    assert_eq!((fresh.first_ts, fresh.last_ts, fresh.bucket_span_secs), (5, 10, 60));
    let existing = LevelInfo { first_ts: 5, last_ts: 10, bucket_span_secs: 60 };
    let wider = widen_level_info(Some(existing), 300, 1, 8);
    assert_eq!((wider.first_ts, wider.last_ts, wider.bucket_span_secs), (1, 10, 60));
}

#[test]
fn mapping_size_checks() {
    assert!(matches!(check_mappable(0), Err(MmapError::InvalidSize { expected: 1, actual: 0 })));
    assert!(check_mappable(1).is_ok());
    assert!(matches!(element_count(10, 4), Err(MmapError::AlignmentError)));
    assert_eq!(element_count(12, 4).unwrap(), 3);
    assert_eq!(element_range(5, 8, 1, 2), Some((8, 24)));
    assert_eq!(element_range(5, 8, 4, 2), None);
    assert_eq!(element_range(5, 8, 0, 5), Some((0, 40)));
}

#[test]
fn numbers_and_timestamps_as_text() {
    assert_eq!(format_number(1_234_567), "1,234,567");
    assert_eq!(format_number(999), "999");
    assert_eq!(format_number(1000), "1,000");
    assert_eq!(format_number(1_000_005), "1,000,005");
    assert_eq!(format_number(0), "0");
    assert_eq!(decimal_string(0), "0");
    assert_eq!(decimal_string(18_446_744_073_709_551_615), "18446744073709551615");
    assert_eq!(format_timestamp(1_234_000_000_001), "1234.000000001");
    assert_eq!(format_timestamp(5), "0.000000005");
}

#[test]
fn quote_and_bar_adapters() {
    let q = traits::NbboRecord { ts_event: 1, bid_px: Some(100), bid_sz: 10, ask_px: Some(103), ask_sz: 20 };
    assert_eq!(q.reference_px(), Some(101));
    assert_eq!(q.quoted_size(), 30);
    let neg = traits::NbboRecord { ts_event: 1, bid_px: Some(-3), bid_sz: 0, ask_px: Some(0), ask_sz: 0 };
    assert_eq!(neg.reference_px(), Some(-1));
    let bid_only = traits::NbboRecord { ts_event: 1, bid_px: Some(7), bid_sz: 1, ask_px: None, ask_sz: 0 };
    assert_eq!(bid_only.reference_px(), Some(7));
    let none = traits::NbboRecord { ts_event: 1, bid_px: None, bid_sz: 0, ask_px: None, ask_sz: 0 };
    assert_eq!(none.reference_px(), None);

    let bar = nohlcv_decoder::OhlcvRecord {
        ts_event: 9,
        open_px: 1,
        high_px: 4,
        low_px: 0,
        close_px: 2,
        volume: 100,
        turnover: 200,
        trade_count: 3,
        _reserved: 0,
    };
    let a = traits::OhlcvRecord::from_bar(&bar);
    assert_eq!((a.ts_event, a.open_px, a.high_px, a.low_px, a.close_px, a.volume, a.trade_count), (9, 1, 4, 0, 2, 100, 3));
}

#[test]
fn level_index_tracks_spans() {
    let mut index = LevelIndex::new();
    assert!(index.get(60).is_none());
    index.widen(60, 100, 200);
    let i = index.get(60).unwrap();
    assert_eq!((i.first_ts, i.last_ts, i.bucket_span_secs), (100, 200, 60));
    index.widen(60, 50, 150);
    let i = index.get(60).unwrap();
    assert_eq!((i.first_ts, i.last_ts), (50, 200));
    index.set(0, LevelInfo { first_ts: 1, last_ts: 2, bucket_span_secs: 0 });
    assert_eq!(index.get(0).unwrap().last_ts, 2);
    index.set(60, LevelInfo { first_ts: 7, last_ts: 8, bucket_span_secs: 60 });
    assert_eq!(index.get(60).unwrap().first_ts, 7);
}

#[test]
fn intervals_sort_without_repeats() {
    assert_eq!(sorted_distinct(&[300, 60, 1, 60, 3600, 1]), vec![1, 60, 300, 3600]);
    assert_eq!(sorted_distinct(&[]), Vec::<u64>::new());
    assert_eq!(sorted_distinct(&[5, 5, 5]), vec![5]);
}

#[test]
fn raw_points_group_into_buckets() {
    let (keys, assign) = bucket_assignment(&[25, 3, 11, 29, 0, 40], 10);
    assert_eq!(keys, vec![0, 10, 20, 40]);
    assert_eq!(assign, vec![2, 0, 1, 2, 0, 3]);
    let (keys, assign) = bucket_assignment(&[], 10);
    assert!(keys.is_empty() && assign.is_empty());
}

#[test]
fn test_resolution_level_window() {
    // A level of one point a second for ten seconds.
    let points: Vec<u64> = (0..10).map(|i| i * 1_000_000_000).collect();
    let (start, end) = find_window_indices(&points, 2_000_000_000, 7_000_000_000);
    assert_eq!(end - start, 6);
}

#[test]
fn test_lod_selection() {
    // Second and minute levels; a one-hour viewport 1000 pixels wide at two
    // pixels a point.
    let levels = [1_000_000_000u64, 60_000_000_000];
    let min_pixels_per_point = 2.0f32;
    let target_points = (1000.0f32 / min_pixels_per_point) as u64;
    let selected = select_lod(&levels, 0, 3_600_000_000_000, target_points);
    assert!(selected.is_some());
    assert_eq!(levels[selected.unwrap()], 60_000_000_000);
}

#[test]
fn test_create_level_from_raw() {
    // One point a second for 100 seconds, grouped into ten-second buckets.
    let raw_points: Vec<(u64, f32)> = (0..100).map(|i| (i * 1_000_000_000, 100.0 + (i as f32).sin() * 10.0)).collect();
    let ts: Vec<u64> = raw_points.iter().map(|p| p.0).collect();
    let (buckets, assign) = bucket_assignment(&ts, 10_000_000_000);
    assert_eq!(buckets.len(), 10);
    assert_eq!(assign.len(), raw_points.len());
}

#[test]
fn test_empty_file_error() {
    // An empty file cannot be mapped.
    let result = check_mappable(0);
    assert!(result.is_err());
}

#[test]
fn test_misaligned_file() {
    // 25 bytes are not a whole number of 24-byte records.
    let result = element_count(25, 24);
    assert!(result.is_err());
}

#[test]
fn lod_choice_without_division_needs_no_valid_levels() {
    assert_eq!(select_lod(&[], 0, 1_000, u64::MAX), None);
    assert_eq!(select_lod(&[0, 60], 500, 500, u64::MAX), Some(0));
    assert_eq!(select_lod(&[0, 60], 900, 100, u64::MAX), Some(0));
}
