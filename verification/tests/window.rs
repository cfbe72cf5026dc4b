use lod::sampling::{clamped_sample, spaced_sample, tail_start};
use lod::window::{duration_window_range, split_point, take_window_range};

/// One candle a second for 100 seconds, by timestamp in nanoseconds.
fn make_test_data() -> Vec<i64> {
    (0..100).map(|i| i * 1_000_000_000).collect()
}

fn center_ns(center_ts: f64) -> i64 {
    (center_ts * 1_000_000_000.0) as i64
}

#[test]
fn test_take_window() {
    let data = make_test_data();

    let range = take_window_range(&data, center_ns(50.0), 10);
    assert_eq!(range, (45, 55));

    let range = take_window_range(&data, center_ns(2.0), 10);
    assert_eq!(range, (0, 10));

    let range = take_window_range(&data, center_ns(98.0), 10);
    assert_eq!(range, (90, 100));
}

#[test]
fn test_take_window_duration() {
    let data = make_test_data();
    let window = std::time::Duration::from_secs(10);
    let half_window_ns = (window.as_secs_f64() * 0.5 * 1_000_000_000.0) as i64;
    let center = center_ns(50.0);

    let range = duration_window_range(&data, center - half_window_ns, center + half_window_ns);
    assert_eq!(range, (45, 56));
}

#[test]
fn windows_at_the_edges() {
    let data = make_test_data();
    assert_eq!(take_window_range(&[], 5, 10), (0, 0));
    assert_eq!(take_window_range(&data, 5, 0), (0, 0));
    // Between two candles the window centers on the earlier one.
    assert_eq!(take_window_range(&data, 50_500_000_000, 4), (48, 52));
    // More candles asked for than there are.
    assert_eq!(take_window_range(&data[..5], 0, 10), (0, 5));
    assert_eq!(duration_window_range(&data, 1_000_000_000_000, 2_000_000_000_000), (100, 100));
    assert_eq!(split_point(&[1, 2, 2, 3], 2, false), 1);
    assert_eq!(split_point(&[1, 2, 2, 3], 2, true), 3);
}

#[test]
fn samples_are_spaced_across_the_file() {
    assert_eq!(spaced_sample(100, 4), vec![0, 25, 50, 75]);
    assert_eq!(spaced_sample(3, 5), vec![0, 0, 0, 0, 0]);
    assert_eq!(spaced_sample(0, 5), Vec::<u64>::new());
    assert_eq!(clamped_sample(100, 4), vec![0, 25, 50, 75]);
    assert_eq!(clamped_sample(3, 5), vec![0, 1, 2, 2, 2]);
    assert_eq!(clamped_sample(1, 2), vec![0, 0]);
}

#[test]
fn huge_window_count_covers_all_data() {
    let data: Vec<i64> = vec![10, 20, 30, 40, 50];
    assert_eq!(take_window_range(&data, 20, usize::MAX), (0, 5));
    assert_eq!(take_window_range(&data, 50, usize::MAX - 1), (0, 5));
}

#[test]
fn tail_starts_at_the_last_records() {
    assert_eq!(tail_start(100, 10), 90);
    assert_eq!(tail_start(5, 10), 0);
    assert_eq!(tail_start(10, 10), 0);
}
