use lod::simulator::emission_times;
use lod::simulator::{merge_order, Rng};

#[test]
fn test_rng_reproducibility() {
    let mut rng1 = Rng::new(42);
    let mut rng2 = Rng::new(42);

    for _ in 0..100 {
        assert_eq!(rng1.next_u64(), rng2.next_u64());
    }
}

#[test]
fn rng_step_is_xorshift() {
    let mut rng = Rng::new(1);
    let mut x: u64 = 1;
    x ^= x << 13;
    x ^= x >> 7;
    x ^= x << 17;
    assert_eq!(rng.next_u64(), x);
    let mut zero_seeded = Rng::new(0);
    let mut one_seeded = Rng::new(1);
    assert_eq!(zero_seeded.next_u64(), one_seeded.next_u64());
}

#[test]
fn rng_never_yields_zero() {
    let mut rng = Rng::new(7);
    for _ in 0..10_000 {
        assert_ne!(rng.next_u64(), 0);
    }
}

#[test]
fn merge_interleaves_sorted_streams() {
    let streams = vec![vec![1, 4, 9], vec![2, 3, 10], vec![], vec![4]];
    let order = merge_order(&streams);
    let ts: Vec<i64> = order.iter().map(|&(s, i)| streams[s][i]).collect();
    assert_eq!(ts, vec![1, 2, 3, 4, 4, 9, 10]);
    assert_eq!(order.len(), 7);
    assert_eq!(order[3], (0, 1));
    assert_eq!(order[4], (3, 0));
}

#[test]
fn merge_skips_max_timestamps() {
    let streams = vec![vec![5, i64::MAX], vec![i64::MAX]];
    let order = merge_order(&streams);
    assert_eq!(order, vec![(0, 0)]);
}

#[test]
fn merge_of_nothing_is_empty() {
    let streams: Vec<Vec<i64>> = vec![vec![], vec![]];
    assert!(merge_order(&streams).is_empty());
}

#[test]
fn emissions_fall_due_on_schedule() {
    assert_eq!(emission_times(100, 20, 165), (vec![100, 120, 140, 160], 180));
    assert_eq!(emission_times(100, 20, 160), (vec![100, 120, 140, 160], 180));
    assert_eq!(emission_times(100, 20, 99), (vec![], 100));
    assert_eq!(emission_times(-50, 50, 0), (vec![-50, 0], 50));
}

#[test]
fn merge_ties_take_the_lower_stream_first() {
    let streams: Vec<Vec<i64>> = vec![vec![7, 8], vec![5, 7], vec![5, 7, 7]];
    let order = merge_order(&streams);
    assert_eq!(order, vec![(1, 0), (2, 0), (0, 0), (1, 1), (2, 1), (2, 2), (0, 1)]);
}
