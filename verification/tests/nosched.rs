use arceos::nosched::{range_sqrt_sum, sqrt, task_range, NUM_DATA, NUM_TASKS};

#[test]
fn sqrt_small_values() {
    assert_eq!(sqrt(0), 0);
    assert_eq!(sqrt(1), 1);
    assert_eq!(sqrt(2), 1);
    assert_eq!(sqrt(3), 1);
    assert_eq!(sqrt(4), 2);
    assert_eq!(sqrt(15), 3);
    assert_eq!(sqrt(16), 4);
    assert_eq!(sqrt(17), 4);
}

#[test]
fn sqrt_large_values() {
    assert_eq!(sqrt(1_000_000), 1000);
    assert_eq!(sqrt(999_999), 999);
    assert_eq!(sqrt(19_999_999), 4472);
    assert_eq!(sqrt(4_294_967_295), 65535);
}

#[test]
fn range_sum_of_first_ten() {
    // 0 1 1 1 2 2 2 2 2 3
    assert_eq!(range_sqrt_sum(0, 10), 16);
    assert_eq!(range_sqrt_sum(5, 5), 0);
    assert_eq!(range_sqrt_sum(9, 10), 3);
}

#[test]
fn task_ranges_of_the_demo() {
    assert_eq!(task_range(0, NUM_DATA, NUM_TASKS), (0, 5_000_000));
    assert_eq!(task_range(1, NUM_DATA, NUM_TASKS), (5_000_000, 10_000_000));
    assert_eq!(task_range(3, NUM_DATA, NUM_TASKS), (15_000_000, 20_000_000));
}

#[test]
fn task_range_with_remainder() {
    // chunk = 10 / 4 = 2: the last two values are never summed
    assert_eq!(task_range(3, 10, 4), (6, 8));
}

#[test]
fn parallel_sum_matches_serial_when_even() {
    let total = range_sqrt_sum(0, 1000);
    let mut parts = 0u64;
    for i in 0..4 {
        let (l, r) = task_range(i, 1000, 4);
        parts += range_sqrt_sum(l as u64, r as u64);
    }
    assert_eq!(parts, total);
}

#[test]
fn parallel_sum_misses_remainder_when_uneven() {
    let total = range_sqrt_sum(0, 10);
    let mut parts = 0u64;
    for i in 0..4 {
        let (l, r) = task_range(i, 10, 4);
        parts += range_sqrt_sum(l as u64, r as u64);
    }
    assert_eq!(total, 16);
    // 0 1 1 1 2 2 2 2: values 8 and 9 are left out
    assert_eq!(parts, 11);
}
