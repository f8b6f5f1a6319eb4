use ssr_bench::stats::{count_at_most_of, least_of, mean_of, percentile_95_of};

#[test]
fn statistics_of_no_samples_are_zero() {
    let none: Vec<u64> = Vec::new();
    assert_eq!(least_of(&none), 0);
    assert_eq!(mean_of(&none), 0);
    assert_eq!(percentile_95_of(&none), 0);
    assert_eq!(count_at_most_of(&none, 5), 0);
}

#[test]
fn statistics_of_one_sample_are_that_sample() {
    let one = vec![17];
    assert_eq!(least_of(&one), 17);
    assert_eq!(mean_of(&one), 17);
    assert_eq!(percentile_95_of(&one), 17);
}

#[test]
fn least_is_the_smallest_sample() {
    assert_eq!(least_of(&vec![5, 3, 9, 3, 7]), 3);
    assert_eq!(least_of(&vec![1, 2, 3]), 1);
    assert_eq!(least_of(&vec![3, 2, 1]), 1);
    assert_eq!(least_of(&vec![u64::MAX, u64::MAX]), u64::MAX);
}

#[test]
fn mean_is_rounded_down() {
    assert_eq!(mean_of(&vec![1, 2]), 1);
    assert_eq!(mean_of(&vec![1, 2, 3, 4]), 2);
    assert_eq!(mean_of(&vec![10, 20, 30]), 20);
    assert_eq!(mean_of(&vec![0, 0, 1]), 0);
}

#[test]
fn mean_of_large_samples_does_not_overflow() {
    assert_eq!(mean_of(&vec![u64::MAX, u64::MAX, u64::MAX]), u64::MAX);
    assert_eq!(mean_of(&vec![u64::MAX, 0]), u64::MAX / 2);
}

#[test]
fn counting_includes_equal_samples() {
    let samples = vec![5, 3, 9, 3, 7];
    assert_eq!(count_at_most_of(&samples, 2), 0);
    assert_eq!(count_at_most_of(&samples, 3), 2);
    assert_eq!(count_at_most_of(&samples, 8), 4);
    assert_eq!(count_at_most_of(&samples, 9), 5);
}

#[test]
fn percentile_is_the_sample_of_nearest_rank() {
    let twenty: Vec<u64> = (1..=20).rev().collect();
    assert_eq!(percentile_95_of(&twenty), 19);
    let hundred: Vec<u64> = (1..=100).collect();
    assert_eq!(percentile_95_of(&hundred), 95);
    let ten: Vec<u64> = vec![3, 1, 4, 1, 5, 9, 2, 6, 5, 3];
    assert_eq!(percentile_95_of(&ten), 9);
    let twenty_one: Vec<u64> = (1..=21).collect();
    assert_eq!(percentile_95_of(&twenty_one), 20);
    let forty: Vec<u64> = (1..=40).map(|v| v * 10).collect();
    assert_eq!(percentile_95_of(&forty), 380);
}

#[test]
fn percentile_with_repeated_samples() {
    let mut samples = vec![7u64; 19];
    samples.push(1000);
    assert_eq!(percentile_95_of(&samples), 7);
    let mut samples = vec![7u64; 18];
    samples.push(1000);
    samples.push(1000);
    assert_eq!(percentile_95_of(&samples), 1000);
}

#[test]
fn constant_samples_have_that_constant_for_every_statistic() {
    for n in 1..30usize {
        let samples = vec![123_456u64; n];
        assert_eq!(least_of(&samples), 123_456);
        assert_eq!(mean_of(&samples), 123_456);
        assert_eq!(percentile_95_of(&samples), 123_456);
    }
}

#[test]
fn percentile_is_the_least_sample_that_covers_the_rank() {
    let samples: Vec<u64> = vec![12, 5, 900, 33, 5, 47, 12, 8, 61, 2, 75, 19, 5, 88, 41, 3, 27, 64, 10, 55, 71, 6];
    let p = percentile_95_of(&samples);
    let rank = samples.len() - samples.len() / 20;
    assert!(samples.contains(&p));
    assert!(count_at_most_of(&samples, p) >= rank);
    for &v in &samples {
        if count_at_most_of(&samples, v) >= rank {
            assert!(p <= v);
        }
    }
    assert_eq!(p, 88);
}
