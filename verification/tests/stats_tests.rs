use sealed_auction::stats::{isqrt, summarize_samples};

#[test]
fn isqrt_small_values() {
    let expected = [0u128, 1, 1, 1, 2, 2, 2, 2, 2, 3];
    for (n, r) in expected.iter().enumerate() {
        assert_eq!(isqrt(n as u128), *r);
    }
    assert_eq!(isqrt(15), 3);
    assert_eq!(isqrt(16), 4);
    assert_eq!(isqrt(17), 4);
}

#[test]
fn isqrt_large_values() {
    assert_eq!(isqrt(1_000_000_000_000), 1_000_000);
    assert_eq!(isqrt(u128::MAX - 1), 18446744073709551615);
    let r = isqrt(123_456_789_012_345_678_901_234_567);
    assert!(r * r <= 123_456_789_012_345_678_901_234_567);
    assert!((r + 1) * (r + 1) > 123_456_789_012_345_678_901_234_567);
}

#[test]
fn summary_of_no_sample_is_none() {
    assert!(summarize_samples(&vec![]).is_none());
}

#[test]
fn summary_of_one_sample() {
    let s = summarize_samples(&vec![5]).unwrap();
    assert_eq!((s.mean_ns, s.std_ns, s.min_ns, s.max_ns), (5, 0, 5, 5));
}

#[test]
fn summary_uses_integer_mean_and_deviation() {
    // sum 10, mean 2; squared deviations 1 + 0 + 1 + 4 = 6; variance 6 / 4 = 1
    let s = summarize_samples(&vec![1, 2, 3, 4]).unwrap();
    assert_eq!((s.mean_ns, s.std_ns, s.min_ns, s.max_ns), (2, 1, 1, 4));
    // mean 30; squared deviations 400 + 100 + 900 + 400 = 1800; variance 450; sqrt 21
    let s = summarize_samples(&vec![10, 40, 60, 10]).unwrap();
    assert_eq!(s.mean_ns, 30);
    assert_eq!(s.std_ns, 21);
    assert_eq!((s.min_ns, s.max_ns), (10, 60));
}

#[test]
fn summary_overflow_is_none() {
    assert!(summarize_samples(&vec![u128::MAX, 1]).is_none());
    // the sum fits but the squared deviations do not
    assert!(summarize_samples(&vec![0, u128::MAX / 2]).is_none());
}
