use playlist_aggregator::runtime::Runtime;

#[test]
fn decomposes_an_hour_minute_second() {
    let r = Runtime::from_secs(3661);
    assert_eq!(r.hours, 1);
    assert_eq!(r.minutes, 1);
    assert_eq!(r.seconds, 1);
}

#[test]
fn decomposes_zero() {
    let r = Runtime::from_secs(0);
    assert_eq!(r.hours, 0);
    assert_eq!(r.minutes, 0);
    assert_eq!(r.seconds, 0);
}

#[test]
fn renders_zero_padded_columns() {
    assert_eq!(Runtime::from_secs(3661).render(), "001 01 01");
    assert_eq!(Runtime::from_secs(0).render(), "000 00 00");
}

#[test]
fn renders_large_hours_without_truncation() {
    // 1000 hours exceed the three-digit column and must keep every digit.
    let r = Runtime::from_secs(1000 * 3600 + 59 * 60 + 59);
    assert_eq!(r.hours, 1000);
    assert_eq!(r.render(), "1000 59 59");
}

#[test]
fn decomposition_recomposes() {
    for total in [0u64, 1, 59, 60, 61, 3599, 3600, 3601, 86399, 123456789] {
        let r = Runtime::from_secs(total);
        assert!(r.minutes < 60 && r.seconds < 60);
        assert_eq!(r.hours * 3600 + r.minutes * 60 + r.seconds, total);
    }
}
