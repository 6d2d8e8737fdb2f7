use std::time::{Duration, UNIX_EPOCH};

use bitcask::clock::elapsed_millis;

#[test]
fn elapsed_time_counts_in_whole_milliseconds() {
    assert_eq!(elapsed_millis(Ok(Duration::from_millis(1234))), 1234);
    assert_eq!(elapsed_millis(Ok(Duration::new(2, 999_999_999))), 2999);
    assert_eq!(elapsed_millis(Ok(Duration::from_secs(0))), 0);
    assert_eq!(
        elapsed_millis(Ok(Duration::from_secs(u64::MAX))),
        u128::from(u64::MAX) * 1000
    );
}

#[test]
fn clock_before_the_epoch_counts_as_zero() {
    let later = UNIX_EPOCH + Duration::from_secs(5);
    let before = UNIX_EPOCH.duration_since(later);
    assert!(before.is_err());
    assert_eq!(elapsed_millis(before), 0);
}
