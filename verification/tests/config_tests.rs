use procmon::config::{check_threshold, ConfigError, DEFAULT_THRESHOLD, THRESHOLD_MAX};

#[test]
fn threshold_above_one_hundred_percent_is_rejected() {
    // 150% requested: fatal configuration error, nothing runs.
    assert_eq!(check_threshold(15000), Err(ConfigError::ThresholdOutOfRange));
}

#[test]
fn negative_threshold_is_rejected() {
    assert_eq!(check_threshold(-1), Err(ConfigError::ThresholdOutOfRange));
}

#[test]
fn range_ends_are_accepted() {
    assert_eq!(check_threshold(0), Ok(0));
    assert_eq!(check_threshold(THRESHOLD_MAX as i64), Ok(THRESHOLD_MAX));
}

#[test]
fn default_threshold_is_a_tenth_of_a_percent() {
    assert_eq!(DEFAULT_THRESHOLD, 10);
    assert_eq!(check_threshold(DEFAULT_THRESHOLD as i64), Ok(DEFAULT_THRESHOLD));
}

#[test]
fn just_above_the_range_is_rejected() {
    assert_eq!(check_threshold(THRESHOLD_MAX as i64 + 1), Err(ConfigError::ThresholdOutOfRange));
}
