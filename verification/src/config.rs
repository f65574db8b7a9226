//! Configuration: the single CPU-usage threshold, validated before the
//! monitor's loop may start.

use vstd::prelude::*;

verus! {

/// Why a configuration was rejected.
#[derive(Clone, Copy, Debug, PartialEq, Eq, Structural)]
pub enum ConfigError {
    /// The threshold lies outside the allowed range of 0 to 100 percent.
    ThresholdOutOfRange,
}

/// Upper end of the allowed threshold range, in centi-percent: 100%.
pub const THRESHOLD_MAX: u32 = 10000;

/// The default threshold, in centi-percent: 0.1%.
pub const DEFAULT_THRESHOLD: u32 = 10;

/// Validate a requested threshold, given in centi-percent. Values from 0 to
/// 100 percent inclusive are accepted unchanged; anything else is a fatal
/// configuration error, reported before any table is rendered.
pub fn check_threshold(threshold: i64) -> (r: Result<u32, ConfigError>)
    ensures
        0 <= threshold <= THRESHOLD_MAX ==> r == Ok::<u32, ConfigError>(threshold as u32),
        !(0 <= threshold <= THRESHOLD_MAX) ==> r == Err::<u32, ConfigError>(
            ConfigError::ThresholdOutOfRange,
        ),
{
    if threshold < 0 || threshold > THRESHOLD_MAX as i64 {
        Err(ConfigError::ThresholdOutOfRange)
    } else {
        Ok(threshold as u32)
    }
}

} // verus!
