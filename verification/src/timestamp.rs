//! Wall-clock timestamps with microsecond resolution.

use vstd::prelude::*;

verus! {

/// An absolute instant: microseconds since the Unix epoch.
#[derive(Clone, Copy, Debug, PartialEq, Eq, Structural)]
pub struct TimestampMicros {
    pub micros: i64,
}

/// The `__REALTIME_TIMESTAMP` field did not hold a decimal integer in
/// range.
#[derive(Clone, Copy, Debug, PartialEq, Eq, Structural)]
pub struct TimestampParseError;

/// Milliseconds since the epoch, truncated toward zero.
pub open spec fn spec_millis_of_micros(micros: int) -> int {
    if micros >= 0 {
        micros / 1000
    } else {
        -((-micros) / 1000)
    }
}

impl TimestampMicros {
    /// The instant in milliseconds since the epoch.
    pub fn as_millis(&self) -> (r: i64)
        ensures
            r == spec_millis_of_micros(self.micros as int),
    {
        if self.micros >= 0 {
            let m = self.micros as u64;
            (m / 1000) as i64
        } else if self.micros == i64::MIN {
            -9223372036854775
        } else {
            let m = (-self.micros) as u64;
            -((m / 1000) as i64)
        }
    }
}

} // verus!
