//! Points in time as whole seconds since the Unix epoch.
use vstd::prelude::*;

verus! {

/// Seconds since the Unix epoch.
#[derive(Debug, Clone, Copy, PartialEq, Eq, Structural, Hash)]
pub struct UnixTime(pub u64);

/// The seconds in a day.
pub const SECONDS_PER_DAY: u64 = 86400;

/// std's `SystemTime::now` and `duration_since(UNIX_EPOCH)`, as whole
/// seconds since the Unix epoch; `None` when the clock reads before 1970.
/// What it returns depends on the clock, so nothing more is stated of it.
#[verifier::external_body]
fn system_seconds() -> (r: Option<u64>) {
    std::time::SystemTime::now().duration_since(std::time::SystemTime::UNIX_EPOCH).ok().map(|d| d.as_secs())
}

/// The whole days between two points in time, either way round.
pub open spec fn days_between(a: u64, b: u64) -> int {
    let d = if a >= b {
        a - b
    } else {
        b - a
    };
    d / SECONDS_PER_DAY as int
}

impl UnixTime {
    /// The time now, read from the system clock; `None` when the clock
    /// reads before 1970. Which time it reads is not stated.
    pub fn now() -> (t: Option<Self>) {
        match system_seconds() {
            Some(s) => Some(UnixTime(s)),
            None => None,
        }
    }

    /// The whole days between `self` and `other`.
    pub fn days_since(self, other: Self) -> (d: u32)
        ensures
            d == days_between(self.0, other.0) as u32,
    {
        let diff = if self.0 >= other.0 {
            self.0 - other.0
        } else {
            other.0 - self.0
        };
        #[verifier::truncate]
        ((diff / SECONDS_PER_DAY) as u32)
    }

    /// The seconds since the epoch.
    pub fn seconds(self) -> (s: u64)
        ensures
            s == self.0,
    {
        self.0
    }
}

/// The days between two times do not depend on which comes first, and a
/// time is no day away from itself.
pub proof fn law_days_between_symmetric(a: u64, b: u64)
    ensures
        days_between(a, b) == days_between(b, a),
        days_between(a, a) == 0,
        0 <= days_between(a, b),
{
}

} // verus!
