//! Choice of the unit in which a measured duration is shown.
use vstd::prelude::*;

verus! {

/// A unit for showing a duration given in nanoseconds.
#[derive(Clone, Copy, Debug, PartialEq, Eq, Structural)]
pub enum DurationUnit {
    Nanoseconds,
    Microseconds,
    Milliseconds,
    Seconds,
}

/// Up to a thousand nanoseconds are shown as such; up to a million as
/// microseconds; up to a billion as milliseconds; anything longer as seconds.
pub open spec fn unit_for(nanoseconds: u64) -> DurationUnit {
    if nanoseconds <= 1_000 {
        DurationUnit::Nanoseconds
    } else if nanoseconds <= 1_000_000 {
        DurationUnit::Microseconds
    } else if nanoseconds <= 1_000_000_000 {
        DurationUnit::Milliseconds
    } else {
        DurationUnit::Seconds
    }
}

/// The unit in which a duration of `nanoseconds` is shown.
pub fn duration_unit(nanoseconds: u64) -> (r: DurationUnit)
    ensures
        r == unit_for(nanoseconds),
{
    if nanoseconds <= 1_000 {
        DurationUnit::Nanoseconds
    } else if nanoseconds <= 1_000_000 {
        DurationUnit::Microseconds
    } else if nanoseconds <= 1_000_000_000 {
        DurationUnit::Milliseconds
    } else {
        DurationUnit::Seconds
    }
}

impl DurationUnit {
    /// How many nanoseconds make one of this unit.
    pub open spec fn spec_scale(self) -> u64 {
        match self {
            DurationUnit::Nanoseconds => 1,
            DurationUnit::Microseconds => 1_000,
            DurationUnit::Milliseconds => 1_000_000,
            DurationUnit::Seconds => 1_000_000_000,
        }
    }

    /// How many nanoseconds make one of this unit.
    pub fn nanoseconds_per_unit(&self) -> (r: u64)
        ensures
            r == self.spec_scale(),
    {
        match self {
            DurationUnit::Nanoseconds => 1,
            DurationUnit::Microseconds => 1_000,
            DurationUnit::Milliseconds => 1_000_000,
            DurationUnit::Seconds => 1_000_000_000,
        }
    }
}

} // verus!
