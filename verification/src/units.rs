//! The unit in which a duration is shown.

use vstd::prelude::*;

verus! {

/// A unit of time.
#[derive(Clone, Copy, Debug, PartialEq, Eq, Structural)]
pub enum DurationUnit {
    Milliseconds,
    Microseconds,
    Nanoseconds,
}

/// The largest unit of which a duration of `ns` nanoseconds makes up at least one.
pub open spec fn unit_for(ns: nat) -> DurationUnit {
    if ns >= 1_000_000 {
        DurationUnit::Milliseconds
    } else if ns >= 1_000 {
        DurationUnit::Microseconds
    } else {
        DurationUnit::Nanoseconds
    }
}

impl DurationUnit {
    /// Picks the unit for a duration, given its whole nanoseconds.
    pub fn for_duration(whole_ns: u64) -> (r: DurationUnit)
        ensures
            r == unit_for(whole_ns as nat),
    {
        if whole_ns >= 1_000_000 {
            DurationUnit::Milliseconds
        } else if whole_ns >= 1_000 {
            DurationUnit::Microseconds
        } else {
            DurationUnit::Nanoseconds
        }
    }

    /// How many nanoseconds one unit is.
    pub open spec fn spec_nanoseconds(self) -> u64 {
        match self {
            DurationUnit::Milliseconds => 1_000_000,
            DurationUnit::Microseconds => 1_000,
            DurationUnit::Nanoseconds => 1,
        }
    }

    /// How many nanoseconds one unit is.
    pub fn nanoseconds(self) -> (r: u64)
        ensures
            r == self.spec_nanoseconds(),
    {
        match self {
            DurationUnit::Milliseconds => 1_000_000,
            DurationUnit::Microseconds => 1_000,
            DurationUnit::Nanoseconds => 1,
        }
    }

    /// How many decimals are shown: none of a nanosecond.
    pub fn decimals(self) -> (r: usize)
        ensures
            r == (if self == DurationUnit::Nanoseconds {
                0int
            } else {
                3
            }),
    {
        match self {
            DurationUnit::Nanoseconds => 0,
            _ => 3,
        }
    }

    /// The symbol of the unit.
    pub fn symbol(self) -> (r: &'static str)
        ensures
            r@ == match self {
                DurationUnit::Milliseconds => "ms"@,
                DurationUnit::Microseconds => "us"@,
                DurationUnit::Nanoseconds => "ns"@,
            },
    {
        match self {
            DurationUnit::Milliseconds => "ms",
            DurationUnit::Microseconds => "us",
            DurationUnit::Nanoseconds => "ns",
        }
    }
}

/// A duration is never shown as less than one of its unit, unless it is less than
/// a nanosecond.
pub proof fn lemma_unit_fits(ns: nat)
    ensures
        unit_for(ns).spec_nanoseconds() <= ns || ns == 0,
        unit_for(ns) != DurationUnit::Milliseconds ==> ns < 1_000 * unit_for(ns).spec_nanoseconds(),
{
}

/// Each unit is a thousand of the next smaller one, and the smallest is a nanosecond.
pub proof fn lemma_units_are_thousands()
    ensures
        DurationUnit::Nanoseconds.spec_nanoseconds() == 1,
        DurationUnit::Microseconds.spec_nanoseconds() == 1_000
            * DurationUnit::Nanoseconds.spec_nanoseconds(),
        DurationUnit::Milliseconds.spec_nanoseconds() == 1_000
            * DurationUnit::Microseconds.spec_nanoseconds(),
        unit_for(0) == DurationUnit::Nanoseconds,
{
}

} // verus!
