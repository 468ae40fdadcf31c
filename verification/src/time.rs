//! Calendar timestamps as plain values, and the millisecond count the
//! server derives from the system clock. The program converts between
//! these and its clock/database types at its edge.

use vstd::prelude::*;

verus! {

/// A calendar date and time, second precision, as the database stores it
/// and as the wire format prints it.
#[derive(Clone, Copy, Debug, PartialEq, Eq, Structural)]
pub struct Timestamp {
    pub year: u16,
    pub month: u8,
    pub day: u8,
    pub hour: u8,
    pub minute: u8,
    pub second: u8,
}

/// Milliseconds since the Unix epoch for a clock reading of `secs` whole
/// seconds plus `nanos` nanoseconds: the second count scaled to
/// milliseconds, plus the whole milliseconds of the nanosecond part.
pub fn unix_millis(secs: u64, nanos: u32) -> (r: u64)
    requires
        nanos < 1_000_000_000,
        secs <= (u64::MAX - 999) / 1000,
    ensures
        r == secs * 1000 + nanos / 1_000_000,
{
    secs * 1000 + (nanos / 1_000_000) as u64
}

} // verus!
