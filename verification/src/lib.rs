//! Verified core of a btrfs snapshot lifecycle tool: the wire layer that
//! encodes the three kernel control operations (create snapshot, query
//! subvolume metadata, destroy subvolume), the snapshot inventory that turns
//! directory listings into a time-descending record list, the change
//! detector, and the retention decision engine that partitions an inventory
//! into keep and delete sets under a composable policy.
//!
//! Everything that performs I/O (opening directories, issuing the control
//! calls, reading the clock) lives outside this crate; the functions here
//! work on plain values and carry contracts checked by Verus.

use vstd::prelude::*;

pub mod detect;
pub mod inventory;
pub mod retention;
pub mod timefns;
pub mod wire;

verus! {

/// Errors of the snapshot core.
#[derive(Debug, PartialEq, Eq)]
pub enum Error {
    /// A malformed name or an invalid policy (no rule, a zero count, or a
    /// non-positive retention window).
    InvalidInput,
    /// The queried object is an ordinary directory, not a subvolume.
    NotASubvolume,
    /// The kernel rejected a control call; carries the OS error code.
    IoctlFailure(i32),
    /// A directory entry matched the snapshot prefix but its suffix does not
    /// parse as a timestamp; carries the offending entry name.
    ParseFailure { name: Vec<u8> },
    /// Calendar rounding left the representable time range; carries the
    /// instant (in nanoseconds since the epoch) that could not be rounded.
    CalendarOverflow { time_ns: i128 },
}

/// Earliest instant the library handles, in nanoseconds since the Unix
/// epoch: the first instant of jiff's documented timestamp range.
pub const TS_MIN_NS: i128 = -377_705_023_201_000_000_000;

/// Latest instant the library handles: the last instant of jiff's
/// documented timestamp range.
pub const TS_MAX_NS: i128 = 253_402_207_200_999_999_999;

/// The instant lies in jiff's documented timestamp range. Every timestamp
/// the time layer parses or rounds lies within it, and arithmetic on such
/// instants cannot overflow `i128`.
pub open spec fn ts_in_range(ns: int) -> bool {
    TS_MIN_NS as int <= ns <= TS_MAX_NS as int
}

/// Bound on retention-window lengths in nanoseconds (about 292 years of
/// seconds expressed by an `i64`, scaled to nanoseconds), so that
/// `now - window` stays far from the `i128` limits.
pub open spec fn dur_in_range(ns: int) -> bool {
    -10_000_000_000_000_000_000_000_000_000 <= ns <= 10_000_000_000_000_000_000_000_000_000
}

} // verus!
