//! Instants, spans of time, and the wall clock.

use vstd::prelude::*;

verus! {

/// One hour, in milliseconds.
pub const HOUR: i64 = 3_600_000;

/// Reads the wall clock through `chrono::Local::now` and converts the instant
/// with `DateTime::timestamp_millis` to milliseconds since the Unix epoch. The
/// count does not depend on the time zone that `Local` attaches to the
/// instant.
///
/// Nothing is promised of the value: two readings may differ in any way, and
/// callers state what holds for every reading. The reading takes no input
/// and can fail only on the state of the machine: a clock that stands before
/// the epoch, or a time zone table that gives no usable local time.
#[verifier::external_body]
fn wall_clock() -> (now: i64) {
    chrono::Local::now().timestamp_millis()
}

/// The current instant.
pub fn now() -> i64 {
    wall_clock()
}

} // verus!
