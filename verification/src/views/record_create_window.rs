//! The decisions of the window that adds a time record: its end from its
//! duration, and its duration from its end.

use vstd::prelude::*;

verus! {

/// The end (Unix seconds) of a record that began at `start` and lasted
/// `time` seconds.
pub fn record_end(start: i64, time: i32) -> (r: i64)
    requires
        i64::MIN <= start + time <= i64::MAX,
    ensures
        r == start + time,
{
    start + time as i64
}

/// The duration of a record that began at `start` and ends at `end`, as the
/// window's time row takes it (cut to 32 bits, as `as i32` does), and whether
/// the end comes before the start, which the window marks as an error and
/// takes as a duration of 0.
pub fn duration_to_end(start: i64, end: i64) -> (r: (i32, bool))
    requires
        i64::MIN <= end - start <= i64::MAX,
    ensures
        end - start < 0 ==> r == (0i32, true),
        end - start >= 0 ==> r == (((end - start) as i64) as i32, false),
{
    let duration = end - start;
    if duration < 0 {
        (0, true)
    } else {
        (duration as i32, false)
    }
}

} // verus!
