//! A time of day, or a length of time, as hours, minutes and seconds.

use vstd::prelude::*;

use crate::text::{tdiv, trem};

verus! {

/// The hours, minutes and seconds of `time` seconds, as Rust's `/` and `%`
/// compute them.
pub open spec fn digits_of(time: int) -> (int, int, int) {
    let min = tdiv(time, 60);
    let sec = trem(time, 60);
    (tdiv(min, 60), trem(min, 60), sec)
}

/// The number of seconds in `hour` hours, `minute` minutes and `seconds`
/// seconds.
pub open spec fn seconds_of(hour: int, minute: int, seconds: int) -> int {
    hour * 3600 + minute * 60 + seconds
}

/// The hours, minutes and seconds of `time` seconds.
pub fn time_digits(time: i32) -> (r: (i32, i32, i32))
    ensures
        (r.0 as int, r.1 as int, r.2 as int) == digits_of(time as int),
{
    let min = time / 60;
    let sec = time % 60;
    proof {
        lemma_i32_div_rem(time as int, 60);
    }
    let hour = min / 60;
    let m = min % 60;
    proof {
        lemma_i32_div_rem(min as int, 60);
    }
    (hour, m, sec)
}

/// Rust's `/` and `%` on an `i32` by a positive divisor are `tdiv` and `trem`.
proof fn lemma_i32_div_rem(a: int, b: int)
    requires
        b > 0,
        i32::MIN <= a <= i32::MAX,
    ensures
        tdiv(a, b) == if a >= 0 { a / b } else { -((-a) / b) },
        trem(a, b) == a - b * tdiv(a, b),
{
}

/// The number of seconds in `hour` hours, `minute` minutes and `seconds`
/// seconds (see `seconds_of`).
pub fn time_from_digits(hour: i32, minute: i32, seconds: i32) -> (r: i32)
    requires
        i32::MIN <= hour * 3600 <= i32::MAX,
        i32::MIN <= minute * 60 <= i32::MAX,
        i32::MIN <= hour * 3600 + minute * 60 <= i32::MAX,
        i32::MIN <= seconds_of(hour as int, minute as int, seconds as int) <= i32::MAX,
    ensures
        r == seconds_of(hour as int, minute as int, seconds as int),
{
    hour * 3600 + minute * 60 + seconds
}

/// The time that the three fields of a time row hold, seconds, minutes and
/// hours, and whether it is 0 (which the row marks as an error).
pub fn time_of_fields(seconds: i32, minutes: i32, hours: i32) -> (r: (i32, bool))
    requires
        i32::MIN <= minutes * 60 <= i32::MAX,
        i32::MIN <= hours * 3600 <= i32::MAX,
        i32::MIN <= seconds + minutes * 60 <= i32::MAX,
        i32::MIN <= seconds_of(hours as int, minutes as int, seconds as int) <= i32::MAX,
    ensures
        r.0 == seconds_of(hours as int, minutes as int, seconds as int),
        r.1 == (r.0 == 0),
{
    let time = seconds + minutes * 60 + hours * 3600;
    (time, time == 0)
}

/// Splitting a number of seconds into hours, minutes and seconds and adding
/// them up again gives the number back.
pub proof fn digits_add_up(time: int)
    ensures
        seconds_of(digits_of(time).0, digits_of(time).1, digits_of(time).2) == time,
{
    let min = tdiv(time, 60);
    assert(trem(time, 60) == time - 60 * min);
    assert(trem(min, 60) == min - 60 * tdiv(min, 60));
    assert(tdiv(min, 60) * 3600 + trem(min, 60) * 60 == 60 * min) by (nonlinear_arith)
        requires
            trem(min, 60) == min - 60 * tdiv(min, 60),
    ;
}

} // verus!
