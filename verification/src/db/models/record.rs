//! A record of time spent on a task, and the text of a duration.

use vstd::prelude::*;

use crate::db::store::Row;
use crate::i18n::gettext;
use crate::text::{int_text, pad2, push_char, push_int, push_pad2, tdiv, tdiv_i64, trem, trem_i64};

verus! {

/// A span of time spent on a task: it began at `start` (Unix seconds) and
/// lasted `duration` seconds; a duration of 0 marks a record still running.
#[derive(Debug, PartialEq, Eq)]
pub struct Record {
    pub id: i64,
    pub start: i64,
    pub duration: i64,
    pub task: i64,
}

/// How a duration of `duration` seconds is shown, where `day_label` is the word
/// written after the number of days.
pub open spec fn duration_text(duration: int, day_label: Seq<char>) -> Seq<char> {
    if duration == 0 {
        seq!['0', ':', '0', '0']
    } else {
        let min = tdiv(duration, 60);
        let sec = trem(duration, 60);
        if min < 60 {
            int_text(min) + seq![':'] + pad2(sec)
        } else {
            let hour = tdiv(min, 60);
            let min = trem(min, 60);
            if hour < 24 {
                int_text(hour) + seq![':'] + pad2(min) + seq![':'] + pad2(sec)
            } else {
                let day = tdiv(hour, 24);
                let hour = trem(hour, 24);
                int_text(day) + seq![' '] + day_label + seq![' '] + pad2(hour) + seq![':']
                    + pad2(min)
            }
        }
    }
}

/// Whether the text of a duration names a number of days: it lasts a day or more.
pub open spec fn shows_days(duration: int) -> bool {
    duration >= 86400
}

impl Record {
    pub fn new(id: i64, start: i64, duration: i64, task: i64) -> (r: Record)
        ensures
            r == (Record { id, start, duration, task }),
    {
        Record { id, start, duration, task }
    }

    /// The text of `duration` seconds: `m:ss` under an hour, `h:mm:ss` under a
    /// day, and `d <day_label> hh:mm` from a day on.
    pub fn duration_display_with(duration: i64, day_label: &str) -> (s: String)
        ensures
            s@ == duration_text(duration as int, day_label@),
    {
        let mut s = String::new();
        if duration == 0 {
            push_char(&mut s, '0');
            push_char(&mut s, ':');
            push_char(&mut s, '0');
            push_char(&mut s, '0');
            assert(s@ =~= seq!['0', ':', '0', '0']);
            return s;
        }
        let min = tdiv_i64(duration, 60);
        let sec = trem_i64(duration, 60);
        if min < 60 {
            push_int(&mut s, min);
            push_char(&mut s, ':');
            push_pad2(&mut s, sec);
            assert(s@ =~= int_text(min as int) + seq![':'] + pad2(sec as int));
        } else {
            let hour = tdiv_i64(min, 60);
            let min = trem_i64(min, 60);
            if hour < 24 {
                push_int(&mut s, hour);
                push_char(&mut s, ':');
                push_pad2(&mut s, min);
                push_char(&mut s, ':');
                push_pad2(&mut s, sec);
                assert(s@ =~= int_text(hour as int) + seq![':'] + pad2(min as int) + seq![':']
                    + pad2(sec as int));
            } else {
                let day = tdiv_i64(hour, 24);
                let hour = trem_i64(hour, 24);
                push_int(&mut s, day);
                push_char(&mut s, ' ');
                let ghost before = s@;
                s.append(day_label);
                push_char(&mut s, ' ');
                push_pad2(&mut s, hour);
                push_char(&mut s, ':');
                push_pad2(&mut s, min);
                assert(s@ =~= int_text(day as int) + seq![' '] + day_label@ + seq![' '] + pad2(
                    hour as int,
                ) + seq![':'] + pad2(min as int));
            }
        }
        s
    }

    /// The word, before translation, written after a number of days: "day"
    /// for one day, "days" for any other number.
    pub fn day_msgid(days: i64) -> (m: &'static str)
        ensures
            days == 1 ==> m@ == seq!['d', 'a', 'y'],
            days != 1 ==> m@ == seq!['d', 'a', 'y', 's'],
    {
        proof {
            reveal_strlit("day");
            reveal_strlit("days");
        }
        if days == 1 {
            "day"
        } else {
            "days"
        }
    }

    /// The text of `duration` seconds (see `duration_display_with`), with,
    /// from a day on, the translation of `day_msgid(duration / 86400)` as the
    /// word after the number of days.
    pub fn duration_display(duration: i64) -> (s: String)
        ensures
            !shows_days(duration as int) ==> s@ == duration_text(duration as int, Seq::empty()),
            shows_days(duration as int) ==> exists|label: Seq<char>|
                s@ == duration_text(duration as int, label),
    {
        if duration < 86400 {
            proof {
                reveal_strlit("");
            }
            Record::duration_display_with(duration, "")
        } else {
            let msgid = Record::day_msgid(duration / 86400);
            let label = gettext(msgid);
            let s = Record::duration_display_with(duration, label.as_str());
            assert(s@ == duration_text(duration as int, label@));
            s
        }
    }
}

impl Default for Record {
    fn default() -> (r: Record)
        ensures
            r == (Record { id: 0, start: 0, duration: 0, task: 1 }),
    {
        Record::new(0, 0, 0, 1)
    }
}

impl Row for Record {
    open spec fn row_id(&self) -> i64 {
        self.id
    }

    fn rowid(&self) -> (r: i64) {
        self.id
    }

    fn copied(&self) -> (r: Self) {
        Record { id: self.id, start: self.start, duration: self.duration, task: self.task }
    }
}

/// How a duration of `d > 0` seconds reads: `m:ss` with its whole minutes
/// and the seconds left under an hour; `h:mm:ss` with its whole hours, the
/// minutes left and the seconds left under a day; from a day on, its whole
/// days, the day word, then `hh:mm` with the hours and the minutes left.  A
/// duration of 0 reads `0:00`.
pub proof fn duration_reads_as_its_fields(d: int, day_label: Seq<char>)
    requires
        d >= 0,
    ensures
        d == 0 ==> duration_text(d, day_label) == seq!['0', ':', '0', '0'],
        0 < d < 3600 ==> duration_text(d, day_label) == int_text(d / 60) + seq![':'] + pad2(d % 60),
        3600 <= d < 86400 ==> duration_text(d, day_label) == int_text(d / 3600) + seq![':'] + pad2(
            (d / 60) % 60,
        ) + seq![':'] + pad2(d % 60),
        86400 <= d ==> duration_text(d, day_label) == int_text(d / 86400) + seq![' '] + day_label + seq![' ']
            + pad2((d / 3600) % 24) + seq![':'] + pad2((d / 60) % 60),
{
    if d > 0 {
        let min = d / 60;
        vstd::arithmetic::div_mod::lemma_fundamental_div_mod(d, 60);
        assert(tdiv(d, 60) == min);
        assert(trem(d, 60) == d % 60);
        vstd::arithmetic::div_mod::lemma_div_denominator(d, 60, 60);
        vstd::arithmetic::div_mod::lemma_fundamental_div_mod(min, 60);
        assert(tdiv(min, 60) == d / 3600);
        assert(trem(min, 60) == min % 60);
        let hour = d / 3600;
        vstd::arithmetic::div_mod::lemma_div_denominator(d, 3600, 24);
        vstd::arithmetic::div_mod::lemma_fundamental_div_mod(hour, 24);
        assert(tdiv(hour, 24) == d / 86400);
        assert(trem(hour, 24) == hour % 24);
        if d < 3600 {
            assert(min < 60) by {
                vstd::arithmetic::div_mod::lemma_div_is_ordered(d, 3599, 60);
            }
        } else {
            assert(min >= 60) by {
                vstd::arithmetic::div_mod::lemma_div_is_ordered(3600, d, 60);
            }
            if d < 86400 {
                assert(hour < 24) by {
                    vstd::arithmetic::div_mod::lemma_div_is_ordered(d, 86399, 3600);
                }
            } else {
                assert(hour >= 24) by {
                    vstd::arithmetic::div_mod::lemma_div_is_ordered(86400, d, 3600);
                }
            }
        }
    }
}

} // verus!
