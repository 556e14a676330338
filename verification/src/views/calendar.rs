//! The decisions of the calendar: keeping the strip of days and the list of
//! day views around the day that is shown at the top, and placing a task on
//! the page of its week.

use vstd::prelude::*;

use crate::db::models::Task;
use crate::text::{tdiv, tdiv_i64};

verus! {

/// The strip of days after it follows the day at the top by `difference`
/// days, one day at a time: forward, its first day goes and the day after its
/// last comes; backward, its last day goes and the day before its first
/// comes.  Days are counted in whole days.
pub open spec fn slid(days: Seq<i64>, difference: int) -> Seq<i64>
    decreases (if difference < 0 { -difference } else { difference }),
{
    if difference > 0 && days.len() > 0 {
        slid(days.drop_first().push((days.last() + 1) as i64), difference - 1)
    } else if difference < 0 && days.len() > 0 {
        slid(seq![(days[0] - 1) as i64] + days.drop_last(), difference + 1)
    } else {
        days
    }
}

/// Moves the strip of days by `difference` days (see `slid`).
pub fn slide_days(days: &mut Vec<i64>, difference: i64)
    requires
        old(days)@.len() > 0,
        difference > 0 ==> old(days)@.last() + difference <= i64::MAX,
        difference < 0 ==> old(days)@[0] + difference >= i64::MIN,
    ensures
        final(days)@ == slid(old(days)@, difference as int),
{
    let ghost start = days@;
    let n = days.len();
    if difference > 0 {
        let mut k: i64 = 0;
        while k < difference
            invariant
                0 <= k <= difference,
                days@.len() == n,
                start.len() == n,
                n > 0,
                days@.last() == start.last() + k,
                start.last() + difference <= i64::MAX,
                slid(days@, (difference - k) as int) == slid(start, difference as int),
            decreases difference - k,
        {
            let ghost prev = days@;
            let last = days[n - 1];
            days.remove(0);
            days.push(last + 1);
            proof {
                assert(days@ =~= prev.drop_first().push((prev.last() + 1) as i64));
            }
            k = k + 1;
        }
    } else if difference < 0 {
        let mut k: i64 = 0;
        while k > difference
            invariant
                difference <= k <= 0,
                days@.len() == n,
                start.len() == n,
                n > 0,
                days@[0] == start[0] + k,
                start[0] + difference >= i64::MIN,
                slid(days@, (difference - k) as int) == slid(start, difference as int),
            decreases k - difference,
        {
            let ghost prev = days@;
            let first = days[0];
            days.pop();
            days.insert(0, first - 1);
            proof {
                assert(days@ =~= seq![(prev[0] - 1) as i64] + prev.drop_last());
            }
            k = k - 1;
        }
    }
}

/// Whether the days follow one another: each is one after the one before.
pub open spec fn consecutive(days: Seq<i64>) -> bool {
    forall|i: int| 0 <= i < days.len() ==> #[trigger] days[i] == days[0] + i
}

/// A strip of days that follow one another still does after it moves, and
/// it then begins `difference` days later.
pub proof fn slid_keeps_days_consecutive(days: Seq<i64>, difference: int)
    requires
        days.len() > 0,
        consecutive(days),
        difference > 0 ==> days.last() + difference <= i64::MAX,
        difference < 0 ==> days[0] + difference >= i64::MIN,
    ensures
        slid(days, difference).len() == days.len(),
        forall|i: int|
            0 <= i < days.len() ==> #[trigger] slid(days, difference)[i] == days[0] + difference + i,
    decreases (if difference < 0 { -difference } else { difference }),
{
    if difference > 0 {
        let next = days.drop_first().push((days.last() + 1) as i64);
        assert(days.last() == days[days.len() - 1]);
        assert forall|i: int| 0 <= i < next.len() implies #[trigger] next[i] == next[0] + i by {
            if i < next.len() - 1 {
                assert(next[i] == days[i + 1]);
            }
            if days.len() > 1 {
                assert(next[0] == days[1]);
            }
        }
        assert(next[0] == days[0] + 1) by {
            if days.len() > 1 {
                assert(next[0] == days[1]);
            }
        }
        assert(next.last() == days.last() + 1);
        slid_keeps_days_consecutive(next, difference - 1);
    } else if difference < 0 {
        let next = seq![(days[0] - 1) as i64] + days.drop_last();
        assert forall|i: int| 0 <= i < next.len() implies #[trigger] next[i] == next[0] + i by {
            if i > 0 {
                assert(next[i] == days[i - 1]);
            }
        }
        slid_keeps_days_consecutive(next, difference + 1);
    }
}

/// What the list of day views gets after a scroll.
#[derive(Debug, PartialEq, Eq)]
pub enum DayViewChange {
    /// A view of the day before the first is put in front.
    Prepend,
    /// A view of the day after the last is put at the end.
    Append,
    /// Nothing.
    Keep,
}

/// What the list of day views gets, where the day at the top is `above` days
/// after the first view's and `below` days before the last view's: a day in
/// front where `above` is under 7, else a day at the end where `below` is
/// under 14.
pub fn day_views_change(above: i64, below: i64) -> (r: DayViewChange)
    ensures
        above < 7 ==> r == DayViewChange::Prepend,
        above >= 7 && below < 14 ==> r == DayViewChange::Append,
        above >= 7 && below >= 14 ==> r == DayViewChange::Keep,
{
    if above < 7 {
        DayViewChange::Prepend
    } else if below < 14 {
        DayViewChange::Append
    } else {
        DayViewChange::Keep
    }
}

/// Where a week page of the calendar puts a task dated some time from the
/// start of its week.
#[derive(Debug, PartialEq, Eq)]
pub enum WeekPlace {
    /// On this day of the page's week (0 to 6).
    Day(i64),
    /// On the page this many weeks away.
    Week(i64),
}

/// Where a task dated `difference` seconds after the start of a page's week
/// goes: the day of the page that it falls on, counted in whole days toward
/// 0; else the page of the week that many days away, counted in whole weeks
/// toward 0, and one week further back where that count is not positive.
pub fn week_place(difference: i64) -> (r: WeekPlace)
    ensures
        ({
            let i = tdiv(difference as int, 86400);
            let w = tdiv(i, 7);
            &&& 0 <= i < 7 ==> r == WeekPlace::Day(i as i64)
            &&& !(0 <= i < 7) ==> r == WeekPlace::Week((if w <= 0 { w - 1 } else { w }) as i64)
        }),
{
    let i = tdiv_i64(difference, 86400);
    if 0 <= i && i < 7 {
        WeekPlace::Day(i)
    } else {
        let w = tdiv_i64(i, 7);
        proof {
            assert(-106751991167301 <= i <= 106751991167300);
            assert(w >= -15250284452472);
        }
        if w <= 0 {
            WeekPlace::Week(w - 1)
        } else {
            WeekPlace::Week(w)
        }
    }
}

/// What saving a task does to the calendar's rows.
#[derive(Debug, PartialEq, Eq)]
pub enum CalendarChange {
    /// Nothing.
    Keep,
    /// Take the task's row from its day; put it on the day of this date
    /// where it has one (0 for none) and the calendar shows that day.
    MoveRow(i64),
    /// Refresh the task's row; where `true`, its suspension changed, so the
    /// row is filtered again.
    ResetRow(bool),
    /// Add a row for the task on the day of this date, where the calendar
    /// shows that day.
    AddRow(i64),
}

/// What saving `task` does to the calendar, where `old` is the task that its
/// row shows, if it has one: nothing where nothing changed; a task whose
/// date changed moves to its new day; another is refreshed; a task without
/// a row gets one where it has a date.
pub fn calendar_change(task: &Task, old: Option<&Task>) -> (r: CalendarChange)
    ensures
        old matches Some(o) ==> (if same_values(*o, *task) {
            r == CalendarChange::Keep
        } else if o.date != task.date {
            r == CalendarChange::MoveRow(task.date)
        } else {
            r == CalendarChange::ResetRow(o.suspended != task.suspended)
        }),
        old is None ==> (if task.date == 0 {
            r == CalendarChange::Keep
        } else {
            r == CalendarChange::AddRow(task.date)
        }),
{
    match old {
        Some(o) => {
            if same_task(o, task) {
                CalendarChange::Keep
            } else if o.date != task.date {
                CalendarChange::MoveRow(task.date)
            } else {
                CalendarChange::ResetRow(o.suspended != task.suspended)
            }
        },
        None => {
            if task.date == 0 {
                CalendarChange::Keep
            } else {
                CalendarChange::AddRow(task.date)
            }
        },
    }
}

/// Whether two tasks have the same values in all their fields, the texts
/// compared by their characters.
pub open spec fn same_values(a: Task, b: Task) -> bool {
    &&& a.id == b.id && a.done == b.done && a.project == b.project && a.section == b.section
    &&& a.position == b.position && a.suspended == b.suspended && a.parent == b.parent
    &&& a.date == b.date && a.name@ == b.name@ && a.description@ == b.description@
}

/// Whether two tasks have the same values in all their fields.
fn same_task(a: &Task, b: &Task) -> (r: bool)
    ensures
        r == same_values(*a, *b),
{
    a.id == b.id && a.done == b.done && a.project == b.project && a.section == b.section
        && a.position == b.position && a.suspended == b.suspended && a.parent == b.parent
        && a.date == b.date && a.name == b.name && a.description == b.description
}

/// Moves the strip of days so that it begins on the day at the top of the
/// calendar, `top`, one day at a time (see `slide_days`): a strip of days
/// that follow one another then holds `top`, `top + 1`, .. as many days as
/// before.
pub fn follow_top_day(days: &mut Vec<i64>, top: i64)
    requires
        old(days)@.len() > 0,
        consecutive(old(days)@),
        i64::MIN <= top - old(days)@[0] <= i64::MAX,
        top + old(days)@.len() - 1 <= i64::MAX,
    ensures
        final(days)@ == slid(old(days)@, top - old(days)@[0]),
        final(days)@.len() == old(days)@.len(),
        forall|i: int| 0 <= i < final(days)@.len() ==> #[trigger] final(days)@[i] == top + i,
{
    let ghost start = days@;
    let difference = top - days[0];
    proof {
        assert(start.last() == start[start.len() - 1]);
        slid_keeps_days_consecutive(start, difference as int);
    }
    slide_days(days, difference);
}

/// The days of the day views that a refresh of the calendar lays out, from
/// a week before the first day of the strip, `first`, to the end of the week
/// after the next: 21 days that follow one another; and the place among them
/// of the view of `first`, which the calendar then scrolls to.
pub fn refresh_days(first: i64) -> (r: (Vec<i64>, usize))
    requires
        i64::MIN + 7 <= first <= i64::MAX - 13,
    ensures
        r.0@.len() == 21,
        forall|i: int| 0 <= i < 21 ==> #[trigger] r.0@[i] == first - 7 + i,
        r.1 == 7,
        r.0@[r.1 as int] == first,
{
    let mut days: Vec<i64> = Vec::new();
    let mut k: i64 = -7;
    while k < 14
        invariant
            -7 <= k <= 14,
            i64::MIN + 7 <= first <= i64::MAX - 13,
            days@.len() == k + 7,
            forall|i: int| 0 <= i < days@.len() ==> #[trigger] days@[i] == first - 7 + i,
        decreases 14 - k,
    {
        days.push(first + k);
        k = k + 1;
    }
    (days, 7)
}

} // verus!
