//! The application's decisions about reminders: when one is sent, and
//! whether it is still to be sent when its time comes.

use vstd::prelude::*;

use crate::db::models::reminder::unsigned_secs;
use crate::db::models::Reminder;

verus! {

/// What the application does with a reminder that it schedules.
#[derive(Debug, PartialEq, Eq)]
pub enum ReminderStep {
    /// Its time has gone by: mark it as past.
    MarkPast,
    /// Wait this long, then send it if it is still due (see `reminder_due`).
    Wait { secs: u64, nanos: u32 },
}

/// A time as a number of nanoseconds.
pub open spec fn nanos_of(secs: int, nanos: int) -> int {
    secs * 1_000_000_000 + nanos
}

/// What to do with `reminder` at the time `now_secs` seconds and `now_nanos`
/// nanoseconds after the Unix epoch: mark it past where its time (read as
/// unsigned, see `unsigned_secs`) comes before now, else wait until its time.
pub fn plan_reminder(reminder: &Reminder, now_secs: u64, now_nanos: u32) -> (r: ReminderStep)
    requires
        now_nanos < 1_000_000_000,
    ensures
        ({
            let at = nanos_of(unsigned_secs(reminder.datetime as int), 0);
            let now = nanos_of(now_secs as int, now_nanos as int);
            &&& at < now ==> r == ReminderStep::MarkPast
            &&& at >= now ==> (r matches ReminderStep::Wait { secs, nanos } && nanos < 1_000_000_000
                && nanos_of(secs as int, nanos as int) == at - now)
        }),
{
    let at = reminder.datetime_duration();
    if at < now_secs || (at == now_secs && now_nanos > 0) {
        ReminderStep::MarkPast
    } else if now_nanos == 0 {
        ReminderStep::Wait { secs: at - now_secs, nanos: 0 }
    } else {
        ReminderStep::Wait { secs: at - now_secs - 1, nanos: 1_000_000_000 - now_nanos }
    }
}

/// Whether a reminder scheduled as `scheduled` is still to be sent when its
/// time comes, `fresh` being its row as read then: it is not past and its
/// time was not changed meanwhile.
pub fn reminder_due(scheduled: &Reminder, fresh: &Reminder) -> (r: bool)
    ensures
        r == (!fresh.past && fresh.datetime == scheduled.datetime),
{
    !fresh.past && fresh.datetime == scheduled.datetime
}

} // verus!
