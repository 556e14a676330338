//! A reminder of a task.

use vstd::prelude::*;

use crate::db::store::Row;

verus! {

/// A reminder of a task at `datetime` (Unix seconds); `past` once it was sent
/// or its time went by.
#[derive(Debug, PartialEq, Eq)]
pub struct Reminder {
    pub id: i64,
    pub datetime: i64,
    pub past: bool,
    pub task: i64,
    pub priority: u8,
}

/// A time in Unix seconds read as unsigned, as `as u64` reads an `i64`: a
/// time before 1970 wraps around.
pub open spec fn unsigned_secs(datetime: int) -> int {
    if datetime >= 0 {
        datetime
    } else {
        datetime + 0x1_0000_0000_0000_0000
    }
}

impl Reminder {
    pub fn new(id: i64, datetime: i64, past: bool, task: i64, priority: u8) -> (r: Reminder)
        ensures
            r == (Reminder { id, datetime, past, task, priority }),
    {
        Reminder { id, datetime, past, task, priority }
    }

    /// The reminder's time as a number of seconds since the Unix epoch, read
    /// as unsigned (a time before 1970 wraps around, as `as u64` does).
    pub fn datetime_duration(&self) -> (r: u64)
        ensures
            r as int == unsigned_secs(self.datetime as int),
    {
        if self.datetime >= 0 {
            self.datetime as u64
        } else {
            let m: u64 = (-(self.datetime as i128)) as u64;
            u64::MAX - m + 1
        }
    }
}

impl Default for Reminder {
    fn default() -> (r: Reminder)
        ensures
            r == (Reminder { id: 0, datetime: 0, past: false, task: 0, priority: 2 }),
    {
        Reminder::new(0, 0, false, 0, 2)
    }
}

impl Row for Reminder {
    open spec fn row_id(&self) -> i64 {
        self.id
    }

    fn rowid(&self) -> (r: i64) {
        self.id
    }

    fn copied(&self) -> (r: Self) {
        Reminder {
            id: self.id,
            datetime: self.datetime,
            past: self.past,
            task: self.task,
            priority: self.priority,
        }
    }
}

} // verus!
