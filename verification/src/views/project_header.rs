//! The time statistics that a project's header shows: the total time spent on
//! the project's tasks, and the time spent on each of the last days.

use vstd::prelude::*;

use crate::db::models::task::{fits_i64, sum_of, task_time};
use crate::db::models::{Record, Task};
use crate::db::store::{top, Database};
use crate::db::models::record::{duration_text, shows_days};
use crate::text::{int_text, push_int, tdiv, tdiv_i64};

verus! {

/// Whether a task is one that the statistics of project `project_id` count:
/// a task (or subtask) of the project that is not suspended.
pub open spec fn stat_task(t: Task, project_id: i64) -> bool {
    t.project == project_id && !t.suspended
}

/// Whether a record belongs to a task that the statistics count.
pub open spec fn stat_record(db: Database, project_id: i64, r: Record) -> bool {
    exists|i: int| 0 <= i < db.tasks@.len() && db.tasks@[i].id == r.task && stat_task(db.tasks@[i], project_id)
}

/// The time that the records of the counted tasks that began strictly between
/// `lo` and `hi` (Unix seconds) add up to.
pub open spec fn window_time(db: Database, project_id: i64, lo: i64, hi: i64) -> int {
    sum_of(
        db.records@.filter(|r: Record| stat_record(db, project_id, r) && lo < r.start && r.start < hi).map_values(
            |r: Record| r.duration as int,
        ),
    )
}

/// The time of each day: day `i` runs from `starts[i]` to `now` for the first
/// day, and to the start of the day after it (`starts[i - 1]`) for the others.
pub open spec fn day_times(db: Database, project_id: i64, now: i64, starts: Seq<i64>) -> Seq<int> {
    Seq::new(
        starts.len(),
        |i: int| window_time(db, project_id, starts[i], if i == 0 { now } else { starts[i - 1] }),
    )
}

/// The sum of the times of the counted tasks (see `task_time`), in the order
/// of the tasks' table.
pub open spec fn stat_total(db: Database, project_id: i64) -> int {
    sum_of(db.tasks@.filter(|t: Task| stat_task(t, project_id)).map_values(|t: Task| task_time(db, t)))
}

/// Whether every number of the statistics fits in an `i64`: the time of each
/// day and their sum, the time of each counted task and their sum.
pub open spec fn stats_fit(db: Database, project_id: i64, now: i64, starts: Seq<i64>) -> bool {
    &&& forall|i: int|
        0 <= i < starts.len() ==> fits_i64(#[trigger] day_times(db, project_id, now, starts)[i])
    &&& fits_i64(sum_of(day_times(db, project_id, now, starts)))
    &&& forall|i: int|
        0 <= i < db.tasks@.len() && stat_task(db.tasks@[i], project_id) ==> fits_i64(
            #[trigger] task_time(db, db.tasks@[i]),
        )
    &&& fits_i64(stat_total(db, project_id))
}

/// The statistics of a project.
pub struct ProjectStats {
    /// The time spent on the project's counted tasks, each with the tasks
    /// under it.
    pub total: i64,
    /// The time of the days, together.
    pub recent: i64,
    /// The time of each day, from the latest day back.
    pub days: Vec<i64>,
    /// The number of hours that the chart of the days reaches: two more than
    /// the whole hours of the longest day.
    pub max_hour: i64,
}

proof fn lemma_sum_filter_step<T>(s: Seq<T>, f: spec_fn(T) -> bool, g: spec_fn(T) -> int, k: int)
    requires
        0 <= k < s.len(),
    ensures
        sum_of(s.take(k + 1).filter(f).map_values(g)) == sum_of(s.take(k).filter(f).map_values(g)) + if f(
            s[k],
        ) {
            g(s[k])
        } else {
            0
        },
{
    assert(s.take(k + 1).drop_last() =~= s.take(k));
    reveal_with_fuel(Seq::<_>::filter, 1);
    if f(s[k]) {
        assert(s.take(k + 1).filter(f).map_values(g).drop_last() =~= s.take(k).filter(f).map_values(g));
    } else {
        assert(s.take(k + 1).filter(f).map_values(g) =~= s.take(k).filter(f).map_values(g));
    }
}

/// For each record, whether it belongs to a counted task.
fn stat_members(db: &Database, project_id: i64) -> (m: Vec<bool>)
    ensures
        m@.len() == db.records@.len(),
        forall|k: int| 0 <= k < m@.len() ==> m@[k] == stat_record(*db, project_id, #[trigger] db.records@[k]),
{
    let records = db.records.rows();
    let rows = db.tasks.rows();
    let mut m: Vec<bool> = Vec::new();
    let mut k: usize = 0;
    while k < records.len()
        invariant
            k <= records@.len(),
            records@ == db.records@,
            rows@ == db.tasks@,
            m@.len() == k,
            forall|a: int| 0 <= a < k ==> m@[a] == stat_record(*db, project_id, #[trigger] db.records@[a]),
        decreases records@.len() - k,
    {
        let task_id = records[k].task;
        let mut found = false;
        let mut j: usize = 0;
        while j < rows.len() && !found
            invariant
                j <= rows@.len(),
                found == exists|a: int|
                    0 <= a < j && #[trigger] rows@[a].id == task_id && stat_task(rows@[a], project_id),
            decreases rows@.len() - j,
        {
            if rows[j].id == task_id && rows[j].project == project_id && !rows[j].suspended {
                found = true;
            }
            j = j + 1;
        }
        proof {
            if !found {
                assert(!exists|a: int|
                    0 <= a < rows@.len() && #[trigger] rows@[a].id == task_id && stat_task(rows@[a], project_id));
            }
        }
        m.push(found);
        k = k + 1;
    }
    m
}

/// The time of the counted records that began strictly between `lo` and
/// `hi`, or `None` where it does not fit in an `i64`.
fn checked_window_time(db: &Database, project_id: i64, members: &Vec<bool>, lo: i64, hi: i64) -> (r: Option<i64>)
    requires
        members@.len() == db.records@.len(),
        forall|k: int|
            0 <= k < members@.len() ==> members@[k] == stat_record(*db, project_id, #[trigger] db.records@[k]),
    ensures
        fits_i64(window_time(*db, project_id, lo, hi)) ==> r == Some(window_time(*db, project_id, lo, hi) as i64),
        !fits_i64(window_time(*db, project_id, lo, hi)) ==> r is None,
{
    let ghost f = |r: Record| stat_record(*db, project_id, r) && lo < r.start && r.start < hi;
    let ghost g = |r: Record| r.duration as int;
    let records = db.records.rows();
    let mut total: i128 = 0;
    let mut k: usize = 0;
    while k < records.len()
        invariant
            k <= records@.len(),
            records@ == db.records@,
            members@.len() == records@.len(),
            forall|a: int|
                0 <= a < members@.len() ==> members@[a] == stat_record(*db, project_id, #[trigger] db.records@[a]),
            f == (|r: Record| stat_record(*db, project_id, r) && lo < r.start && r.start < hi),
            g == (|r: Record| r.duration as int),
            total as int == sum_of(records@.take(k as int).filter(f).map_values(g)),
            -(k as int) * 0x8000_0000_0000_0000 <= total <= (k as int) * 0x8000_0000_0000_0000,
        decreases records@.len() - k,
    {
        proof {
            lemma_sum_filter_step(records@, f, g, k as int);
        }
        let x = &records[k];
        if members[k] && lo < x.start && x.start < hi {
            total = total + x.duration as i128;
        }
        k = k + 1;
    }
    proof {
        assert(records@.take(records@.len() as int) =~= records@);
        assert(f =~= (|r: Record| stat_record(*db, project_id, r) && lo < r.start && r.start < hi));
        assert(g =~= (|r: Record| r.duration as int));
    }
    if total < i64::MIN as i128 || total > i64::MAX as i128 {
        None
    } else {
        Some(total as i64)
    }
}

/// The sum of the times of the counted tasks (see `stat_total`), or `None`
/// where it, or the time of one of them, does not fit in an `i64`.
fn checked_stat_total(db: &Database, project_id: i64) -> (r: Option<i64>)
    ensures
        ({
            let fit = (forall|i: int|
                0 <= i < db.tasks@.len() && stat_task(db.tasks@[i], project_id) ==> fits_i64(
                    #[trigger] task_time(*db, db.tasks@[i]),
                )) && fits_i64(stat_total(*db, project_id));
            &&& fit ==> r == Some(stat_total(*db, project_id) as i64)
            &&& !fit ==> r is None
        }),
{
    let ghost f = |t: Task| stat_task(t, project_id);
    let ghost g = |t: Task| task_time(*db, t);
    let rows = db.tasks.rows();
    let mut total: i128 = 0;
    let mut k: usize = 0;
    while k < rows.len()
        invariant
            k <= rows@.len(),
            rows@ == db.tasks@,
            f == (|t: Task| stat_task(t, project_id)),
            g == (|t: Task| task_time(*db, t)),
            total as int == sum_of(rows@.take(k as int).filter(f).map_values(g)),
            forall|i: int| 0 <= i < k && stat_task(rows@[i], project_id) ==> fits_i64(#[trigger] task_time(*db, rows@[i])),
            -(k as int) * 0x8000_0000_0000_0000 <= total <= (k as int) * 0x8000_0000_0000_0000,
        decreases rows@.len() - k,
    {
        proof {
            lemma_sum_filter_step(rows@, f, g, k as int);
        }
        let t = &rows[k];
        if t.project == project_id && !t.suspended {
            match t.checked_duration(db) {
                None => {
                    proof {
                        assert(!fits_i64(task_time(*db, db.tasks@[k as int])));
                    }
                    return None;
                },
                Some(d) => {
                    total = total + d as i128;
                },
            }
        }
        k = k + 1;
    }
    proof {
        assert(rows@.take(rows@.len() as int) =~= rows@);
        assert(f =~= (|t: Task| stat_task(t, project_id)));
        assert(g =~= (|t: Task| task_time(*db, t)));
    }
    if total < i64::MIN as i128 || total > i64::MAX as i128 {
        None
    } else {
        Some(total as i64)
    }
}

/// The statistics of project `project_id` at time `now`, where `day_starts`
/// holds the start of each day, from today back (see `day_times`); `None`
/// where one of their numbers does not fit in an `i64` (see `stats_fit`).
pub fn project_stats(db: &Database, project_id: i64, now: i64, day_starts: &Vec<i64>) -> (r: Option<
    ProjectStats,
>)
    requires
        day_starts@.len() > 0,
    ensures
        stats_fit(*db, project_id, now, day_starts@) ==> (r matches Some(st) && {
            let times = day_times(*db, project_id, now, day_starts@);
            &&& st.days@.len() == times.len()
            &&& forall|i: int| 0 <= i < times.len() ==> st.days@[i] == #[trigger] times[i]
            &&& st.recent == sum_of(times)
            &&& st.total == stat_total(*db, project_id)
            &&& st.max_hour == tdiv(top(times)->0, 3600) + 2
        }),
        !stats_fit(*db, project_id, now, day_starts@) ==> r is None,
{
    let ghost times = day_times(*db, project_id, now, day_starts@);
    let members = stat_members(db, project_id);
    let mut days: Vec<i64> = Vec::new();
    let mut recent: i128 = 0;
    let mut longest: i64 = 0;
    let mut i: usize = 0;
    while i < day_starts.len()
        invariant
            i <= day_starts@.len(),
            times == day_times(*db, project_id, now, day_starts@),
            members@.len() == db.records@.len(),
            forall|k: int|
                0 <= k < members@.len() ==> members@[k] == stat_record(*db, project_id, #[trigger] db.records@[k]),
            days@.len() == i,
            forall|a: int| 0 <= a < i ==> days@[a] == #[trigger] times[a],
            recent as int == sum_of(times.take(i as int)),
            -(i as int) * 0x8000_0000_0000_0000 <= recent <= (i as int) * 0x8000_0000_0000_0000,
            i > 0 ==> top(times.take(i as int)) == Some(longest as int),
        decreases day_starts@.len() - i,
    {
        let hi = if i == 0 {
            now
        } else {
            day_starts[i - 1]
        };
        let t = match checked_window_time(db, project_id, &members, day_starts[i], hi) {
            None => {
                proof {
                    assert(!fits_i64(times[i as int]));
                }
                return None;
            },
            Some(t) => t,
        };
        proof {
            assert(times.take(i + 1).drop_last() =~= times.take(i as int));
            assert(times.take(i + 1).last() == times[i as int]);
        }
        if i == 0 || t > longest {
            longest = t;
        }
        days.push(t);
        recent = recent + t as i128;
        i = i + 1;
    }
    proof {
        assert(times.take(times.len() as int) =~= times);
    }
    if recent < i64::MIN as i128 || recent > i64::MAX as i128 {
        return None;
    }
    let total = match checked_stat_total(db, project_id) {
        None => {
            return None;
        },
        Some(t) => t,
    };
    let hours = tdiv_i64(longest, 3600);
    proof {
        assert(hours <= longest / 3600 + 1);
    }
    let max_hour = hours + 2;
    Some(ProjectStats { total, recent: recent as i64, days, max_hour })
}

/// Whether `text` is how `Record::duration_display` shows `duration`
/// seconds: exactly `duration_text` under a day; from a day on, with the
/// word for days that the translation gives.
pub open spec fn shows_duration(duration: int, text: Seq<char>) -> bool {
    &&& !shows_days(duration) ==> text == duration_text(duration, Seq::empty())
    &&& shows_days(duration) ==> exists|label: Seq<char>| text == duration_text(duration, label)
}

/// The texts of a project's statistics: the total time, the time of the
/// days together (the chart's title), the hour marks of the chart, and the
/// tooltip of each day.
pub struct StatsTexts {
    pub total: String,
    pub recent: String,
    pub hours: Vec<String>,
    pub tooltips: Vec<String>,
}

/// What the statistics popover shows: nothing but its placeholder (None)
/// where no time was spent on the project; else the time texts, and the
/// hour marks `0` up to one below the chart's top hour.
pub fn stats_texts(st: &ProjectStats) -> (r: Option<StatsTexts>)
    ensures
        st.total == 0 <==> r is None,
        r matches Some(t) ==> {
            &&& shows_duration(st.total as int, t.total@)
            &&& shows_duration(st.recent as int, t.recent@)
            &&& t.hours@.len() == (if st.max_hour > 0 { st.max_hour as int } else { 0 })
            &&& forall|i: int| 0 <= i < t.hours@.len() ==> (#[trigger] t.hours@[i])@ == int_text(i)
            &&& t.tooltips@.len() == st.days@.len()
            &&& forall|i: int| 0 <= i < st.days@.len() ==> shows_duration(st.days@[i] as int, (#[trigger] t.tooltips@[i])@)
        },
{
    if st.total == 0 {
        return None;
    }
    let total = Record::duration_display(st.total);
    let recent = Record::duration_display(st.recent);
    let mut hours: Vec<String> = Vec::new();
    let mut h: i64 = 0;
    while h < st.max_hour
        invariant
            0 <= h,
            h <= st.max_hour || h == 0,
            hours@.len() == h,
            forall|i: int| 0 <= i < hours@.len() ==> (#[trigger] hours@[i])@ == int_text(i),
        decreases st.max_hour - h,
    {
        let mut s = String::new();
        push_int(&mut s, h);
        proof {
            assert(Seq::<char>::empty() + int_text(h as int) =~= int_text(h as int));
        }
        hours.push(s);
        h = h + 1;
    }
    let mut tooltips: Vec<String> = Vec::new();
    let mut k: usize = 0;
    while k < st.days.len()
        invariant
            k <= st.days@.len(),
            tooltips@.len() == k,
            forall|i: int| 0 <= i < k ==> shows_duration(st.days@[i] as int, (#[trigger] tooltips@[i])@),
        decreases st.days@.len() - k,
    {
        tooltips.push(Record::duration_display(st.days[k]));
        k = k + 1;
    }
    Some(StatsTexts { total, recent, hours, tooltips })
}

} // verus!
