//! Dragging a task's row over another row of a box: dropped on the top or
//! bottom edge of the other row, it takes that row's place among its
//! siblings; dropped on its middle, it becomes that row's subtask.  A row is
//! given as (id, parent, position); rows stand in the box from the highest
//! position down.

use vstd::prelude::*;

verus! {

/// Where on the other row the dragged row is.
#[derive(Debug, PartialEq, Eq, Structural, Clone, Copy)]
pub enum DropEdge {
    /// Near its top edge.
    Top,
    /// Near its bottom edge.
    Bottom,
    /// In between: the dragged task is to become its subtask.
    Inside,
}

/// The step of a drop on an edge: 1 on the top edge, -1 on the bottom edge.
pub open spec fn drag_step(edge: DropEdge) -> int {
    match edge {
        DropEdge::Top => 1,
        DropEdge::Bottom => -1,
        DropEdge::Inside => 0,
    }
}

/// Whether the dragged row at `si` comes from the side that the edge faces
/// (below the other row for the top edge, above it for the bottom edge).
pub open spec fn from_far_side(si: int, ti: int, edge: DropEdge) -> bool {
    (edge == DropEdge::Top && si > ti) || (edge == DropEdge::Bottom && si < ti)
}

/// Row `i` after the row at `si` is dragged onto the row at `ti`:
/// - nothing changes where the two are the same task;
/// - dropped inside, the dragged task takes the other as its parent (where
///   it is not already its parent);
/// - dropped on an edge, the dragged task takes the other's parent; where the
///   two rows are next to each other on that side, they swap by moving one
///   step each; else, coming from the far side, the rows from the other one
///   up to the dragged one move down by one position and the dragged task
///   takes the other's position (from the near side, no position changes).
pub open spec fn dragged_row(s: Seq<(i64, i64, i32)>, si: int, ti: int, edge: DropEdge, i: int) -> (
    i64,
    i64,
    i32,
) {
    let src = s[si];
    let tgt = s[ti];
    if src.0 == tgt.0 {
        s[i]
    } else if edge == DropEdge::Inside {
        if i == si && src.1 != tgt.0 {
            (src.0, tgt.0, src.2)
        } else {
            s[i]
        }
    } else if si - ti == drag_step(edge) {
        if i == si {
            (src.0, tgt.1, (src.2 + drag_step(edge)) as i32)
        } else if i == ti {
            (tgt.0, tgt.1, (tgt.2 - drag_step(edge)) as i32)
        } else {
            s[i]
        }
    } else if from_far_side(si, ti, edge) {
        if i == si {
            (src.0, tgt.1, tgt.2)
        } else if ti <= i < si {
            (s[i].0, s[i].1, (s[i].2 - 1) as i32)
        } else {
            s[i]
        }
    } else if i == si {
        (src.0, tgt.1, src.2)
    } else {
        s[i]
    }
}

/// Whether the positions that a drag computes fit in an `i32`.
pub open spec fn drag_fits(s: Seq<(i64, i64, i32)>, si: int, ti: int, edge: DropEdge) -> bool {
    &&& edge != DropEdge::Inside && si - ti == drag_step(edge) ==> i32::MIN <= s[si].2 + drag_step(edge)
        <= i32::MAX && i32::MIN <= s[ti].2 - drag_step(edge) <= i32::MAX
    &&& forall|i: int| ti <= i < si ==> #[trigger] s[i].2 > i32::MIN
}

/// The rows after the row at `source` is dragged onto the row at `target`
/// (see `dragged_row`).
pub fn task_drag_move(rows: &Vec<(i64, i64, i32)>, source: usize, target: usize, edge: DropEdge) -> (r: Vec<
    (i64, i64, i32),
>)
    requires
        source < rows@.len(),
        target < rows@.len(),
        drag_fits(rows@, source as int, target as int, edge),
    ensures
        r@ == Seq::new(rows@.len(), |i: int| dragged_row(rows@, source as int, target as int, edge, i)),
{
    let n = rows.len();
    let src = rows[source];
    let tgt = rows[target];
    let step: i64 = match edge {
        DropEdge::Top => 1,
        DropEdge::Bottom => -1,
        DropEdge::Inside => 0,
    };
    let far = (edge == DropEdge::Top && source > target) || (edge == DropEdge::Bottom && source < target);
    let adjacent = (edge == DropEdge::Top && source > target && source - target == 1) || (edge
        == DropEdge::Bottom && target > source && target - source == 1);
    let mut r: Vec<(i64, i64, i32)> = Vec::new();
    let mut i: usize = 0;
    while i < n
        invariant
            n == rows@.len(),
            source < n,
            target < n,
            i <= n,
            src == rows@[source as int],
            tgt == rows@[target as int],
            step == drag_step(edge),
            far == from_far_side(source as int, target as int, edge),
            adjacent == (edge != DropEdge::Inside && source - target == drag_step(edge)),
            drag_fits(rows@, source as int, target as int, edge),
            r@.len() == i,
            forall|j: int| 0 <= j < i ==> r@[j] == dragged_row(rows@, source as int, target as int, edge, j),
        decreases n - i,
    {
        let row = rows[i];
        let out = if src.0 == tgt.0 {
            row
        } else if edge == DropEdge::Inside {
            if i == source && src.1 != tgt.0 {
                (src.0, tgt.0, src.2)
            } else {
                row
            }
        } else if adjacent {
            if i == source {
                (src.0, tgt.1, (src.2 as i64 + step) as i32)
            } else if i == target {
                (tgt.0, tgt.1, (tgt.2 as i64 - step) as i32)
            } else {
                row
            }
        } else if far {
            if i == source {
                (src.0, tgt.1, tgt.2)
            } else if target <= i && i < source {
                (row.0, row.1, row.2 - 1)
            } else {
                row
            }
        } else if i == source {
            (src.0, tgt.1, src.2)
        } else {
            row
        };
        r.push(out);
        i = i + 1;
    }
    assert(r@ =~= Seq::new(rows@.len(), |i: int| dragged_row(rows@, source as int, target as int, edge, i)));
    r
}

/// Whether the dragged row is moving out of its box to become a subtask,
/// after the drag of `task_drag_move`: it is where it was dropped inside a
/// row that is not yet its parent, not where it was dropped on an edge, and
/// stays as it was (`moving_out`) otherwise.
pub fn moving_out_after_drag(
    rows: &Vec<(i64, i64, i32)>,
    source: usize,
    target: usize,
    edge: DropEdge,
    moving_out: bool,
) -> (r: bool)
    requires
        source < rows@.len(),
        target < rows@.len(),
    ensures
        ({
            let src = rows@[source as int];
            let tgt = rows@[target as int];
            &&& src.0 == tgt.0 ==> r == moving_out
            &&& src.0 != tgt.0 && edge != DropEdge::Inside ==> !r
            &&& src.0 != tgt.0 && edge == DropEdge::Inside ==> r == (src.1 != tgt.0 || moving_out)
        }),
{
    let src = rows[source];
    let tgt = rows[target];
    if src.0 == tgt.0 {
        moving_out
    } else if edge != DropEdge::Inside {
        false
    } else {
        src.1 != tgt.0 || moving_out
    }
}

} // verus!
