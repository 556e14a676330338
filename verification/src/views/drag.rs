//! Dragging a box (a section of a project, or a list) onto another: the
//! dragged one takes the other's place, and those between move by one to
//! make room.

use vstd::prelude::*;

use crate::db::operations::shift_for_move;

verus! {

/// The place that the box at place `q` takes when the box at place `from` is
/// dropped on the one at place `to`.
pub open spec fn place_after_drop(q: int, from: int, to: int) -> int {
    if q == from {
        to
    } else {
        shift_for_move(q, from, to)
    }
}

/// Moves the box at place `from` to place `to`, the boxes between shifting
/// by one place (see `place_after_drop`).
pub fn move_on_drop<T>(items: &mut Vec<T>, from: usize, to: usize)
    requires
        from < old(items)@.len(),
        to < old(items)@.len(),
    ensures
        final(items)@ == old(items)@.remove(from as int).insert(to as int, old(items)@[from as int]),
        forall|q: int|
            0 <= q < old(items)@.len() ==> final(items)@[place_after_drop(q, from as int, to as int)]
                == old(items)@[q],
{
    let ghost before = items@;
    let x = items.remove(from);
    items.insert(to, x);
    proof {
        let r = before.remove(from as int);
        assert forall|q: int| 0 <= q < before.len() implies items@[place_after_drop(
            q,
            from as int,
            to as int,
        )] == before[q] by {
            if q != from {
                let rq = if q < from { q } else { q - 1 };
                assert(r[rq] == before[q]);
            }
        }
    }
}

} // verus!
