//! Walking down from a task to its subtasks, their subtasks, and so on.

use vstd::prelude::*;

use crate::db::models::Task;

verus! {

/// Which subtasks a walk down the task tree follows.
#[derive(Clone, Copy)]
pub enum Descent {
    /// Every subtask.
    All,
    /// The subtasks that are not suspended.
    Unsuspended,
    /// The subtasks that are not suspended and belong to the given project.
    UnsuspendedInProject(i64),
}

/// Whether the walk goes from the task with id `parent_id` down to `c`.
pub open spec fn child_of(d: Descent, c: Task, parent_id: i64) -> bool {
    &&& c.parent == parent_id
    &&& match d {
        Descent::All => true,
        Descent::Unsuspended => !c.suspended,
        Descent::UnsuspendedInProject(p) => !c.suspended && c.project == p,
    }
}

/// The ids that the walk from `root` reaches in at most `k` steps.
pub open spec fn reach(tasks: Seq<Task>, d: Descent, root: i64, k: nat) -> Set<i64>
    decreases k,
{
    if k == 0 {
        set![root]
    } else {
        let prev = reach(tasks, d, root, (k - 1) as nat);
        prev.union(
            Set::new(
                |x: i64|
                    exists|i: int|
                        0 <= i < tasks.len() && tasks[i].id == x && child_of(d, tasks[i], tasks[i].parent)
                            && prev.contains(tasks[i].parent),
            ),
        )
    }
}

/// Whether the walk from `root` reaches the id `x` (`root` itself included).
pub open spec fn below(tasks: Seq<Task>, d: Descent, root: i64, x: i64) -> bool {
    exists|k: nat| #[trigger] reach(tasks, d, root, k).contains(x)
}

/// Whether the walk from `root` reaches the task `t` in one step or more: its
/// parent is reached and the walk goes down to it.
pub open spec fn strictly_below(tasks: Seq<Task>, d: Descent, root: i64, t: Task) -> bool {
    child_of(d, t, t.parent) && below(tasks, d, root, t.parent)
}

/// A walk down every subtask sees only the tasks' ids and parents: two lists
/// that agree on those reach the same ids.
pub proof fn lemma_reach_all_same(a: Seq<Task>, b: Seq<Task>, root: i64, k: nat)
    requires
        a.len() == b.len(),
        forall|i: int| 0 <= i < a.len() ==> (#[trigger] a[i]).id == b[i].id && a[i].parent == b[i].parent,
    ensures
        reach(a, Descent::All, root, k) == reach(b, Descent::All, root, k),
    decreases k,
{
    if k > 0 {
        lemma_reach_all_same(a, b, root, (k - 1) as nat);
        let prev = reach(a, Descent::All, root, (k - 1) as nat);
        let sa = Set::new(
            |x: i64|
                exists|i: int|
                    0 <= i < a.len() && a[i].id == x && child_of(Descent::All, a[i], a[i].parent)
                        && prev.contains(a[i].parent),
        );
        let sb = Set::new(
            |x: i64|
                exists|i: int|
                    0 <= i < b.len() && b[i].id == x && child_of(Descent::All, b[i], b[i].parent)
                        && prev.contains(b[i].parent),
        );
        assert forall|x: i64| sa.contains(x) implies sb.contains(x) by {
            let i = choose|i: int|
                0 <= i < a.len() && a[i].id == x && child_of(Descent::All, a[i], a[i].parent)
                    && prev.contains(a[i].parent);
            assert(b[i].id == x && prev.contains(b[i].parent));
        }
        assert forall|x: i64| sb.contains(x) implies sa.contains(x) by {
            let i = choose|i: int|
                0 <= i < b.len() && b[i].id == x && child_of(Descent::All, b[i], b[i].parent)
                    && prev.contains(b[i].parent);
            assert(a[i].id == x && prev.contains(a[i].parent));
        }
        assert(sa =~= sb);
    }
}

/// Whether a task lies under another, in a walk down every subtask, is the
/// same in two lists that agree on the tasks' ids and parents.
pub proof fn lemma_below_all_same(a: Seq<Task>, b: Seq<Task>, root: i64, x: i64)
    requires
        a.len() == b.len(),
        forall|i: int| 0 <= i < a.len() ==> (#[trigger] a[i]).id == b[i].id && a[i].parent == b[i].parent,
    ensures
        below(a, Descent::All, root, x) == below(b, Descent::All, root, x),
{
    if below(a, Descent::All, root, x) {
        let k = choose|k: nat| #[trigger] reach(a, Descent::All, root, k).contains(x);
        lemma_reach_all_same(a, b, root, k);
        assert(reach(b, Descent::All, root, k).contains(x));
    }
    if below(b, Descent::All, root, x) {
        let k = choose|k: nat| #[trigger] reach(b, Descent::All, root, k).contains(x);
        lemma_reach_all_same(a, b, root, k);
        assert(reach(a, Descent::All, root, k).contains(x));
    }
}

/// The number of `true`s.
pub open spec fn count_true(s: Seq<bool>) -> nat
    decreases s.len(),
{
    if s.len() == 0 {
        0
    } else {
        count_true(s.drop_last()) + if s.last() {
            1nat
        } else {
            0nat
        }
    }
}

proof fn lemma_count_true_bound(s: Seq<bool>)
    ensures
        count_true(s) <= s.len(),
    decreases s.len(),
{
    if s.len() > 0 {
        lemma_count_true_bound(s.drop_last());
    }
}

proof fn lemma_count_true_update(s: Seq<bool>, i: int)
    requires
        0 <= i < s.len(),
        !s[i],
    ensures
        count_true(s.update(i, true)) == count_true(s) + 1,
    decreases s.len(),
{
    let u = s.update(i, true);
    if i == s.len() - 1 {
        assert(u.drop_last() =~= s.drop_last());
    } else {
        assert(u.drop_last() =~= s.drop_last().update(i, true));
        lemma_count_true_update(s.drop_last(), i);
    }
}

/// Whether the id `x` is `root` or that of a marked task.
pub open spec fn in_marked(tasks: Seq<Task>, marked: Seq<bool>, root: i64, x: i64) -> bool {
    x == root || exists|j: int| 0 <= j < tasks.len() && marked[j] && tasks[j].id == x
}

fn is_in_marked(tasks: &Vec<Task>, marked: &Vec<bool>, root: i64, x: i64) -> (r: bool)
    requires
        marked@.len() == tasks@.len(),
    ensures
        r == in_marked(tasks@, marked@, root, x),
{
    if x == root {
        return true;
    }
    let n = tasks.len();
    let mut j: usize = 0;
    while j < n
        invariant
            n == tasks@.len(),
            marked@.len() == n,
            j <= n,
            forall|a: int| 0 <= a < j ==> !(marked@[a] && #[trigger] tasks@[a].id == x),
        decreases n - j,
    {
        if marked[j] && tasks[j].id == x {
            return true;
        }
        j = j + 1;
    }
    false
}

fn follows(d: Descent, t: &Task) -> (r: bool)
    ensures
        r == child_of(d, *t, t.parent),
{
    match d {
        Descent::All => true,
        Descent::Unsuspended => !t.suspended,
        Descent::UnsuspendedInProject(p) => !t.suspended && t.project == p,
    }
}

/// The walk from `root` reaches every id in `in_marked` once marks are closed.
proof fn lemma_reach_marked(tasks: Seq<Task>, marked: Seq<bool>, d: Descent, root: i64, k: nat)
    requires
        marked.len() == tasks.len(),
        forall|i: int|
            0 <= i < tasks.len() && child_of(d, tasks[i], tasks[i].parent) && in_marked(
                tasks,
                marked,
                root,
                tasks[i].parent,
            ) ==> #[trigger] marked[i],
    ensures
        forall|x: i64| reach(tasks, d, root, k).contains(x) ==> in_marked(tasks, marked, root, x),
    decreases k,
{
    if k > 0 {
        lemma_reach_marked(tasks, marked, d, root, (k - 1) as nat);
        let prev = reach(tasks, d, root, (k - 1) as nat);
        assert forall|x: i64| reach(tasks, d, root, k).contains(x) implies in_marked(
            tasks,
            marked,
            root,
            x,
        ) by {
            if !prev.contains(x) {
                let i = choose|i: int|
                    0 <= i < tasks.len() && tasks[i].id == x && child_of(d, tasks[i], tasks[i].parent)
                        && prev.contains(tasks[i].parent);
                assert(marked[i]);
            }
        }
    }
}

/// Marks the tasks that the walk from `root` reaches in one step or more.
pub fn mark_below(tasks: &Vec<Task>, d: Descent, root: i64) -> (marked: Vec<bool>)
    ensures
        marked@.len() == tasks@.len(),
        forall|i: int|
            0 <= i < tasks@.len() ==> (marked@[i] <==> strictly_below(tasks@, d, root, #[trigger] tasks@[i])),
{
    let n = tasks.len();
    let mut marked: Vec<bool> = Vec::new();
    let mut k: usize = 0;
    while k < n
        invariant
            k <= n,
            marked@.len() == k,
            forall|a: int| 0 <= a < k ==> !marked@[a],
        decreases n - k,
    {
        marked.push(false);
        k = k + 1;
    }
    proof {
        assert(marked@ =~= Seq::new(n as nat, |a: int| false));
        assert forall|s: Seq<bool>| s.len() == 0 implies count_true(s) == 0 by {}
        lemma_zero_count(marked@);
    }
    loop
        invariant
            n == tasks@.len(),
            marked@.len() == n,
            forall|i: int| 0 <= i < n && #[trigger] marked@[i] ==> strictly_below(tasks@, d, root, tasks@[i]),
        ensures
            marked@.len() == n,
            forall|i: int| 0 <= i < n && #[trigger] marked@[i] ==> strictly_below(tasks@, d, root, tasks@[i]),
            forall|i: int|
                0 <= i < n && child_of(d, tasks@[i], tasks@[i].parent) && in_marked(
                    tasks@,
                    marked@,
                    root,
                    tasks@[i].parent,
                ) ==> #[trigger] marked@[i],
        decreases n - count_true(marked@),
    {
        proof {
            lemma_count_true_bound(marked@);
        }
        let ghost start_count = count_true(marked@);
        let mut changed = false;
        let mut i: usize = 0;
        while i < n
            invariant
                n == tasks@.len(),
                marked@.len() == n,
                i <= n,
                forall|a: int| 0 <= a < n && #[trigger] marked@[a] ==> strictly_below(tasks@, d, root, tasks@[a]),
                count_true(marked@) >= start_count,
                changed ==> count_true(marked@) > start_count,
                !changed ==> count_true(marked@) == start_count,
                !changed ==> forall|a: int|
                    0 <= a < i && child_of(d, tasks@[a], tasks@[a].parent) && in_marked(
                        tasks@,
                        marked@,
                        root,
                        tasks@[a].parent,
                    ) ==> #[trigger] marked@[a],
            decreases n - i,
        {
            if !marked[i] && follows(d, &tasks[i]) && is_in_marked(tasks, &marked, root, tasks[i].parent) {
                proof {
                    let p = tasks@[i as int].parent;
                    if p == root {
                        assert(reach(tasks@, d, root, 0).contains(p));
                    } else {
                        let j = choose|j: int| 0 <= j < tasks@.len() && marked@[j] && tasks@[j].id == p;
                        assert(strictly_below(tasks@, d, root, tasks@[j]));
                        let k = choose|k: nat| #[trigger] reach(tasks@, d, root, k).contains(tasks@[j].parent);
                        assert(reach(tasks@, d, root, k + 1).contains(p));
                    }
                    lemma_count_true_update(marked@, i as int);
                }
                marked.set(i, true);
                changed = true;
            }
            i = i + 1;
        }
        if !changed {
            break;
        }
        proof {
            lemma_count_true_bound(marked@);
        }
    }
    proof {
        assert forall|i: int| 0 <= i < n implies (marked@[i] <==> strictly_below(tasks@, d, root, #[trigger] tasks@[i])) by {
            if strictly_below(tasks@, d, root, tasks@[i]) {
                let k = choose|k: nat| #[trigger] reach(tasks@, d, root, k).contains(tasks@[i].parent);
                lemma_reach_marked(tasks@, marked@, d, root, k);
            }
        }
    }
    marked
}

proof fn lemma_zero_count(s: Seq<bool>)
    requires
        forall|a: int| 0 <= a < s.len() ==> !s[a],
    ensures
        count_true(s) == 0,
    decreases s.len(),
{
    if s.len() > 0 {
        lemma_zero_count(s.drop_last());
    }
}

} // verus!
