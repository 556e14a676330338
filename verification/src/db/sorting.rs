//! Putting rows in the order that an `ORDER BY` asks for.

use vstd::prelude::*;

use crate::db::store::Row;

verus! {

/// Whether `s` is ordered by `key`, rising (or falling where `descending`).
pub open spec fn sorted_by<T>(s: Seq<T>, key: spec_fn(T) -> int, descending: bool) -> bool {
    forall|i: int, j: int|
        0 <= i < j < s.len() ==> if descending {
            key(#[trigger] s[i]) >= key(#[trigger] s[j])
        } else {
            key(s[i]) <= key(s[j])
        }
}

/// Whether `res` holds the rows of `src`, each as often, ordered by `key`.
pub open spec fn is_sorted_copy<T>(
    res: Seq<T>,
    src: Seq<T>,
    key: spec_fn(T) -> int,
    descending: bool,
) -> bool {
    res.to_multiset() == src.to_multiset() && sorted_by(res, key, descending)
}

/// The rows ordered by their keys, `keys[i]` being the key of `rows[i]`.
pub(crate) fn sort_rows<T: Row>(
    rows: &Vec<T>,
    keys: &Vec<i128>,
    descending: bool,
    Ghost(key): Ghost<spec_fn(T) -> int>,
) -> (res: Vec<T>)
    requires
        keys@.len() == rows@.len(),
        forall|i: int| 0 <= i < rows@.len() ==> keys@[i] == key(#[trigger] rows@[i]),
    ensures
        is_sorted_copy(res@, rows@, key, descending),
{
    broadcast use vstd::seq_lib::group_to_multiset_ensures, vstd::seq_lib::to_multiset_insert;

    let n = rows.len();
    let mut res: Vec<T> = Vec::new();
    let mut res_keys: Vec<i128> = Vec::new();
    let mut i: usize = 0;
    while i < n
        invariant
            n == rows@.len(),
            keys@.len() == n,
            forall|a: int| 0 <= a < n ==> keys@[a] == key(#[trigger] rows@[a]),
            i <= n,
            res_keys@.len() == res@.len(),
            forall|m: int| 0 <= m < res@.len() ==> res_keys@[m] == key(#[trigger] res@[m]),
            sorted_by(res@, key, descending),
            res@.to_multiset() == rows@.take(i as int).to_multiset(),
        decreases n - i,
    {
        let k = keys[i];
        let mut j: usize = 0;
        while j < res_keys.len() && ((descending && res_keys[j] >= k) || (!descending
            && res_keys[j] <= k))
            invariant
                res_keys@.len() == res@.len(),
                j <= res_keys@.len(),
                forall|m: int|
                    0 <= m < j ==> if descending {
                        res_keys@[m] >= k
                    } else {
                        res_keys@[m] <= k
                    },
            decreases res_keys@.len() - j,
        {
            j = j + 1;
        }
        let ghost old_res = res@;
        let ghost old_keys = res_keys@;
        let row = rows[i].copied();
        res.insert(j, row);
        res_keys.insert(j, k);
        proof {
            assert(rows@.take(i + 1) =~= rows@.take(i as int).push(rows@[i as int]));
            assert(res@ == old_res.insert(j as int, rows@[i as int]));
            vstd::seq_lib::to_multiset_insert(old_res, j as int, rows@[i as int]);
            vstd::seq_lib::to_multiset_build(rows@.take(i as int), rows@[i as int]);
            old_res.insert_ensures(j as int, rows@[i as int]);
            old_keys.insert_ensures(j as int, k);
            assert forall|m: int| 0 <= m < res@.len() implies res_keys@[m] == key(
                #[trigger] res@[m],
            ) by {
                if m < j {
                } else if m == j {
                } else {
                    assert(res@[m] == old_res[m - 1]);
                    assert(res_keys@[m] == old_keys[m - 1]);
                }
            }
            assert forall|a: int, b: int| 0 <= a < b < res@.len() implies if descending {
                key(#[trigger] res@[a]) >= key(#[trigger] res@[b])
            } else {
                key(res@[a]) <= key(res@[b])
            } by {
                if j < old_res.len() {
                    assert(res_keys@[j + 1] == old_keys[j as int]);
                }
                if b < j {
                } else if b == j {
                    assert(res_keys@[a] == old_keys[a]);
                } else if a < j {
                    assert(res@[b] == old_res[b - 1]);
                    assert(res@[a] == old_res[a]);
                } else if a == j {
                    assert(res@[b] == old_res[b - 1]);
                    assert(res@[j + 1] == old_res[j as int]);
                } else {
                    assert(res@[b] == old_res[b - 1]);
                    assert(res@[a] == old_res[a - 1]);
                }
            }
        }
        i = i + 1;
    }
    proof {
        assert(rows@.take(n as int) =~= rows@);
    }
    res
}

/// Copies of the rows for which `keep` holds, in their order.
pub(crate) fn select_rows<T: Row>(rows: &Vec<T>, keep: &Vec<bool>, Ghost(f): Ghost<spec_fn(T) -> bool>) -> (res: Vec<T>)
    requires
        keep@.len() == rows@.len(),
        forall|i: int| 0 <= i < rows@.len() ==> keep@[i] == f(#[trigger] rows@[i]),
    ensures
        res@ == rows@.filter(f),
{
    let n = rows.len();
    let mut res: Vec<T> = Vec::new();
    let mut k: usize = 0;
    while k < n
        invariant
            n == rows@.len(),
            keep@.len() == n,
            k <= n,
            forall|i: int| 0 <= i < n ==> keep@[i] == f(#[trigger] rows@[i]),
            res@ == rows@.take(k as int).filter(f),
        decreases n - k,
    {
        proof {
            assert(rows@.take(k + 1).drop_last() =~= rows@.take(k as int));
            reveal_with_fuel(Seq::<_>::filter, 1);
        }
        if keep[k] {
            res.push(rows[k].copied());
        }
        k = k + 1;
    }
    proof {
        assert(rows@.take(n as int) =~= rows@);
    }
    res
}

/// Two sorted copies of the same rows are the same, where no two different
/// rows share a key.
pub proof fn lemma_sorted_copy_unique<T>(a: Seq<T>, b: Seq<T>, key: spec_fn(T) -> int, descending: bool)
    requires
        a.to_multiset() == b.to_multiset(),
        sorted_by(a, key, descending),
        sorted_by(b, key, descending),
        forall|i: int, j: int| 0 <= i < a.len() && 0 <= j < a.len() && key(a[i]) == key(a[j]) ==> a[i] == a[j],
    ensures
        a == b,
    decreases a.len(),
{
    broadcast use vstd::seq_lib::group_to_multiset_ensures, vstd::multiset::group_multiset_axioms;

    assert(a.len() == a.to_multiset().len());
    assert(b.len() == b.to_multiset().len());
    if a.len() == 0 {
        assert(a =~= b);
    } else {
        assert(a.to_multiset().count(b[0]) > 0);
        assert(a.contains(b[0]));
        let i = choose|i: int| 0 <= i < a.len() && a[i] == b[0];
        assert(b.to_multiset().count(a[0]) > 0);
        assert(b.contains(a[0]));
        let j = choose|j: int| 0 <= j < b.len() && b[j] == a[0];
        if i > 0 {
            assert(if descending { key(a[0]) >= key(a[i]) } else { key(a[0]) <= key(a[i]) });
        }
        if j > 0 {
            assert(if descending { key(b[0]) >= key(b[j]) } else { key(b[0]) <= key(b[j]) });
        }
        assert(key(a[0]) == key(a[i]));
        assert(a[0] == b[0]);
        let a1 = a.drop_first();
        let b1 = b.drop_first();
        assert(a =~= seq![a[0]] + a1);
        assert(b =~= seq![b[0]] + b1);
        assert(a.remove(0) =~= a1);
        assert(b.remove(0) =~= b1);
        assert(a1.to_multiset() == a.to_multiset().remove(a[0]));
        assert(b1.to_multiset() == b.to_multiset().remove(b[0]));
        assert forall|x: int, y: int| 0 <= x < a1.len() && 0 <= y < a1.len() && key(a1[x]) == key(a1[y]) implies a1[x] == a1[y] by {
            assert(a1[x] == a[x + 1]);
            assert(a1[y] == a[y + 1]);
        }
        assert forall|x: int, y: int| 0 <= x < y < a1.len() implies if descending {
            key(#[trigger] a1[x]) >= key(#[trigger] a1[y])
        } else {
            key(a1[x]) <= key(a1[y])
        } by {
            assert(a1[x] == a[x + 1]);
            assert(a1[y] == a[y + 1]);
        }
        assert forall|x: int, y: int| 0 <= x < y < b1.len() implies if descending {
            key(#[trigger] b1[x]) >= key(#[trigger] b1[y])
        } else {
            key(b1[x]) <= key(b1[y])
        } by {
            assert(b1[x] == b[x + 1]);
            assert(b1[y] == b[y + 1]);
        }
        lemma_sorted_copy_unique(a1, b1, key, descending);
    }
}

} // verus!
