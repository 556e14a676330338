//! Reading the data of older schema versions.

use vstd::prelude::*;

use crate::db::pattern::chars_of;
use crate::text::text_of;

verus! {

/// The pieces of `s` between the separators `sep`, as `str::split` gives
/// them: one more piece than there are separators, empty pieces included.
pub open spec fn split_at_sep(s: Seq<char>, sep: char) -> Seq<Seq<char>>
    decreases s.len(),
{
    if s.len() == 0 {
        seq![Seq::<char>::empty()]
    } else {
        let r = split_at_sep(s.drop_last(), sep);
        if s.last() == sep {
            r.push(Seq::<char>::empty())
        } else {
            r.update(r.len() - 1, r.last().push(s.last()))
        }
    }
}

/// The records that a value of the old `duration` column of a task held, one
/// piece of text each: none where the value is empty, else the value without
/// its last character (the `;` that closed the last record), split at `;`.
pub open spec fn legacy_pieces(column: Seq<char>) -> Seq<Seq<char>> {
    if column.len() == 0 {
        Seq::empty()
    } else {
        split_at_sep(column.drop_last(), ';')
    }
}

/// The place of the first `c` in `s`.
pub open spec fn first_index(s: Seq<char>, c: char) -> int {
    choose|i: int| 0 <= i < s.len() && s[i] == c && forall|j: int| 0 <= j < i ==> s[j] != c
}

/// The start of a record piece `start.fraction,duration`: the text before
/// its first `.`.
pub open spec fn legacy_start(piece: Seq<char>) -> Seq<char> {
    piece.take(first_index(piece, '.'))
}

/// The duration of a record piece `start.fraction,duration`: the text after
/// its first `,`.
pub open spec fn legacy_duration(piece: Seq<char>) -> Seq<char> {
    piece.skip(first_index(piece, ',') + 1)
}

/// Whether every record piece of the column holds a `.` and a `,`.
pub open spec fn legacy_readable(column: Seq<char>) -> bool {
    forall|i: int|
        0 <= i < legacy_pieces(column).len() ==> (#[trigger] legacy_pieces(column)[i]).contains('.')
            && legacy_pieces(column)[i].contains(',')
}

/// The place of the first `c` in `v`.
fn find_first(v: &Vec<char>, c: char) -> (r: usize)
    requires
        v@.contains(c),
    ensures
        r < v@.len(),
        r == first_index(v@, c),
{
    let mut i: usize = 0;
    while i < v.len()
        invariant
            i <= v@.len(),
            v@.contains(c),
            forall|j: int| 0 <= j < i ==> v@[j] != c,
        decreases v@.len() - i,
    {
        if v[i] == c {
            proof {
                let s = v@;
                assert(0 <= i < s.len() && s[i as int] == c && forall|j: int| 0 <= j < i ==> s[j] != c);
                let k = first_index(s, c);
                if k < i {
                    assert(s[k] != c);
                } else if k > i {
                    assert(s[i as int] != c);
                }
            }
            return i;
        }
        i = i + 1;
    }
    proof {
        let k = choose|k: int| 0 <= k < v@.len() && v@[k] == c;
        assert(v@[k] != c);
    }
    0
}

/// The pieces of `v` between the `;`s (see `split_at_sep`).
fn split_records(v: &Vec<char>) -> (r: Vec<Vec<char>>)
    ensures
        r@.len() == split_at_sep(v@, ';').len(),
        forall|i: int| 0 <= i < r@.len() ==> (#[trigger] r@[i])@ == split_at_sep(v@, ';')[i],
{
    let mut pieces: Vec<Vec<char>> = Vec::new();
    let ghost mut pv: Seq<Seq<char>> = Seq::empty();
    let mut cur: Vec<char> = Vec::new();
    let mut i: usize = 0;
    proof {
        assert(v@.take(0) =~= Seq::<char>::empty());
        assert(pv.push(cur@) =~= seq![Seq::<char>::empty()]);
    }
    while i < v.len()
        invariant
            i <= v@.len(),
            pieces@.len() == pv.len(),
            forall|j: int| 0 <= j < pieces@.len() ==> (#[trigger] pieces@[j])@ == pv[j],
            pv.push(cur@) == split_at_sep(v@.take(i as int), ';'),
        decreases v@.len() - i,
    {
        let c = v[i];
        proof {
            assert(v@.take(i + 1).drop_last() =~= v@.take(i as int));
            assert(v@.take(i + 1).last() == c);
        }
        if c == ';' {
            let ghost done = cur@;
            pieces.push(cur);
            cur = Vec::new();
            proof {
                pv = pv.push(done);
                assert(pv.push(cur@) =~= split_at_sep(v@.take(i + 1), ';'));
            }
        } else {
            let ghost before = cur@;
            cur.push(c);
            proof {
                let r = pv.push(before);
                assert(r.update(r.len() - 1, r.last().push(c)) =~= pv.push(cur@));
            }
        }
        i = i + 1;
    }
    let ghost last = cur@;
    pieces.push(cur);
    proof {
        pv = pv.push(last);
        assert(v@.take(v@.len() as int) =~= v@);
    }
    pieces
}

/// Whether `c` stands in `v`.
fn has_char(v: &Vec<char>, c: char) -> (r: bool)
    ensures
        r == v@.contains(c),
{
    let mut i: usize = 0;
    while i < v.len()
        invariant
            i <= v@.len(),
            forall|j: int| 0 <= j < i ==> v@[j] != c,
        decreases v@.len() - i,
    {
        if v[i] == c {
            assert(v@[i as int] == c);
            return true;
        }
        i = i + 1;
    }
    false
}

/// Whether `legacy_records` can read the old `duration` value `column`:
/// every record piece holds a `.` and a `,` (see `legacy_readable`).
pub fn is_legacy_readable(column: &str) -> (r: bool)
    ensures
        r == legacy_readable(column@),
{
    let chars = chars_of(column);
    if chars.len() == 0 {
        return true;
    }
    let mut body = chars;
    body.pop();
    let pieces = split_records(&body);
    let ghost ps = legacy_pieces(column@);
    proof {
        assert(body@ =~= column@.drop_last());
    }
    let mut i: usize = 0;
    while i < pieces.len()
        invariant
            i <= pieces@.len(),
            pieces@.len() == ps.len(),
            ps == legacy_pieces(column@),
            forall|j: int| 0 <= j < pieces@.len() ==> (#[trigger] pieces@[j])@ == ps[j],
            forall|j: int| 0 <= j < i ==> (#[trigger] ps[j]).contains('.') && ps[j].contains(','),
        decreases pieces@.len() - i,
    {
        let piece = &pieces[i];
        proof {
            assert(piece@ == ps[i as int]);
        }
        if !has_char(piece, '.') || !has_char(piece, ',') {
            return false;
        }
        i = i + 1;
    }
    true
}

/// The records that a value of the old `duration` column of a task held, as
/// the texts of their start and of their duration (see `legacy_pieces`,
/// `legacy_start` and `legacy_duration`).
pub fn legacy_records(column: &str) -> (r: Vec<(String, String)>)
    requires
        legacy_readable(column@),
    ensures
        r@.len() == legacy_pieces(column@).len(),
        forall|i: int|
            0 <= i < r@.len() ==> (#[trigger] r@[i]).0@ == legacy_start(legacy_pieces(column@)[i])
                && r@[i].1@ == legacy_duration(legacy_pieces(column@)[i]),
{
    let chars = chars_of(column);
    let mut records: Vec<(String, String)> = Vec::new();
    if chars.len() == 0 {
        return records;
    }
    let mut body = chars;
    body.pop();
    let pieces = split_records(&body);
    let ghost ps = legacy_pieces(column@);
    proof {
        assert(body@ =~= column@.drop_last());
        assert forall|j: int| 0 <= j < ps.len() implies (#[trigger] ps[j]).contains('.') && ps[j].contains(',') by {
            assert(legacy_pieces(column@)[j] == ps[j]);
        }
    }
    let mut i: usize = 0;
    while i < pieces.len()
        invariant
            i <= pieces@.len(),
            pieces@.len() == ps.len(),
            forall|j: int| 0 <= j < ps.len() ==> (#[trigger] ps[j]).contains('.') && ps[j].contains(','),
            forall|j: int| 0 <= j < pieces@.len() ==> (#[trigger] pieces@[j])@ == ps[j],
            records@.len() == i,
            forall|j: int|
                0 <= j < i ==> (#[trigger] records@[j]).0@ == legacy_start(ps[j]) && records@[j].1@
                    == legacy_duration(ps[j]),
        decreases pieces@.len() - i,
    {
        let piece = &pieces[i];
        proof {
            assert(piece@ == ps[i as int]);
        }
        let dot = find_first(piece, '.');
        let comma = find_first(piece, ',');
        let start = text_of(piece, 0, dot);
        let duration = text_of(piece, comma + 1, piece.len());
        proof {
            assert(start@ =~= legacy_start(piece@));
            assert(duration@ =~= legacy_duration(piece@));
        }
        records.push((start, duration));
        i = i + 1;
    }
    records
}

} // verus!
