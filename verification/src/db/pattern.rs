//! The `LIKE` patterns with which the application searches names.

use vstd::prelude::*;

use crate::text::push_char;

verus! {

/// A character as `LIKE` compares it: ASCII letters without case.
pub open spec fn fold_case(c: char) -> char {
    if 'A' <= c && c <= 'Z' {
        ((c as u32) + 32) as char
    } else {
        c
    }
}

/// Whether `s` matches the `LIKE` pattern `p` with escape character `\`:
/// `%` matches any run of characters, `_` any one character, `\` makes the
/// next character literal, and other characters match themselves, ASCII
/// letters without regard to case.
pub open spec fn like(p: Seq<char>, s: Seq<char>) -> bool
    decreases p.len() + s.len(),
{
    if p.len() == 0 {
        s.len() == 0
    } else if p[0] == '%' {
        like(p.drop_first(), s) || (s.len() > 0 && like(p, s.drop_first()))
    } else if p[0] == '_' {
        s.len() > 0 && like(p.drop_first(), s.drop_first())
    } else if p[0] == '\\' {
        p.len() >= 2 && s.len() > 0 && fold_case(p[1]) == fold_case(s[0]) && like(
            p.subrange(2, p.len() as int),
            s.drop_first(),
        )
    } else {
        s.len() > 0 && fold_case(p[0]) == fold_case(s[0]) && like(p.drop_first(), s.drop_first())
    }
}

/// `text` with `%` and `_` escaped by `\`, so that `LIKE` reads them literally.
pub open spec fn escape_wildcards(text: Seq<char>) -> Seq<char>
    decreases text.len(),
{
    if text.len() == 0 {
        Seq::empty()
    } else {
        let c = text.last();
        escape_wildcards(text.drop_last()) + if c == '%' || c == '_' {
            seq!['\\', c]
        } else {
            seq![c]
        }
    }
}

/// The pattern with which a search for `text` matches names: `text`, with its
/// wildcards escaped, anywhere in the name.
pub open spec fn search_pattern(text: Seq<char>) -> Seq<char> {
    seq!['%'] + escape_wildcards(text) + seq!['%']
}

/// The characters as `LIKE` compares them (see `fold_case`).
pub open spec fn folded(s: Seq<char>) -> Seq<char> {
    s.map_values(|c: char| fold_case(c))
}

/// Whether `text` stands in `name` at some place, ASCII letters compared
/// without case.
pub open spec fn holds_text(name: Seq<char>, text: Seq<char>) -> bool {
    exists|i: int|
        0 <= i && i + text.len() <= name.len() && #[trigger] folded(name.subrange(i, i + text.len()))
            == folded(text)
}

/// How a character is written in a pattern so that it matches itself.
pub open spec fn escaped_char(c: char) -> Seq<char> {
    if c == '%' || c == '_' {
        seq!['\\', c]
    } else {
        seq![c]
    }
}

proof fn lemma_escape_concat(a: Seq<char>, b: Seq<char>)
    ensures
        escape_wildcards(a + b) == escape_wildcards(a) + escape_wildcards(b),
    decreases b.len(),
{
    if b.len() == 0 {
        assert(a + b =~= a);
        assert(escape_wildcards(a) + escape_wildcards(b) =~= escape_wildcards(a));
    } else {
        lemma_escape_concat(a, b.drop_last());
        assert((a + b).drop_last() =~= a + b.drop_last());
        assert((a + b).last() == b.last());
        assert(escape_wildcards(a + b) =~= escape_wildcards(a) + escape_wildcards(b));
    }
}

proof fn lemma_escape_front(t: Seq<char>)
    requires
        t.len() > 0,
    ensures
        escape_wildcards(t) == escaped_char(t[0]) + escape_wildcards(t.drop_first()),
{
    lemma_escape_concat(seq![t[0]], t.drop_first());
    assert(seq![t[0]] + t.drop_first() =~= t);
    let one = seq![t[0]];
    assert(one.drop_last() =~= Seq::<char>::empty());
    assert(one.last() == t[0]);
    assert(escape_wildcards(Seq::<char>::empty()) =~= Seq::<char>::empty());
    assert(escape_wildcards(one) =~= escaped_char(t[0]));
}

/// A pattern made of `text` (escaped, without `\` in it) followed by `q`
/// matches exactly the strings that begin with `text` and go on with a match
/// of `q`.
proof fn lemma_like_literal(t: Seq<char>, q: Seq<char>, s: Seq<char>)
    requires
        !t.contains('\\'),
    ensures
        like(escape_wildcards(t) + q, s) == (s.len() >= t.len() && folded(s.take(t.len() as int))
            == folded(t) && like(q, s.skip(t.len() as int))),
    decreases t.len(),
{
    if t.len() == 0 {
        assert(escape_wildcards(t) + q =~= q);
        assert(s.skip(0) =~= s);
        assert(folded(s.take(0)) =~= folded(t));
    } else {
        let c = t[0];
        let t1 = t.drop_first();
        assert(!t1.contains('\\')) by {
            if t1.contains('\\') {
                let k = choose|k: int| 0 <= k < t1.len() && t1[k] == '\\';
                assert(t[k + 1] == '\\');
            }
        }
        lemma_escape_front(t);
        let p = escape_wildcards(t) + q;
        assert(p =~= escaped_char(c) + (escape_wildcards(t1) + q));
        assert(c != '\\') by {
            assert(t[0] == c);
        }
        if s.len() > 0 {
            lemma_like_literal(t1, q, s.drop_first());
            if s.len() >= t.len() {
                assert(s.drop_first().skip(t1.len() as int) =~= s.skip(t.len() as int));
                let a = folded(s.take(t.len() as int));
                let b = folded(t);
                let a1 = folded(s.drop_first().take(t1.len() as int));
                let b1 = folded(t1);
                assert(a1 =~= a.drop_first());
                assert(b1 =~= b.drop_first());
                assert(a[0] == fold_case(s[0]));
                assert(b[0] == fold_case(c));
                if a == b {
                    assert(a1 == b1);
                }
                if a1 == b1 && fold_case(s[0]) == fold_case(c) {
                    assert forall|i: int| 0 <= i < a.len() implies a[i] == b[i] by {
                        if i > 0 {
                            assert(a[i] == a1[i - 1]);
                            assert(b[i] == b1[i - 1]);
                        }
                    }
                    assert(a =~= b);
                }
            }
        }
        if c == '%' || c == '_' {
            assert(p[0] == '\\');
            assert(p.subrange(2, p.len() as int) =~= escape_wildcards(t1) + q);
        } else {
            assert(p[0] == c);
            assert(p.drop_first() =~= escape_wildcards(t1) + q);
        }
    }
}

proof fn lemma_like_any(s: Seq<char>)
    ensures
        like(seq!['%'], s),
    decreases s.len(),
{
    let p = seq!['%'];
    assert(p.drop_first() =~= Seq::<char>::empty());
    assert(p[0] == '%');
    if s.len() > 0 {
        lemma_like_any(s.drop_first());
        assert(like(p, s.drop_first()));
    }
    assert(like(p, s) == (like(p.drop_first(), s) || (s.len() > 0 && like(p, s.drop_first()))));
}

proof fn lemma_like_leading_any(q: Seq<char>, s: Seq<char>)
    ensures
        like(seq!['%'] + q, s) == exists|i: int| 0 <= i <= s.len() && #[trigger] like(q, s.skip(i)),
    decreases s.len(),
{
    let p = seq!['%'] + q;
    assert(p.drop_first() =~= q);
    assert(p[0] == '%');
    assert(s.skip(0) =~= s);
    assert(like(p, s) == (like(q, s) || (s.len() > 0 && like(p, s.drop_first()))));
    if s.len() > 0 {
        lemma_like_leading_any(q, s.drop_first());
        if like(p, s.drop_first()) {
            let i = choose|i: int| 0 <= i <= s.drop_first().len() && #[trigger] like(q, s.drop_first().skip(i));
            assert(s.drop_first().skip(i) =~= s.skip(i + 1));
            assert(like(q, s.skip(i + 1)));
        }
        if exists|i: int| 0 <= i <= s.len() && #[trigger] like(q, s.skip(i)) {
            let i = choose|i: int| 0 <= i <= s.len() && #[trigger] like(q, s.skip(i));
            if i > 0 {
                assert(s.drop_first().skip(i - 1) =~= s.skip(i));
                assert(like(q, s.drop_first().skip(i - 1)));
            }
        }
    } else {
        if exists|i: int| 0 <= i <= s.len() && #[trigger] like(q, s.skip(i)) {
            let i = choose|i: int| 0 <= i <= s.len() && #[trigger] like(q, s.skip(i));
            assert(i == 0);
        }
    }
}

/// A search for a text without `\` matches exactly the names that hold the
/// text, ASCII letters compared without case.
pub proof fn search_finds_text(text: Seq<char>, name: Seq<char>)
    requires
        !text.contains('\\'),
    ensures
        like(search_pattern(text), name) == holds_text(name, text),
{
    let q = escape_wildcards(text) + seq!['%'];
    assert(search_pattern(text) =~= seq!['%'] + q);
    lemma_like_leading_any(q, name);
    if like(search_pattern(text), name) {
        let i = choose|i: int| 0 <= i <= name.len() && #[trigger] like(q, name.skip(i));
        lemma_like_literal(text, seq!['%'], name.skip(i));
        assert(name.skip(i).take(text.len() as int) =~= name.subrange(i, i + text.len()));
    }
    if holds_text(name, text) {
        let i = choose|i: int|
            0 <= i && i + text.len() <= name.len() && #[trigger] folded(name.subrange(i, i + text.len()))
                == folded(text);
        lemma_like_literal(text, seq!['%'], name.skip(i));
        assert(name.skip(i).take(text.len() as int) =~= name.subrange(i, i + text.len()));
        lemma_like_any(name.skip(i).skip(text.len() as int));
        assert(like(q, name.skip(i)));
    }
}

fn fold_char(c: char) -> (r: char)
    ensures
        r == fold_case(c),
{
    if 'A' <= c && c <= 'Z' {
        let b: u8 = c as u8;
        assert(b as u32 == c as u32);
        (b + 32u8) as char
    } else {
        c
    }
}

/// The characters of `s`.
pub fn chars_of(s: &str) -> (v: Vec<char>)
    ensures
        v@ == s@,
{
    let mut v: Vec<char> = Vec::new();
    for c in it: s.chars()
        invariant
            v@ == it.seq().take(it.index() as int),
            it.seq() == s@,
    {
        v.push(c);
    }
    v
}

fn like_from(p: &Vec<char>, i: usize, s: &Vec<char>, j: usize) -> (r: bool)
    requires
        i <= p@.len(),
        j <= s@.len(),
    ensures
        r == like(p@.subrange(i as int, p@.len() as int), s@.subrange(j as int, s@.len() as int)),
    decreases p@.len() - i + s@.len() - j,
{
    let ghost ps = p@.subrange(i as int, p@.len() as int);
    let ghost ss = s@.subrange(j as int, s@.len() as int);
    proof {
        assert(ps.len() > 0 ==> ps.drop_first() =~= p@.subrange(i + 1, p@.len() as int));
        assert(ss.len() > 0 ==> ss.drop_first() =~= s@.subrange(j + 1, s@.len() as int));
        assert(ps.len() >= 2 ==> ps.subrange(2, ps.len() as int) =~= p@.subrange(i + 2, p@.len() as int));
    }
    if i == p.len() {
        return j == s.len();
    }
    let c = p[i];
    if c == '%' {
        if like_from(p, i + 1, s, j) {
            true
        } else if j < s.len() {
            like_from(p, i, s, j + 1)
        } else {
            false
        }
    } else if c == '_' {
        j < s.len() && like_from(p, i + 1, s, j + 1)
    } else if c == '\\' {
        i + 1 < p.len() && j < s.len() && fold_char(p[i + 1]) == fold_char(s[j]) && like_from(
            p,
            i + 2,
            s,
            j + 1,
        )
    } else {
        j < s.len() && fold_char(c) == fold_char(s[j]) && like_from(p, i + 1, s, j + 1)
    }
}

/// Whether `s` matches the `LIKE` pattern `p`.
pub fn matches_like(p: &Vec<char>, s: &Vec<char>) -> (r: bool)
    ensures
        r == like(p@, s@),
{
    proof {
        assert(p@.subrange(0, p@.len() as int) =~= p@);
        assert(s@.subrange(0, s@.len() as int) =~= s@);
    }
    like_from(p, 0, s, 0)
}

/// The pattern with which a search for `text` matches names.
pub fn make_search_pattern(text: &str) -> (p: Vec<char>)
    ensures
        p@ == search_pattern(text@),
{
    let t = chars_of(text);
    let mut p: Vec<char> = Vec::new();
    p.push('%');
    let n = t.len();
    let mut k: usize = 0;
    while k < n
        invariant
            n == t@.len(),
            k <= n,
            p@ == seq!['%'] + escape_wildcards(t@.take(k as int)),
        decreases n - k,
    {
        let c = t[k];
        proof {
            assert(t@.take(k + 1).drop_last() =~= t@.take(k as int));
            assert(t@.take(k + 1).last() == c);
        }
        if c == '%' || c == '_' {
            p.push('\\');
        }
        p.push(c);
        proof {
            let e = escape_wildcards(t@.take(k + 1));
            if c == '%' || c == '_' {
                assert(p@ =~= seq!['%'] + escape_wildcards(t@.take(k as int)) + seq!['\\', c]);
            } else {
                assert(p@ =~= seq!['%'] + escape_wildcards(t@.take(k as int)) + seq![c]);
            }
        }
        k = k + 1;
    }
    p.push('%');
    proof {
        assert(t@.take(n as int) =~= t@);
    }
    p
}

/// Whether `name` holds `text` as a search does: `name LIKE '%text%'` with
/// `text`'s wildcards escaped.
pub fn search_matches(pattern: &Vec<char>, name: &str) -> (r: bool)
    ensures
        r == like(pattern@, name@),
{
    let s = chars_of(name);
    matches_like(pattern, &s)
}

} // verus!
