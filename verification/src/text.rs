//! The text of numbers and durations, and the string functions of std that
//! the library uses.

use vstd::prelude::*;

verus! {

/// The character of a decimal digit.
pub open spec fn digit_char(d: int) -> char {
    ((d + 48) as u8) as char
}

/// Decimal notation of a natural number, without leading zeros.
pub open spec fn decimal(n: nat) -> Seq<char>
    decreases n,
{
    if n < 10 {
        seq![digit_char(n as int)]
    } else {
        decimal(n / 10).push(digit_char((n % 10) as int))
    }
}

/// Decimal notation of an integer, with a leading `-` when negative
/// (what `{}` writes for an integer).
pub open spec fn int_text(i: int) -> Seq<char> {
    if i < 0 {
        seq!['-'] + decimal((-i) as nat)
    } else {
        decimal(i as nat)
    }
}

/// What `{:0>2}` writes for an integer: its notation, padded on the left with
/// `0` up to two characters.
pub open spec fn pad2(i: int) -> Seq<char> {
    if 0 <= i < 10 {
        seq!['0', digit_char(i)]
    } else {
        int_text(i)
    }
}

#[verifier::external_body]
pub(crate) fn push_char(s: &mut String, c: char)
    ensures
        final(s)@ == old(s)@.push(c),
{
    s.push(c);
}

fn digit(d: u64) -> (c: char)
    requires
        d < 10,
    ensures
        c == digit_char(d as int),
{
    let b: u8 = d as u8 + 48u8;
    b as char
}

/// Appends the decimal notation of `n` to `s`.
pub fn push_decimal(s: &mut String, n: u64)
    ensures
        final(s)@ == old(s)@ + decimal(n as nat),
    decreases n,
{
    if n >= 10 {
        push_decimal(s, n / 10);
    }
    push_char(s, digit(n % 10));
    proof {
        assert(decimal(n as nat) == if n < 10 {
            seq![digit_char(n as int)]
        } else {
            decimal((n / 10) as nat).push(digit_char((n % 10) as int))
        });
    }
}


/// Appends the notation of `i` (see `int_text`) to `s`.
pub fn push_int(s: &mut String, i: i64)
    ensures
        final(s)@ == old(s)@ + int_text(i as int),
{
    if i < 0 {
        push_char(s, '-');
        let m: i128 = -(i as i128);
        push_decimal(s, m as u64);
        assert(old(s)@.push('-') + decimal(m as nat) =~= old(s)@ + (seq!['-'] + decimal(m as nat)));
    } else {
        push_decimal(s, i as u64);
    }
}

/// Appends `pad2(i)` to `s`.
pub fn push_pad2(s: &mut String, i: i64)
    ensures
        final(s)@ == old(s)@ + pad2(i as int),
{
    if 0 <= i && i < 10 {
        push_char(s, '0');
        push_char(s, digit(i as u64));
        assert(old(s)@.push('0').push(digit_char(i as int)) =~= old(s)@ + seq!['0', digit_char(i as int)]);
    } else {
        push_int(s, i);
    }
}

/// The text of the characters `v[from..to]`.
pub fn text_of(v: &Vec<char>, from: usize, to: usize) -> (s: String)
    requires
        from <= to <= v@.len(),
    ensures
        s@ == v@.subrange(from as int, to as int),
{
    let mut s = String::new();
    let mut i: usize = from;
    while i < to
        invariant
            from <= i <= to,
            to <= v@.len(),
            s@ == v@.subrange(from as int, i as int),
        decreases to - i,
    {
        push_char(&mut s, v[i]);
        assert(v@.subrange(from as int, i + 1) =~= v@.subrange(from as int, i as int).push(v@[i as int]));
        i = i + 1;
    }
    s
}

/// What `str::to_lowercase` makes of a text: each character by its Unicode
/// lowercase mapping, a capital sigma by its context (`ς` at the end of a
/// word, `σ` elsewhere).  A function of the text alone: no locale enters.
pub uninterp spec fn lowercase(s: Seq<char>) -> Seq<char>;

/// Whether a character has Unicode's `White_Space` property, which
/// `str::trim` removes (the list that `char::is_whitespace` documents).
pub open spec fn white_space(c: char) -> bool {
    ||| '\u{9}' <= c <= '\u{d}'
    ||| c == ' '
    ||| c == '\u{85}'
    ||| c == '\u{a0}'
    ||| c == '\u{1680}'
    ||| '\u{2000}' <= c <= '\u{200a}'
    ||| c == '\u{2028}'
    ||| c == '\u{2029}'
    ||| c == '\u{202f}'
    ||| c == '\u{205f}'
    ||| c == '\u{3000}'
}

/// Whether `t` is `s` without its leading and trailing white space: the part
/// from `i` to `j`, where all before `i` and all from `j` on is white space,
/// and what is left begins and ends with a character that is not.
pub open spec fn trimmed(s: Seq<char>, t: Seq<char>) -> bool {
    exists|i: int, j: int|
        0 <= i <= j <= s.len() && t == s.subrange(i, j) && (forall|k: int| 0 <= k < i ==> white_space(s[k]))
            && (forall|k: int| j <= k < s.len() ==> white_space(s[k])) && (i < j ==> !white_space(s[i])
            && !white_space(s[j - 1]))
}

/// `str::to_lowercase`: the text in lowercase, by Unicode's mapping (see
/// `lowercase`, which names the result: the mapping takes tables to state).
#[verifier::external_body]
pub(crate) fn to_lowercase(s: &str) -> (r: String)
    ensures
        r@ == lowercase(s@),
{
    s.to_lowercase()
}

/// `str::trim`: the text without its leading and trailing white space (see
/// `trimmed`).
#[verifier::external_body]
pub(crate) fn trim(s: &str) -> (r: &str)
    ensures
        trimmed(s@, r@),
{
    s.trim()
}

/// A text trims to one text only.
pub proof fn lemma_trimmed_unique(s: Seq<char>, a: Seq<char>, b: Seq<char>)
    requires
        trimmed(s, a),
        trimmed(s, b),
    ensures
        a == b,
{
    let (i, j) = choose|i: int, j: int|
        0 <= i <= j <= s.len() && a == s.subrange(i, j) && (forall|k: int| 0 <= k < i ==> white_space(s[k]))
            && (forall|k: int| j <= k < s.len() ==> white_space(s[k])) && (i < j ==> !white_space(s[i])
            && !white_space(s[j - 1]));
    let (x, y) = choose|x: int, y: int|
        0 <= x <= y <= s.len() && b == s.subrange(x, y) && (forall|k: int| 0 <= k < x ==> white_space(s[k]))
            && (forall|k: int| y <= k < s.len() ==> white_space(s[k])) && (x < y ==> !white_space(s[x])
            && !white_space(s[y - 1]));
    if i < j && x < y {
        if i < x {
            assert(white_space(s[i]));
        }
        if x < i {
            assert(white_space(s[x]));
        }
        if j < y {
            assert(white_space(s[y - 1]));
        }
        if y < j {
            assert(white_space(s[j - 1]));
        }
        assert(a =~= b);
    } else if i < j {
        assert(white_space(s[i])) by {
            if i < x {
            } else {
                assert(i >= y);
            }
        }
    } else if x < y {
        assert(white_space(s[x])) by {
            if x < i {
            } else {
                assert(x >= j);
            }
        }
    } else {
        assert(a =~= b);
    }
}

/// Integer division as Rust's `/` computes it: the quotient rounded toward zero.
pub open spec fn tdiv(a: int, b: int) -> int {
    if a >= 0 {
        a / b
    } else {
        -((-a) / b)
    }
}

/// Remainder as Rust's `%` computes it: it has the sign of `a`.
pub open spec fn trem(a: int, b: int) -> int {
    a - b * tdiv(a, b)
}


/// `a / b` as Rust computes it on an `i64`.
pub fn tdiv_i64(a: i64, b: i64) -> (q: i64)
    requires
        b >= 2,
    ensures
        q == tdiv(a as int, b as int),
{
    if a >= 0 {
        a / b
    } else {
        let m: i128 = -(a as i128);
        let q: i128 = m / (b as i128);
        proof {
            vstd::arithmetic::div_mod::lemma_div_is_ordered_by_denominator(m as int, 2, b as int);
            vstd::arithmetic::div_mod::lemma_div_pos_is_pos(m as int, 2);
        }
        -(q as i64)
    }
}

/// `a % b` as Rust computes it on an `i64`.
pub fn trem_i64(a: i64, b: i64) -> (r: i64)
    requires
        b >= 2,
    ensures
        r == trem(a as int, b as int),
        -b < r < b,
{
    if a >= 0 {
        proof {
            vstd::arithmetic::div_mod::lemma_fundamental_div_mod(a as int, b as int);
            vstd::arithmetic::div_mod::lemma_mod_bound(a as int, b as int);
        }
        a % b
    } else {
        let m: i128 = -(a as i128);
        let r: i128 = m % (b as i128);
        proof {
            vstd::arithmetic::div_mod::lemma_fundamental_div_mod(m as int, b as int);
            vstd::arithmetic::div_mod::lemma_mod_bound(m as int, b as int);
            let q = (m as int) / (b as int);
            assert(tdiv(a as int, b as int) == -q);
            assert((b as int) * (-q) == -((b as int) * q)) by (nonlinear_arith);
        }
        -(r as i64)
    }
}

} // verus!
