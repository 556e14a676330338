//! The decisions of a task's page: the line of its description that shows.

use vstd::prelude::*;

use crate::db::pattern::chars_of;
use crate::text::text_of;

verus! {

/// The first line of a text, as `str::lines` gives it: the text before its
/// first `\n`, without a `\r` right before that `\n`; the whole text where it
/// has no `\n` (an empty text has no line, which shows as nothing).
pub open spec fn first_line(text: Seq<char>) -> Seq<char> {
    if text.contains('\n') {
        let end = choose|i: int| 0 <= i < text.len() && text[i] == '\n' && forall|j: int| 0 <= j < i ==> text[j] != '\n';
        let line = text.take(end);
        if line.len() > 0 && line.last() == '\r' {
            line.drop_last()
        } else {
            line
        }
    } else {
        text
    }
}

/// The line of a task's description that its page shows: the first one (see
/// `first_line`).
pub fn description_display(text: &str) -> (r: String)
    ensures
        r@ == first_line(text@),
{
    let chars = chars_of(text);
    let n = chars.len();
    let mut i: usize = 0;
    while i < n
        invariant
            n == chars@.len(),
            chars@ == text@,
            i <= n,
            forall|j: int| 0 <= j < i ==> chars@[j] != '\n',
        decreases n - i,
    {
        if chars[i] == '\n' {
            let ghost s = chars@;
            proof {
                assert(s.contains('\n')) by {
                    assert(s[i as int] == '\n');
                }
                let end = choose|e: int| 0 <= e < s.len() && s[e] == '\n' && forall|j: int| 0 <= j < e ==> s[j] != '\n';
                if end < i {
                    assert(s[end] != '\n');
                } else if end > i {
                    assert(s[i as int] != '\n');
                }
                assert(end == i);
            }
            if i > 0 && chars[i - 1] == '\r' {
                let r = text_of(&chars, 0, i - 1);
                proof {
                    assert(s.take(i as int).drop_last() =~= s.subrange(0, i - 1));
                }
                return r;
            }
            let r = text_of(&chars, 0, i);
            proof {
                assert(s.take(i as int) =~= s.subrange(0, i as int));
            }
            return r;
        }
        i = i + 1;
    }
    proof {
        assert(!chars@.contains('\n'));
        assert(chars@.subrange(0, n as int) =~= chars@);
    }
    text_of(&chars, 0, n)
}

} // verus!
