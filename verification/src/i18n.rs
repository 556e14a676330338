//! Translation of the texts that the library shows.

use vstd::prelude::*;

verus! {

/// Translates `msgid` through `gettextrs::gettext`, into the language of the
/// text domain that the application bound at start.
///
/// Nothing is stated of the result: it is the catalog's translation for the
/// process's locale, or `msgid` itself where the catalog has none, and neither
/// is a function of the argument alone.  `gettextrs::gettext` panics when
/// `msgid` holds a NUL character, which `requires` leaves out, and when the
/// translation it gets is not UTF-8, which depends on how the process was
/// set up, not on the argument: the program binds the text domain's codeset
/// to UTF-8 before any call, so that the catalog answers in UTF-8.
#[verifier::external_body]
pub(crate) fn gettext(msgid: &str) -> String
    requires
        !msgid@.contains('\0'),
{
    gettextrs::gettext(msgid)
}

} // verus!
