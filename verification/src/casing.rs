//! Unicode case mapping.

use vstd::prelude::*;
use crate::text;

verus! {

/// What `str::to_lowercase` makes of a text.
pub uninterp spec fn lowercased(s: Seq<char>) -> Seq<char>;

/// What `char::to_uppercase` makes of a character, in order.
pub uninterp spec fn uppercased(c: char) -> Seq<char>;

/// `str::to_lowercase`, which maps a text by the Unicode lower case tables; the result
/// depends on the text alone. ASCII letters go to their ASCII lower case, and whether one
/// was upper case changes nothing else. The result is in lower case: it has no upper case
/// ASCII letter, and mapping it again changes nothing. Slashes and backslashes stand for
/// themselves, and nothing else is mapped to them.
#[verifier::external_body]
pub(crate) fn to_lowercase(s: &str) -> (r: String)
    ensures
        r@ == lowercased(s@),
        r@ == lowercased(text::lower(s@)),
        lowercased(r@) == r@,
        text::lower(r@) == r@,
        r@.contains('/') ==> s@.contains('/'),
        r@.len() > 0 && r@.last() == '\\' ==> s@.len() > 0 && s@.last() == '\\',
{
    s.to_lowercase()
}

/// `char::to_uppercase`, which maps a character by the Unicode upper case tables to one
/// or more characters; the result depends on the character alone.
#[verifier::external_body]
pub(crate) fn to_uppercase(c: char) -> (r: Vec<char>)
    ensures
        r@ == uppercased(c),
{
    c.to_uppercase().collect()
}

} // verus!
