//! Small string operations of std, with their contracts.
use vstd::prelude::*;

verus! {

/// `needle` occurs in `hay` as a contiguous run.
pub open spec fn contains_text(hay: Seq<char>, needle: Seq<char>) -> bool {
    exists|i: int| 0 <= i && i + needle.len() <= hay.len() && #[trigger] hay.subrange(i, i + needle.len()) == needle
}

/// Relies on `str::split_once` with a `char` pattern: the text before and
/// after the first occurrence of `c`.
#[verifier::external_body]
pub(crate) fn split_once_char(text: &str, c: char) -> (r: Option<(&str, &str)>)
    ensures
        r is None <==> !text@.contains(c),
        r matches Some((a, b)) ==> text@ == a@ + seq![c] + b@ && !a@.contains(c),
{
    text.split_once(c)
}

/// Relies on `str::strip_suffix` with a `char` pattern: the text without its
/// last character when that character is `c`.
#[verifier::external_body]
pub(crate) fn strip_suffix_char(text: &str, c: char) -> (r: Option<&str>)
    ensures
        r is Some <==> (text@.len() > 0 && text@.last() == c),
        r matches Some(a) ==> a@ == text@.drop_last(),
{
    text.strip_suffix(c)
}

/// Relies on `str::contains` with a `&str` pattern: substring search.
#[verifier::external_body]
pub(crate) fn contains_str(hay: &str, needle: &str) -> (r: bool)
    ensures
        r == contains_text(hay@, needle@),
{
    hay.contains(needle)
}

} // verus!
