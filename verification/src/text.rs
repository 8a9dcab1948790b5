//! Text operations of the standard library that the rules of this crate rest
//! on, with what is taken from them on trust.

use vstd::prelude::*;

verus! {

/// `text` with every leading repetition of `pattern` removed.
pub open spec fn trimmed(text: Seq<char>, pattern: Seq<char>) -> Seq<char>
    decreases text.len(),
{
    if pattern.len() > 0 && pattern.is_prefix_of(text) {
        trimmed(text.skip(pattern.len() as int), pattern)
    } else {
        text
    }
}

/// The lowercase form of a text, as `str::to_lowercase` gives it.
pub uninterp spec fn lowercase(text: Seq<char>) -> Seq<char>;

/// `str::trim_start_matches` with a string pattern. Trusted: it removes the
/// pattern from the front of the text for as long as the text starts with it.
#[verifier::external_body]
pub(crate) fn trim_start_matches<'a>(text: &'a str, pattern: &str) -> (r: &'a str)
    requires
        pattern@.len() > 0,
    ensures
        r@ == trimmed(text@, pattern@),
{
    text.trim_start_matches(pattern)
}

/// `str::to_lowercase`. Trusted: the result is the lowercase form of the text.
#[verifier::external_body]
pub(crate) fn to_lowercase(text: &str) -> (r: String)
    ensures
        r@ == lowercase(text@),
{
    text.to_lowercase()
}

/// Two string slices hold the same text.
pub fn same_text(a: &str, b: &str) -> (r: bool)
    ensures
        r == (a@ == b@),
{
    let x = a.to_owned();
    let y = b.to_owned();
    x == y
}

} // verus!
