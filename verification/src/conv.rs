//! Conversions between byte strings, `String` and character vectors, and the
//! few character classifications of the standard library that the request
//! and script-output grammars rest on.  Apart from `chars_of`, each function
//! here calls one function of `std` and states what its documentation
//! promises; the names declared here stand for results that the
//! documentation defines by the Unicode tables or leaves open.
use vstd::prelude::*;
use vstd::utf8::*;

verus! {

/// The characters that `String::from_utf8_lossy` produces from `bytes`.
pub uninterp spec fn lossy_utf8(bytes: Seq<u8>) -> Seq<char>;

/// Whether `char::is_whitespace` holds of `c` (the Unicode `White_Space`
/// property).
pub uninterp spec fn white_space(c: char) -> bool;

/// What `str::to_lowercase` returns for `s`.
pub uninterp spec fn lowercase(s: Seq<char>) -> Seq<char>;

/// Calls `String::from_utf8_lossy`.  The result is named `lossy_utf8`; as the
/// documentation says, a valid UTF-8 input is decoded without replacement.
/// Which replacement characters stand for an invalid input is left unsaid.
#[verifier::external_body]
pub(crate) fn decode_lossy(bytes: &[u8]) -> (s: String)
    ensures
        s@ == lossy_utf8(bytes@),
        valid_utf8(bytes@) ==> s@ == decode_utf8(bytes@),
{
    String::from_utf8_lossy(bytes).into_owned()
}

/// The characters of `s`, in order.
pub fn chars_of(s: &str) -> (v: Vec<char>)
    ensures
        v@ == s@,
{
    broadcast use vstd::string::group_string_axioms;
    let mut v: Vec<char> = Vec::new();
    for c in it: s.chars()
        invariant
            it.seq() == s@,
            v@ == it.seq().take(it.index()),
    {
        v.push(c);
    }
    v
}

/// Collects characters into a `String` (`FromIterator<&char>`): the string
/// made of exactly these characters, in order.
#[verifier::external_body]
pub(crate) fn string_of(v: &[char]) -> (s: String)
    ensures
        s@ == v@,
{
    v.iter().collect()
}

/// Calls `char::is_whitespace`.  Its result is named `white_space`.
#[verifier::external_body]
pub(crate) fn is_white_space(c: char) -> (b: bool)
    ensures
        b == white_space(c),
{
    c.is_whitespace()
}

/// Calls `str::to_lowercase`.  Its result is named `lowercase`.
#[verifier::external_body]
pub(crate) fn to_lowercase(s: &str) -> (r: String)
    ensures
        r@ == lowercase(s@),
{
    s.to_lowercase()
}

} // verus!
