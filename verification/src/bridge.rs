//! The few places where the library leans on code it does not verify:
//! conversions between `String` and character vectors, Unicode scalar
//! construction, URL joining, and JSON encoding of the final location
//! list.  Each item's contract states only what the function it relies
//! on plainly documents.

use vstd::prelude::*;

verus! {

/// The code points that `char` can hold: everything but the surrogate
/// range, up to the last Unicode scalar value.
pub open spec fn is_scalar_value(v: u32) -> bool {
    v < 0xD800 || (0xE000 <= v && v <= 0x10FFFF)
}

/// Relies on char::from_u32: `Some` exactly on Unicode scalar values,
/// returning the character with that code point.
#[verifier::external_body]
pub(crate) fn char_from_u32(v: u32) -> (r: Option<char>)
    ensures
        r == (if is_scalar_value(v) {
            Some(v as char)
        } else {
            None::<char>
        }),
{
    char::from_u32(v)
}

/// Relies on str::chars: the characters of the string, in order.
#[verifier::external_body]
pub(crate) fn str_to_chars(s: &str) -> (r: Vec<char>)
    ensures
        r@ == s@,
{
    s.chars().collect()
}

/// Relies on String's FromIterator over char: the string holding
/// exactly the given characters, in order.
#[verifier::external_body]
pub(crate) fn chars_to_string(v: &Vec<char>) -> (r: String)
    ensures
        r@ == v@,
{
    v.iter().collect()
}

/// What joining a relative reference against a base URL yields, when it
/// yields anything: the serialisation of `url::Url::parse(base)` and
/// `Url::join(path)`, which depends on the two strings alone.
pub uninterp spec fn url_join_of(base: Seq<char>, path: Seq<char>) -> Option<Seq<char>>;

/// Relies on url::Url::parse and url::Url::join: parses the base,
/// resolves the reference against it and serialises the result; `None`
/// when either step fails.
#[verifier::external_body]
pub(crate) fn join_url(base: &str, path: &str) -> (r: Option<String>)
    ensures
        r is Some <==> url_join_of(base@, path@) is Some,
        r matches Some(s) ==> url_join_of(base@, path@) == Some(s@),
{
    match url::Url::parse(base) {
        Ok(b) => match b.join(path) {
            Ok(u) => Some(u.as_str().to_string()),
            Err(_) => None,
        },
        Err(_) => None,
    }
}

/// What serde_json's pretty printer produces for an array of strings:
/// a function of the strings alone.
pub uninterp spec fn json_array_of(items: Seq<Seq<char>>) -> Seq<char>;

/// Relies on serde_json::to_string_pretty: the pretty-printed JSON
/// array holding the given strings in order.  On a vector of strings
/// the call cannot fail: it writes into an in-memory buffer, and
/// serialisation errs only when a `Serialize` impl fails or a map has
/// non-string keys, neither of which `Vec<String>` can do.
#[verifier::external_body]
pub(crate) fn json_pretty(items: &Vec<String>) -> (r: String)
    ensures
        r@ == json_array_of(items.deep_view()),
{
    serde_json::to_string_pretty(items).unwrap()
}

} // verus!
