//! Trusted wrappers around the outside functions the index logic needs:
//! a fresh-identifier source, a clock, case folding, substring search and
//! MIME-type guessing.

use vstd::prelude::*;

verus! {

/// Relies on uuid::Uuid::new_v4: a freshly generated random identifier,
/// rendered in its hyphenated form. Nothing can be promised of a random
/// value.
#[verifier::external_body]
pub(crate) fn fresh_record_id() -> String {
    uuid::Uuid::new_v4().to_string()
}

/// Relies on chrono::Utc::now for the current moment; `timestamp` converts
/// it to whole seconds since the Unix epoch. Nothing can be promised of a
/// clock reading.
#[verifier::external_body]
pub(crate) fn now_unix_secs() -> i64 {
    chrono::Utc::now().timestamp()
}

/// What str::to_lowercase returns: a function of the characters alone.
pub uninterp spec fn lower_of(s: Seq<char>) -> Seq<char>;

/// Relies on str::to_lowercase: the result depends on the characters alone,
/// and an empty string stays empty.
#[verifier::external_body]
pub(crate) fn lowercase(s: &str) -> (r: String)
    ensures
        r@ == lower_of(s@),
        s@.len() == 0 ==> r@.len() == 0,
{
    s.to_lowercase()
}

/// Whether `needle` occurs contiguously inside `hay`.
pub open spec fn spec_str_contains(hay: Seq<char>, needle: Seq<char>) -> bool {
    exists|i: int|
        0 <= i <= hay.len() - needle.len() && #[trigger] hay.subrange(i, i + needle.len() as int)
            == needle
}

/// Relies on str::contains with a string pattern: true exactly when the
/// needle occurs as a contiguous substring of the haystack.
#[verifier::external_body]
pub(crate) fn str_contains(hay: &str, needle: &str) -> (r: bool)
    ensures
        r == spec_str_contains(hay@, needle@),
{
    hay.contains(needle)
}

/// What mime_guess::from_path returns for a file name, with
/// `application/octet-stream` in place of an empty guess: a lookup in a
/// fixed extension table, so a function of the name alone.
pub uninterp spec fn mime_of(name: Seq<char>) -> Seq<char>;

/// Relies on mime_guess::from_path: the guess is read off the name's
/// extension in a fixed table; `first_or_octet_stream` picks the first
/// entry or the octet-stream fallback, and the result is rendered as text.
#[verifier::external_body]
pub(crate) fn guess_mime(name: &str) -> (r: String)
    ensures
        r@ == mime_of(name@),
{
    mime_guess::from_path(name).first_or_octet_stream().to_string()
}

} // verus!
