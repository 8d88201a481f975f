//! The calls into std and outside crates that the library's logic makes,
//! each with the contract that the library relies on.

use vstd::prelude::*;
use vstd::utf8::{decode_utf8, encode_utf8, valid_utf8};

use crate::text::word_count;

verus! {

/// `String::push`: appends one character at the end of the string.
#[verifier::external_body]
pub(crate) fn push_char(s: &mut String, c: char)
    ensures
        final(s)@ == old(s)@.push(c),
{
    s.push(c);
}


#[verifier::external_type_specification]
#[verifier::external_body]
pub struct ExSystemTime(std::time::SystemTime);

#[verifier::external_type_specification]
#[verifier::external_body]
pub struct ExSystemTimeError(std::time::SystemTimeError);

/// `SystemTime::now()`: the machine's clock. Nothing is promised of the
/// instant it gives.
#[verifier::external_body]
pub(crate) fn system_now() -> std::time::SystemTime {
    std::time::SystemTime::now()
}

/// `t.duration_since(UNIX_EPOCH)`: the time from the Unix epoch to `t`, or
/// an error when `t` lies before the epoch. Which of the two comes back
/// depends on the clock, so nothing is promised.
#[verifier::external_body]
pub(crate) fn since_epoch(t: &std::time::SystemTime) -> Result<
    core::time::Duration,
    std::time::SystemTimeError,
> {
    t.duration_since(std::time::UNIX_EPOCH)
}

/// `SystemTimeError::duration`: how far the instant lay before the epoch.
/// Nothing is promised of the value.
#[verifier::external_body]
pub(crate) fn error_duration(e: &std::time::SystemTimeError) -> core::time::Duration {
    e.duration()
}

/// `Duration::as_nanos`: the whole nanoseconds of `d`. A `Duration` is
/// opaque here, so nothing is promised of the number.
#[verifier::external_body]
pub(crate) fn duration_nanos(d: &core::time::Duration) -> u128 {
    d.as_nanos()
}

/// Whether chrono can represent the instant `ms` milliseconds after the
/// Unix epoch.
pub uninterp spec fn chrono_millis_in_range(ms: i64) -> bool;

/// `chrono::DateTime::from_timestamp_millis(ms).is_some()`: whether the
/// timestamp lies in chrono's range (`TimeZone::timestamp_millis_opt` gives a
/// single time exactly then). The contract names the answer as a function of
/// `ms`.
#[verifier::external_body]
pub(crate) fn timestamp_millis_in_range(ms: i64) -> (r: bool)
    ensures
        r == chrono_millis_in_range(ms),
{
    chrono::DateTime::from_timestamp_millis(ms).is_some()
}

/// What `String::from_utf8_lossy` makes of `bytes`.
pub uninterp spec fn lossy_utf8(bytes: Seq<u8>) -> Seq<char>;

/// `String::from_utf8_lossy(bytes).into_owned()`: the text of `bytes` with
/// every invalid sequence replaced by U+FFFD. The contract states that the
/// result is the named function of the bytes, that valid UTF-8 is decoded as
/// it stands, and that no byte yields more than one character.
#[verifier::external_body]
pub(crate) fn utf8_lossy(bytes: &[u8]) -> (r: String)
    ensures
        r@ == lossy_utf8(bytes@),
        valid_utf8(bytes@) ==> r@ == decode_utf8(bytes@),
        r@.len() <= bytes@.len(),
{
    String::from_utf8_lossy(bytes).into_owned()
}

/// `String::from_utf8`: the text of `bytes` when they are valid UTF-8,
/// `None` (in place of the error) when they are not.
#[verifier::external_body]
pub(crate) fn utf8_decode(bytes: Vec<u8>) -> (r: Option<String>)
    ensures
        r is Some <==> valid_utf8(bytes@),
        r matches Some(s) ==> s@ == decode_utf8(bytes@),
{
    String::from_utf8(bytes).ok()
}

/// The score that nucleo gives `haystack` for the search `query`.
pub uninterp spec fn fuzzy_score(query: Seq<char>, haystack: Seq<char>) -> Option<u32>;

/// nucleo's `Pattern::score` for the pattern that `Pattern::parse` makes of
/// `query` (case ignored, smart normalization), on `haystack`, with a matcher
/// in nucleo's default configuration. The contract names the score as a
/// function of the two texts.
///
/// `requires` keeps out the inputs on which nucleo panics. The matcher
/// asserts that the haystack is at most `u32::MAX` long, counted in
/// graphemes, or in bytes when every grapheme starts with an ASCII
/// character; either count is at most the UTF-8 length, which `requires`
/// bounds. The pattern adds up the `u16` scores of its words in a `u32`. Its
/// words are the non-empty pieces of the query between unescaped spaces; each
/// starts with a character other than a space that opens the query or follows
/// a space, so there are at most `word_count(query)` of them, and 65537
/// words of at most 65535 each sum to at most `u32::MAX`.
#[verifier::external_body]
pub(crate) fn nucleo_score(query: &str, haystack: &str) -> (r: Option<u32>)
    requires
        word_count(query@) <= 65537,
        encode_utf8(haystack@).len() <= u32::MAX,
    ensures
        r == fuzzy_score(query@, haystack@),
{
    let mut matcher = nucleo::Matcher::new(nucleo::Config::DEFAULT);
    let pattern = nucleo::pattern::Pattern::parse(
        query,
        nucleo::pattern::CaseMatching::Ignore,
        nucleo::pattern::Normalization::Smart,
    );
    let mut buf = Vec::new();
    pattern.score(nucleo::Utf32Str::new(haystack, &mut buf), &mut matcher)
}

} // verus!
