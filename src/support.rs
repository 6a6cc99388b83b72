//! The calls into uuid, chrono and std that the library relies on.
use vstd::prelude::*;

verus! {

/// Relies on `uuid::Uuid::new_v4` and its `Display` impl: a random version-4
/// identifier, written in hyphenated form (36 characters).
#[verifier::external_body]
pub(crate) fn new_id() -> (r: String)
    ensures
        r@.len() == 36,
{
    uuid::Uuid::new_v4().to_string()
}

/// Relies on `chrono::Utc::now` and `DateTime::timestamp`: the current time
/// in whole seconds since the Unix epoch. Nothing is promised of its value.
#[verifier::external_body]
pub(crate) fn unix_now() -> (r: i64) {
    chrono::Utc::now().timestamp()
}

/// The UTC date and time of a Unix timestamp, as `YYYY-MM-DD HH:MM:SS`, or
/// `None` where chrono cannot represent the instant.
pub uninterp spec fn utc_seconds_text(ts: i64) -> Option<Seq<char>>;

/// Relies on `chrono::DateTime::from_timestamp` and `DateTime::format` with
/// the pattern `%Y-%m-%d %H:%M:%S`: the result depends on `ts` alone.
#[verifier::external_body]
pub(crate) fn format_utc_seconds(ts: i64) -> (r: Option<String>)
    ensures
        match r {
            Some(s) => utc_seconds_text(ts) == Some(s@),
            None => utc_seconds_text(ts) is None,
        },
{
    match chrono::DateTime::from_timestamp(ts, 0) {
        Some(dt) => Some(dt.format("%Y-%m-%d %H:%M:%S").to_string()),
        None => None,
    }
}

/// The UTC date and time of a Unix timestamp, as `YYYY-MM-DD HH:MM`, or
/// `None` where chrono cannot represent the instant.
pub uninterp spec fn utc_minutes_text(ts: i64) -> Option<Seq<char>>;

/// Relies on `chrono::DateTime::from_timestamp` and `DateTime::format` with
/// the pattern `%Y-%m-%d %H:%M`: the result depends on `ts` alone.
#[verifier::external_body]
pub(crate) fn format_utc_minutes(ts: i64) -> (r: Option<String>)
    ensures
        match r {
            Some(s) => utc_minutes_text(ts) == Some(s@),
            None => utc_minutes_text(ts) is None,
        },
{
    match chrono::DateTime::from_timestamp(ts, 0) {
        Some(dt) => Some(dt.format("%Y-%m-%d %H:%M").to_string()),
        None => None,
    }
}

/// The lowercase form of `s`, as Unicode's case mapping gives it.
pub uninterp spec fn lower_of(s: Seq<char>) -> Seq<char>;

/// Relies on `str::to_lowercase`: the result depends on the characters of
/// `s` alone.
#[verifier::external_body]
pub(crate) fn lowercase(s: &str) -> (r: String)
    ensures
        r@ == lower_of(s@),
{
    s.to_lowercase()
}

/// Relies on `String::from_iter` over chars: the string of exactly these
/// characters, in order.
#[verifier::external_body]
pub(crate) fn string_from_chars(chars: &Vec<char>) -> (r: String)
    ensures
        r@ == chars@,
{
    String::from_iter(chars.iter())
}

} // verus!
