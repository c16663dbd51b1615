//! The calls this library makes into the `uuid` and `chrono` crates.
use vstd::prelude::*;

use crate::entity::{day_of, representable, Timestamp, FIRST_SECOND, LAST_SECOND};
use crate::keys::hyphenated;

verus! {

/// The RFC 3339 text of an instant, with nine fraction digits and a `Z` offset.
pub uninterp spec fn rfc3339_of(t: Timestamp) -> Seq<char>;

/// The `yyyy-mm-dd` text of the UTC day with this number, counted from
/// 1970-01-01.
pub uninterp spec fn utc_date_of(day: int) -> Seq<char>;

/// Relies on uuid's `Uuid::from_u128` and its `Display`, which writes the
/// 32 lower-case hex digits of the value, most significant first, in groups
/// of 8-4-4-4-12 joined by `-`.
#[verifier::external_body]
pub(crate) fn uuid_text(v: u128) -> (r: String)
    ensures
        r@ == hyphenated(v),
{
    uuid::Uuid::from_u128(v).to_string()
}

/// The byte lengths of the forms of a UUID's text: simple, hyphenated,
/// braced and URN.
pub open spec fn uuid_sized(s: Seq<char>) -> bool {
    let n = vstd::utf8::encode_utf8(s).len();
    n == 32 || n == 36 || n == 38 || n == 45
}

/// Relies on uuid's `Uuid::parse_str` and `Uuid::as_u128`: the hyphenated
/// lower-case text of a value parses back to that value, and a text whose
/// byte length is none of 32, 36, 38 and 45 is refused (`try_parse`). Other
/// texts may or may not parse.
#[verifier::external_body]
pub(crate) fn parse_uuid(s: &str) -> (r: Option<u128>)
    ensures
        forall|v: u128| s@ == hyphenated(v) ==> r == Some(v),
        !uuid_sized(s@) ==> r is None,
{
    match uuid::Uuid::parse_str(s) {
        Ok(u) => Some(u.as_u128()),
        Err(_) => None,
    }
}

/// Relies on chrono's `DateTime::<Utc>::from_timestamp`, which takes the day
/// number `seconds.div_euclid(86_400)` and is `Some` where that day falls in
/// chrono's years -262143 to 262142 and the nanoseconds are below a second,
/// and on `to_rfc3339_opts(SecondsFormat::Nanos, true)`, which writes to a
/// `String` and does not fail (years outside 0..=9999 get a sign).
#[verifier::external_body]
pub(crate) fn rfc3339_text(t: Timestamp) -> (r: Option<String>)
    ensures
        r matches Some(s) ==> s@ == rfc3339_of(t),
        representable(t) ==> r is Some,
{
    match chrono::DateTime::<chrono::Utc>::from_timestamp(t.seconds, t.nanos) {
        Some(d) => Some(d.to_rfc3339_opts(chrono::SecondsFormat::Nanos, true)),
        None => None,
    }
}

/// Relies on chrono's `DateTime::<Utc>::from_timestamp` (`Some` in the same
/// range as above; the date depends only on the day number
/// `seconds.div_euclid(86_400)`), `date_naive` and the `Display` of
/// `NaiveDate` (`%Y-%m-%d`).
#[verifier::external_body]
pub(crate) fn utc_date_text(seconds: i64) -> (r: Option<String>)
    ensures
        r matches Some(s) ==> s@ == utc_date_of(day_of(seconds as int)),
        FIRST_SECOND <= seconds <= LAST_SECOND ==> r is Some,
{
    match chrono::DateTime::<chrono::Utc>::from_timestamp(seconds, 0) {
        Some(d) => Some(d.date_naive().to_string()),
        None => None,
    }
}

} // verus!
