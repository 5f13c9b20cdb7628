//! Canonical text forms of date-times and floating-point numbers.
//!
//! Both conversions are computed by outside code (chrono and std's float
//! machinery); the library names their results and builds its contracts on
//! those names.
use vstd::prelude::*;

verus! {

/// The RFC3339 normal form of a date-time text: `Some` exactly when the
/// text parses as an RFC3339 date-time, carrying the re-rendered normal
/// form (UTC offset written `+00:00`, fractional seconds trimmed to
/// micro- or nanosecond groups). A function of the text alone.
pub uninterp spec fn rfc3339_norm(s: Seq<char>) -> Option<Seq<char>>;

/// Relies on chrono: `str::parse::<DateTime<Utc>>` reads RFC3339 text (a
/// space accepted for the `T` separator) as a pure function of the text,
/// and `DateTime::to_rfc3339` renders the instant back in normal form.
/// Normal text renormalizes to itself: the emitted form parses back to
/// the same instant and renders identically.
#[verifier::external_body]
pub(crate) fn normalize_datetime(s: &str) -> (r: Option<String>)
    ensures
        match r {
            Some(t) => rfc3339_norm(s@) == Some(t@) && rfc3339_norm(t@) == Some(t@),
            None => rfc3339_norm(s@) is None,
        },
{
    match s.parse::<chrono::DateTime<chrono::Utc>>() {
        Ok(dt) => Some(dt.to_rfc3339()),
        Err(_) => None,
    }
}

/// The canonical text of a finite number read from `s`: `Some` exactly
/// when `s` is a JSON-style signed decimal number in range, carrying the
/// shortest text that reads back as the same number. A function of the
/// text alone.
pub uninterp spec fn float_norm(s: Seq<char>) -> Option<Seq<char>>;

/// Relies on serde_json, built with its exact-precision float parsing:
/// `str::parse::<Number>` reads a signed decimal number (integer,
/// fraction, exponent; never an infinity or NaN) as a pure function of
/// the text, correctly rounded, and `Number`'s display prints the
/// shortest decimal text that reads back as the same number — so
/// canonical text renormalizes to itself.
#[verifier::external_body]
pub(crate) fn normalize_float(s: &str) -> (r: Option<String>)
    ensures
        match r {
            Some(t) => float_norm(s@) == Some(t@) && float_norm(t@) == Some(t@),
            None => float_norm(s@) is None,
        },
{
    match s.parse::<serde_json::Number>() {
        Ok(n) => Some(n.to_string()),
        Err(_) => None,
    }
}

} // verus!
