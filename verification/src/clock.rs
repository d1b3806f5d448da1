//! Timestamps: normalization of platform-supplied epoch seconds to
//! ISO-8601 UTC text, and the wall clock, both through the `chrono` crate.

use vstd::prelude::*;

verus! {

/// The ISO-8601 UTC rendering (`%Y-%m-%dT%H:%M:%SZ`) of a Unix timestamp.
/// The rendering is a pure function of the seconds value; its text is
/// produced by the time library and is not restated here.
pub uninterp spec fn iso_utc_of(secs: i64) -> Seq<char>;

/// Unix-second values safely inside the time library's calendar range:
/// from year 0 through the last second of year 9999.
pub open spec fn epoch_in_range(secs: i64) -> bool {
    -62167219200 <= secs <= 253402300799
}

/// Relies on `chrono::DateTime::<Utc>::from_timestamp`, which documents
/// `None` only for out-of-range seconds, and on `chrono`'s `format` with
/// `%Y-%m-%dT%H:%M:%SZ`, whose output depends on the UTC instant alone.
#[verifier::external_body]
pub(crate) fn format_epoch_iso(secs: i64) -> (r: Option<String>)
    ensures
        epoch_in_range(secs) ==> r is Some,
        r matches Some(s) ==> s@ == iso_utc_of(secs),
{
    chrono::DateTime::from_timestamp(secs, 0).map(
        |dt| dt.format("%Y-%m-%dT%H:%M:%SZ").to_string(),
    )
}

/// Relies on `chrono::Utc::now`: the current wall-clock instant rendered
/// as RFC 3339 text. Nothing is promised of the clock's reading.
#[verifier::external_body]
pub(crate) fn now_utc_rfc3339() -> (r: String) {
    chrono::Utc::now().to_rfc3339()
}

} // verus!
