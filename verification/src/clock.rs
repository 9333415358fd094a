//! The one clock access: the current UTC date, read through the time
//! crate.

use vstd::prelude::*;

verus! {

/// Relies on time's `OffsetDateTime::now_utc` and the `Date`
/// accessors: without the large-dates feature a year is within
/// -9999..=9999, a month number within 1..=12, a day within 1..=31.
#[verifier::external_body]
pub(crate) fn utc_today() -> (r: (i32, u8, u8))
    ensures
        -9999 <= r.0 <= 9999,
        1 <= r.1 <= 12,
        1 <= r.2 <= 31,
{
    let date = time::OffsetDateTime::now_utc().date();
    (date.year(), u8::from(date.month()), date.day())
}

} // verus!
