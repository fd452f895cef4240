//! Fresh ids and timestamps, which only the outside world can supply.

use vstd::prelude::*;

verus! {

/// Relies on `uuid::Uuid::new_v4` for a random id and on the `Display` of
/// `Uuid`, which writes the hyphenated form: 32 hex digits and 4 hyphens.
#[verifier::external_body]
pub(crate) fn new_id() -> (r: String)
    ensures
        r@.len() == 36,
{
    uuid::Uuid::new_v4().to_string()
}

/// Relies on chrono's conversion of `std::time::SystemTime::now()` into a
/// `DateTime<Utc>`, and on `DateTime::to_rfc3339`, which writes at least
/// `YYYY-MM-DDTHH:MM:SS+00:00`: 25 characters.
#[verifier::external_body]
pub(crate) fn iso_date() -> (r: String)
    ensures
        r@.len() >= 25,
{
    let now: chrono::DateTime<chrono::Utc> = std::time::SystemTime::now().into();
    now.to_rfc3339()
}

} // verus!
