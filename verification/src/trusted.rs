//! The two outside calls the importer needs: a fresh identifier and the
//! current time. Both escape verification, so each stands behind a wrapper
//! whose contract claims only what holds of every outcome.

use vstd::prelude::*;

verus! {

/// Relies on `uuid::Uuid::new_v4` and the hyphenated form its `Display`
/// writes: a freshly drawn random identifier of 36 ASCII characters.
/// Randomness decides the digits, so only the length is promised.
#[verifier::external_body]
pub fn new_record_id() -> (r: Vec<u8>)
    ensures
        r@.len() == 36,
{
    uuid::Uuid::new_v4().to_string().into_bytes()
}

/// Relies on `chrono::Utc::now` and `DateTime::to_rfc3339` for creation
/// timestamps. The clock decides the value, so only what holds of every
/// RFC 3339 rendering is promised: the text is never empty.
#[verifier::external_body]
pub fn now_timestamp() -> (r: Vec<u8>)
    ensures
        r@.len() > 0,
{
    chrono::Utc::now().to_rfc3339().into_bytes()
}

} // verus!
