//! Trusted bindings to the outside crates the core leans on: the wall
//! clock, the random generator and the identifier generator, plus the
//! one std conversion from checked ASCII bytes to a `String`.

use vstd::prelude::*;

verus! {

/// Relies on chrono's `Utc::now().timestamp_millis()`: the wall clock in
/// milliseconds since the Unix epoch.  Nothing can be promised of a
/// clock reading.
#[verifier::external_body]
pub(crate) fn now_ms() -> i64 {
    chrono::Utc::now().timestamp_millis()
}

/// Relies on `fastrand::i64`: a value drawn uniformly from `0..bound`.
/// The draw depends on the generator's state, so only the range is
/// promised.  `fastrand::i64` panics on an empty range, kept out by
/// `requires`.
#[verifier::external_body]
pub(crate) fn random_below(bound: i64) -> (r: i64)
    requires
        bound >= 1,
    ensures
        0 <= r < bound,
{
    fastrand::i64(0..bound)
}

/// Relies on uuid's `Uuid::new_v4`, read out as its 128-bit value: a
/// freshly drawn random identifier, of which nothing is promised.
#[verifier::external_body]
pub(crate) fn fresh_uuid() -> u128 {
    uuid::Uuid::new_v4().as_u128()
}

/// Relies on std's `String::from_utf8`: ASCII bytes are valid UTF-8 and
/// come back as exactly those characters, one per byte.
#[verifier::external_body]
pub(crate) fn ascii_to_string(bytes: &Vec<u8>) -> (r: String)
    requires
        forall|i: int| 0 <= i < bytes@.len() ==> bytes@[i] < 128,
    ensures
        r@.len() == bytes@.len(),
        forall|i: int| 0 <= i < bytes@.len() ==> r@[i] == bytes@[i] as char,
{
    String::from_utf8(bytes.clone()).unwrap_or_default()
}

} // verus!
