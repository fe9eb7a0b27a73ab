use vstd::prelude::*;

verus! {

/// Relies on chrono's `Utc::now`: the wall-clock time, in seconds since the
/// Unix epoch. Nothing is promised of the value.
#[verifier::external_body]
pub fn now_unix() -> i64 {
    chrono::Utc::now().timestamp()
}

/// Relies on uuid's `Uuid::new_v4`: a freshly drawn random identifier.
/// Nothing is promised of the value.
#[verifier::external_body]
pub fn new_uuid_v4() -> u128 {
    uuid::Uuid::new_v4().as_u128()
}

} // verus!
