//! Identifier generation for messages and connections.

use vstd::prelude::*;

verus! {

/// Relies on uuid::Uuid::new_v4, via Uuid::as_u128: a freshly drawn random
/// version-4 UUID. Nothing is promised of the value: it is random.
#[verifier::external_body]
pub(crate) fn new_uuid_v128() -> u128 {
    uuid::Uuid::new_v4().as_u128()
}

} // verus!
