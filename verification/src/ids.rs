use vstd::prelude::*;

verus! {

/// Relies on uuid::Uuid::new_v4 and uuid::Uuid::as_u128: a freshly drawn
/// random version-4 identifier, returned as its 128-bit value. Nothing can be
/// promised of a random draw, so this wrapper carries no contract; every
/// caller states what holds of whatever value came back.
#[verifier::external_body]
pub(crate) fn fresh_id() -> u128 {
    uuid::Uuid::new_v4().as_u128()
}

} // verus!
