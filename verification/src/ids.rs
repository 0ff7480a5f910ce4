//! Unique identifiers.

use uuid::Uuid;
use vstd::prelude::*;

verus! {

/// `uuid::Uuid`, a universally unique identifier.
#[verifier::external_type_specification]
#[verifier::external_body]
pub struct ExUuid(Uuid);

/// `uuid::Uuid::new_v4`: a random identifier. Nothing is promised of which one it is.
#[verifier::external_body]
pub(crate) fn fresh_id() -> Uuid {
    Uuid::new_v4()
}

} // verus!
