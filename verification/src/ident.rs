//! Identifier allocation. Identifiers are 128-bit values; the zero value
//! is the reserved sentinel that means "not yet assigned".

use vstd::prelude::*;

verus! {

/// The reserved "unset" identifier. A caller passes it to request a fresh
/// identifier; no stored record ever carries it.
pub const SENTINEL_ID: u128 = 0;

/// Relies on uuid::Uuid::new_v4 and uuid::Uuid::as_u128: a freshly drawn
/// random version-4 identifier. Its fixed version bits make the value
/// nonzero, so it is never the sentinel; nothing else is promised of it.
#[verifier::external_body]
pub fn fresh_id() -> (r: u128)
    ensures
        r != SENTINEL_ID,
{
    uuid::Uuid::new_v4().as_u128()
}

} // verus!
