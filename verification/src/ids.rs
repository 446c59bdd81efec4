//! Session identifiers, through the uuid crate.
use vstd::prelude::*;

verus! {

/// Relies on uuid's `Uuid::new_v4` and its `Display` implementation: a
/// fresh random version-4 UUID rendered in the hyphenated form, which is
/// always 36 characters long. Nothing more can be promised of a random
/// identifier.
#[verifier::external_body]
pub(crate) fn new_session_id() -> (r: String)
    ensures
        r@.len() == 36,
{
    uuid::Uuid::new_v4().to_string()
}

} // verus!
