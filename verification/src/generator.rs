//! The secret generator contract and its UUID-backed implementation.

use vstd::prelude::*;

verus! {

/// A source of opaque secret strings. Generation never fails and every
/// produced secret is non-empty; unpredictability is the implementation's
/// charge and is not a provable property.
pub trait SecretGenerator: Sized {
    fn generate(&self) -> (r: String)
        ensures
            r@.len() > 0,
    ;
}

/// Relies on `uuid::Uuid::new_v4` and the `Display` implementation of
/// `uuid::Uuid`: a fresh version-4 UUID rendered in the hyphenated form,
/// which is always 36 characters long. The value is random, so nothing
/// more is claimed of it.
#[verifier::external_body]
pub(crate) fn new_uuid_string() -> (r: String)
    ensures
        r@.len() == 36,
{
    uuid::Uuid::new_v4().to_string()
}

/// A secret generator that draws a fresh version-4 UUID for each secret.
pub struct UuidSecretGenerator;

impl UuidSecretGenerator {
    pub fn new() -> (r: UuidSecretGenerator) {
        UuidSecretGenerator
    }
}

impl SecretGenerator for UuidSecretGenerator {
    fn generate(&self) -> (r: String)
        ensures
            r@.len() == 36,
    {
        new_uuid_string()
    }
}

} // verus!
