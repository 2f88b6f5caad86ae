//! Onion-service secret keys.
//!
//! The supervisor never looks inside a key. It stores the keys it is given,
//! finds the one that belongs to an interface, and hands copies to the
//! network controller.

use vstd::prelude::*;
use torut::onion::TorSecretKeyV3;

verus! {

/// `torut::onion::TorSecretKeyV3`, a 64-byte expanded Ed25519 secret key.
/// Its bytes are not visible to the verifier.
#[verifier::external_type_specification]
#[verifier::external_body]
pub struct ExTorSecretKeyV3(TorSecretKeyV3);

/// `<TorSecretKeyV3 as Clone>::clone`, which torut derives for its one field,
/// an array of bytes. Assumed: the copy is the key it was made from.
pub assume_specification[ <TorSecretKeyV3 as Clone>::clone ](key: &TorSecretKeyV3) -> (copy:
    TorSecretKeyV3)
    ensures
        copy == *key,
;

} // verus!
