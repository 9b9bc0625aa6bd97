//! A confidential vault service: a secret field element is split with a
//! threshold secret-sharing scheme, stored together with an access-control
//! list, and released to an authorized requester only after an external
//! computation reconstructs it and a quorum of signers attests to the
//! released value. The delivered secret is re-encrypted under the
//! requester's public key, so the transport never carries the plaintext.

pub mod attest;
pub mod delivery;
pub mod encoder;
pub mod field;
pub mod registry;
pub mod shamir;

use vstd::prelude::*;

verus! {

/// Every way a vault operation can fail.
#[derive(Clone, Copy, Debug, PartialEq, Eq, Structural)]
pub enum VaultError {
    /// The access-control list given at creation is empty.
    EmptyAcl,
    /// The access-control list given at creation repeats an identity.
    DuplicateMember,
    /// The share threshold is zero or exceeds the number of shares.
    InvalidThreshold,
    /// Fewer distinct shares than the threshold were supplied.
    InsufficientShares,
    /// The supplied shares do not lie on a single polynomial.
    InconsistentShares,
    /// The caller is not in the vault's access-control list.
    Unauthorized,
    /// The vault already has an in-flight computation request.
    Busy,
    /// A signature arrived from a signer outside the expected set.
    UnknownSigner,
    /// The plaintext exceeds the recipient key's payload capacity.
    PlaintextTooLarge,
    /// The underlying asymmetric encryption call failed.
    EncryptionFailure,
    /// No vault with the given identifier exists.
    VaultNotFound,
}

} // verus!
