//! The attestation collector: gathers per-party signatures over a
//! computed value until a quorum of the expected signers has signed.
//!
//! Signatures from signers outside the expected set are rejected; a
//! second signature from a signer already counted is absorbed without
//! effect, so redelivered messages are harmless. The accepted signatures
//! are kept in acceptance order, ready for proof encoding.

use vstd::prelude::*;
use crate::encoder::{wf_signature, Signature};
use crate::VaultError;

verus! {

/// An in-flight attestation: the value under attestation, who may sign,
/// how many signatures complete the quorum, and what has been accepted,
/// as parallel signer and signature lists in acceptance order.
pub struct AttestationRequest {
    /// The value the signers attest to.
    pub value: u64,
    /// The identities allowed to sign.
    pub expected_signers: Vec<u64>,
    /// How many distinct signers complete the attestation.
    pub quorum: usize,
    /// The signers accepted so far, in acceptance order.
    pub accepted_signers: Vec<u64>,
    /// The signatures accepted so far, matching `accepted_signers`.
    pub accepted_signatures: Vec<Signature>,
}

/// The identity appears in the sequence.
pub open spec fn id_in(ids: Seq<u64>, id: u64) -> bool {
    exists|k: int| 0 <= k < ids.len() && ids[k] == id
}

/// A request is well formed: a reachable quorum, accepted lists in step,
/// every accepted signer expected, counted once, with a well-formed
/// signature.
pub open spec fn wf_request(req: AttestationRequest) -> bool {
    &&& 1 <= req.quorum <= req.expected_signers@.len()
    &&& req.accepted_signers@.len() == req.accepted_signatures@.len()
    &&& (forall|k: int|
        0 <= k < req.accepted_signers@.len() ==> id_in(
            req.expected_signers@,
            #[trigger] req.accepted_signers@[k],
        ))
    &&& (forall|k1: int, k2: int|
        0 <= k1 < k2 < req.accepted_signers@.len() ==> req.accepted_signers@[k1]
            != req.accepted_signers@[k2])
    &&& (forall|k: int|
        0 <= k < req.accepted_signatures@.len() ==> wf_signature(
            #[trigger] req.accepted_signatures@[k],
        ))
}

/// The quorum condition holds.
pub open spec fn quorum_reached(req: AttestationRequest) -> bool {
    req.accepted_signers@.len() >= req.quorum
}

/// Opens an attestation for `value` with the given expected signers and
/// quorum size.
pub fn begin(value: u64, expected_signers: Vec<u64>, quorum: usize) -> (req: AttestationRequest)
    requires
        1 <= quorum <= expected_signers@.len(),
    ensures
        wf_request(req),
        req.value == value,
        req.expected_signers == expected_signers,
        req.quorum == quorum,
        req.accepted_signers@.len() == 0,
        req.accepted_signatures@.len() == 0,
{
    AttestationRequest {
        value,
        expected_signers,
        quorum,
        accepted_signers: Vec::new(),
        accepted_signatures: Vec::new(),
    }
}

/// Whether this identity already signed.
fn already_signed(req: &AttestationRequest, signer: u64) -> (r: bool)
    ensures
        r == id_in(req.accepted_signers@, signer),
{
    let mut k: usize = 0;
    while k < req.accepted_signers.len()
        invariant
            k <= req.accepted_signers@.len(),
            forall|m: int| 0 <= m < k ==> req.accepted_signers@[m] != signer,
        decreases req.accepted_signers@.len() - k,
    {
        if req.accepted_signers[k] == signer {
            return true;
        }
        k = k + 1;
    }
    false
}

/// Whether this identity may sign.
fn is_expected(req: &AttestationRequest, signer: u64) -> (r: bool)
    ensures
        r == id_in(req.expected_signers@, signer),
{
    let mut k: usize = 0;
    while k < req.expected_signers.len()
        invariant
            k <= req.expected_signers@.len(),
            forall|m: int| 0 <= m < k ==> req.expected_signers@[m] != signer,
        decreases req.expected_signers@.len() - k,
    {
        if req.expected_signers[k] == signer {
            return true;
        }
        k = k + 1;
    }
    false
}

/// Offers one signature. A signer outside the expected set is refused; a
/// repeated signer changes nothing and reports no completion; a fresh
/// expected signer is appended, and the call returns true exactly when
/// that acceptance is the one that first meets the quorum.
pub fn accept(req: &mut AttestationRequest, signer: u64, sig: Signature) -> (r: Result<
    bool,
    VaultError,
>)
    requires
        wf_request(*old(req)),
        wf_signature(sig),
    ensures
        wf_request(*final(req)),
        !id_in(old(req).expected_signers@, signer) ==> r == Result::<bool, VaultError>::Err(
            VaultError::UnknownSigner,
        ) && *final(req) == *old(req),
        id_in(old(req).expected_signers@, signer) && id_in(old(req).accepted_signers@, signer)
            ==> r == Result::<bool, VaultError>::Ok(false) && *final(req) == *old(req),
        id_in(old(req).expected_signers@, signer) && !id_in(old(req).accepted_signers@, signer)
            ==> {
            &&& final(req).accepted_signers@ == old(req).accepted_signers@.push(signer)
            &&& final(req).accepted_signatures@ == old(req).accepted_signatures@.push(sig)
            &&& final(req).value == old(req).value
            &&& final(req).expected_signers == old(req).expected_signers
            &&& final(req).quorum == old(req).quorum
            &&& r == Result::<bool, VaultError>::Ok(
                final(req).accepted_signers@.len() == old(req).quorum,
            )
        },
{
    if !is_expected(req, signer) {
        return Result::Err(VaultError::UnknownSigner);
    }
    if already_signed(req, signer) {
        return Result::Ok(false);
    }
    req.accepted_signers.push(signer);
    req.accepted_signatures.push(sig);
    Result::Ok(req.accepted_signers.len() == req.quorum)
}

} // verus!
