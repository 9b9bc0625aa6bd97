//! The vault registry and the lifecycle state machine.
//!
//! The registry owns every vault record. A vault is created with an
//! access-control list and a secret split into shares; an authorized
//! member may then request access, which puts one computation in flight;
//! the external fabric's completion notice records the reconstructed
//! value; the attestation completion stores the encoded proof; and only
//! then is the value delivered, re-encrypted under the requester's key.
//! Every transition is described by a specification function over the
//! registry's mathematical view, and the exported operations are proved
//! to follow them exactly.

use vstd::prelude::*;
use crate::attest::id_in;
use crate::delivery::{
    decimal_of, encrypt_for_delivery, key_capacity, u64_to_decimal, wf_recipient_key,
    RecipientKey,
};
use crate::encoder::{encode_proof, encoded_proof, wf_signature, Signature};
use crate::field::{in_field, FIELD_PRIME};
use crate::shamir::{is_split_of, shares_in_field, split, Share};
use crate::VaultError;

verus! {

/// Where a vault stands in its request cycle.
#[derive(Clone, Copy, Debug, PartialEq, Eq, Structural)]
pub enum LifecycleState {
    /// Freshly created; no request yet, or the last cycle's proof cleared.
    Created,
    /// An authorized request is in flight at the computation fabric.
    ComputationRequested,
    /// The fabric returned the reconstructed value; attestation pending.
    Computed,
    /// A quorum attested the value; the proof is stored.
    Attested,
}

/// One vault record: who owns it, who may read it, its shares, and the
/// current point in the request cycle.
pub struct Vault {
    /// The registry-issued identifier.
    pub id: u64,
    /// The creator; set once.
    pub owner: u64,
    /// The identities allowed to request the secret; fixed at creation.
    pub acl: Vec<u64>,
    /// The shares cut from the secret at creation; write-once.
    pub shares: Vec<Share>,
    /// How many shares reconstruct the secret.
    pub threshold: usize,
    /// The lifecycle position.
    pub lifecycle_state: LifecycleState,
    /// Who drives the in-flight request, if one is in flight.
    pub pending_request: Option<u64>,
    /// The reconstructed value, once the fabric has returned it.
    pub computed_value: Option<u64>,
    /// The encoded attestation proof, present exactly when attested.
    pub proof_bytes: Option<Vec<u8>>,
}

/// The mathematical image of a vault.
#[verifier::ext_equal]
pub ghost struct VaultView {
    pub id: u64,
    pub owner: u64,
    pub acl: Seq<u64>,
    pub shares: Seq<Share>,
    pub threshold: nat,
    pub lifecycle_state: LifecycleState,
    pub pending_request: Option<u64>,
    pub computed_value: Option<u64>,
    pub proof_bytes: Option<Seq<u8>>,
}

impl View for Vault {
    type V = VaultView;

    open spec fn view(&self) -> VaultView {
        VaultView {
            id: self.id,
            owner: self.owner,
            acl: self.acl@,
            shares: self.shares@,
            threshold: self.threshold as nat,
            lifecycle_state: self.lifecycle_state,
            pending_request: self.pending_request,
            computed_value: self.computed_value,
            proof_bytes: match self.proof_bytes {
                Option::Some(ref p) => Option::Some(p@),
                Option::None => Option::None,
            },
        }
    }
}

/// No identity appears twice.
pub open spec fn ids_distinct(ids: Seq<u64>) -> bool {
    forall|i: int, j: int| 0 <= i < j < ids.len() ==> ids[i] != ids[j]
}

/// A vault's internal invariant: a non-empty duplicate-free list, a
/// reachable threshold, shares at the points `1..=n` with both
/// coordinates in the field, and the lifecycle fields consistent with the
/// state: the proof exists exactly when attested, the pending requester
/// exactly while a cycle is in flight, and the computed value from
/// completion until the next cycle starts.
pub open spec fn wf_vault(v: VaultView) -> bool {
    &&& v.acl.len() >= 1
    &&& ids_distinct(v.acl)
    &&& 1 <= v.threshold <= v.shares.len()
    &&& v.shares.len() < FIELD_PRIME
    &&& shares_in_field(v.shares)
    &&& (v.lifecycle_state == LifecycleState::Attested <==> v.proof_bytes is Some)
    &&& (v.lifecycle_state == LifecycleState::Created ==> v.pending_request is None
        && v.computed_value is None)
    &&& (v.lifecycle_state == LifecycleState::ComputationRequested ==> v.pending_request is Some
        && v.computed_value is None)
    &&& (v.lifecycle_state == LifecycleState::Computed ==> v.pending_request is Some
        && v.computed_value is Some)
    &&& (v.lifecycle_state == LifecycleState::Attested ==> v.pending_request is None
        && v.computed_value is Some)
}

/// The registry: the owner of every vault record.
pub struct VaultRegistry {
    /// The live vaults.
    pub vaults: Vec<Vault>,
    /// The next identifier to issue.
    pub next_id: u64,
}

/// The mathematical image of the registry.
#[verifier::ext_equal]
pub ghost struct RegistryView {
    pub vaults: Seq<VaultView>,
    pub next_id: u64,
}

impl View for VaultRegistry {
    type V = RegistryView;

    open spec fn view(&self) -> RegistryView {
        RegistryView { vaults: self.vaults@.map_values(|v: Vault| v@), next_id: self.next_id }
    }
}

/// The registry's invariant: every vault well formed, identifiers unique
/// and all below the next to issue.
pub open spec fn wf_registry(r: RegistryView) -> bool {
    &&& (forall|k: int| 0 <= k < r.vaults.len() ==> wf_vault(#[trigger] r.vaults[k]))
    &&& (forall|k: int| 0 <= k < r.vaults.len() ==> (#[trigger] r.vaults[k]).id < r.next_id)
    &&& (forall|k1: int, k2: int|
        0 <= k1 < k2 < r.vaults.len() ==> r.vaults[k1].id != r.vaults[k2].id)
}

/// Some vault carries this identifier.
pub open spec fn has_vault(vs: Seq<VaultView>, id: u64) -> bool {
    exists|k: int| 0 <= k < vs.len() && vs[k].id == id
}

/// The position of the vault with this identifier.
pub open spec fn vault_index(vs: Seq<VaultView>, id: u64) -> int {
    choose|k: int| 0 <= k < vs.len() && vs[k].id == id
}

/// With unique identifiers, any position holding the identifier is the
/// chosen one.
pub proof fn lemma_vault_index_unique(vs: Seq<VaultView>, id: u64, k: int)
    requires
        forall|k1: int, k2: int| 0 <= k1 < k2 < vs.len() ==> vs[k1].id != vs[k2].id,
        0 <= k < vs.len(),
        vs[k].id == id,
    ensures
        has_vault(vs, id),
        vault_index(vs, id) == k,
{
    assert(has_vault(vs, id));
    let j = vault_index(vs, id);
    if j != k {
        if j < k {
            assert(vs[j].id != vs[k].id);
        } else {
            assert(vs[k].id != vs[j].id);
        }
    }
}

/// What an accepted access request does to a vault: a fresh cycle starts,
/// driven by the requester; a previous cycle's value and proof are gone.
pub open spec fn request_effect(v: VaultView, requester: u64) -> VaultView {
    VaultView {
        lifecycle_state: LifecycleState::ComputationRequested,
        pending_request: Option::Some(requester),
        computed_value: Option::None,
        proof_bytes: Option::None,
        ..v
    }
}

/// The access-request transition of the whole registry: fails
/// `VaultNotFound` on an unknown identifier, `Unauthorized` for a caller
/// outside the list, `Busy` while a cycle is in flight, and otherwise
/// starts the cycle.
pub open spec fn reg_request(r: RegistryView, id: u64, requester: u64) -> (RegistryView, Result<
    (),
    VaultError,
>) {
    if !has_vault(r.vaults, id) {
        (r, Result::Err(VaultError::VaultNotFound))
    } else {
        let k = vault_index(r.vaults, id);
        let v = r.vaults[k];
        if !id_in(v.acl, requester) {
            (r, Result::Err(VaultError::Unauthorized))
        } else if v.lifecycle_state == LifecycleState::ComputationRequested || v.lifecycle_state
            == LifecycleState::Computed {
            (r, Result::Err(VaultError::Busy))
        } else {
            (
                RegistryView { vaults: r.vaults.update(k, request_effect(v, requester)), ..r },
                Result::Ok(()),
            )
        }
    }
}

/// What a completion notice does to a vault: only one awaiting
/// computation records the value; any other is left alone.
pub open spec fn complete_effect(v: VaultView, value: u64) -> VaultView {
    if v.lifecycle_state == LifecycleState::ComputationRequested {
        VaultView {
            lifecycle_state: LifecycleState::Computed,
            computed_value: Option::Some(value),
            ..v
        }
    } else {
        v
    }
}

/// The completion transition of the whole registry: the second component
/// is the value now needing attestation, present exactly when the notice
/// was consumed rather than absorbed.
pub open spec fn reg_complete(r: RegistryView, id: u64, value: u64) -> (RegistryView, Option<
    u64,
>) {
    if !has_vault(r.vaults, id) {
        (r, Option::None)
    } else {
        let k = vault_index(r.vaults, id);
        let v = r.vaults[k];
        if v.lifecycle_state == LifecycleState::ComputationRequested {
            (
                RegistryView { vaults: r.vaults.update(k, complete_effect(v, value)), ..r },
                Option::Some(value),
            )
        } else {
            (r, Option::None)
        }
    }
}

/// What an attestation completion does to a vault: one holding a computed
/// value stores the encoded proof, ends the cycle and releases the
/// pending slot; any other is left alone.
pub open spec fn attest_effect(v: VaultView, sigs: Seq<Signature>) -> VaultView {
    if v.lifecycle_state == LifecycleState::Computed {
        VaultView {
            lifecycle_state: LifecycleState::Attested,
            pending_request: Option::None,
            proof_bytes: Option::Some(encoded_proof(sigs)),
            ..v
        }
    } else {
        v
    }
}

/// The attestation transition of the whole registry: the second component
/// says whether the proof was stored.
pub open spec fn reg_attest(r: RegistryView, id: u64, sigs: Seq<Signature>) -> (
    RegistryView,
    bool,
) {
    if !has_vault(r.vaults, id) {
        (r, false)
    } else {
        let k = vault_index(r.vaults, id);
        let v = r.vaults[k];
        if v.lifecycle_state == LifecycleState::Computed {
            (RegistryView { vaults: r.vaults.update(k, attest_effect(v, sigs)), ..r }, true)
        } else {
            (r, false)
        }
    }
}

/// The outbound message that an accepted access request emits: it names
/// the vault and the opaque handles of its shares, never raw share
/// values.
pub struct ComputationRequest {
    /// The vault whose secret is to be reconstructed.
    pub vault_id: u64,
    /// The handles (evaluation points) of the vault's shares.
    pub share_handles: Vec<u64>,
}

/// Whether the identity is in the list.
fn contains_id(ids: &Vec<u64>, id: u64) -> (r: bool)
    ensures
        r == id_in(ids@, id),
{
    let mut k: usize = 0;
    while k < ids.len()
        invariant
            k <= ids@.len(),
            forall|m: int| 0 <= m < k ==> ids@[m] != id,
        decreases ids@.len() - k,
    {
        if ids[k] == id {
            return true;
        }
        k = k + 1;
    }
    false
}

/// Whether any identity repeats in the list.
fn has_duplicate(ids: &Vec<u64>) -> (r: bool)
    ensures
        r == !ids_distinct(ids@),
{
    let mut i: usize = 0;
    while i < ids.len()
        invariant
            i <= ids@.len(),
            forall|a: int, b: int| 0 <= a < b < i ==> ids@[a] != ids@[b],
        decreases ids@.len() - i,
    {
        let mut j: usize = 0;
        while j < i
            invariant
                j <= i < ids@.len(),
                forall|a: int| 0 <= a < j ==> ids@[a] != ids@[i as int],
            decreases i - j,
        {
            if ids[j] == ids[i] {
                proof {
                    assert(0 <= j < i < ids@.len() && ids@[j as int] == ids@[i as int]);
                }
                return true;
            }
            j = j + 1;
        }
        i = i + 1;
    }
    false
}

impl VaultRegistry {
    /// An empty registry.
    pub fn new() -> (r: VaultRegistry)
        ensures
            r@.vaults.len() == 0,
            r@.next_id == 0,
            wf_registry(r@),
    {
        let r = VaultRegistry { vaults: Vec::new(), next_id: 0 };
        proof {
            assert(r@.vaults =~= Seq::<VaultView>::empty());
        }
        r
    }

    /// The position of the vault with this identifier, if it is live.
    fn find_vault_pos(&self, vault_id: u64) -> (r: Option<usize>)
        ensures
            r matches Option::Some(k) ==> k < self@.vaults.len() && self@.vaults[k as int].id
                == vault_id,
            r is None ==> !has_vault(self@.vaults, vault_id),
    {
        let mut k: usize = 0;
        while k < self.vaults.len()
            invariant
                k <= self@.vaults.len(),
                self@.vaults.len() == self.vaults@.len(),
                forall|m: int| 0 <= m < k ==> (#[trigger] self@.vaults[m]).id != vault_id,
            decreases self.vaults@.len() - k,
        {
            if self.vaults[k].id == vault_id {
                return Option::Some(k);
            }
            k = k + 1;
        }
        Option::None
    }

    /// Creates a vault: validates the access-control list and the
    /// threshold, splits the secret, and stores the new record in the
    /// `Created` state under a fresh identifier, which it returns.
    pub fn create_vault(
        &mut self,
        owner: u64,
        acl: Vec<u64>,
        secret: u64,
        total_shares: usize,
        threshold: usize,
    ) -> (r: Result<u64, VaultError>)
        requires
            wf_registry(old(self)@),
            in_field(secret),
            total_shares < FIELD_PRIME,
            old(self)@.next_id < u64::MAX,
        ensures
            wf_registry(final(self)@),
            r == Result::<u64, VaultError>::Err(VaultError::EmptyAcl) <==> acl@.len() == 0,
            r == Result::<u64, VaultError>::Err(VaultError::DuplicateMember) <==> (acl@.len() > 0
                && !ids_distinct(acl@)),
            r == Result::<u64, VaultError>::Err(VaultError::InvalidThreshold) <==> (acl@.len() > 0
                && ids_distinct(acl@) && (threshold < 1 || threshold > total_shares)),
            r is Err ==> final(self)@ == old(self)@,
            r is Ok <==> (acl@.len() > 0 && ids_distinct(acl@) && 1 <= threshold
                <= total_shares),
            r matches Result::Ok(vid) ==> {
                &&& vid == old(self)@.next_id
                &&& final(self)@.next_id == old(self)@.next_id + 1
                &&& final(self)@.vaults.len() == old(self)@.vaults.len() + 1
                &&& (forall|i: int|
                    0 <= i < old(self)@.vaults.len() ==> final(self)@.vaults[i] == old(
                        self,
                    )@.vaults[i])
                &&& {
                    let nv = final(self)@.vaults.last();
                    &&& nv.id == vid
                    &&& nv.owner == owner
                    &&& nv.acl == acl@
                    &&& nv.threshold == threshold
                    &&& nv.lifecycle_state == LifecycleState::Created
                    &&& nv.pending_request is None
                    &&& nv.computed_value is None
                    &&& nv.proof_bytes is None
                    &&& nv.shares.len() == total_shares
                    &&& (exists|cs: Seq<u64>| is_split_of(cs, secret, threshold as nat, nv.shares))
                }
            },
    {
        if acl.len() == 0 {
            return Result::Err(VaultError::EmptyAcl);
        }
        if has_duplicate(&acl) {
            return Result::Err(VaultError::DuplicateMember);
        }
        let shares = match split(secret, total_shares, threshold) {
            Result::Ok(s) => s,
            Result::Err(_) => {
                return Result::Err(VaultError::InvalidThreshold);
            },
        };
        let vid = self.next_id;
        let vault = Vault {
            id: vid,
            owner,
            acl,
            shares,
            threshold,
            lifecycle_state: LifecycleState::Created,
            pending_request: Option::None,
            computed_value: Option::None,
            proof_bytes: Option::None,
        };
        let ghost nv = vault@;
        self.vaults.push(vault);
        self.next_id = self.next_id + 1;
        proof {
            assert(self@.vaults =~~= old(self)@.vaults.push(nv));
        }
        Result::Ok(vid)
    }

    /// Looks a vault up by identifier; fails `VaultNotFound` when no live
    /// vault carries it.
    pub fn load_vault(&self, vault_id: u64) -> (r: Result<&Vault, VaultError>)
        requires
            wf_registry(self@),
        ensures
            r matches Result::Ok(v) ==> has_vault(self@.vaults, vault_id) && v@ == self@.vaults[
                vault_index(self@.vaults, vault_id)
            ],
            r is Err ==> !has_vault(self@.vaults, vault_id) && r == Result::<
                &Vault,
                VaultError,
            >::Err(VaultError::VaultNotFound),
    {
        match self.find_vault_pos(vault_id) {
            Option::Some(k) => {
                proof {
                    lemma_vault_index_unique(self@.vaults, vault_id, k as int);
                }
                Result::Ok(&self.vaults[k])
            },
            Option::None => Result::Err(VaultError::VaultNotFound),
        }
    }

    /// An authorized member asks for the vault's secret: guarded by the
    /// access list and the single-flight rule, it starts a computation
    /// cycle and emits the request message naming the share handles.
    pub fn request_access(&mut self, vault_id: u64, requester: u64) -> (r: Result<
        ComputationRequest,
        VaultError,
    >)
        requires
            wf_registry(old(self)@),
        ensures
            wf_registry(final(self)@),
            final(self)@ == reg_request(old(self)@, vault_id, requester).0,
            r is Ok <==> reg_request(old(self)@, vault_id, requester).1 is Ok,
            r matches Result::Err(e) ==> reg_request(old(self)@, vault_id, requester).1
                == Result::<(), VaultError>::Err(e),
            r matches Result::Ok(cr) ==> cr.vault_id == vault_id && cr.share_handles@ == old(
                self,
            )@.vaults[vault_index(old(self)@.vaults, vault_id)].shares.map_values(
                |s: Share| s.x,
            ),
    {
        let k = match self.find_vault_pos(vault_id) {
            Option::Some(k) => k,
            Option::None => {
                return Result::Err(VaultError::VaultNotFound);
            },
        };
        proof {
            lemma_vault_index_unique(self@.vaults, vault_id, k as int);
        }
        if !contains_id(&self.vaults[k].acl, requester) {
            return Result::Err(VaultError::Unauthorized);
        }
        let st = self.vaults[k].lifecycle_state;
        if st == LifecycleState::ComputationRequested || st == LifecycleState::Computed {
            return Result::Err(VaultError::Busy);
        }
        let mut handles: Vec<u64> = Vec::new();
        let mut j: usize = 0;
        while j < self.vaults[k].shares.len()
            invariant
                k < self.vaults@.len(),
                j <= self.vaults@[k as int].shares@.len(),
                handles@ =~= self.vaults@[k as int].shares@.subrange(0, j as int).map_values(
                    |s: Share| s.x,
                ),
            decreases self.vaults@[k as int].shares@.len() - j,
        {
            handles.push(self.vaults[k].shares[j].x);
            proof {
                let pre = self.vaults@[k as int].shares@.subrange(0, j + 1);
                assert(pre.drop_last() =~= self.vaults@[k as int].shares@.subrange(0, j as int));
                assert(handles@ =~= pre.map_values(|s: Share| s.x));
            }
            j = j + 1;
        }
        proof {
            assert(self.vaults@[k as int].shares@.subrange(
                0,
                self.vaults@[k as int].shares@.len() as int,
            ) =~= self.vaults@[k as int].shares@);
        }
        let old_v = self.vaults.remove(k);
        let new_v = Vault {
            lifecycle_state: LifecycleState::ComputationRequested,
            pending_request: Option::Some(requester),
            computed_value: Option::None,
            proof_bytes: Option::None,
            ..old_v
        };
        let ghost nv = new_v@;
        self.vaults.insert(k, new_v);
        proof {
            assert(nv =~~= request_effect(old(self)@.vaults[k as int], requester));
            assert(self@.vaults =~~= old(self)@.vaults.update(k as int, nv));
            assert(self@ =~~= reg_request(old(self)@, vault_id, requester).0);
        }
        Result::Ok(ComputationRequest { vault_id, share_handles: handles })
    }

    /// The computation fabric's completion notice: a vault awaiting it
    /// records the reconstructed value and hands it back for attestation;
    /// a notice for any other vault, or a repeated one, is absorbed
    /// without effect.
    pub fn on_computation_complete(&mut self, vault_id: u64, value: u64) -> (r: Option<u64>)
        requires
            wf_registry(old(self)@),
        ensures
            wf_registry(final(self)@),
            final(self)@ == reg_complete(old(self)@, vault_id, value).0,
            r == reg_complete(old(self)@, vault_id, value).1,
    {
        let k = match self.find_vault_pos(vault_id) {
            Option::Some(k) => k,
            Option::None => {
                return Option::None;
            },
        };
        proof {
            lemma_vault_index_unique(self@.vaults, vault_id, k as int);
        }
        if !(self.vaults[k].lifecycle_state == LifecycleState::ComputationRequested) {
            return Option::None;
        }
        let old_v = self.vaults.remove(k);
        let new_v = Vault {
            lifecycle_state: LifecycleState::Computed,
            computed_value: Option::Some(value),
            ..old_v
        };
        let ghost nv = new_v@;
        self.vaults.insert(k, new_v);
        proof {
            assert(nv =~~= complete_effect(old(self)@.vaults[k as int], value));
            assert(self@.vaults =~~= old(self)@.vaults.update(k as int, nv));
            assert(self@ =~~= reg_complete(old(self)@, vault_id, value).0);
        }
        Option::Some(value)
    }

    /// The attestation completion: a vault holding a computed value
    /// stores the encoded proof, becomes `Attested`, and releases its
    /// pending slot; any other vault absorbs the notice. Returns whether
    /// the proof was stored.
    pub fn on_attestation_complete(&mut self, vault_id: u64, signatures: &Vec<Signature>) -> (r:
        bool)
        requires
            wf_registry(old(self)@),
            forall|k: int| 0 <= k < signatures@.len() ==> wf_signature(#[trigger] signatures@[k]),
        ensures
            wf_registry(final(self)@),
            final(self)@ == reg_attest(old(self)@, vault_id, signatures@).0,
            r == reg_attest(old(self)@, vault_id, signatures@).1,
    {
        let k = match self.find_vault_pos(vault_id) {
            Option::Some(k) => k,
            Option::None => {
                return false;
            },
        };
        proof {
            lemma_vault_index_unique(self@.vaults, vault_id, k as int);
        }
        if !(self.vaults[k].lifecycle_state == LifecycleState::Computed) {
            return false;
        }
        let proof_vec = encode_proof(signatures);
        let old_v = self.vaults.remove(k);
        let new_v = Vault {
            lifecycle_state: LifecycleState::Attested,
            pending_request: Option::None,
            proof_bytes: Option::Some(proof_vec),
            ..old_v
        };
        let ghost nv = new_v@;
        self.vaults.insert(k, new_v);
        proof {
            assert(nv =~~= attest_effect(old(self)@.vaults[k as int], signatures@));
            assert(self@.vaults =~~= old(self)@.vaults.update(k as int, nv));
            assert(self@ =~~= reg_attest(old(self)@, vault_id, signatures@).0);
        }
        true
    }

    /// Delivers the vault's released value to an authorized caller,
    /// re-encrypted under the caller's key. Requires a finished cycle: a
    /// vault not yet attested reports `Busy`. The guards run strictly
    /// before any cryptography.
    pub fn read_vault(&self, vault_id: u64, caller: u64, recipient: &RecipientKey) -> (r: Result<
        Vec<u8>,
        VaultError,
    >)
        requires
            wf_registry(self@),
            wf_recipient_key(*recipient),
        ensures
            !has_vault(self@.vaults, vault_id) ==> r == Result::<Vec<u8>, VaultError>::Err(
                VaultError::VaultNotFound,
            ),
            has_vault(self@.vaults, vault_id) && !id_in(
                self@.vaults[vault_index(self@.vaults, vault_id)].acl,
                caller,
            ) ==> r == Result::<Vec<u8>, VaultError>::Err(VaultError::Unauthorized),
            has_vault(self@.vaults, vault_id) && id_in(
                self@.vaults[vault_index(self@.vaults, vault_id)].acl,
                caller,
            ) && self@.vaults[vault_index(self@.vaults, vault_id)].lifecycle_state
                != LifecycleState::Attested ==> r == Result::<Vec<u8>, VaultError>::Err(
                VaultError::Busy,
            ),
            has_vault(self@.vaults, vault_id) && id_in(
                self@.vaults[vault_index(self@.vaults, vault_id)].acl,
                caller,
            ) && self@.vaults[vault_index(self@.vaults, vault_id)].lifecycle_state
                == LifecycleState::Attested ==> {
                let value = self@.vaults[vault_index(self@.vaults, vault_id)].computed_value
                    ->Some_0;
                let plaintext = decimal_of(value as nat);
                &&& (plaintext.len() > key_capacity(*recipient) <==> r == Result::<
                    Vec<u8>,
                    VaultError,
                >::Err(VaultError::PlaintextTooLarge))
                &&& (r matches Result::Ok(c) ==> c@.len() == recipient.modulus@.len())
                &&& (r is Err ==> r == Result::<Vec<u8>, VaultError>::Err(
                    VaultError::PlaintextTooLarge,
                ) || r == Result::<Vec<u8>, VaultError>::Err(VaultError::EncryptionFailure))
            },
    {
        let k = match self.find_vault_pos(vault_id) {
            Option::Some(k) => k,
            Option::None => {
                return Result::Err(VaultError::VaultNotFound);
            },
        };
        proof {
            lemma_vault_index_unique(self@.vaults, vault_id, k as int);
        }
        if !contains_id(&self.vaults[k].acl, caller) {
            return Result::Err(VaultError::Unauthorized);
        }
        if !(self.vaults[k].lifecycle_state == LifecycleState::Attested) {
            return Result::Err(VaultError::Busy);
        }
        let value = match self.vaults[k].computed_value {
            Option::Some(v) => v,
            Option::None => {
                return Result::Err(VaultError::Busy);
            },
        };
        let plaintext = u64_to_decimal(value);
        encrypt_for_delivery(&plaintext, recipient)
    }
}

/// Access-control enforcement: a request from a caller outside the
/// vault's list always fails `Unauthorized` and leaves every vault,
/// and in particular its lifecycle state, exactly as it was.
pub proof fn lemma_acl_enforced(r: RegistryView, id: u64, requester: u64)
    requires
        has_vault(r.vaults, id),
        !id_in(r.vaults[vault_index(r.vaults, id)].acl, requester),
    ensures
        reg_request(r, id, requester) == (
            r,
            Result::<(), VaultError>::Err(VaultError::Unauthorized),
        ),
{
}

/// Single flight: once a request is accepted on a vault, a further
/// request by any authorized member fails `Busy` and changes nothing,
/// until the cycle completes.
pub proof fn lemma_single_flight(r: RegistryView, id: u64, req1: u64, req2: u64)
    requires
        wf_registry(r),
        reg_request(r, id, req1).1 is Ok,
        id_in(r.vaults[vault_index(r.vaults, id)].acl, req2),
    ensures
        reg_request(reg_request(r, id, req1).0, id, req2) == (
            reg_request(r, id, req1).0,
            Result::<(), VaultError>::Err(VaultError::Busy),
        ),
{
    let k = vault_index(r.vaults, id);
    let r1 = reg_request(r, id, req1).0;
    assert(r1.vaults[k].id == id);
    assert(forall|k1: int, k2: int|
        0 <= k1 < k2 < r1.vaults.len() ==> r1.vaults[k1].id != r1.vaults[k2].id);
    lemma_vault_index_unique(r1.vaults, id, k);
    assert(r1.vaults[k].lifecycle_state == LifecycleState::ComputationRequested);
}

/// Idempotent completion: once a completion notice for a vault has been
/// processed, any further notice for it — a redelivery or even one with
/// another value — leaves the registry exactly as the first left it, and
/// offers no second value for attestation.
pub proof fn lemma_completion_idempotent(r: RegistryView, id: u64, value: u64, value2: u64)
    requires
        wf_registry(r),
    ensures
        reg_complete(reg_complete(r, id, value).0, id, value2).0 == reg_complete(r, id, value).0,
        reg_complete(r, id, value).1 is Some ==> reg_complete(
            reg_complete(r, id, value).0,
            id,
            value2,
        ).1 is None,
{
    let first = reg_complete(r, id, value);
    if has_vault(r.vaults, id) {
        let k = vault_index(r.vaults, id);
        let v = r.vaults[k];
        if v.lifecycle_state == LifecycleState::ComputationRequested {
            let r1 = first.0;
            assert(r1.vaults[k].id == id);
            assert(forall|k1: int, k2: int|
                0 <= k1 < k2 < r1.vaults.len() ==> r1.vaults[k1].id != r1.vaults[k2].id);
            lemma_vault_index_unique(r1.vaults, id, k);
            assert(r1.vaults[k].lifecycle_state == LifecycleState::Computed);
        }
    }
}

} // verus!
