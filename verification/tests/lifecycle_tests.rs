use rsa::traits::PublicKeyParts;
use rsa::Pkcs1v15Encrypt;
use zk_vaults::attest::{accept, begin};
use zk_vaults::delivery::{encrypt_for_delivery, u64_to_decimal, RecipientKey};
use zk_vaults::encoder::Signature;
use zk_vaults::registry::{LifecycleState, VaultRegistry};
use zk_vaults::shamir::{reconstruct, Share};
use zk_vaults::VaultError;

const A: u64 = 1;
const B: u64 = 2;
const C: u64 = 3;

fn sig(n: u8) -> Signature {
    let mut value_r = vec![0u8; 32];
    value_r[31] = n;
    let mut value_s = vec![0u8; 32];
    value_s[31] = n;
    Signature { value_r, value_s, recovery_indicator: n % 2 }
}

fn test_key() -> (rsa::RsaPrivateKey, RecipientKey) {
    let mut rng = rand::thread_rng();
    let private = rsa::RsaPrivateKey::new(&mut rng, 512).expect("keygen");
    let recipient = RecipientKey {
        modulus: private.n().to_bytes_be(),
        exponent: private.e().to_bytes_be(),
    };
    (private, recipient)
}

#[test]
fn create_vault_validations() {
    let mut reg = VaultRegistry::new();
    assert_eq!(reg.create_vault(A, vec![], 42, 4, 3), Err(VaultError::EmptyAcl));
    assert_eq!(reg.create_vault(A, vec![A, B, A], 42, 4, 3), Err(VaultError::DuplicateMember));
    assert_eq!(reg.create_vault(A, vec![A, B], 42, 4, 0), Err(VaultError::InvalidThreshold));
    assert_eq!(reg.create_vault(A, vec![A, B], 42, 4, 5), Err(VaultError::InvalidThreshold));
    // An empty list is reported before the threshold is looked at.
    assert_eq!(reg.create_vault(A, vec![], 42, 4, 0), Err(VaultError::EmptyAcl));
    assert_eq!(reg.create_vault(A, vec![A, B], 42, 4, 3), Ok(0));
    assert_eq!(reg.create_vault(A, vec![A], 7, 1, 1), Ok(1));
}

#[test]
fn unknown_vault_reported() {
    let mut reg = VaultRegistry::new();
    assert!(matches!(reg.load_vault(9), Err(VaultError::VaultNotFound)));
    assert!(matches!(reg.request_access(9, A), Err(VaultError::VaultNotFound)));
    let (_private, recipient) = test_key();
    assert_eq!(reg.read_vault(9, A, &recipient), Err(VaultError::VaultNotFound));
}

#[test]
fn acl_enforced_on_request() {
    let mut reg = VaultRegistry::new();
    let vid = reg.create_vault(A, vec![A, B], 42, 4, 3).unwrap();
    assert!(matches!(reg.request_access(vid, C), Err(VaultError::Unauthorized)));
    // The failed request mutated nothing.
    let vault = reg.load_vault(vid).unwrap();
    assert_eq!(vault.lifecycle_state, LifecycleState::Created);
    assert_eq!(vault.pending_request, None);
}

#[test]
fn single_flight_second_request_busy() {
    let mut reg = VaultRegistry::new();
    let vid = reg.create_vault(A, vec![A, B], 42, 4, 3).unwrap();
    assert!(reg.request_access(vid, A).is_ok());
    assert!(matches!(reg.request_access(vid, B), Err(VaultError::Busy)));
    let vault = reg.load_vault(vid).unwrap();
    assert_eq!(vault.lifecycle_state, LifecycleState::ComputationRequested);
    assert_eq!(vault.pending_request, Some(A));
    // An outsider is still told Unauthorized, not Busy.
    assert!(matches!(reg.request_access(vid, C), Err(VaultError::Unauthorized)));
    // The vault stays busy through the Computed phase as well.
    reg.on_computation_complete(vid, 42);
    assert!(matches!(reg.request_access(vid, B), Err(VaultError::Busy)));
}

#[test]
fn idempotent_completion() {
    let mut reg = VaultRegistry::new();
    let vid = reg.create_vault(A, vec![A, B], 42, 4, 3).unwrap();
    reg.request_access(vid, B).unwrap();
    assert_eq!(reg.on_computation_complete(vid, 42), Some(42));
    let vault = reg.load_vault(vid).unwrap();
    assert_eq!(vault.lifecycle_state, LifecycleState::Computed);
    assert_eq!(vault.computed_value, Some(42));
    // The duplicate notice is absorbed: no new attestation, same state.
    assert_eq!(reg.on_computation_complete(vid, 42), None);
    let vault = reg.load_vault(vid).unwrap();
    assert_eq!(vault.lifecycle_state, LifecycleState::Computed);
    assert_eq!(vault.computed_value, Some(42));
    // A notice for a vault awaiting nothing is absorbed too.
    let vid2 = reg.create_vault(A, vec![A], 7, 2, 2).unwrap();
    assert_eq!(reg.on_computation_complete(vid2, 7), None);
    assert_eq!(reg.load_vault(vid2).unwrap().lifecycle_state, LifecycleState::Created);
}

#[test]
fn end_to_end_scenario() {
    let mut reg = VaultRegistry::new();
    let vid = reg.create_vault(A, vec![A, B], 42, 4, 3).unwrap();

    // B, an authorized member, requests access.
    let request = reg.request_access(vid, B).expect("authorized request");
    assert_eq!(request.vault_id, vid);
    assert_eq!(request.share_handles, vec![1, 2, 3, 4]);
    assert_eq!(reg.load_vault(vid).unwrap().lifecycle_state, LifecycleState::ComputationRequested);

    // The computation fabric reconstructs the secret from three shares.
    let shares: Vec<Share> = reg.load_vault(vid).unwrap().shares[0..3].to_vec();
    let value = reconstruct(&shares, 3).expect("threshold met");
    assert_eq!(value, 42);

    // Its completion notice moves the vault to Computed and starts attestation.
    let to_attest = reg.on_computation_complete(vid, value);
    assert_eq!(to_attest, Some(42));
    assert_eq!(reg.load_vault(vid).unwrap().lifecycle_state, LifecycleState::Computed);

    // Three of the four expected signers attest.
    let mut request = begin(value, vec![10, 20, 30, 40], 3);
    assert_eq!(accept(&mut request, 10, sig(1)), Ok(false));
    assert_eq!(accept(&mut request, 40, sig(4)), Ok(false));
    assert_eq!(accept(&mut request, 20, sig(2)), Ok(true));
    assert!(reg.on_attestation_complete(vid, &request.accepted_signatures));

    // The stored proof holds exactly three bracketed entries in acceptance order.
    let vault = reg.load_vault(vid).unwrap();
    assert_eq!(vault.lifecycle_state, LifecycleState::Attested);
    assert_eq!(vault.pending_request, None);
    let proof_text = String::from_utf8(vault.proof_bytes.clone().unwrap()).unwrap();
    assert!(proof_text.starts_with('[') && proof_text.ends_with(']'));
    let entries: Vec<&str> = proof_text[1..proof_text.len() - 1].split(", ").collect();
    assert_eq!(entries.len(), 3);
    for entry in &entries {
        assert_eq!(entry.len(), 132);
        assert!(entry.starts_with("0x"));
    }

    // B reads the vault: the ciphertext decrypts, under B's key alone, to 42.
    let (private, recipient) = test_key();
    let ciphertext = reg.read_vault(vid, B, &recipient).expect("delivery");
    assert_eq!(ciphertext.len(), recipient.modulus.len());
    let plaintext = private.decrypt(Pkcs1v15Encrypt, &ciphertext).expect("decrypt");
    assert_eq!(plaintext, b"42".to_vec());

    // An unauthorized caller still cannot read it, and the state stands.
    assert_eq!(reg.read_vault(vid, C, &recipient), Err(VaultError::Unauthorized));
    assert_eq!(reg.load_vault(vid).unwrap().lifecycle_state, LifecycleState::Attested);

    // A fresh cycle may start after attestation.
    assert!(reg.request_access(vid, A).is_ok());
    assert_eq!(reg.load_vault(vid).unwrap().lifecycle_state, LifecycleState::ComputationRequested);
    assert_eq!(reg.load_vault(vid).unwrap().proof_bytes, None);
}

#[test]
fn read_before_attestation_is_busy() {
    let mut reg = VaultRegistry::new();
    let vid = reg.create_vault(A, vec![A], 42, 2, 2).unwrap();
    let (_private, recipient) = test_key();
    assert_eq!(reg.read_vault(vid, A, &recipient), Err(VaultError::Busy));
    reg.request_access(vid, A).unwrap();
    assert_eq!(reg.read_vault(vid, A, &recipient), Err(VaultError::Busy));
}

#[test]
fn delivery_plaintext_too_large() {
    let mut modulus = vec![0u8; 12];
    modulus[0] = 0x80;
    let key = RecipientKey { modulus, exponent: vec![1, 0, 1] };
    // Capacity is one byte; three bytes of plaintext are refused.
    let plaintext = u64_to_decimal(123);
    assert_eq!(encrypt_for_delivery(&plaintext, &key), Err(VaultError::PlaintextTooLarge));
}

#[test]
fn delivery_encryption_failure_on_bad_key() {
    // A 64-byte modulus admits the plaintext, but an even public exponent
    // is not an acceptable RSA key.
    let mut modulus = vec![0u8; 64];
    modulus[0] = 0x80;
    modulus[63] = 1;
    let key = RecipientKey { modulus, exponent: vec![4] };
    let plaintext = u64_to_decimal(42);
    assert_eq!(encrypt_for_delivery(&plaintext, &key), Err(VaultError::EncryptionFailure));
}

#[test]
fn decimal_rendering_exact() {
    assert_eq!(u64_to_decimal(0), b"0".to_vec());
    assert_eq!(u64_to_decimal(42), b"42".to_vec());
    assert_eq!(u64_to_decimal(1000003), b"1000003".to_vec());
}
