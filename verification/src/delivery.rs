//! Final delivery: the released value is re-encrypted under the
//! requester's RSA public key with PKCS#1 v1.5 padding, so the transport
//! never carries the plaintext.
//!
//! The recipient's key is carried as the big-endian bytes of its modulus
//! and public exponent; the payload capacity of such a key is the modulus
//! length minus the eleven bytes the padding needs.

use vstd::prelude::*;
use crate::VaultError;

verus! {

/// A recipient's RSA public key as plain big-endian component bytes.
pub struct RecipientKey {
    /// The modulus, big-endian, without leading zero bytes.
    pub modulus: Vec<u8>,
    /// The public exponent, big-endian.
    pub exponent: Vec<u8>,
}

/// The key bytes are usable: the modulus is long enough to carry at
/// least one payload byte under the padding and starts with a nonzero
/// byte, so its byte length is the key's ciphertext size.
pub open spec fn wf_recipient_key(key: RecipientKey) -> bool {
    &&& key.modulus@.len() >= 12
    &&& key.modulus@[0] != 0
    &&& key.exponent@.len() >= 1
}

/// How many plaintext bytes fit under the key: the modulus length less
/// the eleven bytes of PKCS#1 v1.5 padding.
pub open spec fn key_capacity(key: RecipientKey) -> int {
    key.modulus@.len() - 11
}

/// The decimal ASCII rendering of a number, most significant digit first.
pub open spec fn decimal_of(n: nat) -> Seq<u8>
    decreases n,
{
    if n < 10 {
        seq![(48 + n) as u8]
    } else {
        decimal_of(n / 10) + seq![(48 + n % 10) as u8]
    }
}

/// Appends the decimal rendering of `v` to `out`.
fn push_decimal(out: &mut Vec<u8>, v: u64)
    ensures
        final(out)@ == old(out)@ + decimal_of(v as nat),
    decreases v,
{
    if v < 10 {
        out.push(48 + (v as u8));
        proof {
            assert(final(out)@ =~= old(out)@ + decimal_of(v as nat));
        }
    } else {
        push_decimal(out, v / 10);
        out.push(48 + ((v % 10) as u8));
        proof {
            assert(final(out)@ =~= old(out)@ + decimal_of(v as nat));
        }
    }
}

/// Renders a number as decimal ASCII bytes, as the delivered plaintext
/// form of a released secret.
pub fn u64_to_decimal(v: u64) -> (out: Vec<u8>)
    ensures
        out@ == decimal_of(v as nat),
{
    let mut out: Vec<u8> = Vec::new();
    push_decimal(&mut out, v);
    proof {
        assert(out@ =~= decimal_of(v as nat));
    }
    out
}

/// Relies on rsa::RsaPublicKey::encrypt with rsa::Pkcs1v15Encrypt: when
/// it succeeds, the ciphertext is exactly the key's size, which is the
/// modulus byte length since the leading modulus byte is nonzero; it
/// fails when the components do not form an acceptable key or the message
/// exceeds the capacity. The randomness comes from rand::thread_rng.
#[verifier::external_body]
fn rsa_encrypt_pkcs1v15(modulus: &Vec<u8>, exponent: &Vec<u8>, msg: &Vec<u8>) -> (r: Result<
    Vec<u8>,
    (),
>)
    requires
        modulus@.len() >= 1,
        modulus@[0] != 0,
    ensures
        r matches Result::Ok(c) ==> c@.len() == modulus@.len(),
{
    let n = rsa::BigUint::from_bytes_be(modulus.as_slice());
    let e = rsa::BigUint::from_bytes_be(exponent.as_slice());
    let key = match rsa::RsaPublicKey::new(n, e) {
        Ok(k) => k,
        Err(_) => {
            return Err(());
        },
    };
    let mut rng = rand::thread_rng();
    key.encrypt(&mut rng, rsa::Pkcs1v15Encrypt, msg.as_slice()).map_err(|_| ())
}

/// Folds the outcome of the encryption call into the library's error
/// space: a ciphertext passes through, a failure becomes
/// `EncryptionFailure`.
pub fn delivery_outcome(res: Result<Vec<u8>, ()>) -> (r: Result<Vec<u8>, VaultError>)
    ensures
        res matches Result::Ok(c) ==> r == Result::<Vec<u8>, VaultError>::Ok(c),
        res is Err ==> r == Result::<Vec<u8>, VaultError>::Err(VaultError::EncryptionFailure),
{
    match res {
        Result::Ok(c) => Result::Ok(c),
        Result::Err(_) => Result::Err(VaultError::EncryptionFailure),
    }
}

/// Encrypts a plaintext for delivery under the recipient's key. A
/// plaintext over the key's capacity is refused as `PlaintextTooLarge`
/// before any cryptography runs; when the underlying encryption succeeds
/// the ciphertext is exactly one key-size block, and when it fails the
/// call reports `EncryptionFailure`.
pub fn encrypt_for_delivery(plaintext: &Vec<u8>, key: &RecipientKey) -> (r: Result<
    Vec<u8>,
    VaultError,
>)
    requires
        wf_recipient_key(*key),
    ensures
        plaintext@.len() > key_capacity(*key) <==> r == Result::<Vec<u8>, VaultError>::Err(
            VaultError::PlaintextTooLarge,
        ),
        r matches Result::Ok(c) ==> c@.len() == key.modulus@.len(),
        r is Err ==> (r == Result::<Vec<u8>, VaultError>::Err(VaultError::PlaintextTooLarge) || r
            == Result::<Vec<u8>, VaultError>::Err(VaultError::EncryptionFailure)),
{
    if plaintext.len() > key.modulus.len() - 11 {
        return Result::Err(VaultError::PlaintextTooLarge);
    }
    delivery_outcome(rsa_encrypt_pkcs1v15(&key.modulus, &key.exponent, plaintext))
}

} // verus!
