use zk_vaults::attest::{accept, begin};
use zk_vaults::encoder::{encode, encode_proof, Signature};
use zk_vaults::VaultError;

fn sig_with(last_r: u8, last_s: u8, rec: u8) -> Signature {
    let mut value_r = vec![0u8; 32];
    value_r[31] = last_r;
    let mut value_s = vec![0u8; 32];
    value_s[31] = last_s;
    Signature { value_r, value_s, recovery_indicator: rec }
}

#[test]
fn encoding_deterministic_exact() {
    let sig = sig_with(1, 2, 1);
    let expected = format!("0x{}1{}2{}", "0".repeat(63), "0".repeat(63), "1c");
    assert_eq!(encode(&sig), expected.as_bytes().to_vec());
    assert_eq!(encode(&sig).len(), 132);
    // Encoding twice gives the identical string.
    assert_eq!(encode(&sig), encode(&sig));
}

#[test]
fn encoding_recovery_byte_zero() {
    let sig = sig_with(0xab, 0xcd, 0);
    let enc = encode(&sig);
    let text = String::from_utf8(enc).unwrap();
    assert!(text.starts_with("0x"));
    assert!(text.ends_with("1b"));
    assert_eq!(&text[2 + 62..2 + 64], "ab");
    assert_eq!(&text[2 + 64 + 62..2 + 64 + 64], "cd");
}

#[test]
fn proof_encoding_brackets_and_order() {
    let s1 = sig_with(1, 1, 0);
    let s2 = sig_with(2, 2, 1);
    let one = encode_proof(&vec![s1.clone()]);
    let expected_one = format!("[{}]", String::from_utf8(encode(&s1)).unwrap());
    assert_eq!(one, expected_one.as_bytes().to_vec());
    let two = encode_proof(&vec![s1.clone(), s2.clone()]);
    let expected_two = format!(
        "[{}, {}]",
        String::from_utf8(encode(&s1)).unwrap(),
        String::from_utf8(encode(&s2)).unwrap()
    );
    assert_eq!(two, expected_two.as_bytes().to_vec());
    let empty = encode_proof(&Vec::new());
    assert_eq!(empty, b"[]".to_vec());
}

#[test]
fn attestation_quorum_and_order() {
    let mut req = begin(42, vec![10, 20, 30, 40], 3);
    assert_eq!(accept(&mut req, 10, sig_with(1, 1, 0)), Ok(false));
    assert_eq!(accept(&mut req, 30, sig_with(3, 3, 1)), Ok(false));
    // Quorum is first met on the third distinct signer.
    assert_eq!(accept(&mut req, 20, sig_with(2, 2, 0)), Ok(true));
    assert_eq!(req.accepted_signers, vec![10, 30, 20]);
    assert_eq!(req.accepted_signatures.len(), 3);
    // The proof lists the signatures in acceptance order, not signer order.
    let proof = encode_proof(&req.accepted_signatures);
    let expected = format!(
        "[{}, {}, {}]",
        String::from_utf8(encode(&sig_with(1, 1, 0))).unwrap(),
        String::from_utf8(encode(&sig_with(3, 3, 1))).unwrap(),
        String::from_utf8(encode(&sig_with(2, 2, 0))).unwrap()
    );
    assert_eq!(proof, expected.as_bytes().to_vec());
}

#[test]
fn attestation_unknown_signer_rejected() {
    let mut req = begin(42, vec![10, 20], 2);
    assert_eq!(accept(&mut req, 99, sig_with(1, 1, 0)), Err(VaultError::UnknownSigner));
    assert_eq!(req.accepted_signers.len(), 0);
}

#[test]
fn attestation_duplicate_signer_absorbed() {
    let mut req = begin(42, vec![10, 20], 2);
    assert_eq!(accept(&mut req, 10, sig_with(1, 1, 0)), Ok(false));
    // A redelivered signature changes nothing and never completes a quorum.
    assert_eq!(accept(&mut req, 10, sig_with(9, 9, 1)), Ok(false));
    assert_eq!(req.accepted_signers, vec![10]);
    assert_eq!(req.accepted_signatures.len(), 1);
    assert_eq!(accept(&mut req, 20, sig_with(2, 2, 0)), Ok(true));
}
