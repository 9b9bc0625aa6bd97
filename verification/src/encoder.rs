//! Canonical encoding of per-party signatures, and of a quorum of them
//! into one externally verifiable proof.
//!
//! The wire format is ASCII: each signature becomes `0x`, then 64
//! lowercase hex characters for `r`, 64 for `s`, and 2 for the recovery
//! byte (the indicator plus 27), 132 characters in all; a proof wraps the
//! encodings in brackets, comma-and-space separated, in acceptance order.

use vstd::prelude::*;

verus! {

/// A single party's signature over the attested value.
#[derive(Clone, Debug, PartialEq, Eq)]
pub struct Signature {
    /// The 32-byte `r` component.
    pub value_r: Vec<u8>,
    /// The 32-byte `s` component.
    pub value_s: Vec<u8>,
    /// The recovery indicator, zero or one.
    pub recovery_indicator: u8,
}

/// A signature is well formed when both components are exactly 32 bytes
/// and the recovery indicator is a single bit.
pub open spec fn wf_signature(sig: Signature) -> bool {
    &&& sig.value_r@.len() == 32
    &&& sig.value_s@.len() == 32
    &&& sig.recovery_indicator <= 1
}

/// The lowercase ASCII hex digit for a nibble.
pub open spec fn hex_digit(n: u8) -> u8
    recommends
        n < 16,
{
    if n < 10 {
        (48 + n) as u8
    } else {
        (87 + n) as u8
    }
}

/// The two ASCII hex digits of one byte, high nibble first.
pub open spec fn hex_byte(b: u8) -> Seq<u8> {
    seq![hex_digit(b / 16), hex_digit(b % 16)]
}

/// The ASCII hex rendering of a byte string, two digits per byte.
pub open spec fn hex_of(bytes: Seq<u8>) -> Seq<u8>
    decreases bytes.len(),
{
    if bytes.len() == 0 {
        Seq::empty()
    } else {
        hex_of(bytes.drop_last()) + hex_byte(bytes.last())
    }
}

/// Hex rendering doubles the length.
pub proof fn lemma_hex_of_len(bytes: Seq<u8>)
    ensures
        hex_of(bytes).len() == 2 * bytes.len(),
    decreases bytes.len(),
{
    if bytes.len() > 0 {
        lemma_hex_of_len(bytes.drop_last());
    }
}

/// The canonical encoding of one signature: `0x`, the hex of `r`, the hex
/// of `s`, and the hex of the recovery indicator plus 27.
pub open spec fn sig_encoding(sig: Signature) -> Seq<u8> {
    seq![48u8, 120u8] + hex_of(sig.value_r@) + hex_of(sig.value_s@) + hex_byte(
        (sig.recovery_indicator + 27) as u8,
    )
}

/// The bracket-free body of a proof: the signature encodings joined by a
/// comma and a space, in sequence order.
pub open spec fn proof_body(sigs: Seq<Signature>) -> Seq<u8>
    decreases sigs.len(),
{
    if sigs.len() == 0 {
        Seq::empty()
    } else if sigs.len() == 1 {
        sig_encoding(sigs[0])
    } else {
        proof_body(sigs.drop_last()) + seq![44u8, 32u8] + sig_encoding(sigs.last())
    }
}

/// A whole proof: the joined signature encodings wrapped in brackets.
pub open spec fn encoded_proof(sigs: Seq<Signature>) -> Seq<u8> {
    seq![91u8] + proof_body(sigs) + seq![93u8]
}

/// Computes the lowercase ASCII hex digit for a nibble.
fn hex_digit_exec(n: u8) -> (r: u8)
    requires
        n < 16,
    ensures
        r == hex_digit(n),
{
    if n < 10 {
        48 + n
    } else {
        87 + n
    }
}

/// Appends the hex rendering of the given bytes to `out`.
fn push_hex(out: &mut Vec<u8>, bytes: &Vec<u8>)
    ensures
        final(out)@ == old(out)@ + hex_of(bytes@),
{
    let mut i: usize = 0;
    while i < bytes.len()
        invariant
            i <= bytes@.len(),
            out@ == old(out)@ + hex_of(bytes@.subrange(0, i as int)),
        decreases bytes@.len() - i,
    {
        let b = bytes[i];
        out.push(hex_digit_exec(b / 16));
        out.push(hex_digit_exec(b % 16));
        proof {
            let pre = bytes@.subrange(0, i + 1);
            assert(pre.drop_last() =~= bytes@.subrange(0, i as int));
            assert(pre.last() == bytes@[i as int]);
            assert(out@ =~= old(out)@ + hex_of(pre));
        }
        i = i + 1;
    }
    proof {
        assert(bytes@.subrange(0, bytes@.len() as int) =~= bytes@);
        assert(hex_of(bytes@.subrange(0, 0)) =~= Seq::<u8>::empty());
    }
}

/// Encodes one signature into its canonical 132-character ASCII form.
pub fn encode(sig: &Signature) -> (out: Vec<u8>)
    requires
        wf_signature(*sig),
    ensures
        out@ == sig_encoding(*sig),
        out@.len() == 132,
{
    let mut out: Vec<u8> = Vec::new();
    out.push(48);
    out.push(120);
    push_hex(&mut out, &sig.value_r);
    push_hex(&mut out, &sig.value_s);
    let rec_byte: u8 = sig.recovery_indicator + 27;
    out.push(hex_digit_exec(rec_byte / 16));
    out.push(hex_digit_exec(rec_byte % 16));
    proof {
        assert(out@ =~= sig_encoding(*sig));
        lemma_hex_of_len(sig.value_r@);
        lemma_hex_of_len(sig.value_s@);
    }
    out
}

/// Encodes an accepted quorum of signatures into one proof, in the order
/// the signatures stand in the list.
pub fn encode_proof(sigs: &Vec<Signature>) -> (out: Vec<u8>)
    requires
        forall|k: int| 0 <= k < sigs@.len() ==> wf_signature(#[trigger] sigs@[k]),
    ensures
        out@ == encoded_proof(sigs@),
{
    let mut out: Vec<u8> = Vec::new();
    out.push(91);
    let mut i: usize = 0;
    while i < sigs.len()
        invariant
            i <= sigs@.len(),
            forall|k: int| 0 <= k < sigs@.len() ==> wf_signature(#[trigger] sigs@[k]),
            out@ == seq![91u8] + proof_body(sigs@.subrange(0, i as int)),
        decreases sigs@.len() - i,
    {
        if i > 0 {
            out.push(44);
            out.push(32);
        }
        let mut enc = encode(&sigs[i]);
        out.append(&mut enc);
        proof {
            let pre = sigs@.subrange(0, i + 1);
            assert(pre.drop_last() =~= sigs@.subrange(0, i as int));
            assert(pre.last() == sigs@[i as int]);
            if i == 0 {
                assert(proof_body(pre) == sig_encoding(sigs@[0]));
            }
            assert(out@ =~= seq![91u8] + proof_body(pre));
        }
        i = i + 1;
    }
    out.push(93);
    proof {
        assert(sigs@.subrange(0, sigs@.len() as int) =~= sigs@);
        assert(out@ =~= encoded_proof(sigs@));
    }
    out
}

} // verus!
