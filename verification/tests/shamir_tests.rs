use zk_vaults::field::{field_add, field_mul, field_pow, FIELD_PRIME};
use zk_vaults::shamir::{reconstruct, split, split_with_coefficients, Share};
use zk_vaults::VaultError;

fn eval_poly(coeffs: &[u64], x: u64) -> u64 {
    let mut acc: u64 = 0;
    for &c in coeffs.iter().rev() {
        acc = field_add(c, field_mul(x, acc));
    }
    acc
}

#[test]
fn field_ops_exact_values() {
    assert_eq!(field_add(1, 2), 3);
    assert_eq!(field_add(FIELD_PRIME - 1, 1), 0);
    assert_eq!(field_mul(3, 4), 12);
    assert_eq!(field_pow(3, 4), 81);
    assert_eq!(field_pow(7, 0), 1);
    assert_eq!(field_pow(2, 61), 1); // 2^61 = P + 1
}

#[test]
fn threshold_correctness_all_three_subsets() {
    let coeffs: Vec<u64> = vec![42, 5, 7];
    let shares = split_with_coefficients(&coeffs, 4);
    assert_eq!(shares.len(), 4);
    for a in 0..4 {
        for b in (a + 1)..4 {
            for c in (b + 1)..4 {
                let subset: Vec<Share> = vec![shares[a], shares[b], shares[c]];
                assert_eq!(reconstruct(&subset, 3), Ok(42));
            }
        }
    }
}

#[test]
fn threshold_correctness_threshold_one() {
    let coeffs: Vec<u64> = vec![99];
    let shares = split_with_coefficients(&coeffs, 3);
    for s in &shares {
        assert_eq!(reconstruct(&vec![*s], 1), Ok(99));
    }
}

#[test]
fn threshold_correctness_full_set_random_split() {
    let secret: u64 = 123456789;
    let shares = split(secret, 5, 5).expect("split");
    assert_eq!(reconstruct(&shares, 5), Ok(secret));
}

#[test]
fn threshold_correctness_largest_secret() {
    let secret: u64 = FIELD_PRIME - 1;
    let shares = split(secret, 4, 2).expect("split");
    let subset: Vec<Share> = vec![shares[1], shares[3]];
    assert_eq!(reconstruct(&subset, 2), Ok(secret));
}

#[test]
fn split_rejects_bad_thresholds() {
    assert_eq!(split(1, 3, 0), Err(VaultError::InvalidThreshold));
    assert_eq!(split(1, 3, 4), Err(VaultError::InvalidThreshold));
    assert!(split(1, 3, 3).is_ok());
}

#[test]
fn reconstruct_insufficient_shares() {
    let coeffs: Vec<u64> = vec![42, 5, 7];
    let shares = split_with_coefficients(&coeffs, 4);
    let two: Vec<Share> = vec![shares[0], shares[1]];
    assert_eq!(reconstruct(&two, 3), Err(VaultError::InsufficientShares));
    // A repeated share counts once.
    let dup: Vec<Share> = vec![shares[0], shares[0], shares[1]];
    assert_eq!(reconstruct(&dup, 3), Err(VaultError::InsufficientShares));
}

#[test]
fn reconstruct_inconsistent_same_point() {
    let coeffs: Vec<u64> = vec![42, 5];
    let shares = split_with_coefficients(&coeffs, 3);
    let clash = Share { x: shares[0].x, y: field_add(shares[0].y, 1) };
    let bad: Vec<Share> = vec![shares[0], clash, shares[1]];
    assert_eq!(reconstruct(&bad, 2), Err(VaultError::InconsistentShares));
}

#[test]
fn reconstruct_detects_corrupt_extra_share() {
    let coeffs: Vec<u64> = vec![42, 5, 7];
    let shares = split_with_coefficients(&coeffs, 5);
    // Four shares, threshold three: the fourth must lie on the polynomial.
    let corrupt = Share { x: shares[4].x, y: field_add(shares[4].y, 1) };
    let bad: Vec<Share> = vec![shares[0], shares[1], shares[2], corrupt];
    assert_eq!(reconstruct(&bad, 3), Err(VaultError::InconsistentShares));
    // With a consistent fourth share it succeeds.
    let good: Vec<Share> = vec![shares[0], shares[1], shares[2], shares[4]];
    assert_eq!(reconstruct(&good, 3), Ok(42));
}

#[test]
fn single_share_consistent_with_any_secret() {
    // The share of secret 42 at point one under coefficient 5 ...
    let share_a = eval_poly(&[42, 5], 1);
    // ... is also the share of secret 7 under coefficient 40.
    let share_b = eval_poly(&[7, 40], 1);
    assert_eq!(share_a, share_b);
    // And for any candidate secret s there is such a coefficient.
    for s in [0u64, 1, 42, 1000003] {
        let c = (42 + 5 + FIELD_PRIME - s) % FIELD_PRIME;
        assert_eq!(eval_poly(&[s, c], 1), share_a);
    }
}
