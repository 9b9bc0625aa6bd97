//! Threshold secret sharing over the fixed prime field.
//!
//! A secret below the field modulus is split into `n` shares so that any
//! `t` of them reconstruct it: the shares are the values of a degree-
//! below-`t` polynomial whose constant term is the secret, taken at the
//! points `1..=n`, and reconstruction interpolates the polynomial at zero.

use vstd::prelude::*;
use crate::field::{
    add_f, field_add, field_mul, field_pow, field_reduce, field_sub, in_field, inv_f, mul_f,
    sub_f, FIELD_PRIME,
};
use crate::VaultError;

verus! {

/// One share: the evaluation point and the polynomial's value there.
#[derive(Clone, Copy, Debug, PartialEq, Eq, Structural)]
pub struct Share {
    pub x: u64,
    pub y: u64,
}

/// The polynomial with the given coefficients (constant term first),
/// evaluated at `x` in the field.
pub open spec fn poly_eval(coeffs: Seq<u64>, x: nat) -> nat
    decreases coeffs.len(),
{
    if coeffs.len() == 0 {
        0
    } else {
        add_f(
            coeffs[0] as nat,
            mul_f(x, poly_eval(coeffs.subrange(1, coeffs.len() as int), x)),
        )
    }
}

/// The coefficient sequence `cs` explains `shares` as a split of `secret`
/// with threshold `t`: the secret is the constant term, and share `i` is
/// the polynomial's value at `i + 1`.
pub open spec fn is_split_of(cs: Seq<u64>, secret: u64, t: nat, shares: Seq<Share>) -> bool {
    &&& cs.len() == t
    &&& t >= 1
    &&& cs[0] == secret
    &&& (forall|k: int| 0 <= k < cs.len() ==> in_field(#[trigger] cs[k]))
    &&& (forall|i: int|
        0 <= i < shares.len() ==> (#[trigger] shares[i]).x == i + 1 && shares[i].y as nat
            == poly_eval(cs, (i + 1) as nat))
}

/// The partial Lagrange basis factor for index `i` at point `x`, over the
/// first `j` shares: the product of `(x - x_k) / (x_i - x_k)` for `k < j`,
/// `k != i`, with division written as multiplication by `x^(P-2)`.
pub open spec fn lag_basis_partial(shares: Seq<Share>, i: int, x: nat, j: int) -> nat
    decreases j,
{
    if j <= 0 {
        1nat % (FIELD_PRIME as nat)
    } else {
        let prev = lag_basis_partial(shares, i, x, j - 1);
        if j - 1 == i {
            prev
        } else {
            mul_f(
                prev,
                mul_f(
                    sub_f(x, shares[j - 1].x as nat),
                    inv_f(sub_f(shares[i].x as nat, shares[j - 1].x as nat)),
                ),
            )
        }
    }
}

/// The full Lagrange basis factor for index `i` at point `x`.
pub open spec fn lag_basis(shares: Seq<Share>, i: int, x: nat) -> nat {
    lag_basis_partial(shares, i, x, shares.len() as int)
}

/// The partial Lagrange interpolation sum over the first `i` shares.
pub open spec fn lagrange_partial(shares: Seq<Share>, x: nat, i: int) -> nat
    decreases i,
{
    if i <= 0 {
        0
    } else {
        add_f(
            lagrange_partial(shares, x, i - 1),
            mul_f(shares[i - 1].y as nat, lag_basis(shares, i - 1, x)),
        )
    }
}

/// The interpolation of all the given shares, evaluated at `x`.
pub open spec fn lagrange_eval(shares: Seq<Share>, x: nat) -> nat {
    lagrange_partial(shares, x, shares.len() as int)
}

/// Every share in the sequence has both coordinates in the field.
pub open spec fn shares_in_field(shares: Seq<Share>) -> bool {
    forall|k: int|
        0 <= k < shares.len() ==> in_field((#[trigger] shares[k]).x) && in_field(shares[k].y)
}

/// Some earlier share uses this evaluation point.
pub open spec fn has_x(u: Seq<Share>, x: u64) -> bool {
    exists|k: int| 0 <= k < u.len() && u[k].x == x
}

/// Every share in `u` at `s`'s evaluation point carries `s`'s value.
pub open spec fn agrees(u: Seq<Share>, s: Share) -> bool {
    forall|k: int| 0 <= k < u.len() && (#[trigger] u[k]).x == s.x ==> u[k].y == s.y
}

/// Folds the shares left to right into a duplicate-free sequence: an exact
/// repeat is dropped, and two shares at one point with different values
/// make the whole input inconsistent (`None`).
pub open spec fn dedup_shares(shares: Seq<Share>) -> Option<Seq<Share>>
    decreases shares.len(),
{
    if shares.len() == 0 {
        Some(Seq::empty())
    } else {
        match dedup_shares(shares.drop_last()) {
            Option::None => Option::None,
            Option::Some(u) => {
                let s = shares.last();
                if !agrees(u, s) {
                    Option::None
                } else if has_x(u, s.x) {
                    Option::Some(u)
                } else {
                    Option::Some(u.push(s))
                }
            },
        }
    }
}

/// What `reconstruct` returns: the deduplicated shares must number at
/// least the threshold, every share beyond the first `t` must lie on the
/// polynomial interpolated through those `t`, and the result is that
/// polynomial's value at zero.
pub open spec fn reconstruct_spec(shares: Seq<Share>, t: int) -> Result<u64, VaultError> {
    match dedup_shares(shares) {
        Option::None => Result::Err(VaultError::InconsistentShares),
        Option::Some(u) => {
            if u.len() < t {
                Result::Err(VaultError::InsufficientShares)
            } else if exists|k: int|
                t <= k < u.len() && (#[trigger] u[k]).y as nat != lagrange_eval(
                    u.subrange(0, t),
                    u[k].x as nat,
                ) {
                Result::Err(VaultError::InconsistentShares)
            } else {
                Result::Ok(lagrange_eval(u.subrange(0, t), 0) as u64)
            }
        },
    }
}

/// A Lagrange interpolation value is always a field element.
pub proof fn lemma_lagrange_in_field(shares: Seq<Share>, x: nat)
    ensures
        lagrange_eval(shares, x) < FIELD_PRIME,
{
    let i = shares.len() as int;
    if i <= 0 {
        assert(lagrange_partial(shares, x, i) == 0);
    }
}

/// Threshold correctness, shown for threshold one: any single share cut
/// from a threshold-one split reconstructs exactly the secret.
pub proof fn lemma_threshold_one_correct(cs: Seq<u64>, secret: u64, shares: Seq<Share>, i: int)
    requires
        is_split_of(cs, secret, 1nat, shares),
        in_field(secret),
        0 <= i < shares.len(),
        shares_in_field(shares),
    ensures
        reconstruct_spec(seq![shares[i]], 1) == Result::<u64, VaultError>::Ok(secret),
{
    let s = shares[i];
    assert(cs.subrange(1, 1) =~= Seq::<u64>::empty());
    assert(poly_eval(Seq::<u64>::empty(), (i + 1) as nat) == 0);
    assert(poly_eval(cs, (i + 1) as nat) == add_f(secret as nat, mul_f((i + 1) as nat, 0)));
    assert(mul_f((i + 1) as nat, 0) == 0) by {
        assert((i + 1) * 0 == 0);
    }
    assert(s.y == secret);
    let single = seq![s];
    assert(single.drop_last() =~= Seq::<Share>::empty());
    assert(dedup_shares(single.drop_last()) == Option::Some(Seq::<Share>::empty()));
    assert(!has_x(Seq::<Share>::empty(), s.x));
    assert(dedup_shares(single) == Option::Some(Seq::<Share>::empty().push(s)));
    assert(Seq::<Share>::empty().push(s) =~= single);
    let base = single.subrange(0, 1);
    assert(base =~= single);
    assert(lag_basis_partial(single, 0, 0, 0) == 1nat % (FIELD_PRIME as nat));
    assert(lag_basis(single, 0, 0) == 1);
    assert(lagrange_partial(single, 0, 0) == 0);
    assert(mul_f(s.y as nat, 1) == s.y as nat) by {
        assert((s.y as nat) * 1 == s.y as nat);
    }
    assert(lagrange_eval(single, 0) == add_f(0, s.y as nat));
    assert(lagrange_eval(single, 0) == secret as nat);
}

/// Confidentiality, shown structurally for threshold two at evaluation
/// point one: the share value a holder sees is consistent with every
/// candidate secret, under a matching choice of the blinding coefficient,
/// so the share alone cannot tell two secrets apart.
pub proof fn lemma_share_hides_secret(s1: u64, c1: u64, s2: u64)
    requires
        in_field(s1),
        in_field(c1),
        in_field(s2),
    ensures
        exists|c2: u64|
            in_field(c2) && poly_eval(seq![s2, c2], 1) == poly_eval(seq![s1, c1], 1),
{
    let p = FIELD_PRIME as int;
    let c2 = (((s1 + c1 + FIELD_PRIME - s2) as int % p) as u64);
    assert(in_field(c2));
    let d = s1 + c1 + FIELD_PRIME - s2;
    vstd::arithmetic::div_mod::lemma_add_mod_noop(s2 as int, d as int, p);
    vstd::arithmetic::div_mod::lemma_mod_multiples_vanish(1, (s1 + c1) as int, p);
    assert((s2 + c2) as int % p == (s1 + c1) as int % p);
    lemma_poly_eval_two_at_one(s1, c1);
    lemma_poly_eval_two_at_one(s2, c2);
}

/// A degree-one polynomial evaluated at one is the reduced coefficient sum.
proof fn lemma_poly_eval_two_at_one(a: u64, b: u64)
    requires
        in_field(a),
        in_field(b),
    ensures
        poly_eval(seq![a, b], 1) == add_f(a as nat, b as nat),
{
    let cs = seq![a, b];
    assert(cs.subrange(1, 2) =~= seq![b]);
    assert(seq![b].subrange(1, 1) =~= Seq::<u64>::empty());
    assert(poly_eval(Seq::<u64>::empty(), 1) == 0);
    assert(poly_eval(seq![b], 1) == add_f(b as nat, mul_f(1, 0)));
    assert(mul_f(1, 0) == 0) by {
        assert(1 * 0 == 0);
    }
    assert(poly_eval(seq![b], 1) == b as nat);
    assert(mul_f(1, b as nat) == b as nat) by {
        assert(1 * (b as nat) == b as nat);
    }
}

/// Evaluates the polynomial with the given coefficients at `x`, by
/// Horner's rule from the highest coefficient down.
pub fn poly_eval_exec(coeffs: &Vec<u64>, x: u64) -> (r: u64)
    requires
        in_field(x),
        forall|k: int| 0 <= k < coeffs@.len() ==> in_field(#[trigger] coeffs@[k]),
    ensures
        r as nat == poly_eval(coeffs@, x as nat),
        in_field(r),
{
    let mut acc: u64 = 0;
    let mut i: usize = coeffs.len();
    while i > 0
        invariant
            i <= coeffs@.len(),
            in_field(x),
            in_field(acc),
            forall|k: int| 0 <= k < coeffs@.len() ==> in_field(#[trigger] coeffs@[k]),
            acc as nat == poly_eval(coeffs@.subrange(i as int, coeffs@.len() as int), x as nat),
        decreases i,
    {
        i = i - 1;
        acc = field_add(coeffs[i], field_mul(x, acc));
        proof {
            let whole = coeffs@.subrange(i as int, coeffs@.len() as int);
            assert(whole.subrange(1, whole.len() as int) =~= coeffs@.subrange(
                i + 1,
                coeffs@.len() as int,
            ));
        }
    }
    proof {
        assert(coeffs@.subrange(0, coeffs@.len() as int) =~= coeffs@);
    }
    acc
}

/// Splits a secret deterministically from explicit polynomial
/// coefficients: coefficient zero is the secret, the rest came from the
/// caller's entropy. Produces shares at the points `1..=n`.
pub fn split_with_coefficients(coeffs: &Vec<u64>, n: usize) -> (shares: Vec<Share>)
    requires
        1 <= coeffs@.len(),
        n < FIELD_PRIME,
        forall|k: int| 0 <= k < coeffs@.len() ==> in_field(#[trigger] coeffs@[k]),
    ensures
        shares@.len() == n,
        is_split_of(coeffs@, coeffs@[0], coeffs@.len() as nat, shares@),
        shares_in_field(shares@),
{
    let mut shares: Vec<Share> = Vec::new();
    let mut i: usize = 0;
    while i < n
        invariant
            i <= n,
            n < FIELD_PRIME,
            1 <= coeffs@.len(),
            forall|k: int| 0 <= k < coeffs@.len() ==> in_field(#[trigger] coeffs@[k]),
            shares@.len() == i,
            forall|j: int|
                0 <= j < i ==> (#[trigger] shares@[j]).x == j + 1 && shares@[j].y as nat
                    == poly_eval(coeffs@, (j + 1) as nat) && in_field(shares@[j].x) && in_field(
                    shares@[j].y,
                ),
        decreases n - i,
    {
        let x: u64 = (i as u64) + 1;
        let y = poly_eval_exec(coeffs, x);
        shares.push(Share { x, y });
        i = i + 1;
    }
    shares
}

/// Relies on rand::random: an unpredictable machine word drawn from the
/// thread-local generator; nothing is promised of the value.
#[verifier::external_body]
fn draw_word() -> u64 {
    rand::random::<u64>()
}

/// Splits `secret` into `n` shares with reconstruction threshold `t`,
/// drawing the non-constant polynomial coefficients from fresh
/// randomness. Fails exactly when the threshold is zero or larger than
/// the share count.
pub fn split(secret: u64, n: usize, t: usize) -> (r: Result<Vec<Share>, VaultError>)
    requires
        in_field(secret),
        n < FIELD_PRIME,
    ensures
        r is Err <==> (t < 1 || t > n),
        r is Err ==> r == Result::<Vec<Share>, VaultError>::Err(VaultError::InvalidThreshold),
        r matches Result::Ok(shares) ==> shares@.len() == n && shares_in_field(shares@) && (
        exists|cs: Seq<u64>| is_split_of(cs, secret, t as nat, shares@)),
{
    if t < 1 || t > n {
        return Result::Err(VaultError::InvalidThreshold);
    }
    let mut coeffs: Vec<u64> = Vec::new();
    coeffs.push(secret);
    let mut i: usize = 1;
    while i < t
        invariant
            1 <= coeffs@.len() == i <= t,
            coeffs@[0] == secret,
            forall|k: int| 0 <= k < coeffs@.len() ==> in_field(#[trigger] coeffs@[k]),
        decreases t - i,
    {
        let c = field_reduce(draw_word());
        coeffs.push(c);
        i = i + 1;
    }
    let shares = split_with_coefficients(&coeffs, n);
    proof {
        assert(is_split_of(coeffs@, secret, t as nat, shares@));
    }
    Result::Ok(shares)
}

/// Interpolates the polynomial through the first `t` of the given shares
/// and evaluates it at `x`.
fn lagrange_at(shares: &Vec<Share>, t: usize, x: u64) -> (r: u64)
    requires
        t <= shares@.len(),
        in_field(x),
        shares_in_field(shares@),
    ensures
        r as nat == lagrange_eval(shares@.subrange(0, t as int), x as nat),
        in_field(r),
{
    let ghost pref = shares@.subrange(0, t as int);
    let mut acc: u64 = 0;
    let mut i: usize = 0;
    while i < t
        invariant
            i <= t <= shares@.len(),
            in_field(x),
            in_field(acc),
            shares_in_field(shares@),
            pref == shares@.subrange(0, t as int),
            acc as nat == lagrange_partial(pref, x as nat, i as int),
        decreases t - i,
    {
        let mut basis: u64 = 1;
        let mut j: usize = 0;
        while j < t
            invariant
                j <= t <= shares@.len(),
                i < t,
                in_field(x),
                in_field(basis),
                shares_in_field(shares@),
                pref == shares@.subrange(0, t as int),
                basis as nat == lag_basis_partial(pref, i as int, x as nat, j as int),
            decreases t - j,
        {
            if j != i {
                let num = field_sub(x, shares[j].x);
                let den = field_sub(shares[i].x, shares[j].x);
                let dinv = field_pow(den, FIELD_PRIME - 2);
                basis = field_mul(basis, field_mul(num, dinv));
            }
            j = j + 1;
        }
        acc = field_add(acc, field_mul(shares[i].y, basis));
        i = i + 1;
    }
    acc
}

/// Once deduplication has failed on a prefix, it fails on the whole.
proof fn lemma_dedup_none_persists(shares: Seq<Share>, i: int)
    requires
        0 <= i <= shares.len(),
        dedup_shares(shares.subrange(0, i)) is None,
    ensures
        dedup_shares(shares) is None,
    decreases shares.len() - i,
{
    if i < shares.len() {
        assert(shares.subrange(0, i + 1).drop_last() =~= shares.subrange(0, i));
        lemma_dedup_none_persists(shares, i + 1);
    } else {
        assert(shares.subrange(0, shares.len() as int) =~= shares);
    }
}

/// Reconstructs the secret from at least `t` distinct shares: the value
/// at zero of the polynomial interpolated through the first `t` distinct
/// ones, provided every further distinct share lies on that polynomial.
pub fn reconstruct(shares: &Vec<Share>, t: usize) -> (r: Result<u64, VaultError>)
    requires
        1 <= t,
        shares_in_field(shares@),
    ensures
        r == reconstruct_spec(shares@, t as int),
        r matches Result::Ok(v) ==> in_field(v),
{
    let mut uniq: Vec<Share> = Vec::new();
    let mut i: usize = 0;
    while i < shares.len()
        invariant
            i <= shares@.len(),
            shares_in_field(shares@),
            shares_in_field(uniq@),
            dedup_shares(shares@.subrange(0, i as int)) == Option::Some(uniq@),
        decreases shares@.len() - i,
    {
        let s = shares[i];
        let mut found: bool = false;
        let mut mismatch: bool = false;
        let mut k: usize = 0;
        while k < uniq.len()
            invariant
                k <= uniq@.len(),
                found == exists|m: int| 0 <= m < k && (#[trigger] uniq@[m]).x == s.x,
                mismatch == exists|m: int|
                    0 <= m < k && (#[trigger] uniq@[m]).x == s.x && uniq@[m].y != s.y,
            decreases uniq@.len() - k,
        {
            if uniq[k].x == s.x {
                found = true;
                if uniq[k].y != s.y {
                    mismatch = true;
                }
            }
            k = k + 1;
        }
        proof {
            assert(shares@.subrange(0, i + 1).drop_last() =~= shares@.subrange(0, i as int));
            assert(shares@.subrange(0, i + 1).last() == shares@[i as int]);
        }
        if mismatch {
            proof {
                assert(!agrees(uniq@, s));
                lemma_dedup_none_persists(shares@, i + 1);
            }
            return Result::Err(VaultError::InconsistentShares);
        }
        if !found {
            proof {
                assert(agrees(uniq@, s));
                assert(!has_x(uniq@, s.x));
            }
            uniq.push(s);
        } else {
            proof {
                assert(agrees(uniq@, s));
                assert(has_x(uniq@, s.x));
            }
        }
        i = i + 1;
    }
    proof {
        assert(shares@.subrange(0, shares@.len() as int) =~= shares@);
    }
    if uniq.len() < t {
        return Result::Err(VaultError::InsufficientShares);
    }
    let ghost base = uniq@.subrange(0, t as int);
    let mut k: usize = t;
    while k < uniq.len()
        invariant
            t <= k <= uniq@.len(),
            shares_in_field(uniq@),
            base == uniq@.subrange(0, t as int),
            dedup_shares(shares@) == Option::Some(uniq@),
            forall|m: int|
                t <= m < k ==> (#[trigger] uniq@[m]).y as nat == lagrange_eval(
                    base,
                    uniq@[m].x as nat,
                ),
        decreases uniq@.len() - k,
    {
        let v = lagrange_at(&uniq, t, uniq[k].x);
        if uniq[k].y != v {
            return Result::Err(VaultError::InconsistentShares);
        }
        k = k + 1;
    }
    let secret = lagrange_at(&uniq, t, 0);
    proof {
        lemma_lagrange_in_field(base, 0);
    }
    Result::Ok(secret)
}

} // verus!
