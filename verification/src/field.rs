//! Arithmetic in the prime field GF(P) with P = 2^61 - 1 (a Mersenne prime).
//!
//! Secrets and shares are elements of this field; the field is fixed here so
//! that the wire size of a share and the security margin are pinned down: a
//! secret is any value below P, so up to 61 bits of key material per share
//! word.

use vstd::prelude::*;
use vstd::arithmetic::power::{
    pow, lemma_pow1, lemma_pow_adds, lemma_pow_multiplies, lemma_pow_mod_noop,
    lemma_square_is_pow2,
};
use vstd::arithmetic::div_mod::{
    lemma_mul_mod_noop_left, lemma_mul_mod_noop_right,
};
use vstd::arithmetic::mul::lemma_mul_is_associative;

verus! {

/// The field modulus, 2^61 - 1.
pub const FIELD_PRIME: u64 = 2305843009213693951;

/// A value is a field element when it is below the modulus.
pub open spec fn in_field(x: u64) -> bool {
    x < FIELD_PRIME
}

/// Field addition, mathematically.
pub open spec fn add_f(a: nat, b: nat) -> nat {
    (a + b) % (FIELD_PRIME as nat)
}

/// Field subtraction, mathematically; defined for b below the modulus.
pub open spec fn sub_f(a: nat, b: nat) -> nat {
    ((a + FIELD_PRIME - b) % (FIELD_PRIME as int)) as nat
}

/// Field multiplication, mathematically.
pub open spec fn mul_f(a: nat, b: nat) -> nat {
    (a * b) % (FIELD_PRIME as nat)
}

/// b^e in the field, with the reduction applied at every step.
pub open spec fn pow_f(b: nat, e: nat) -> nat
    decreases e,
{
    if e == 0 {
        1nat % (FIELD_PRIME as nat)
    } else {
        mul_f(b, pow_f(b, (e - 1) as nat))
    }
}

/// The multiplicative-inverse notation used by reconstruction: x^(P-2).
pub open spec fn inv_f(x: nat) -> nat {
    pow_f(x, (FIELD_PRIME - 2) as nat)
}

/// Adds two field elements.
pub fn field_add(a: u64, b: u64) -> (r: u64)
    requires
        in_field(a),
        in_field(b),
    ensures
        r as nat == add_f(a as nat, b as nat),
        in_field(r),
{
    (a + b) % FIELD_PRIME
}

/// Subtracts one field element from another.
pub fn field_sub(a: u64, b: u64) -> (r: u64)
    requires
        in_field(a),
        in_field(b),
    ensures
        r as nat == sub_f(a as nat, b as nat),
        in_field(r),
{
    (a + (FIELD_PRIME - b)) % FIELD_PRIME
}

/// Multiplies two field elements through a double-width intermediate.
pub fn field_mul(a: u64, b: u64) -> (r: u64)
    requires
        in_field(a),
        in_field(b),
    ensures
        r as nat == mul_f(a as nat, b as nat),
        in_field(r),
{
    assert((a as int) * (b as int) <= (FIELD_PRIME - 1) * (FIELD_PRIME - 1)) by (nonlinear_arith)
        requires
            0 <= a <= FIELD_PRIME - 1,
            0 <= b <= FIELD_PRIME - 1,
    ;
    let wide: u128 = (a as u128) * (b as u128);
    (wide % (FIELD_PRIME as u128)) as u64
}

/// The step-by-step field power equals the mathematical power, reduced once.
proof fn lemma_pow_f_is_pow(b: nat, e: nat)
    ensures
        pow_f(b, e) == pow(b as int, e) % (FIELD_PRIME as int),
    decreases e,
{
    reveal(pow);
    let p = FIELD_PRIME as int;
    if e == 0 {
    } else {
        let e1 = (e - 1) as nat;
        lemma_pow_f_is_pow(b, e1);
        lemma_mul_mod_noop_right(b as int, pow(b as int, e1), p);
    }
}

/// One square-and-multiply step keeps the running product's meaning.
proof fn lemma_pow_step(result: int, base: int, exp: nat)
    requires
        0 <= result < FIELD_PRIME,
        0 <= base < FIELD_PRIME,
        exp > 0,
    ensures
        exp % 2 == 1 ==> (((result * base) % (FIELD_PRIME as int)) * pow(
            (base * base) % (FIELD_PRIME as int),
            (exp / 2) as nat,
        )) % (FIELD_PRIME as int) == (result * pow(base, exp)) % (FIELD_PRIME as int),
        exp % 2 == 0 ==> (result * pow(
            (base * base) % (FIELD_PRIME as int),
            (exp / 2) as nat,
        )) % (FIELD_PRIME as int) == (result * pow(base, exp)) % (FIELD_PRIME as int),
{
    let p = FIELD_PRIME as int;
    let k = (exp / 2) as nat;
    lemma_pow_multiplies(base, 2, k);
    lemma_square_is_pow2(base);
    lemma_pow_mod_noop(base * base, k, p);
    let b2k = pow(base, (2 * k) as nat);
    if exp % 2 == 1 {
        lemma_pow_adds(base, (2 * k) as nat, 1);
        lemma_pow1(base);
        assert(pow(base, exp) == b2k * base);
        let a = result * base;
        let bm = pow((base * base) % p, k);
        lemma_mul_mod_noop_left(a, bm, p);
        lemma_mul_mod_noop_right(a, bm, p);
        lemma_mul_mod_noop_right(a, pow(base * base, k), p);
        assert((a % p * bm) % p == (a * pow(base * base, k)) % p);
        assert(a * b2k == result * pow(base, exp)) by {
            lemma_mul_is_associative(result, base, b2k);
            assert(base * b2k == b2k * base);
        }
    } else {
        assert(exp == 2 * k);
        let bm = pow((base * base) % p, k);
        lemma_mul_mod_noop_right(result, bm, p);
        lemma_mul_mod_noop_right(result, pow(base * base, k), p);
    }
}

/// Raises a field element to an arbitrary machine-word exponent.
pub fn field_pow(b: u64, e: u64) -> (r: u64)
    requires
        in_field(b),
    ensures
        r as nat == pow_f(b as nat, e as nat),
        in_field(r),
{
    let ghost p = FIELD_PRIME as int;
    let mut result: u64 = 1;
    let mut base: u64 = b;
    let mut exp: u64 = e;
    proof {
        lemma_pow_f_is_pow(b as nat, e as nat);
    }
    while exp > 0
        invariant
            in_field(result),
            in_field(base),
            ((result as int) * pow(base as int, exp as nat)) % p == pow(b as int, e as nat) % p,
            p == FIELD_PRIME as int,
        decreases exp,
    {
        proof {
            lemma_pow_step(result as int, base as int, exp as nat);
        }
        if exp % 2 == 1 {
            result = field_mul(result, base);
        }
        base = field_mul(base, base);
        exp = exp / 2;
    }
    proof {
        lemma_pow_f_is_pow(b as nat, e as nat);
        vstd::arithmetic::power::lemma_pow0(base as int);
    }
    result
}

/// Reduces an arbitrary machine word into the field.
pub fn field_reduce(x: u64) -> (r: u64)
    ensures
        r as nat == (x as nat) % (FIELD_PRIME as nat),
        in_field(r),
{
    x % FIELD_PRIME
}

} // verus!
