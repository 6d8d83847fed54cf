//! Unbounded-precision counters. The counts of random-oracle programmings
//! grow combinatorially with the domain sizes, so they are held in
//! `num::BigUint` values; this module declares that outside type and gives
//! the handful of operations the counting logic needs their contracts.
//! The value a `BigUint` holds is abstracted by the name `big_nat`.

use vstd::prelude::*;

verus! {

#[verifier::external_type_specification]
#[verifier::external_body]
pub struct ExBigUint(num::BigUint);

/// The natural number a `num::BigUint` holds.
pub uninterp spec fn big_nat(b: num::BigUint) -> nat;

/// `base` raised to `exp` over the naturals.
pub open spec fn pow_nat(base: nat, exp: nat) -> nat
    decreases exp,
{
    if exp == 0 {
        1
    } else {
        base * pow_nat(base, (exp - 1) as nat)
    }
}

/// Relies on `<num::BigUint as From<u64>>::from`: the constructed big
/// integer holds exactly the given value.
#[verifier::external_body]
pub(crate) fn big_from_u64(x: u64) -> (r: num::BigUint)
    ensures
        big_nat(r) == x as nat,
{
    num::BigUint::from(x)
}

/// Relies on `num::BigUint::pow`: exponentiation by squaring, returning
/// `self` raised to `exponent`.
#[verifier::external_body]
pub(crate) fn big_pow(base: &num::BigUint, exponent: u32) -> (r: num::BigUint)
    ensures
        big_nat(r) == pow_nat(big_nat(*base), exponent as nat),
{
    base.pow(exponent)
}

/// Relies on `<num::BigUint as AddAssign<&num::BigUint>>::add_assign`:
/// in-place addition of the two held values.
#[verifier::external_body]
pub(crate) fn big_add_assign(acc: &mut num::BigUint, rhs: &num::BigUint)
    ensures
        big_nat(*final(acc)) == big_nat(*old(acc)) + big_nat(*rhs),
{
    *acc += rhs;
}

/// Relies on `<num::BigUint as PartialEq>::eq`: `BigUint` keeps its digit
/// vector normalized, so structural equality is equality of held values.
#[verifier::external_body]
pub(crate) fn big_eq(a: &num::BigUint, b: &num::BigUint) -> (r: bool)
    ensures
        r == (big_nat(*a) == big_nat(*b)),
{
    a == b
}

/// Relies on `<num::BigUint as Clone>::clone`: the copy holds the same value.
#[verifier::external_body]
pub(crate) fn big_clone(a: &num::BigUint) -> (r: num::BigUint)
    ensures
        big_nat(r) == big_nat(*a),
{
    a.clone()
}

} // verus!
