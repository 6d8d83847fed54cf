//! The combinatorial weight of an accepted trial: the number of complete
//! random-oracle programmings consistent with the queries the trial made.
//! With `ord_y` query points and `base` possible outputs per point, a trial
//! that fixed the outputs of two distinct points leaves `ord_y - 2` free
//! points, and a trial whose two attempts collided on one point leaves
//! `ord_y - 1`.

use vstd::prelude::*;

use crate::bignum::big_from_u64;
use crate::bignum::big_nat;
use crate::bignum::big_pow;
use crate::bignum::pow_nat;
use crate::params::Params;
use crate::trial::RoCase;

verus! {

/// How many query points an accepted trial of the given case fixes.
pub open spec fn points_fixed(case: RoCase) -> int {
    match case {
        RoCase::DistinctQueries => 2,
        RoCase::RepeatedQuery => 1,
    }
}

/// The weight contributed by one accepted trial: `base` raised to the number
/// of query points the trial leaves unconstrained.
pub open spec fn weight_spec(base: nat, ord_y: int, case: RoCase) -> nat {
    pow_nat(base, (ord_y - points_fixed(case)) as nat)
}

/// The weight one accepted trial contributes under the parameter set `p`,
/// where each query point's output is a challenge pair, so the base of the
/// exponent is the squared challenge-domain size.
pub open spec fn trial_weight(p: Params, case: RoCase) -> nat {
    weight_spec((p.ord_b_spec() * p.ord_b_spec()) as nat, p.ord_y_spec(), case)
}

/// Computes `base ^ (ord_y - 2)` for a trial with two distinct query points
/// and `base ^ (ord_y - 1)` for a collided one, as an unbounded counter.
pub fn case_weight(base: u64, ord_y: u32, case: RoCase) -> (r: num::BigUint)
    requires
        ord_y >= 2,
    ensures
        big_nat(r) == weight_spec(base as nat, ord_y as int, case),
{
    let exponent: u32 = match case {
        RoCase::DistinctQueries => ord_y - 2,
        RoCase::RepeatedQuery => ord_y - 1,
    };
    let b = big_from_u64(base);
    big_pow(&b, exponent)
}

/// The weights of both cases under the parameter set `p`: the squared
/// challenge-domain size raised to `ord_y - 2` and to `ord_y - 1`.
pub fn params_weights(p: &Params) -> (r: (num::BigUint, num::BigUint))
    requires
        p.wf(),
    ensures
        big_nat(r.0) == trial_weight(*p, RoCase::DistinctQueries),
        big_nat(r.1) == trial_weight(*p, RoCase::RepeatedQuery),
{
    let ord_b = p.ord_b();
    let ob = ord_b as u64;
    assert(ob * ob <= 0x7FFF_FFFFu64 * 0x7FFF_FFFFu64) by (nonlinear_arith)
        requires
            0 <= ob <= 0x7FFF_FFFFu64,
    ;
    let base: u64 = ob * ob;
    let ord_y_i32 = p.ord_y();
    let ord_y: u32 = ord_y_i32 as u32;
    let w_distinct = case_weight(base, ord_y, RoCase::DistinctQueries);
    let w_repeated = case_weight(base, ord_y, RoCase::RepeatedQuery);
    (w_distinct, w_repeated)
}

} // verus!
