//! The trial evaluator: for one tuple of masking values and one cross
//! product of challenge values, decide whether a signing attempt accepts
//! under the chosen procedure variant, and under which
//! random-oracle-programming case.

use vstd::prelude::*;

use crate::params::Params;

verus! {

/// The procedure variant under analysis: the plain two-round
/// rejection-sampling loop, or the variant that keeps an already-in-bounds
/// first coordinate's companion when only the first coordinate failed.
#[derive(Clone, Copy, PartialEq, Eq, Structural, Debug)]
pub enum Variant {
    Vanilla,
    ZTrick,
}

/// How the random oracle was programmed by an accepted trial: either the two
/// attempts queried it at two distinct masking points, or both attempts hit
/// the same point (a collision) and consistently saw the same challenges.
#[derive(Clone, Copy, PartialEq, Eq, Structural, Debug)]
pub enum RoCase {
    DistinctQueries,
    RepeatedQuery,
}

/// The four masking values of one trial: the first attempt's pair and the
/// resample pair. Each must lie in `(-gamma1, gamma1]`.
#[derive(Clone, Copy, PartialEq, Eq, Structural, Debug)]
pub struct MaskTuple {
    pub y1: i32,
    pub y2: i32,
    pub y1p: i32,
    pub y2p: i32,
}

/// The four challenge values of one trial: the first attempt's pair and the
/// resample pair. Each must lie in `[-beta, beta]`.
#[derive(Clone, Copy, PartialEq, Eq, Structural, Debug)]
pub struct ChallengeTuple {
    pub c1: i32,
    pub c2: i32,
    pub cp1: i32,
    pub cp2: i32,
}

/// An accepted output signature: the two response values together with the
/// challenge pair recorded for them. This is the key of the result mapping.
#[derive(Clone, Copy, PartialEq, Eq, Structural, Debug)]
pub struct SigTuple {
    pub z1: i32,
    pub z2: i32,
    pub c1: i32,
    pub c2: i32,
}

impl MaskTuple {
    pub open spec fn in_range(self, p: Params) -> bool {
        &&& p.y_in_range(self.y1 as int)
        &&& p.y_in_range(self.y2 as int)
        &&& p.y_in_range(self.y1p as int)
        &&& p.y_in_range(self.y2p as int)
    }
}

impl ChallengeTuple {
    pub open spec fn in_range(self, p: Params) -> bool {
        &&& p.c_in_range(self.c1 as int)
        &&& p.c_in_range(self.c2 as int)
        &&& p.c_in_range(self.cp1 as int)
        &&& p.c_in_range(self.cp2 as int)
    }
}

/// Both attempts queried the oracle at the same masking point.
pub open spec fn masks_collide(ys: MaskTuple) -> bool {
    ys.y1 == ys.y1p && ys.y2 == ys.y2p
}

/// Both attempts consumed the same challenge pair.
pub open spec fn challenges_repeat(cs: ChallengeTuple) -> bool {
    cs.c1 == cs.cp1 && cs.c2 == cs.cp2
}

/// The response values, recorded challenge pair, and attempt number that the
/// rejection-sampling state machine of `v` produces, or `None` on abort.
pub open spec fn attempt_outcome(p: Params, v: Variant, ys: MaskTuple, cs: ChallengeTuple) -> Option<
    (int, int, int, int, int),
> {
    let z1 = ys.y1 + cs.c1;
    let z2 = ys.y2 + cs.c2;
    match v {
        Variant::Vanilla => {
            if p.z_in_bounds_spec(z1) && p.z_in_bounds_spec(z2) {
                Some((z1, z2, cs.c1 as int, cs.c2 as int, 1))
            } else {
                let z1r = ys.y1p + cs.cp1;
                let z2r = ys.y2p + cs.cp2;
                if p.z_in_bounds_spec(z1r) && p.z_in_bounds_spec(z2r) {
                    Some((z1r, z2r, cs.cp1 as int, cs.cp2 as int, 2))
                } else {
                    None
                }
            }
        },
        Variant::ZTrick => {
            if !p.z_in_bounds_spec(z1) {
                // Only the first coordinate failed: resample it, recompute the
                // second from its original mask and the fresh challenge, and
                // record the fresh challenge pair.
                let z1r = ys.y1p + cs.cp1;
                let z2r = ys.y2 + cs.cp2;
                if p.z_in_bounds_spec(z1r) && p.z_in_bounds_spec(z2r) {
                    Some((z1r, z2r, cs.cp1 as int, cs.cp2 as int, 2))
                } else {
                    None
                }
            } else if !p.z_in_bounds_spec(z2) {
                // The first coordinate was already seen in bounds, so both
                // masks are resampled; the recorded challenge pair stays the
                // first attempt's.
                let z1r = ys.y1p + cs.cp1;
                let z2r = ys.y2p + cs.cp2;
                if p.z_in_bounds_spec(z1r) && p.z_in_bounds_spec(z2r) {
                    Some((z1r, z2r, cs.c1 as int, cs.c2 as int, 2))
                } else {
                    None
                }
            } else {
                Some((z1, z2, cs.c1 as int, cs.c2 as int, 1))
            }
        },
    }
}

/// The full outcome of one trial: the accepted signature and its
/// random-oracle-programming case, or `None` when the attempt aborts, when an
/// attempt-number filter excludes it, or when the hypothetical programming is
/// inconsistent (same query point, different challenges) and must not be
/// counted at all.
pub open spec fn trial_outcome(
    p: Params,
    v: Variant,
    ys: MaskTuple,
    cs: ChallengeTuple,
    only_iterations: Option<i32>,
) -> Option<(SigTuple, RoCase)> {
    match attempt_outcome(p, v, ys, cs) {
        None => None,
        Some((z1, z2, cu1, cu2, iteration)) => {
            let sig = SigTuple { z1: z1 as i32, z2: z2 as i32, c1: cu1 as i32, c2: cu2 as i32 };
            let filtered = match only_iterations {
                Some(it) => iteration != it as int,
                None => false,
            };
            if filtered {
                None
            } else if !masks_collide(ys) {
                Some((sig, RoCase::DistinctQueries))
            } else if challenges_repeat(cs) {
                Some((sig, RoCase::RepeatedQuery))
            } else {
                None
            }
        },
    }
}

/// Simulates one signing attempt for the variant `v`, on masking values `ys`
/// and the challenge cross product `cs`, optionally restricted to trials
/// accepted in attempt number `only_iterations`.
pub fn eval_trial(
    p: &Params,
    v: Variant,
    ys: &MaskTuple,
    cs: &ChallengeTuple,
    only_iterations: Option<i32>,
) -> (r: Option<(SigTuple, RoCase)>)
    requires
        p.wf(),
        ys.in_range(*p),
        cs.in_range(*p),
    ensures
        r == trial_outcome(*p, v, *ys, *cs, only_iterations),
{
    let first_z1 = ys.y1 + cs.c1;
    let first_z2 = ys.y2 + cs.c2;
    let attempt: Option<(i32, i32, i32, i32, i32)> = match v {
        Variant::Vanilla => {
            if p.z_is_in_bounds(first_z1) && p.z_is_in_bounds(first_z2) {
                Some((first_z1, first_z2, cs.c1, cs.c2, 1))
            } else {
                let z1r = ys.y1p + cs.cp1;
                let z2r = ys.y2p + cs.cp2;
                if p.z_is_in_bounds(z1r) && p.z_is_in_bounds(z2r) {
                    Some((z1r, z2r, cs.cp1, cs.cp2, 2))
                } else {
                    None
                }
            }
        },
        Variant::ZTrick => {
            if !p.z_is_in_bounds(first_z1) {
                let z1r = ys.y1p + cs.cp1;
                let z2r = ys.y2 + cs.cp2;
                if p.z_is_in_bounds(z1r) && p.z_is_in_bounds(z2r) {
                    Some((z1r, z2r, cs.cp1, cs.cp2, 2))
                } else {
                    None
                }
            } else if !p.z_is_in_bounds(first_z2) {
                let z1r = ys.y1p + cs.cp1;
                let z2r = ys.y2p + cs.cp2;
                if p.z_is_in_bounds(z1r) && p.z_is_in_bounds(z2r) {
                    Some((z1r, z2r, cs.c1, cs.c2, 2))
                } else {
                    None
                }
            } else {
                Some((first_z1, first_z2, cs.c1, cs.c2, 1))
            }
        },
    };
    match attempt {
        None => None,
        Some((z1, z2, cu1, cu2, iteration)) => {
            let filtered = match only_iterations {
                Some(it) => iteration != it,
                None => false,
            };
            if filtered {
                None
            } else if !(ys.y1 == ys.y1p && ys.y2 == ys.y2p) {
                Some((SigTuple { z1, z2, c1: cu1, c2: cu2 }, RoCase::DistinctQueries))
            } else if cs.c1 == cs.cp1 && cs.c2 == cs.cp2 {
                Some((SigTuple { z1, z2, c1: cu1, c2: cu2 }, RoCase::RepeatedQuery))
            } else {
                None
            }
        },
    }
}

/// For every trial the evaluator accepts, exactly one programming case
/// applies: distinct query points whenever the two mask pairs differ, a
/// repeated query exactly when they coincide and the challenge pairs
/// coincide too; and a collision with differing challenges — an assignment
/// no function can realize — is never accepted at all.
pub proof fn lemma_case_classification(
    p: Params,
    v: Variant,
    ys: MaskTuple,
    cs: ChallengeTuple,
    only_iterations: Option<i32>,
)
    ensures
        match trial_outcome(p, v, ys, cs, only_iterations) {
            Some((sig, case)) => {
                &&& (case == RoCase::DistinctQueries <==> !masks_collide(ys))
                &&& (case == RoCase::RepeatedQuery <==> masks_collide(ys) && challenges_repeat(cs))
                &&& !(case == RoCase::DistinctQueries && case == RoCase::RepeatedQuery)
            },
            None => true,
        },
        masks_collide(ys) && !challenges_repeat(cs) ==> trial_outcome(
            p,
            v,
            ys,
            cs,
            only_iterations,
        ) is None,
{
}

} // verus!
