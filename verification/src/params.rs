//! The parameter set of one enumeration run: the rejection bound `beta` and
//! the mask half-range `gamma1`, with the derived domain sizes.

use vstd::prelude::*;

verus! {

/// Largest admitted `gamma1`. Keeps every derived quantity inside `i32`:
/// `ord_y = 2 * gamma1` and every response `y + c` (with `|y| <= gamma1`,
/// `|c| <= beta < gamma1`) stay within the type's range.
pub const MAX_GAMMA1: i32 = 0x3FFF_FFFF;

/// The two security parameters of one run, fixed at construction and never
/// mutated. Valid parameter sets satisfy `0 < beta < gamma1 <= MAX_GAMMA1`.
#[derive(Clone, Copy, Debug)]
pub struct Params {
    pub beta: i32,
    pub gamma1: i32,
}

impl Params {
    /// Well-formedness: both parameters positive, `gamma1 > beta`, and
    /// `gamma1` small enough that derived arithmetic fits in `i32`.
    pub open spec fn wf(self) -> bool {
        0 < self.beta && self.beta < self.gamma1 && self.gamma1 <= MAX_GAMMA1
    }

    /// Size of the challenge domain, the symmetric interval `[-beta, beta]`.
    pub open spec fn ord_b_spec(self) -> int {
        2 * self.beta + 1
    }

    /// Size of the masking-value domain, the interval `(-gamma1, gamma1]`.
    pub open spec fn ord_y_spec(self) -> int {
        2 * self.gamma1
    }

    /// A masking value must lie in `(-gamma1, gamma1]`.
    pub open spec fn y_in_range(self, y: int) -> bool {
        -self.gamma1 < y <= self.gamma1
    }

    /// A challenge value must lie in `[-beta, beta]`.
    pub open spec fn c_in_range(self, c: int) -> bool {
        -self.beta <= c <= self.beta
    }

    /// Acceptance predicate on a response value: `|z| < gamma1 - beta`.
    pub open spec fn z_in_bounds_spec(self, z: int) -> bool {
        -(self.gamma1 - self.beta) < z < self.gamma1 - self.beta
    }

    /// Validates a parameter pair once; malformed parameters are rejected
    /// here rather than tolerated anywhere downstream.
    pub fn new(beta: i32, gamma1: i32) -> (r: Option<Params>)
        ensures
            r is Some <==> (0 < beta && beta < gamma1 && gamma1 <= MAX_GAMMA1),
            r matches Some(p) ==> p.beta == beta && p.gamma1 == gamma1 && p.wf(),
    {
        if 0 < beta && beta < gamma1 && gamma1 <= MAX_GAMMA1 {
            Some(Params { beta, gamma1 })
        } else {
            None
        }
    }

    /// Size of the challenge domain.
    pub fn ord_b(&self) -> (r: i32)
        requires
            self.wf(),
        ensures
            r == self.ord_b_spec(),
    {
        2 * self.beta + 1
    }

    /// Size of the masking-value domain.
    pub fn ord_y(&self) -> (r: i32)
        requires
            self.wf(),
        ensures
            r == self.ord_y_spec(),
    {
        2 * self.gamma1
    }

    /// The acceptance test applied to every computed response value.
    pub fn z_is_in_bounds(&self, z: i32) -> (r: bool)
        requires
            self.wf(),
        ensures
            r == self.z_in_bounds_spec(z as int),
    {
        let bound = self.gamma1 - self.beta;
        -bound < z && z < bound
    }
}

} // verus!
