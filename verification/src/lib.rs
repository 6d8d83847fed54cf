//! Exhaustive counting of the output-signature distribution of two
//! rejection-sampling signing procedures (a plain two-round loop and a
//! variant that reuses an in-bounds response coordinate across rounds),
//! together with the combinatorial weighting of random-oracle programmings
//! and a uniformity check over the resulting counts.

pub mod accumulate;
pub mod bignum;
pub mod params;
pub mod resultmap;
pub mod trial;
pub mod weight;

pub use params::Params;
pub use trial::ChallengeTuple;
pub use trial::MaskTuple;
pub use trial::RoCase;
pub use trial::SigTuple;
pub use trial::Variant;
