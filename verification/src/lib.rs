//! A two-party, maliciously secure MPC runtime over the Stark curve: a
//! dependency-graph executor, the SPDZ authenticated algebra built on it, and
//! the framing of the messages the parties exchange.

use vstd::prelude::*;

use crate::algebra::scalar::Scalar;
use crate::algebra::stark_curve::StarkPoint;

pub mod algebra;
pub mod beaver;
pub mod buffer;
pub mod commitment;
pub mod error;
pub mod fabric;
pub mod network;

verus! {

/// The first party
pub const PARTY0: u64 = 0;

/// The second party
pub const PARTY1: u64 = 1;

/// Generate a random curve point by multiplying a random scalar with the
/// Stark curve group generator
pub fn random_point() -> (r: StarkPoint)
    ensures
        exists|scalar: Scalar| r == #[trigger] StarkPoint::product(scalar@, StarkPoint::generator_spec()),
{
    let scalar = Scalar::random();
    let r = StarkPoint::generator().mul(&scalar);
    assert(r == StarkPoint::product(scalar@, StarkPoint::generator_spec()));
    r
}

} // verus!
