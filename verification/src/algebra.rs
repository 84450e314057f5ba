//! The field, the curve group, and the secret-shared values built on them

pub mod authenticated_scalar;
pub mod authenticated_stark_point;
pub mod authentication;
pub mod linear;
pub mod local;
pub mod mpc_scalar;
pub mod mpc_stark_point;
pub mod multiplication;
pub mod openings;
pub mod products;
pub mod round_trip;
pub mod scalar;
pub mod spdz;
pub mod stark_curve;
