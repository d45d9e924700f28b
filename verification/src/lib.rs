//! Valuation of European options on a recombining binomial lattice.
//!
//! All numbers are decimal fixed-point values ([`fixed::Fixed`]), so that a
//! price is the same on every machine. A [`binomial::BinomialModel`] is
//! valued in three moves:
//!
//! 1. [`binomial::BinomialModel::step_exponents`] gives the exponents of the
//!    up factor, of the growth and of the discount over one time step;
//! 2. the caller takes the exponentials of the three, and
//!    [`lattice::LatticeFactors::from_exponentials`] derives the down factor
//!    and the weight of the up branch from them;
//! 3. [`binomial::BinomialModel::price`] lays out the payoffs on the last
//!    layer and rolls them back, layer by layer, to the root.
//!
//! The exponential function is the one thing that this crate leaves to its
//! caller. Everything else is stated over mathematical integers and proved:
//! each operation of the arithmetic, the value at every node of the
//! lattice, and the laws in [`laws`] and [`parity`].
//!
//! A number holds magnitudes up to ten billion with eighteen decimal
//! places, and a result beyond that saturates. The powers of the two moves
//! are numbers like any other, so a lattice is meant for parameters for
//! which the up factor raised to the number of steps stays within that
//! limit.

pub mod binomial;
pub mod fixed;
pub mod lattice;
pub mod laws;
pub mod parity;
pub mod payoff;
