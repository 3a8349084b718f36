//! A discrete-time simulation of homing missiles and stationary targets in
//! the plane.
//!
//! The library is free of floating-point code. Every real quantity is carried
//! as the IEEE-754 binary32 encoding of its value: the library copies and
//! compares encodings, and leaves all arithmetic on them to an
//! implementation of [`numerics::Numerics`] that its user supplies. What it
//! proves of the actors and of the engine holds whatever that implementation
//! returns.
//!
//! - [`binary32`]: the order of encoded values.
//! - [`numerics`]: points, vectors, and the arithmetic that is left open.
//! - [`simulation`]: snapshots, the actor capability, the engine and its
//!   ledger.
//! - [`collision`]: the pass of a tick that destroys what has come too close.
//! - [`actors`]: the target and the missile.

pub mod actors;
pub mod binary32;
pub mod collision;
pub mod numerics;
pub mod simulation;
