//! Zero-knowledge credential primitives: a quintic extension of the
//! Goldilocks field, the curve defined over it, scalars modulo the group
//! order, Schnorr proofs with a Fiat-Shamir transcript, and the circuit
//! gadgets that mirror each of them.
pub mod auth_gadget;
pub mod authentification;
pub mod bits;
pub mod circuit;
pub mod curve;
pub mod curve_gadget;
pub mod encoding;
pub mod field;
pub mod gfp5;
pub mod gfp5_gadget;
pub mod keys;
pub mod policy;
pub mod scalar;
pub mod scalar_gadget;
pub mod signature;
pub mod schnorr;
pub mod transcript;
pub mod transcript_gadget;
