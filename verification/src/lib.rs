//! An N-dimensional lattice of exact rational values. Each axis is generated
//! by a fixed ratio raised to an integer power, and each coordinate is first
//! resolved through the axis's bound policy before exponentiation.
pub mod arith;
pub mod lattice;
pub mod ratio;
