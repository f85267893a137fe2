//! Arithmetic in cubic extensions `F[X]/(X^3 - nonresidue)` of a prime field
//! `F`, with Karatsuba multiplication, CH-SQR2 squaring, inversion with a
//! single base-field inversion, the Frobenius map and the norm.

pub mod digits;
pub mod fp;
pub mod cubic_extension;
pub mod small_fields;
pub mod laws;
