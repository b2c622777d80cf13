//! A small polynomial commitment scheme in the KZG style: committing to a
//! polynomial over the BLS12-381 scalar field with a single field element,
//! and opening the commitment at a challenge point via an exact quotient
//! polynomial.

pub mod field;
pub mod kzg;
pub mod polynomial;
