//! Uniform rejection sampling of Kyber polynomial coefficients from XOF output.
//!
//! Every three bytes of input yield two 12-bit candidates; the candidates
//! below the modulus `q` are kept, in order, until a polynomial is full.
pub mod params;
pub mod compare;
pub mod spec;
pub mod idx;
pub mod lanes;
pub mod decode;
pub mod rejsample;
