//! Parameters of the Kyber scheme that the sampler depends on.
use vstd::prelude::*;

verus! {

/// Number of coefficients in a polynomial.
pub const KYBER_N: usize = 256;

/// The modulus of the coefficient ring.
pub const KYBER_Q: usize = 3329;

/// Rate of SHAKE-128 in bytes: the size of one squeezed XOF block.
pub const XOF_BLOCKBYTES: usize = 168;

/// Number of XOF blocks squeezed for one sampling call: enough blocks to hold
/// the expected number of bytes that a full polynomial consumes (each 12-bit
/// candidate, of which `2^12` values exist, is kept with probability `q / 2^12`),
/// plus one.
pub const REJ_UNIFORM_AVX_NBLOCKS: usize =
    (12 * KYBER_N / 8 * 4096 / KYBER_Q + XOF_BLOCKBYTES) / XOF_BLOCKBYTES;

/// Number of bytes the sampler reads from its input.
pub const REJ_UNIFORM_AVX_BUFLEN: usize = REJ_UNIFORM_AVX_NBLOCKS * XOF_BLOCKBYTES;

/// The buffer length is a whole number of 3-byte groups.
pub proof fn lemma_buflen_value()
    ensures
        REJ_UNIFORM_AVX_NBLOCKS == 3,
        REJ_UNIFORM_AVX_BUFLEN == 504,
{
}

} // verus!
