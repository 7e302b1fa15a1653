# Kyber uniform rejection sampling, verified

`rej_uniform_avx` turns XOF output into polynomial coefficients in `[0, q)`,
`q = 3329`: every three input bytes give two 12-bit candidates, and the
candidates below `q` are kept, in order, until `KYBER_N = 256` coefficients
are written or the `REJ_UNIFORM_AVX_BUFLEN = 504` input bytes are used up.

The sampler works in blocks of 32 and 8 candidates with vector operations
modelled on arrays of bytes and 16-bit words: loads, a 64-bit quarter
permutation and a byte shuffle that spread the 3-byte groups over words, a
shift, blend and mask to 12 bits, a comparison with `q`, the byte sign mask
of the comparison (lane-interleaved for 32-candidate blocks, even bits
gathered for 8-candidate blocks), packing of the accepted words through the
256-row shuffle-control table, whole-lane stores, and a population count. It
finishes group by group. Verus proves that the coefficients written are
exactly those of the sequential definition, and states what the lane stores
leave past them.

- `src/params.rs`: the scheme's parameters and the input length.
- `src/spec.rs`: the model (candidates, the accepted sequence, the phases,
  what one call samples and leaves in the output) and its laws.
- `src/idx.rs`: the packing table and the proof that each row lists its
  mask's set bits.
- `src/decode.rs`: loads, permutation, spreading shuffle, shift, blend, mask.
- `src/lanes.rs`: comparison, masks, population count, packing and storing.
- `src/rejsample.rs`: the three phases and their proof.
- `src/compare.rs`: lane-wise unsigned `>=` of 16-bit vectors, as masks.
- `tests/`: runs against sequential samplers and edge cases.
