# snarkvid

Verified building blocks for proving that a compressed video frame derives
from a signed original:

- `bitreader`, `nal`, `sps`, `pps`, `slice`, `cavlc`, `mb`, `intra`,
  `quant`, `transform`, `frame`: a baseline H.264 I-frame decoder (Annex-B
  framing, parameter sets, slice headers, CAVLC residuals, Intra 4×4
  prediction, inverse quantisation and transform, picture reconstruction).
- `toy_codec`: the BlockQuant codec (8×8 Walsh–Hadamard transform and
  uniform quantisation), lossless at QP 0 and 1.
- `comparator`: squared error and the fixed-point PSNR combination.
- `manifest`: the signed manifest and its SHA-256 Merkle tree.
- `m2_statement`, `host`: the claim that a stream decodes to a frame
  close to a Merkle-committed, signed original, and the builder of its
  inputs.
- `workloads`: the benchmark workloads of the proving harnesses.

Every function carries a contract checked by Verus; the laws (Hadamard
and Walsh–Hadamard self-inverses, the lossless round trip, Merkle path
round trip, coded-block-pattern round trip, nonzero coefficients of a
residual block, ...) are public proof functions or clauses of the
functions they are about, such as the verification of a manifest signed
by `sign_manifest`.

`app/` holds the `toy-encode` command line (file I/O, argument parsing,
the floating-point PSNR logarithm); `toy-encode smoke ...` builds the
claim inputs for a raw frame and runs the claim check natively.
