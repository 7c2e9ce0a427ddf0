# opus_rs (verified core)

Fixed-point helpers of a CELT-style Opus encoder, verified with Verus.

- `src/fixed_point.rs`: Q15/Q31 saturation, rounding multiplies, shifts,
  absolute values, sums of squares, dot products and the largest magnitude of
  a vector, each with an exact contract over mathematical integers, and the
  laws that relate them (`law_*`).
- `src/shift_lemmas.rs`: signed shifts as multiplication and floor division
  by powers of two.
- `src/pvq_batch.rs`: batched lookup of the PVQ counts `U(N, K)` in a flat
  table, with a caller-supplied fallback for entries past the table.
- `src/encoder_profile.rs`: per-stage call counters and accumulated times.
- `app/`: what stays outside verification: conversions between `f32` and Q15,
  vector normalisation, the process-wide counters and their report.
