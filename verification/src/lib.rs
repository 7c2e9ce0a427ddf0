//! Fixed-point arithmetic helpers for a CELT-style audio encoder, the
//! encoder's call/time counters, and the batched lookup of PVQ `U(N, K)` values.
pub mod encoder_profile;
pub mod fixed_point;
pub mod pvq_batch;
mod shift_lemmas;
