//! Verified teaching snippets around fixed-width integer semantics: numeric
//! conversions under the checked, wrapping, saturating and overflowing
//! policies, a bounded sieve of Eratosthenes, an in-place sort, byte-sequence
//! splitting at encoding boundaries, and a token-length parity classifier.

pub mod classify;
pub mod numeric;
pub mod sieve;
pub mod sorting;
pub mod splitting;
pub mod vectors;
