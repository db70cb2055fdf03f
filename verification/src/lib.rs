//! Combining two powers-of-tau transcripts into one reference string for
//! aggregating Groth16 proofs.
//!
//! A transcript is a byte stream: a 64-byte digest of the previous
//! contribution, then the powers of tau in G1, then those in G2, each power
//! one fixed-width block. Only the leading powers are decoded and kept; the
//! rest of each section is passed over.

pub mod fetch;
pub mod hashing;
pub mod point;
pub mod powers;
pub mod reader;
