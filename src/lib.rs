//! Brute-force search for integers whose SHA-256 digest, written in
//! lowercase hexadecimal, ends in a run of zero characters.
//!
//! The library has two parts: a digest engine ([`compute_hash`],
//! [`hash_ends_with_zeros`]) and a search coordinator ([`find_hashes`]) that
//! hashes candidates on a rayon thread pool and collects the matches.

pub mod digest;
pub mod suffix;
pub mod search;

pub use digest::compute_hash;
pub use suffix::hash_ends_with_zeros;
pub use search::find_hashes;
