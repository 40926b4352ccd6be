//! Core of a URL shortener: a normalizer that canonicalizes and validates
//! input URLs, a deterministic short-code derivation from a SHA-256 content
//! hash, and an allocator that resolves hash collisions by bounded, salted
//! retry against a store with a unique-code constraint.

pub mod allocator;
pub mod errors;
pub mod hashing;
pub mod laws;
pub mod mem_store;
pub mod service;
pub mod store;
pub mod text;
pub mod validate_url;
