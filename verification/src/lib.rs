//! A string interner: maps strings to small copyable symbols and back.
//!
//! Interning a string returns a [`Symbol`]; interning byte-identical content
//! again returns the same symbol, so symbols can be compared and hashed in
//! constant time while every distinct string is stored exactly once.
//! [`StringInterner::resolve`] recovers the original string content from a
//! symbol issued by the same instance.

pub mod hashing;
pub mod interner;
pub mod laws;
pub mod symbol;
pub mod text;

pub use hashing::FnvHasher;
pub use interner::StringInterner;
pub use symbol::Symbol;
