//! Near-constant-time access to the n-th character of a UTF-8 string.
//!
//! An index built once over a string stores, for each character, one byte: how
//! far past its own character index the character starts in the buffer. When that
//! distance no longer fits in a byte, the character index where it wrapped is
//! recorded in a short sorted list of rollovers, which a lookup binary-searches.
//! A pure ASCII string gets an empty index: its byte offsets are its character
//! indices.
//!
//! [`IndexedChars`] pairs the index with a borrowed string, [`OwnedIndexedChars`]
//! with an owned one.

pub mod borrowed;
pub mod indexed_chars;
pub mod model;
pub mod owned;
pub mod text;

pub use borrowed::IndexedChars;
pub use indexed_chars::IndexedCharsInner;
pub use owned::OwnedIndexedChars;
