//! [`OwnedIndexedChars`]: an owned string paired with its character index.

use vstd::prelude::*;

use crate::indexed_chars::IndexedCharsInner;
use crate::text::{compare_strs, hash_str, str_eq, str_order};

verus! {

/// An owned string whose character positions are indexed, so that the n-th
/// character is found in constant time on average (logarithmic in the number of
/// rollovers at worst). The index takes one byte per character, and nothing for
/// a string of ASCII characters.
pub struct OwnedIndexedChars {
    /// The string.
    buf: String,
    /// Its character index.
    inner: IndexedCharsInner,
}

impl View for OwnedIndexedChars {
    type V = Seq<char>;

    /// The characters of the string.
    closed spec fn view(&self) -> Seq<char> {
        self.buf@
    }
}

impl OwnedIndexedChars {
    /// The index always belongs to the string beside it.
    #[verifier::type_invariant]
    closed spec fn wf(&self) -> bool {
        self.inner.indexes(self.buf@)
    }

    /// Takes `s` and indexes it, in one pass over it.
    pub fn new(s: String) -> (r: Self)
        ensures
            r@ == s@,
    {
        let inner = IndexedCharsInner::new(s.as_str());
        Self { buf: s, inner }
    }

    /// The character at position `index`, or `None` past the last character.
    pub fn get_char(&self, index: usize) -> (r: Option<char>)
        ensures
            r == (if index < self@.len() {
                Some(self@[index as int])
            } else {
                None
            }),
    {
        proof {
            use_type_invariant(self);
        }
        self.inner.get_char(self.buf.as_str(), index)
    }

    /// Drops the index and gives the string back.
    pub fn into_string(self) -> (r: String)
        ensures
            r@ == self@,
    {
        self.buf
    }
}

impl core::ops::Deref for OwnedIndexedChars {
    type Target = str;

    fn deref(&self) -> (r: &str)
        ensures
            r@ == self@,
    {
        self.buf.as_str()
    }
}

impl core::convert::AsRef<str> for OwnedIndexedChars {
    fn as_ref(&self) -> (r: &str)
        ensures
            r@ == self@,
    {
        self.buf.as_str()
    }
}

impl core::borrow::Borrow<str> for OwnedIndexedChars {
    fn borrow(&self) -> &str {
        self.buf.as_str()
    }
}

impl PartialEq for OwnedIndexedChars {
    fn eq(&self, other: &Self) -> bool {
        self.buf == other.buf
    }
}

impl vstd::std_specs::cmp::PartialEqSpecImpl for OwnedIndexedChars {
    open spec fn obeys_eq_spec() -> bool {
        true
    }

    /// Equal strings, whatever their indexes.
    open spec fn eq_spec(&self, other: &Self) -> bool {
        self@ == other@
    }
}

impl Eq for OwnedIndexedChars {

}

impl PartialEq<str> for OwnedIndexedChars {
    fn eq(&self, other: &str) -> bool {
        str_eq(self.buf.as_str(), other)
    }
}

impl vstd::std_specs::cmp::PartialEqSpecImpl<str> for OwnedIndexedChars {
    open spec fn obeys_eq_spec() -> bool {
        true
    }

    /// The indexed string is `other`.
    open spec fn eq_spec(&self, other: &str) -> bool {
        self@ == other@
    }
}

impl PartialEq<OwnedIndexedChars> for str {
    fn eq(&self, other: &OwnedIndexedChars) -> bool {
        str_eq(self, other.buf.as_str())
    }
}

impl vstd::std_specs::cmp::PartialEqSpecImpl<OwnedIndexedChars> for str {
    open spec fn obeys_eq_spec() -> bool {
        true
    }

    /// The string is the one `other` indexes.
    open spec fn eq_spec(&self, other: &OwnedIndexedChars) -> bool {
        self@ == other@
    }
}

impl PartialOrd for OwnedIndexedChars {
    fn partial_cmp(&self, other: &Self) -> Option<core::cmp::Ordering> {
        Some(compare_strs(self.buf.as_str(), other.buf.as_str()))
    }
}

impl vstd::std_specs::cmp::PartialOrdSpecImpl for OwnedIndexedChars {
    open spec fn obeys_partial_cmp_spec() -> bool {
        true
    }

    /// The order of the strings, whatever their indexes.
    open spec fn partial_cmp_spec(&self, other: &Self) -> Option<core::cmp::Ordering> {
        Some(str_order(self@, other@))
    }
}

impl PartialOrd<str> for OwnedIndexedChars {
    fn partial_cmp(&self, other: &str) -> Option<core::cmp::Ordering> {
        Some(compare_strs(self.buf.as_str(), other))
    }
}

impl vstd::std_specs::cmp::PartialOrdSpecImpl<str> for OwnedIndexedChars {
    open spec fn obeys_partial_cmp_spec() -> bool {
        true
    }

    /// The order of the indexed string and `other`.
    open spec fn partial_cmp_spec(&self, other: &str) -> Option<core::cmp::Ordering> {
        Some(str_order(self@, other@))
    }
}

impl PartialOrd<OwnedIndexedChars> for str {
    fn partial_cmp(&self, other: &OwnedIndexedChars) -> Option<core::cmp::Ordering> {
        Some(compare_strs(self, other.buf.as_str()))
    }
}

impl vstd::std_specs::cmp::PartialOrdSpecImpl<OwnedIndexedChars> for str {
    open spec fn obeys_partial_cmp_spec() -> bool {
        true
    }

    /// The order of the string and the one `other` indexes.
    open spec fn partial_cmp_spec(&self, other: &OwnedIndexedChars) -> Option<core::cmp::Ordering> {
        Some(str_order(self@, other@))
    }
}

impl core::hash::Hash for OwnedIndexedChars {
    fn hash<H: core::hash::Hasher>(&self, state: &mut H) {
        hash_str(self.buf.as_str(), state);
    }
}

} // verus!
