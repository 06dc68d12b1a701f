//! [`IndexedChars`]: a borrowed string paired with its character index.

use vstd::prelude::*;

use crate::indexed_chars::IndexedCharsInner;
use crate::text::{compare_strs, hash_str, str_eq, str_order};

verus! {

/// A borrowed string whose character positions are indexed, so that the n-th
/// character is found in constant time on average (logarithmic in the number of
/// rollovers at worst). The index takes one byte per character, and nothing for
/// a string of ASCII characters.
pub struct IndexedChars<'a> {
    /// The string.
    buf: &'a str,
    /// Its character index.
    inner: IndexedCharsInner,
}

impl<'a> View for IndexedChars<'a> {
    type V = Seq<char>;

    /// The characters of the string.
    closed spec fn view(&self) -> Seq<char> {
        self.buf@
    }
}

impl<'a> IndexedChars<'a> {
    /// The index always belongs to the string beside it.
    #[verifier::type_invariant]
    closed spec fn wf(&self) -> bool {
        self.inner.indexes(self.buf@)
    }

    /// Indexes `s`, in one pass over it.
    pub fn new(s: &'a str) -> (r: Self)
        ensures
            r@ == s@,
    {
        let inner = IndexedCharsInner::new(s);
        Self { buf: s, inner }
    }

    /// The character at position `index`, or `None` past the last character.
    pub fn get_char(&self, index: usize) -> (r: Option<char>)
        ensures
            r == (if index < self@.len() {
                Some(self@[index as int])
            } else {
                None
            }),
    {
        proof {
            use_type_invariant(self);
        }
        self.inner.get_char(self.buf, index)
    }

    /// The string.
    pub fn as_str(&self) -> (r: &str)
        ensures
            r@ == self@,
    {
        self.buf
    }
}

impl<'a> core::ops::Deref for IndexedChars<'a> {
    type Target = str;

    fn deref(&self) -> (r: &str)
        ensures
            r@ == self@,
    {
        self.buf
    }
}

impl<'a> core::convert::AsRef<str> for IndexedChars<'a> {
    fn as_ref(&self) -> (r: &str)
        ensures
            r@ == self@,
    {
        self.buf
    }
}

impl<'a> core::borrow::Borrow<str> for IndexedChars<'a> {
    fn borrow(&self) -> &str {
        self.buf
    }
}

impl<'a> PartialEq for IndexedChars<'a> {
    fn eq(&self, other: &Self) -> bool {
        str_eq(self.buf, other.buf)
    }
}

impl<'a> vstd::std_specs::cmp::PartialEqSpecImpl for IndexedChars<'a> {
    open spec fn obeys_eq_spec() -> bool {
        true
    }

    /// Equal strings, whatever their indexes.
    open spec fn eq_spec(&self, other: &Self) -> bool {
        self@ == other@
    }
}

impl<'a> Eq for IndexedChars<'a> {

}

impl<'a> PartialEq<str> for IndexedChars<'a> {
    fn eq(&self, other: &str) -> bool {
        str_eq(self.buf, other)
    }
}

impl<'a> vstd::std_specs::cmp::PartialEqSpecImpl<str> for IndexedChars<'a> {
    open spec fn obeys_eq_spec() -> bool {
        true
    }

    /// The indexed string is `other`.
    open spec fn eq_spec(&self, other: &str) -> bool {
        self@ == other@
    }
}

impl<'a> PartialEq<IndexedChars<'a>> for str {
    fn eq(&self, other: &IndexedChars<'a>) -> bool {
        str_eq(self, other.buf)
    }
}

impl<'a> vstd::std_specs::cmp::PartialEqSpecImpl<IndexedChars<'a>> for str {
    open spec fn obeys_eq_spec() -> bool {
        true
    }

    /// The string is the one `other` indexes.
    open spec fn eq_spec(&self, other: &IndexedChars<'a>) -> bool {
        self@ == other@
    }
}

impl<'a> PartialOrd for IndexedChars<'a> {
    fn partial_cmp(&self, other: &Self) -> Option<core::cmp::Ordering> {
        Some(compare_strs(self.buf, other.buf))
    }
}

impl<'a> vstd::std_specs::cmp::PartialOrdSpecImpl for IndexedChars<'a> {
    open spec fn obeys_partial_cmp_spec() -> bool {
        true
    }

    /// The order of the strings, whatever their indexes.
    open spec fn partial_cmp_spec(&self, other: &Self) -> Option<core::cmp::Ordering> {
        Some(str_order(self@, other@))
    }
}

impl<'a> PartialOrd<str> for IndexedChars<'a> {
    fn partial_cmp(&self, other: &str) -> Option<core::cmp::Ordering> {
        Some(compare_strs(self.buf, other))
    }
}

impl<'a> vstd::std_specs::cmp::PartialOrdSpecImpl<str> for IndexedChars<'a> {
    open spec fn obeys_partial_cmp_spec() -> bool {
        true
    }

    /// The order of the indexed string and `other`.
    open spec fn partial_cmp_spec(&self, other: &str) -> Option<core::cmp::Ordering> {
        Some(str_order(self@, other@))
    }
}

impl<'a> PartialOrd<IndexedChars<'a>> for str {
    fn partial_cmp(&self, other: &IndexedChars<'a>) -> Option<core::cmp::Ordering> {
        Some(compare_strs(self, other.buf))
    }
}

impl<'a> vstd::std_specs::cmp::PartialOrdSpecImpl<IndexedChars<'a>> for str {
    open spec fn obeys_partial_cmp_spec() -> bool {
        true
    }

    /// The order of the string and the one `other` indexes.
    open spec fn partial_cmp_spec(&self, other: &IndexedChars<'a>) -> Option<core::cmp::Ordering> {
        Some(str_order(self@, other@))
    }
}

impl<'a> core::hash::Hash for IndexedChars<'a> {
    fn hash<H: core::hash::Hasher>(&self, state: &mut H) {
        hash_str(self.buf, state);
    }
}

} // verus!
