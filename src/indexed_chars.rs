//! The index itself: how it is built from a string and how a lookup reads it.

use vstd::prelude::*;
use vstd::std_specs::iter::IteratorSpec;
use vstd::string::StrSliceExecFns;
use vstd::utf8::*;

use crate::model::{
    byte_pos, char_at_byte, lemma_byte_pos_step, lemma_char_at_pos, lemma_offset_range,
    lemma_overhead_mono, lemma_overhead_start, lemma_split, lemma_wraps_step, offset_byte,
    single_byte_chars, wraps, OFFSET_MAX,
};

verus! {

broadcast use vstd::utf8::group_utf8_lib;

/// Character offsets of one string: one byte per character, plus the character
/// indices at which those bytes rolled over. Both are empty when every character
/// of the string is one byte long.
pub struct IndexedCharsInner {
    /// For each character, how far past its character index it starts, less 255
    /// for each rollover up to it.
    chars: Vec<u8>,
    /// Character indices, ascending, at which the offset passed another 255.
    rollovers: Vec<usize>,
}

/// `r` is strictly ascending.
pub open spec fn ascending(r: Seq<usize>) -> bool {
    forall|a: int, b: int| 0 <= a < b < r.len() ==> r[a] < r[b]
}

/// `r` lists, in order, the character indices among the first `n` characters of
/// `cs` at which the rollover count grows: entry `k` is where it reaches `k + 1`.
pub open spec fn rollovers_of(cs: Seq<char>, r: Seq<usize>, n: int) -> bool {
    &&& r.len() == (if n == 0 {
        0
    } else {
        wraps(cs, n - 1)
    })
    &&& ascending(r)
    &&& forall|k: int|
        #![trigger r[k]]
        0 <= k < r.len() ==> {
            &&& 0 < r[k] < n
            &&& wraps(cs, r[k] as int) == k + 1
            &&& wraps(cs, r[k] - 1) == k
        }
}

/// How many entries of `r` are at most `i`.
pub open spec fn count_upto(r: Seq<usize>, i: int) -> nat
    decreases r.len(),
{
    if r.len() == 0 {
        0
    } else {
        count_upto(r.drop_last(), i) + if r.last() <= i {
            1nat
        } else {
            0nat
        }
    }
}

impl IndexedCharsInner {
    /// The offset bytes.
    pub closed spec fn spec_chars(&self) -> Seq<u8> {
        self.chars@
    }

    /// The rollover positions.
    pub closed spec fn spec_rollovers(&self) -> Seq<usize> {
        self.rollovers@
    }

    /// This is the index of the string whose characters are `cs`.
    pub open spec fn indexes(&self, cs: Seq<char>) -> bool {
        if single_byte_chars(cs) {
            self.spec_chars().len() == 0 && self.spec_rollovers().len() == 0
        } else {
            &&& self.spec_chars().len() == cs.len()
            &&& forall|i: int|
                0 <= i < cs.len() ==> #[trigger] self.spec_chars()[i] == offset_byte(cs, i)
            &&& rollovers_of(cs, self.spec_rollovers(), cs.len() as int)
        }
    }

    /// What a lookup of character `i` reads from the index and the string's bytes:
    /// with no offsets, the character at byte `i`; otherwise, if `i` has an offset,
    /// the character at byte `i + offset + 255 * (rollovers up to i)`.
    pub open spec fn lookup(&self, bytes: Seq<u8>, i: int) -> Option<char> {
        if self.spec_chars().len() == 0 {
            char_at_byte(bytes, i)
        } else if 0 <= i < self.spec_chars().len() {
            char_at_byte(
                bytes,
                i + self.spec_chars()[i] + 255 * count_upto(self.spec_rollovers(), i),
            )
        } else {
            None
        }
    }
}

/// The UTF-8 width of `c`.
fn utf8_width(c: char) -> (w: usize)
    ensures
        w == encode_scalar(c as u32).len(),
{
    let v = c as u32;
    if v <= 0x7f {
        1
    } else if v <= 0x7ff {
        2
    } else if v <= 0xffff {
        3
    } else {
        4
    }
}

impl IndexedCharsInner {
    /// Builds the index of `s` in one pass over its characters. A string whose
    /// characters are all one byte long gets an empty index.
    pub fn new(s: &str) -> (r: Self)
        ensures
            r.indexes(s@),
    {
        let ghost cs = s@;
        let charlen = s.unicode_len();
        let n_bytes = s.as_bytes().len();
        if charlen == n_bytes {
            return Self { chars: Vec::new(), rollovers: Vec::new() };
        }
        let mut chars: Vec<u8> = Vec::with_capacity(charlen);
        let mut rollovers: Vec<usize> = Vec::new();
        let mut it = s.chars();
        let mut real_idx: usize = 0;
        let mut char_idx: usize = 0;
        proof {
            lemma_overhead_start(cs, 0);
        }
        while char_idx < charlen
            invariant
                cs == s@,
                charlen == cs.len(),
                n_bytes == encode_utf8(cs).len(),
                char_idx <= charlen,
                real_idx == byte_pos(cs, char_idx as int),
                it.remaining() == cs.skip(char_idx as int),
                chars@.len() == char_idx,
                forall|i: int| 0 <= i < char_idx ==> #[trigger] chars@[i] == offset_byte(cs, i),
                rollovers_of(cs, rollovers@, char_idx as int),
            decreases charlen - char_idx,
        {
            let ghost ci = char_idx as int;
            proof {
                lemma_overhead_start(cs, ci);
                lemma_offset_range(cs, ci);
                lemma_byte_pos_step(cs, ci);
                lemma_split(cs, ci + 1);
                assert(cs.skip(ci)[0] == cs[ci]);
                assert(cs.skip(ci).drop_first() =~= cs.skip(ci + 1));
                if ci > 0 {
                    lemma_offset_range(cs, ci - 1);
                    lemma_overhead_mono(cs, ci - 1, ci);
                    lemma_wraps_step(cs, ci - 1);
                }
            }
            let c = it.next().unwrap();
            let mut offset: usize = real_idx - char_idx;
            offset = offset - rollovers.len() * OFFSET_MAX;
            if offset > OFFSET_MAX {
                rollovers.push(char_idx);
                offset = offset - OFFSET_MAX;
            }
            chars.push(offset as u8);
            real_idx = real_idx + utf8_width(c);
            char_idx = char_idx + 1;
            proof {
                let r = rollovers@;
                assert forall|k: int| #![trigger r[k]] 0 <= k < r.len() implies {
                    &&& 0 < r[k] < char_idx
                    &&& wraps(cs, r[k] as int) == k + 1
                    &&& wraps(cs, r[k] - 1) == k
                } by {}
            }
        }
        Self { chars, rollovers }
    }
}

/// Where `r` splits into entries at most `i` and entries above it, the count of
/// the first kind is the split point.
proof fn lemma_count_split(r: Seq<usize>, i: int, k: int)
    requires
        0 <= k <= r.len(),
        forall|j: int| 0 <= j < k ==> r[j] <= i,
        forall|j: int| k <= j < r.len() ==> r[j] > i,
    ensures
        count_upto(r, i) == k,
    decreases r.len(),
{
    if r.len() > 0 {
        if k == r.len() {
            lemma_count_split(r.drop_last(), i, k - 1);
        } else {
            lemma_count_split(r.drop_last(), i, k);
        }
    }
}

/// In a well-built index, the rollovers up to character `i` are `wraps(cs, i)`.
proof fn lemma_rollovers_upto(cs: Seq<char>, r: Seq<usize>, i: int)
    requires
        0 <= i < cs.len(),
        rollovers_of(cs, r, cs.len() as int),
    ensures
        count_upto(r, i) == wraps(cs, i),
{
    let w = wraps(cs, i);
    lemma_overhead_mono(cs, i, cs.len() - 1);
    lemma_offset_range(cs, i);
    assert forall|j: int| 0 <= j < w implies r[j] <= i by {
        if r[j] > i {
            lemma_overhead_mono(cs, i, r[j] - 1);
        }
    }
    assert forall|j: int| w <= j < r.len() implies r[j] > i by {
        if r[j] <= i {
            lemma_overhead_mono(cs, r[j] as int, i);
        }
    }
    lemma_count_split(r, i, w);
}

/// The number of entries of the ascending `r` that are at most `index`, found by
/// binary search.
fn rollovers_through(r: &Vec<usize>, index: usize) -> (k: usize)
    requires
        ascending(r@),
    ensures
        k == count_upto(r@, index as int),
{
    let mut lo: usize = 0;
    let mut hi: usize = r.len();
    while lo < hi
        invariant
            lo <= hi <= r@.len(),
            ascending(r@),
            forall|j: int| 0 <= j < lo ==> r@[j] <= index,
            forall|j: int| hi <= j < r@.len() ==> r@[j] > index,
        decreases hi - lo,
    {
        let mid = lo + (hi - lo) / 2;
        if r[mid] <= index {
            lo = mid + 1;
        } else {
            hi = mid;
        }
    }
    proof {
        lemma_count_split(r@, index as int, lo as int);
    }
    lo
}

/// The character of `buf` that starts at byte `pos`.
fn char_starting_at(buf: &str, pos: usize) -> (c: char)
    requires
        pos < encode_utf8(buf@).len(),
        is_char_boundary(encode_utf8(buf@), pos as int),
    ensures
        char_at_byte(encode_utf8(buf@), pos as int) == Some(c),
{
    let (_, tail) = buf.split_at(pos);
    proof {
        let rest = tail@;
        assert(rest.len() > 0);
        encode_utf8_first_scalar(rest);
        char_u32_cast(rest[0], decode_first_scalar(encode_utf8(rest)));
    }
    let mut it = tail.chars();
    it.next().unwrap()
}

/// In the index of a string whose characters are all one byte long, each
/// character starts at its own index.
proof fn lemma_single_byte_pos(cs: Seq<char>, i: int)
    requires
        single_byte_chars(cs),
        0 <= i <= cs.len(),
    ensures
        byte_pos(cs, i) == i,
{
    lemma_overhead_start(cs, i);
    lemma_overhead_mono(cs, i, cs.len() as int);
    assert(cs.take(cs.len() as int) =~= cs);
}

/// A lookup in the index of `cs` reads character `i` back from the encoding of `cs`.
pub proof fn lemma_lookup_round_trip(idx: IndexedCharsInner, cs: Seq<char>, i: int)
    requires
        idx.indexes(cs),
        0 <= i < cs.len(),
    ensures
        idx.lookup(encode_utf8(cs), i) == Some(cs[i]),
{
    lemma_char_at_pos(cs, i);
    if single_byte_chars(cs) {
        lemma_single_byte_pos(cs, i);
    } else {
        lemma_rollovers_upto(cs, idx.spec_rollovers(), i);
    }
}

/// A lookup past the last character of `cs` in its index finds nothing.
pub proof fn lemma_lookup_out_of_range(idx: IndexedCharsInner, cs: Seq<char>, i: int)
    requires
        idx.indexes(cs),
        i >= cs.len(),
    ensures
        idx.lookup(encode_utf8(cs), i) is None,
{
}

/// The index of a string of ASCII characters holds no offsets and no rollovers.
pub proof fn lemma_ascii_niche(idx: IndexedCharsInner, cs: Seq<char>)
    requires
        idx.indexes(cs),
        is_ascii_chars(cs),
    ensures
        idx.spec_chars().len() == 0,
        idx.spec_rollovers().len() == 0,
{
    is_ascii_chars_encode_utf8(cs);
}

impl IndexedCharsInner {
    /// Whether the index is empty, as it is for a string whose characters are all
    /// one byte long (and for the empty string).
    pub fn is_ascii(&self) -> (r: bool)
        ensures
            r == (self.spec_chars().len() == 0),
    {
        self.chars.len() == 0
    }

    /// The number of characters of `buf`, read in constant time from its index.
    pub fn char_count(&self, buf: &str) -> (r: usize)
        requires
            self.indexes(buf@),
        ensures
            r == buf@.len(),
    {
        if self.is_ascii() {
            proof {
                if !single_byte_chars(buf@) {
                    lemma_overhead_start(buf@, 0);
                }
            }
            buf.as_bytes().len()
        } else {
            self.chars.len()
        }
    }

    /// Character `index` of `buf`, or `None` past its last character. `buf` must
    /// be the string that the index was built from.
    pub fn get_char(&self, buf: &str, index: usize) -> (r: Option<char>)
        requires
            self.indexes(buf@),
        ensures
            r == (if index < buf@.len() {
                Some(buf@[index as int])
            } else {
                None
            }),
    {
        let ghost cs = buf@;
        let n_bytes = buf.as_bytes().len();
        proof {
            if index < cs.len() {
                lemma_char_at_pos(cs, index as int);
            }
        }
        if self.is_ascii() {
            proof {
                if !single_byte_chars(cs) {
                    lemma_overhead_start(cs, 0);
                }
            }
            if index < n_bytes {
                proof {
                    lemma_single_byte_pos(cs, index as int);
                }
                return Some(char_starting_at(buf, index));
            } else {
                return None;
            }
        }
        if index >= self.chars.len() {
            return None;
        }
        let offset = self.chars[index] as usize;
        let k = rollovers_through(&self.rollovers, index);
        proof {
            lemma_rollovers_upto(cs, self.rollovers@, index as int);
            lemma_offset_range(cs, index as int);
        }
        let pos = index + offset + OFFSET_MAX * k;
        Some(char_starting_at(buf, pos))
    }

    /// The offset bytes, one per character (none for an all-ASCII string).
    pub fn chars(&self) -> (r: &Vec<u8>)
        ensures
            r@ == self.spec_chars(),
    {
        &self.chars
    }

    /// The character indices at which the offsets rolled over, ascending.
    pub fn rollovers(&self) -> (r: &Vec<usize>)
        ensures
            r@ == self.spec_rollovers(),
    {
        &self.rollovers
    }
}

} // verus!
