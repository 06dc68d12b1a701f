//! The mathematical model of the index: byte positions of characters in the
//! UTF-8 encoding of a string, and the one-byte offsets and rollovers derived
//! from them.

use vstd::prelude::*;
use vstd::utf8::*;

verus! {

broadcast use vstd::utf8::group_utf8_lib;

/// The largest value an offset byte holds; each rollover stands for this many bytes.
pub const OFFSET_MAX: usize = 255;

/// Byte position at which character `i` of `cs` starts in the UTF-8 encoding of `cs`.
pub open spec fn byte_pos(cs: Seq<char>, i: int) -> int {
    encode_utf8(cs.take(i)).len() as int
}

/// Bytes spent before character `i` beyond one byte per character.
pub open spec fn overhead(cs: Seq<char>, i: int) -> int {
    byte_pos(cs, i) - i
}

/// How many rollovers have happened up to and including character `i`: the
/// number of `m >= 1` with `overhead(cs, i) > 255 * m`.
pub open spec fn wraps(cs: Seq<char>, i: int) -> int {
    let e = overhead(cs, i);
    if e <= 255 {
        0
    } else {
        (e - 1) / 255
    }
}

/// The offset byte stored for character `i`.
pub open spec fn offset_byte(cs: Seq<char>, i: int) -> int {
    overhead(cs, i) - 255 * wraps(cs, i)
}

/// Every character of `cs` takes one byte in UTF-8.
pub open spec fn single_byte_chars(cs: Seq<char>) -> bool {
    encode_utf8(cs).len() == cs.len()
}

/// The character that starts at byte `pos` of `bytes`, if `pos` is inside it.
pub open spec fn char_at_byte(bytes: Seq<u8>, pos: int) -> Option<char> {
    if 0 <= pos < bytes.len() {
        Some(decode_first_scalar(bytes.subrange(pos, bytes.len() as int)) as char)
    } else {
        None
    }
}

/// Encoding a concatenation concatenates the encodings.
pub proof fn lemma_encode_concat(a: Seq<char>, b: Seq<char>)
    ensures
        encode_utf8(a + b) == encode_utf8(a) + encode_utf8(b),
    decreases a.len(),
{
    if a.len() == 0 {
        assert(a + b =~= b);
        assert(encode_utf8(a) + encode_utf8(b) =~= encode_utf8(b));
    } else {
        assert((a + b).drop_first() =~= a.drop_first() + b);
        lemma_encode_concat(a.drop_first(), b);
        assert((a + b)[0] == a[0]);
        assert(encode_utf8(a + b) =~= encode_utf8(a) + encode_utf8(b));
    }
}

/// A character takes between one and four bytes.
pub proof fn lemma_scalar_width(c: char)
    ensures
        1 <= encode_scalar(c as u32).len() <= 4,
{
}

/// Splitting the characters at `i` splits the encoding at `byte_pos(cs, i)`.
pub proof fn lemma_split(cs: Seq<char>, i: int)
    requires
        0 <= i <= cs.len(),
    ensures
        encode_utf8(cs) == encode_utf8(cs.take(i)) + encode_utf8(cs.skip(i)),
        byte_pos(cs, i) <= encode_utf8(cs).len(),
{
    assert(cs =~= cs.take(i) + cs.skip(i));
    lemma_encode_concat(cs.take(i), cs.skip(i));
}

/// Character `i` adds its own width to the byte position.
pub proof fn lemma_byte_pos_step(cs: Seq<char>, i: int)
    requires
        0 <= i < cs.len(),
    ensures
        byte_pos(cs, i + 1) == byte_pos(cs, i) + encode_scalar(cs[i] as u32).len(),
        overhead(cs, i) <= overhead(cs, i + 1) <= overhead(cs, i) + 3,
{
    let one = seq![cs[i]];
    assert(cs.take(i + 1) =~= cs.take(i) + one);
    lemma_encode_concat(cs.take(i), one);
    assert(one.drop_first() =~= Seq::<char>::empty());
    assert(one[0] == cs[i]);
    assert(encode_utf8(one.drop_first()) =~= Seq::<u8>::empty());
    assert(encode_utf8(one) =~= encode_scalar(cs[i] as u32));
    lemma_scalar_width(cs[i]);
}

/// The overhead never decreases along the string.
pub proof fn lemma_overhead_mono(cs: Seq<char>, i: int, j: int)
    requires
        0 <= i <= j <= cs.len(),
    ensures
        overhead(cs, i) <= overhead(cs, j),
        wraps(cs, i) <= wraps(cs, j),
    decreases j - i,
{
    if i < j {
        lemma_overhead_mono(cs, i, j - 1);
        lemma_byte_pos_step(cs, j - 1);
    }
    let (a, b) = (overhead(cs, i), overhead(cs, j));
    if a > 255 {
        assert((a - 1) / 255 <= (b - 1) / 255) by (nonlinear_arith)
            requires
                255 < a <= b,
        ;
    }
}

/// The overhead before the first character is zero, and it stays non-negative.
pub proof fn lemma_overhead_start(cs: Seq<char>, i: int)
    requires
        0 <= i <= cs.len(),
    ensures
        overhead(cs, 0) == 0,
        0 <= overhead(cs, i),
    decreases i,
{
    assert(cs.take(0) =~= Seq::<char>::empty());
    if i > 0 {
        lemma_overhead_start(cs, i - 1);
        lemma_byte_pos_step(cs, i - 1);
    }
}

/// The offset byte fits in a byte, and the rollovers it leaves out add up to at
/// most the overhead.
pub proof fn lemma_offset_range(cs: Seq<char>, i: int)
    requires
        0 <= i <= cs.len(),
    ensures
        0 <= offset_byte(cs, i) <= 255,
        0 <= wraps(cs, i),
        255 * wraps(cs, i) <= overhead(cs, i),
        wraps(cs, i) >= 1 <==> overhead(cs, i) > 255,
{
    lemma_overhead_start(cs, i);
    let e = overhead(cs, i);
    if e > 255 {
        let w = (e - 1) / 255;
        assert(1 <= w && 255 * w <= e && e - 255 * w <= 255) by (nonlinear_arith)
            requires
                e > 255,
                w == (e - 1) / 255,
        ;
    }
}

/// Between two neighbouring characters the rollover count grows by at most one,
/// and it grows exactly when the overhead passes the next multiple of 255.
pub proof fn lemma_wraps_step(cs: Seq<char>, i: int)
    requires
        0 <= i < cs.len(),
    ensures
        wraps(cs, i) <= wraps(cs, i + 1) <= wraps(cs, i) + 1,
        wraps(cs, i + 1) == wraps(cs, i) + 1 <==> overhead(cs, i + 1) - 255 * wraps(cs, i) > 255,
{
    lemma_byte_pos_step(cs, i);
    lemma_overhead_mono(cs, i, i + 1);
    lemma_offset_range(cs, i);
    lemma_offset_range(cs, i + 1);
    let (a, b) = (overhead(cs, i), overhead(cs, i + 1));
    let (wa, wb) = (wraps(cs, i), wraps(cs, i + 1));
    if b > 255 {
        assert(wb == (b - 1) / 255);
        if a > 255 {
            assert(wa == (a - 1) / 255);
            assert(wb <= wa + 1 && (wb == wa + 1 <==> b - 255 * wa > 255)) by (nonlinear_arith)
                requires
                    255 < a <= b <= a + 3,
                    wa == (a - 1) / 255,
                    wb == (b - 1) / 255,
            ;
        } else {
            assert(wb == 1) by (nonlinear_arith)
                requires
                    255 < b <= 258,
                    wb == (b - 1) / 255,
            ;
        }
    }
}

/// The character that starts at `byte_pos(cs, i)` is `cs[i]`, and that position
/// is a character boundary.
pub proof fn lemma_char_at_pos(cs: Seq<char>, i: int)
    requires
        0 <= i < cs.len(),
    ensures
        char_at_byte(encode_utf8(cs), byte_pos(cs, i)) == Some(cs[i]),
        byte_pos(cs, i) < encode_utf8(cs).len(),
        is_char_boundary(encode_utf8(cs), byte_pos(cs, i)),
        encode_utf8(cs).subrange(byte_pos(cs, i), encode_utf8(cs).len() as int) == encode_utf8(
            cs.skip(i),
        ),
{
    let bytes = encode_utf8(cs);
    let p = byte_pos(cs, i);
    lemma_split(cs, i);
    let rest = cs.skip(i);
    assert(bytes.subrange(p, bytes.len() as int) =~= encode_utf8(rest));
    encode_utf8_first_scalar(rest);
    assert(rest[0] == cs[i]);
    char_u32_cast(rest[0], decode_first_scalar(encode_utf8(rest)));
    lemma_byte_pos_step(cs, i);
    lemma_split(cs, i + 1);
    lemma_boundary(cs.take(i), rest);
    assert(cs.take(i) + rest =~= cs);
}

/// The end of the encoding of `a` is a character boundary of the encoding of `a + b`.
pub proof fn lemma_boundary(a: Seq<char>, b: Seq<char>)
    ensures
        is_char_boundary(encode_utf8(a + b), encode_utf8(a).len() as int),
    decreases a.len(),
{
    let bytes = encode_utf8(a + b);
    if a.len() == 0 {
    } else {
        lemma_encode_concat(a, b);
        let tail = a.drop_first() + b;
        assert((a + b).drop_first() =~= tail);
        encode_utf8_first_scalar(a + b);
        assert((a + b)[0] == a[0]);
        lemma_scalar_width(a[0]);
        assert(pop_first_scalar(bytes) =~= encode_utf8(tail));
        lemma_boundary(a.drop_first(), b);
    }
}

} // verus!
