use char_index::IndexedCharsInner;
use rand::{seq::SliceRandom, thread_rng};

#[test]
fn create() {
    let s_buf = "foo";
    let s = IndexedCharsInner::new(s_buf);

    assert_eq!(s.char_count(s_buf), 3);
    assert!(s.rollovers().is_empty());
    assert!(s.is_ascii());
    assert_eq!(s.get_char(s_buf, 4), None);

    let special = '💯';

    let foo_alloc = format!("{special}a");

    let foo_s = IndexedCharsInner::new(&foo_alloc);

    assert_eq!(
        foo_s.chars(),
        &[0, u8::try_from(special.len_utf8() - 1).unwrap()]
    );

    assert_eq!(foo_s.get_char(&foo_alloc, 2), None);

    assert_eq!(foo_s.char_count(&foo_alloc), 2);
}

fn get_idx(s: &str) {
    let index = IndexedCharsInner::new(s);

    for (char_idx, (_real_idx, c)) in s.char_indices().enumerate() {
        assert_eq!(index.get_char(s, char_idx).unwrap(), c);
    }

    assert_eq!(index.get_char(s, index.char_count(s)), None)
}

#[test]
fn uniform() {
    let mut chars: Vec<char> = (0..20_000)
        .map(|i| char::from_u32(i).unwrap())
        .cycle()
        .take(100_000)
        .collect();

    chars.shuffle(&mut thread_rng());

    let s = String::from_iter(&chars);

    get_idx(&s);
    // the ASCII case, with an empty index
    get_idx("abcdefghijk");
}

#[test]
fn asciiopt() {
    let ascii = "abcdefghijklmnopqrstuvwxyz";

    let ichars = IndexedCharsInner::new(ascii);

    assert!(ichars.is_ascii());

    assert!(ichars.rollovers().is_empty());
    assert!(ichars.chars().is_empty());

    assert_eq!(ichars.get_char(ascii, ascii.len()), None);
    assert_eq!(ichars.get_char(ascii, ascii.len() - 1), Some('z'));
}

#[test]
fn emoji_then_ascii_offsets_and_lookups() {
    let buf = "💯a";
    let index = IndexedCharsInner::new(buf);
    assert_eq!(index.chars(), &[0u8, 3]);
    assert!(index.rollovers().is_empty());
    assert!(!index.is_ascii());
    assert_eq!(index.get_char(buf, 0), Some('💯'));
    assert_eq!(index.get_char(buf, 1), Some('a'));
    assert_eq!(index.get_char(buf, 2), None);
    assert_eq!(index.char_count(buf), 2);
}

#[test]
fn empty_string_has_empty_index() {
    let index = IndexedCharsInner::new("");
    assert!(index.is_ascii());
    assert!(index.chars().is_empty());
    assert!(index.rollovers().is_empty());
    assert_eq!(index.char_count(""), 0);
    assert_eq!(index.get_char("", 0), None);
    assert_eq!(index.get_char("", usize::MAX), None);
}

#[test]
fn ascii_lookups_past_the_end() {
    let buf = "foo";
    let index = IndexedCharsInner::new(buf);
    assert_eq!(index.get_char(buf, 0), Some('f'));
    assert_eq!(index.get_char(buf, 2), Some('o'));
    assert_eq!(index.get_char(buf, 3), None);
    assert_eq!(index.get_char(buf, 4), None);
    assert_eq!(index.get_char(buf, usize::MAX), None);
}

#[test]
fn one_rollover_with_three_byte_chars() {
    // each '€' takes three bytes: the overhead before character i is 2 * i
    let buf: String = std::iter::repeat('€').take(200).collect();
    let index = IndexedCharsInner::new(&buf);
    assert_eq!(index.rollovers(), &[128usize]);
    assert_eq!(index.chars().len(), 200);
    assert_eq!(index.chars()[0], 0);
    assert_eq!(index.chars()[127], 254);
    assert_eq!(index.chars()[128], 1);
    assert_eq!(index.chars()[199], 143);
    for i in 0..200 {
        assert_eq!(index.get_char(&buf, i), Some('€'));
    }
    assert_eq!(index.get_char(&buf, 200), None);
}

#[test]
fn two_rollovers_with_four_byte_chars() {
    // each '💯' takes four bytes: the overhead before character i is 3 * i
    let buf: String = std::iter::repeat('💯').take(200).collect();
    let index = IndexedCharsInner::new(&buf);
    assert_eq!(index.rollovers(), &[86usize, 171]);
    assert_eq!(index.chars()[85], 255);
    assert_eq!(index.chars()[86], 3);
    assert_eq!(index.chars()[170], 255);
    assert_eq!(index.chars()[171], 3);
    assert_eq!(index.char_count(&buf), 200);
    assert_eq!(index.get_char(&buf, 199), Some('💯'));
    assert_eq!(index.get_char(&buf, 200), None);
}

#[test]
fn rollover_boundary_mixed_text() {
    // 200 three-byte characters, each followed by an ASCII letter
    let mut buf = String::new();
    for i in 0..200u32 {
        buf.push('€');
        buf.push(char::from_u32('a' as u32 + i % 26).unwrap());
    }
    let index = IndexedCharsInner::new(&buf);
    // the overhead reaches 256 after the 128th three-byte character, at character 255
    assert_eq!(index.rollovers(), &[255usize]);
    assert_eq!(index.chars()[254], 254);
    assert_eq!(index.chars()[255], 1);
    let expected: Vec<char> = buf.chars().collect();
    for (i, c) in expected.iter().enumerate() {
        assert_eq!(index.get_char(&buf, i), Some(*c));
    }
    assert_eq!(index.get_char(&buf, 254), Some('€'));
    assert_eq!(index.get_char(&buf, 255), Some('x'));
    assert_eq!(index.get_char(&buf, 256), Some('€'));
    assert_eq!(index.get_char(&buf, 257), Some('y'));
    assert_eq!(index.get_char(&buf, 400), None);
}

#[test]
fn ascii_index_allocates_nothing() {
    let buf = "The quick brown fox jumps over the lazy dog.";
    let index = IndexedCharsInner::new(buf);
    assert!(index.chars().is_empty());
    assert!(index.rollovers().is_empty());
    assert_eq!(index.char_count(buf), buf.len());
}
