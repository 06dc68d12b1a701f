use char_index::text::{compare_bytes, compare_strs};
use char_index::{IndexedChars, OwnedIndexedChars};
use std::cmp::Ordering;
use std::collections::hash_map::DefaultHasher;
use std::hash::{Hash, Hasher};

fn hash_of<T: Hash + ?Sized>(value: &T) -> u64 {
    let mut state = DefaultHasher::new();
    value.hash(&mut state);
    state.finish()
}

#[test]
fn byte_comparison_is_lexicographic() {
    assert_eq!(compare_bytes(b"", b""), Ordering::Equal);
    assert_eq!(compare_bytes(b"", b"a"), Ordering::Less);
    assert_eq!(compare_bytes(b"a", b""), Ordering::Greater);
    assert_eq!(compare_bytes(b"abc", b"abd"), Ordering::Less);
    assert_eq!(compare_bytes(b"abd", b"abc"), Ordering::Greater);
    assert_eq!(compare_bytes(b"ab", b"abc"), Ordering::Less);
    assert_eq!(compare_bytes(b"abc", b"abc"), Ordering::Equal);
    assert_eq!(compare_bytes(&[0xff], &[0x00, 0x01]), Ordering::Greater);
}

#[test]
fn string_comparison_matches_str() {
    let words = ["", "a", "ab", "b", "é", "e", "z", "€", "💯", "💯a", "aé"];
    for x in words {
        for y in words {
            assert_eq!(compare_strs(x, y), x.cmp(y), "{x} vs {y}");
        }
    }
}

#[test]
fn borrowed_ordering_follows_the_string() {
    let a = IndexedChars::new("apple");
    let b = IndexedChars::new("apricot");
    let e = IndexedChars::new("é");
    assert!(a < b);
    assert!(b > a);
    assert_eq!(a.partial_cmp(&IndexedChars::new("apple")), Some(Ordering::Equal));
    assert!(e > IndexedChars::new("z"));
    assert_eq!(a.partial_cmp("b"), Some(Ordering::Less));
    assert_eq!("b".partial_cmp(&a), Some(Ordering::Greater));
    assert_eq!(e.partial_cmp("é"), Some(Ordering::Equal));
}

#[test]
fn owned_ordering_follows_the_string() {
    let a = OwnedIndexedChars::new(String::from("💯"));
    let b = OwnedIndexedChars::new(String::from("€"));
    assert!(a > b);
    assert!(b < a);
    assert_eq!(a.partial_cmp("💯"), Some(Ordering::Equal));
    assert_eq!(b.partial_cmp("z"), Some(Ordering::Greater));
    assert_eq!("a".partial_cmp(&b), Some(Ordering::Less));
    assert_eq!("💯a".partial_cmp(&a), Some(Ordering::Greater));
}

#[test]
fn hashes_like_the_string() {
    let text = "héllo 💯";
    assert_eq!(hash_of(&IndexedChars::new(text)), hash_of(text));
    assert_eq!(hash_of(&OwnedIndexedChars::new(String::from(text))), hash_of(text));
    assert_ne!(hash_of(&IndexedChars::new("ab")), hash_of(&IndexedChars::new("ba")));
}
