use std::cmp::Ordering;
use std::path::PathBuf;

use atom_intern::{record_layout, Atom, AtomKey, Interner};

#[test]
fn substring_test() {
    let mut registry = Interner::new();
    let atom = Atom::new(&mut registry, "0123456789");
    assert_eq!(atom.substring(&registry, 1, 4), "123");
}

#[test]
fn interning_equal_content_yields_one_handle() {
    let mut registry = Interner::new();
    let first = Atom::new(&mut registry, "abc");
    let second = Atom::new(&mut registry, "abc");
    assert!(Atom::ptr_eq(first, second));
    assert_eq!(first, second);
    assert_eq!(registry.record_count(), 1);
}

#[test]
fn interning_distinct_content_yields_distinct_handles() {
    let mut registry = Interner::new();
    let abc = Atom::new(&mut registry, "abc");
    let abd = Atom::new(&mut registry, "abd");
    assert!(!Atom::ptr_eq(abc, abd));
    assert_ne!(abc, abd);
    assert_eq!(registry.record_count(), 2);
}

#[test]
fn colliding_keys_still_dedup_by_full_content() {
    // Strings longer than both hash windows that differ only in the
    // middle share a fingerprint key, so the bucket scan must fall back
    // to the full byte comparison.
    let mut a = "h".repeat(200);
    let mut b = a.clone();
    a.replace_range(100..101, "x");
    b.replace_range(100..101, "y");
    assert_eq!(AtomKey::from_str(&a), AtomKey::from_str(&b));

    let mut registry = Interner::new();
    let atom_a = Atom::new(&mut registry, &a);
    let atom_b = Atom::new(&mut registry, &b);
    assert!(!Atom::ptr_eq(atom_a, atom_b));
    assert_eq!(atom_a.hash(), atom_b.hash());
    assert_eq!(registry.record_count(), 2);
    assert_eq!(atom_a.as_str(&registry), a);
    assert_eq!(atom_b.as_str(&registry), b);

    let again = Atom::new(&mut registry, &a);
    assert!(Atom::ptr_eq(atom_a, again));
    assert_eq!(registry.record_count(), 2);
}

#[test]
fn content_round_trips_exactly() {
    let mut registry = Interner::new();
    let empty = Atom::new(&mut registry, "");
    assert_eq!(empty.as_str(&registry), "");
    assert_eq!(empty.len(), 0);

    let short = Atom::new(&mut registry, "short");
    assert_eq!(short.as_str(&registry), "short");

    let long_text = "long-".repeat(60);
    assert!(long_text.len() > 128);
    let long = Atom::new(&mut registry, &long_text);
    assert_eq!(long.as_str(&registry), long_text);
    assert_eq!(long.len(), long_text.len());
}

#[test]
fn interning_is_idempotent() {
    let mut registry = Interner::new();
    let first = Atom::new(&mut registry, "repeated");
    for _ in 0..10 {
        let again = Atom::new(&mut registry, "repeated");
        assert!(Atom::ptr_eq(first, again));
        assert_eq!(registry.record_count(), 1);
    }
    Atom::new(&mut registry, "other");
    assert_eq!(registry.record_count(), 2);
}

#[test]
fn handle_ordering_matches_content_ordering() {
    let mut registry = Interner::new();
    let abc = Atom::new(&mut registry, "abc");
    let abd = Atom::new(&mut registry, "abd");
    let ab = Atom::new(&mut registry, "ab");

    assert_eq!(abc.cmp_content(&registry, abd), Ordering::Less);
    assert_eq!(abd.cmp_content(&registry, abc), Ordering::Greater);
    assert_eq!(abc.cmp_content(&registry, abc), Ordering::Equal);
    assert_eq!(ab.cmp_content(&registry, abc), Ordering::Less);

    assert!(abc.lt(&registry, abd));
    assert!(abc.le(&registry, abd));
    assert!(!abc.gt(&registry, abd));
    assert!(!abc.ge(&registry, abd));
    assert!(abc.le(&registry, abc));
    assert!(abc.ge(&registry, abc));
}

#[test]
fn mixed_comparisons_against_plain_strings() {
    let mut registry = Interner::new();
    let abc = Atom::new(&mut registry, "abc");

    assert!(abc.eq_str(&registry, "abc"));
    assert!(!abc.eq_str(&registry, "abd"));
    assert_eq!(abc.cmp_str(&registry, "abd"), Ordering::Less);
    assert_eq!(abc.cmp_str(&registry, "ab"), Ordering::Greater);
    assert_eq!(abc.cmp_str(&registry, "abc"), Ordering::Equal);
    assert!(abc.lt_str(&registry, "abd"));
    assert!(abc.le_str(&registry, "abc"));
    assert!(!abc.gt_str(&registry, "abd"));
    assert!(abc.ge_str(&registry, "abc"));

    let owned = String::from("abc");
    assert!(abc.eq_string(&registry, &owned));
    assert_eq!(abc.cmp_string(&registry, &owned), Ordering::Equal);
}

#[test]
fn scenario_intern_compare_and_slice() {
    let mut registry = Interner::new();
    let first = Atom::new(&mut registry, "abc");
    let second = Atom::new(&mut registry, "abc");
    assert!(Atom::ptr_eq(first, second));
    assert_eq!(first.len(), 3);
    assert_eq!(second.len(), 3);

    let abd = Atom::new(&mut registry, "abd");
    assert!(!Atom::ptr_eq(first, abd));
    assert!(first.lt(&registry, abd));

    let digits = Atom::new(&mut registry, "0123456789");
    assert_eq!(digits.substring(&registry, 1, 4), "123");
}

#[test]
fn conversions_copy_the_content_out() {
    let mut registry = Interner::new();
    let atom = Atom::new(&mut registry, "héllo");
    assert_eq!(atom.create_string(&registry), String::from("héllo"));
    assert_eq!(atom.to_bytes(&registry), "héllo".as_bytes().to_vec());
    assert_eq!(atom.to_chars(&registry), vec!['h', 'é', 'l', 'l', 'o']);
    assert_eq!(atom.len(), 6);

    let path_atom = Atom::new(&mut registry, "some/dir/file.txt");
    assert_eq!(path_atom.as_path(&registry), PathBuf::from("some/dir/file.txt"));
}

#[test]
fn header_digest_is_readable_without_the_registry() {
    let mut registry = Interner::new();
    let atom = Atom::new(&mut registry, "abc");
    let key = AtomKey::from_str("abc");
    assert_eq!(atom.hash(), key.hash);
    assert_eq!(atom.len(), key.len);
}

#[test]
fn substring_uses_byte_offsets() {
    let mut registry = Interner::new();
    // "héllo" encodes as h(1 byte) é(2 bytes) l l o: boundaries at
    // 0, 1, 3, 4, 5, 6.
    let atom = Atom::new(&mut registry, "héllo");
    assert_eq!(atom.substring(&registry, 0, 1), "h");
    assert_eq!(atom.substring(&registry, 1, 3), "é");
    assert_eq!(atom.substring(&registry, 3, 6), "llo");
    assert_eq!(atom.substring(&registry, 0, 6), "héllo");
    assert_eq!(atom.substring(&registry, 4, 4), "");
}

#[test]
fn paths_are_built_from_the_content() {
    let mut registry = Interner::new();
    let first = Atom::new(&mut registry, "some/dir/file.txt");
    let second = Atom::new(&mut registry, "other.txt");
    assert_eq!(first.as_path(&registry), PathBuf::from("some/dir/file.txt"));
    assert_eq!(second.as_path(&registry), PathBuf::from("other.txt"));
    assert_ne!(first.as_path(&registry), second.as_path(&registry));
}

#[test]
fn record_layout_pads_to_header_alignment() {
    assert_eq!(record_layout(0), (16, 8));
    assert_eq!(record_layout(8), (24, 8));
    assert_eq!(record_layout(10), (32, 8));
    assert_eq!(record_layout(1), (24, 8));
}
