use atom_intern::{
    hash_bytes, hash_bytes_ends, hash_bytes_head_tail, hash_str, hash_str_ends,
    hash_str_head_tail, AtomKey,
};

#[test]
fn whole_buffer_hash_is_deterministic() {
    let data = b"some example input";
    assert_eq!(hash_bytes(data), hash_bytes(data));
    assert_ne!(hash_bytes(b"abc"), hash_bytes(b"abd"));
}

#[test]
fn windowed_hash_falls_back_on_short_buffers() {
    let data = b"0123456789";
    assert_eq!(hash_bytes_head_tail(data, 5, 5), hash_bytes(data));
    assert_eq!(hash_bytes_head_tail(data, 64, 64), hash_bytes(data));
    assert_eq!(hash_bytes_head_tail(b"", 0, 0), hash_bytes(b""));
    assert_eq!(hash_bytes_ends(data, 5), hash_bytes(data));
}

#[test]
fn windowed_hash_equals_hash_of_concatenated_windows() {
    let mut data = [0u8; 200];
    for (i, byte) in data.iter_mut().enumerate() {
        *byte = (i % 251) as u8;
    }
    let mut windows = Vec::new();
    windows.extend_from_slice(&data[0..64]);
    windows.extend_from_slice(&data[200 - 64..200]);
    assert_eq!(hash_bytes_head_tail(&data, 64, 64), hash_bytes(&windows));
}

#[test]
fn windowed_hash_ignores_interior_bytes() {
    let mut a = [7u8; 200];
    let mut b = [7u8; 200];
    a[100] = 1;
    b[100] = 2;
    assert_eq!(hash_bytes_head_tail(&a, 64, 64), hash_bytes_head_tail(&b, 64, 64));
    assert_ne!(hash_bytes(&a), hash_bytes(&b));
}

#[test]
fn windowed_hash_sees_window_bytes() {
    let mut a = [7u8; 200];
    let mut b = [7u8; 200];
    a[3] = 1;
    b[3] = 2;
    assert_ne!(hash_bytes_head_tail(&a, 64, 64), hash_bytes_head_tail(&b, 64, 64));
    let mut c = [7u8; 200];
    let mut d = [7u8; 200];
    c[199] = 1;
    d[199] = 2;
    assert_ne!(hash_bytes_head_tail(&c, 64, 64), hash_bytes_head_tail(&d, 64, 64));
}

#[test]
fn string_hashes_match_byte_hashes() {
    let text = "interned text";
    assert_eq!(hash_str(text), hash_bytes(text.as_bytes()));
    assert_eq!(hash_str_head_tail(text, 4, 4), hash_bytes_head_tail(text.as_bytes(), 4, 4));
    assert_eq!(hash_str_ends(text, 4), hash_bytes_ends(text.as_bytes(), 4));
}

#[test]
fn key_holds_windowed_digest_and_byte_length() {
    let key = AtomKey::from_str("abc");
    assert_eq!(key.len, 3);
    assert_eq!(key.hash, hash_str_ends("abc", 64));
    assert_eq!(key.hash, hash_str("abc"));
    let non_ascii = AtomKey::from_str("héllo");
    assert_eq!(non_ascii.len, 6);
}

#[test]
fn keys_collide_when_only_the_interior_differs() {
    let mut a = "h".repeat(200);
    let mut b = a.clone();
    a.replace_range(100..101, "x");
    b.replace_range(100..101, "y");
    assert_ne!(a, b);
    assert_eq!(AtomKey::from_str(&a), AtomKey::from_str(&b));
    assert_ne!(AtomKey::from_str("abc"), AtomKey::from_str("abcd"));
}
