//! Fingerprint keys: a `{digest, byte length}` pair derived from string
//! content, used to bucket candidate duplicates before any full
//! comparison. Two different strings may collide on a key; the key is a
//! pre-filter, never a substitute for full comparison.

use vstd::prelude::*;
use vstd::utf8::encode_utf8;
use crate::hashing::{hash_str_ends, spec_hash_head_tail, ENDS_SIZE};

verus! {

/// Digest and exact byte length of a string's content.
#[derive(Debug, Default, Clone, Copy, PartialEq, Eq, PartialOrd, Ord, Hash, Structural)]
pub struct AtomKey {
    pub hash: u64,
    pub len: usize,
}

/// The key that `AtomKey::from_str` derives for the given content: the
/// head/tail-windowed digest over the content's UTF-8 bytes, paired
/// with the exact byte length.
pub open spec fn key_of(content: Seq<char>) -> AtomKey {
    AtomKey {
        hash: spec_hash_head_tail(encode_utf8(content), ENDS_SIZE as int, ENDS_SIZE as int),
        len: encode_utf8(content).len() as usize,
    }
}

impl AtomKey {
    /// Creates an [`AtomKey`] from a string source.
    pub fn from_str(source: &str) -> (key: AtomKey)
        ensures
            key == key_of(source@),
    {
        let hash = hash_str_ends(source, ENDS_SIZE);
        let len = source.len();
        AtomKey { hash, len }
    }
}

} // verus!
