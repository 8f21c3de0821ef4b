//! Interned strings: given a text string, return a small, cheaply
//! copyable handle that is the unique representative of that exact
//! content in its registry, so that equality between interned values is
//! an identity comparison instead of a content comparison.

mod atom;
mod compare;
mod hashing;
mod intern;
mod key;

pub use atom::{
    lemma_ascii_offsets_are_boundaries, lemma_cmp_equal_iff_identity, path_of, spec_cmp_content,
};

pub use hashing::{
    hash_bytes, hash_bytes_ends, hash_bytes_head_tail, hash_str, hash_str_ends,
    hash_str_head_tail, lemma_windowed_hash_fallback, lemma_windowed_hash_ignores_interior,
    spec_hash_head_tail, xxh64_of, ENDS_SIZE,
};
pub use compare::{
    bytes_equal, cmp_bytes, lemma_encode_utf8_injective, lemma_lex_cmp_equal, lex_cmp_bytes,
};
pub use intern::{
    lemma_dedup_identity, lemma_key_matches_content, lemma_same_content_same_handle, record_layout,
    Atom, Interner, HEADER_ALIGN, HEADER_SIZE,
};
pub use key::{key_of, AtomKey};
