//! Fingerprint hashing: a fast 64-bit digest over byte buffers, with a
//! head/tail-windowed variant that bounds the cost on very large inputs.

use vstd::prelude::*;
use vstd::utf8::encode_utf8;
use std::hash::Hasher;

verus! {

/// Fixed seed for the digest, so results are stable across runs of the
/// same build.
const HASH_SEED: u64 = 0x9e3779b9;

/// Number of bytes hashed at each end of a buffer by the windowed
/// variant used for fingerprint keys.
pub const ENDS_SIZE: usize = 64;

/// The 64-bit digest that the fingerprint hasher computes over a byte
/// sequence (with the fixed seed).
pub uninterp spec fn xxh64_of(bytes: Seq<u8>) -> u64;

/// The digest of the head/tail-windowed hash: the whole buffer when it
/// is no longer than the two windows together, otherwise the first
/// `head_size` bytes followed by the last `tail_size` bytes.
pub open spec fn spec_hash_head_tail(bytes: Seq<u8>, head_size: int, tail_size: int) -> u64 {
    if bytes.len() <= head_size + tail_size {
        xxh64_of(bytes)
    } else {
        xxh64_of(
            bytes.subrange(0, head_size) + bytes.subrange(
                bytes.len() - tail_size,
                bytes.len() as int,
            ),
        )
    }
}

/// Hash `bytes` with the fingerprint hasher.
///
/// Relies on `twox_hash::XxHash64::oneshot`: the digest is a pure
/// function of the seed and the input bytes, and the seed is fixed here.
#[verifier::external_body]
pub fn hash_bytes(bytes: &[u8]) -> (digest: u64)
    ensures
        digest == xxh64_of(bytes@),
{
    twox_hash::XxHash64::oneshot(HASH_SEED, bytes)
}

/// Relies on `twox_hash::XxHash64` (`with_seed`, `Hasher::write`,
/// `Hasher::finish`): the streaming hasher folds the written bytes into
/// its state in order, so writing `head` then `tail` yields the digest
/// of the two buffers as if concatenated.
#[verifier::external_body]
fn hash_bytes_two_parts(head: &[u8], tail: &[u8]) -> (digest: u64)
    ensures
        digest == xxh64_of(head@ + tail@),
{
    let mut hasher = twox_hash::XxHash64::with_seed(HASH_SEED);
    hasher.write(head);
    hasher.write(tail);
    hasher.finish()
}

/// Hash `head_size` bytes at the beginning of the buffer and
/// `tail_size` bytes at the end of the buffer (in that order). If the
/// length of the buffer is less than or equal to
/// `head_size + tail_size`, then the full buffer is hashed.
pub fn hash_bytes_head_tail(bytes: &[u8], head_size: usize, tail_size: usize) -> (digest: u64)
    requires
        head_size + tail_size <= usize::MAX,
    ensures
        digest == spec_hash_head_tail(bytes@, head_size as int, tail_size as int),
{
    let ends_total = head_size + tail_size;
    if bytes.len() <= ends_total {
        return hash_bytes(bytes);
    }
    let head = &bytes[0..head_size];
    let tail = &bytes[bytes.len() - tail_size..bytes.len()];
    hash_bytes_two_parts(head, tail)
}

/// Hash `end_size` bytes at the beginning of the buffer, and `end_size`
/// bytes at the end of the buffer (in that order). If the buffer size
/// is less than or equal to `end_size + end_size`, then the full buffer
/// is hashed.
pub fn hash_bytes_ends(bytes: &[u8], end_size: usize) -> (digest: u64)
    requires
        end_size + end_size <= usize::MAX,
    ensures
        digest == spec_hash_head_tail(bytes@, end_size as int, end_size as int),
{
    hash_bytes_head_tail(bytes, end_size, end_size)
}

/// Hash `string` with the fingerprint hasher, over its UTF-8 bytes.
pub fn hash_str(string: &str) -> (digest: u64)
    ensures
        digest == xxh64_of(encode_utf8(string@)),
{
    hash_bytes(string.as_bytes())
}

/// Hash `head_size` bytes at the beginning of the string and
/// `tail_size` bytes at the end of the string (in that order). If the
/// byte length of the string is less than or equal to
/// `head_size + tail_size`, then the full string is hashed.
pub fn hash_str_head_tail(string: &str, head_size: usize, tail_size: usize) -> (digest: u64)
    requires
        head_size + tail_size <= usize::MAX,
    ensures
        digest == spec_hash_head_tail(encode_utf8(string@), head_size as int, tail_size as int),
{
    hash_bytes_head_tail(string.as_bytes(), head_size, tail_size)
}

/// Hash `end_size` bytes at the beginning of the string, and `end_size`
/// bytes at the end of the string (in that order). If the string's byte
/// length is less than or equal to `end_size + end_size`, then the full
/// string is hashed.
pub fn hash_str_ends(string: &str, end_size: usize) -> (digest: u64)
    requires
        end_size + end_size <= usize::MAX,
    ensures
        digest == spec_hash_head_tail(encode_utf8(string@), end_size as int, end_size as int),
{
    hash_bytes_ends(string.as_bytes(), end_size)
}

/// A buffer no longer than the two windows together is hashed whole:
/// the windowed digest coincides with the whole-buffer digest.
pub proof fn lemma_windowed_hash_fallback(bytes: Seq<u8>, head_size: int, tail_size: int)
    requires
        bytes.len() <= head_size + tail_size,
    ensures
        spec_hash_head_tail(bytes, head_size, tail_size) == xxh64_of(bytes),
{
}

/// Buffers of one length that agree on the head window and on the tail
/// window have the same windowed digest, whatever their interior bytes.
pub proof fn lemma_windowed_hash_ignores_interior(
    b1: Seq<u8>,
    b2: Seq<u8>,
    head_size: int,
    tail_size: int,
)
    requires
        0 <= head_size,
        0 <= tail_size,
        b1.len() == b2.len(),
        b1.len() > head_size + tail_size,
        b1.subrange(0, head_size) == b2.subrange(0, head_size),
        b1.subrange(b1.len() - tail_size, b1.len() as int) == b2.subrange(
            b2.len() - tail_size,
            b2.len() as int,
        ),
    ensures
        spec_hash_head_tail(b1, head_size, tail_size) == spec_hash_head_tail(
            b2,
            head_size,
            tail_size,
        ),
{
}

} // verus!
