//! Handle semantics: comparisons and conversions that make interned
//! strings interchangeable with ordinary string types at call sites.
//! All operations are pure reads over the referenced record.

use vstd::prelude::*;
use vstd::string::{StrSliceExecFns, StringSliceAdditionalSpecFns};
use vstd::utf8::{
    encode_utf8, encode_utf8_valid_utf8, is_ascii_chars, is_ascii_chars_encode_utf8,
    is_char_boundary, is_char_boundary_iff_not_is_continuation_byte,
    is_char_boundary_start_end_of_seq, is_continuation_byte, valid_utf8_split,
};
use core::cmp::Ordering;
use crate::compare::{
    bytes_equal, cmp_bytes, lemma_encode_utf8_injective, lemma_lex_cmp_equal, lex_cmp_bytes,
};
use crate::intern::{lemma_dedup_identity, Atom, Interner};

verus! {

/// Byte-lexicographic ordering of two contents: the order of their
/// UTF-8 encodings.
pub open spec fn spec_cmp_content(a: Seq<char>, b: Seq<char>) -> Ordering {
    lex_cmp_bytes(encode_utf8(a), encode_utf8(b))
}

#[verifier::external_type_specification]
#[verifier::external_body]
pub struct ExPathBuf(std::path::PathBuf);

/// The owned path value that the standard library builds from a string
/// with the given characters.
pub uninterp spec fn path_of(s: Seq<char>) -> std::path::PathBuf;

/// Relies on `std::path::PathBuf::from::<&str>`, which builds the path
/// value from the string's characters alone.
#[verifier::external_body]
fn path_from_str(s: &str) -> (p: std::path::PathBuf)
    ensures
        p == path_of(s@),
{
    std::path::PathBuf::from(s)
}

impl Atom {
    /// Whether the handle's content equals `other` byte-for-byte.
    pub fn eq_str(self, registry: &Interner, other: &str) -> (r: bool)
        requires
            registry.owns(self),
        ensures
            r == (registry.content_of(self) == other@),
    {
        let r = bytes_equal(self.as_str(registry).as_bytes(), other.as_bytes());
        proof {
            lemma_encode_utf8_injective(registry.content_of(self), other@);
        }
        r
    }

    /// Compares the handle's content with `other` in byte-lexicographic
    /// order.
    pub fn cmp_str(self, registry: &Interner, other: &str) -> (r: Ordering)
        requires
            registry.owns(self),
        ensures
            r == spec_cmp_content(registry.content_of(self), other@),
    {
        cmp_bytes(self.as_str(registry).as_bytes(), other.as_bytes())
    }

    /// Whether the handle's content orders strictly before `other`.
    pub fn lt_str(self, registry: &Interner, other: &str) -> (r: bool)
        requires
            registry.owns(self),
        ensures
            r == (spec_cmp_content(registry.content_of(self), other@) == Ordering::Less),
    {
        matches!(self.cmp_str(registry, other), Ordering::Less)
    }

    /// Whether the handle's content orders before `other` or equals it.
    pub fn le_str(self, registry: &Interner, other: &str) -> (r: bool)
        requires
            registry.owns(self),
        ensures
            r == (spec_cmp_content(registry.content_of(self), other@) != Ordering::Greater),
    {
        !matches!(self.cmp_str(registry, other), Ordering::Greater)
    }

    /// Whether the handle's content orders strictly after `other`.
    pub fn gt_str(self, registry: &Interner, other: &str) -> (r: bool)
        requires
            registry.owns(self),
        ensures
            r == (spec_cmp_content(registry.content_of(self), other@) == Ordering::Greater),
    {
        matches!(self.cmp_str(registry, other), Ordering::Greater)
    }

    /// Whether the handle's content orders after `other` or equals it.
    pub fn ge_str(self, registry: &Interner, other: &str) -> (r: bool)
        requires
            registry.owns(self),
        ensures
            r == (spec_cmp_content(registry.content_of(self), other@) != Ordering::Less),
    {
        !matches!(self.cmp_str(registry, other), Ordering::Less)
    }

    /// Whether the handle's content equals `other` byte-for-byte.
    pub fn eq_string(self, registry: &Interner, other: &String) -> (r: bool)
        requires
            registry.owns(self),
        ensures
            r == (registry.content_of(self) == other@),
    {
        self.eq_str(registry, other.as_str())
    }

    /// Compares the handle's content with `other` in byte-lexicographic
    /// order.
    pub fn cmp_string(self, registry: &Interner, other: &String) -> (r: Ordering)
        requires
            registry.owns(self),
        ensures
            r == spec_cmp_content(registry.content_of(self), other@),
    {
        self.cmp_str(registry, other.as_str())
    }

    /// Compares the contents of two handles of `registry` in
    /// byte-lexicographic order.
    pub fn cmp_content(self, registry: &Interner, other: Atom) -> (r: Ordering)
        requires
            registry.owns(self),
            registry.owns(other),
        ensures
            r == spec_cmp_content(registry.content_of(self), registry.content_of(other)),
    {
        self.cmp_str(registry, other.as_str(registry))
    }

    /// Whether this handle's content orders strictly before `other`'s.
    pub fn lt(self, registry: &Interner, other: Atom) -> (r: bool)
        requires
            registry.owns(self),
            registry.owns(other),
        ensures
            r == (spec_cmp_content(registry.content_of(self), registry.content_of(other))
                == Ordering::Less),
    {
        matches!(self.cmp_content(registry, other), Ordering::Less)
    }

    /// Whether this handle's content orders before `other`'s or equals
    /// it.
    pub fn le(self, registry: &Interner, other: Atom) -> (r: bool)
        requires
            registry.owns(self),
            registry.owns(other),
        ensures
            r == (spec_cmp_content(registry.content_of(self), registry.content_of(other))
                != Ordering::Greater),
    {
        !matches!(self.cmp_content(registry, other), Ordering::Greater)
    }

    /// Whether this handle's content orders strictly after `other`'s.
    pub fn gt(self, registry: &Interner, other: Atom) -> (r: bool)
        requires
            registry.owns(self),
            registry.owns(other),
        ensures
            r == (spec_cmp_content(registry.content_of(self), registry.content_of(other))
                == Ordering::Greater),
    {
        matches!(self.cmp_content(registry, other), Ordering::Greater)
    }

    /// Whether this handle's content orders after `other`'s or equals
    /// it.
    pub fn ge(self, registry: &Interner, other: Atom) -> (r: bool)
        requires
            registry.owns(self),
            registry.owns(other),
        ensures
            r == (spec_cmp_content(registry.content_of(self), registry.content_of(other))
                != Ordering::Less),
    {
        !matches!(self.cmp_content(registry, other), Ordering::Less)
    }

    /// Creates a new owned string copied out of the handle's content.
    pub fn create_string(self, registry: &Interner) -> (s: String)
        requires
            registry.owns(self),
        ensures
            s@ == registry.content_of(self),
    {
        self.as_str(registry).to_owned()
    }

    /// Copies the handle's content out as its UTF-8 bytes.
    pub fn to_bytes(self, registry: &Interner) -> (bytes: Vec<u8>)
        requires
            registry.owns(self),
        ensures
            bytes@ == encode_utf8(registry.content_of(self)),
    {
        self.as_str(registry).as_bytes_vec()
    }

    /// Copies the handle's content out as its characters.
    pub fn to_chars(self, registry: &Interner) -> (chars: Vec<char>)
        requires
            registry.owns(self),
        ensures
            chars@ == registry.content_of(self),
    {
        let s = self.as_str(registry);
        let n = s.unicode_len();
        let mut out: Vec<char> = Vec::new();
        let mut i: usize = 0;
        while i < n
            invariant
                n == s@.len(),
                i <= n,
                out@ == s@.subrange(0, i as int),
            decreases n - i,
        {
            out.push(s.get_char(i));
            i += 1;
            proof {
                assert(out@ =~= s@.subrange(0, i as int));
            }
        }
        proof {
            assert(out@ =~= s@);
        }
        out
    }

    /// The sub-slice of the content between byte offsets `from` and
    /// `to`. Offsets out of range or off a character boundary of the
    /// content's UTF-8 encoding are rejected, the same demand that
    /// slicing the underlying string view makes.
    pub fn substring<'a>(self, registry: &'a Interner, from: usize, to: usize) -> (s: &'a str)
        requires
            registry.owns(self),
            from <= to <= encode_utf8(registry.content_of(self)).len(),
            is_char_boundary(encode_utf8(registry.content_of(self)), from as int),
            is_char_boundary(encode_utf8(registry.content_of(self)), to as int),
        ensures
            encode_utf8(s@) == encode_utf8(registry.content_of(self)).subrange(
                from as int,
                to as int,
            ),
    {
        let s0 = self.as_str(registry);
        let ghost bytes = encode_utf8(registry.content_of(self));
        proof {
            encode_utf8_valid_utf8(registry.content_of(self));
        }
        let (_, rest) = s0.split_at(from);
        proof {
            valid_utf8_split(bytes, from as int);
            assert(rest.spec_bytes() =~= bytes.subrange(from as int, bytes.len() as int));
            if to < bytes.len() {
                is_char_boundary_iff_not_is_continuation_byte(bytes, to as int);
                assert(rest.spec_bytes()[to - from] == bytes[to as int]);
                is_char_boundary_iff_not_is_continuation_byte(
                    rest.spec_bytes(),
                    to as int - from as int,
                );
            } else {
                is_char_boundary_start_end_of_seq(rest.spec_bytes());
            }
        }
        let (mid, _) = rest.split_at(to - from);
        proof {
            assert(encode_utf8(mid@) =~= bytes.subrange(from as int, to as int));
        }
        mid
    }

    /// The handle's content as an owned path value.
    pub fn as_path(self, registry: &Interner) -> (p: std::path::PathBuf)
        requires
            registry.owns(self),
        ensures
            p == path_of(registry.content_of(self)),
    {
        path_from_str(self.as_str(registry))
    }
}

/// Within ASCII content every byte offset up to the length lies on a
/// character boundary, so any in-range sub-slice of it may be taken.
pub proof fn lemma_ascii_offsets_are_boundaries(content: Seq<char>, i: int)
    requires
        is_ascii_chars(content),
        0 <= i <= encode_utf8(content).len(),
    ensures
        is_char_boundary(encode_utf8(content), i),
{
    is_ascii_chars_encode_utf8(content);
    encode_utf8_valid_utf8(content);
    let bytes = encode_utf8(content);
    if i == bytes.len() {
        is_char_boundary_start_end_of_seq(bytes);
    } else {
        assert(content[i] as u8 == bytes[i]);
        assert(!is_continuation_byte(bytes[i]));
        is_char_boundary_iff_not_is_continuation_byte(bytes, i);
    }
}

/// Ordering consistency: two handles of one registry compare as `Equal`
/// exactly when they are identity-equal; on distinct handles the
/// comparison is strict.
pub proof fn lemma_cmp_equal_iff_identity(registry: Interner, a: Atom, b: Atom)
    requires
        registry.wf(),
        registry.owns(a),
        registry.owns(b),
    ensures
        (spec_cmp_content(registry.content_of(a), registry.content_of(b)) == Ordering::Equal) <==> (
        a.id() == b.id()),
{
    lemma_lex_cmp_equal(
        encode_utf8(registry.content_of(a)),
        encode_utf8(registry.content_of(b)),
    );
    lemma_encode_utf8_injective(registry.content_of(a), registry.content_of(b));
    lemma_dedup_identity(registry, a, b);
}

} // verus!
