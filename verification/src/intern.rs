//! The deduplicating registry and the interned-string handle.
//!
//! A registry maps each fingerprint key to the bucket of records
//! sharing that key. Interning scans the key's bucket for a record with
//! byte-identical content and returns its handle, or appends exactly
//! one new record. Records are only ever appended and never change, so
//! a handle stays valid for the registry's whole lifetime, and identity
//! comparison of handles decides content equality.

use vstd::prelude::*;
use crate::key::{key_of, AtomKey};

verus! {

/// One interned record: the fingerprint header together with the
/// content it was derived from. Once appended to a registry, a record
/// never changes.
struct Record {
    key: AtomKey,
    content: String,
}

/// The records sharing one fingerprint key, as indices in insertion
/// order.
struct Bucket {
    key: AtomKey,
    members: Vec<usize>,
}

/// The deduplicating registry: the sole place records are created. It
/// only ever grows, and it guarantees that two handles it hands out
/// reference the same record exactly when their contents are equal.
pub struct Interner {
    records: Vec<Record>,
    buckets: Vec<Bucket>,
}

/// A copyable handle to exactly one record of a registry. Handles are
/// constructed only by [`Atom::new`], which guarantees one record per
/// distinct content.
#[derive(Debug, Clone, Copy, Hash)]
pub struct Atom {
    index: usize,
    key: AtomKey,
}

impl Atom {
    /// Which record of its registry this handle references.
    pub closed spec fn id(self) -> int {
        self.index as int
    }

    /// The fingerprint key stored in the handle.
    pub closed spec fn spec_key(self) -> AtomKey {
        self.key
    }
}

impl Interner {
    /// The contents of the records, in insertion order.
    pub closed spec fn contents(self) -> Seq<Seq<char>> {
        self.records@.map(|i: int, r: Record| r.content@)
    }

    /// Whether `atom` is a handle of this registry: it references one
    /// of the records and carries that record's header.
    pub closed spec fn owns(self, atom: Atom) -> bool {
        &&& atom.index < self.records@.len()
        &&& atom.key == self.records@[atom.index as int].key
    }

    /// The content of the record that `atom` references.
    pub closed spec fn content_of(self, atom: Atom) -> Seq<char> {
        self.records@[atom.index as int].content@
    }

    /// Whether some record already holds `content`.
    pub open spec fn has_content(self, content: Seq<char>) -> bool {
        exists|i: int| 0 <= i < self.contents().len() && self.contents()[i] == content
    }

    spec fn records_wf(self) -> bool {
        &&& forall|i: int|
            0 <= i < self.records@.len() ==> (#[trigger] self.records@[i]).key == key_of(
                self.records@[i].content@,
            )
        &&& forall|i: int, j: int|
            #![trigger self.records@[i], self.records@[j]]
            0 <= i < self.records@.len() && 0 <= j < self.records@.len() && i != j
                ==> self.records@[i].content@ != self.records@[j].content@
    }

    /// Record `i` is listed in some bucket carrying its key.
    spec fn record_registered(self, i: int) -> bool {
        exists|p: int, m: int|
            #![trigger self.buckets@[p].members@[m]]
            {
                &&& 0 <= p < self.buckets@.len()
                &&& 0 <= m < self.buckets@[p].members@.len()
                &&& self.buckets@[p].members@[m] as int == i
                &&& self.buckets@[p].key == self.records@[i].key
            }
    }

    spec fn buckets_wf(self) -> bool {
        &&& forall|p: int, q: int|
            #![trigger self.buckets@[p], self.buckets@[q]]
            0 <= p < self.buckets@.len() && 0 <= q < self.buckets@.len() && p != q
                ==> self.buckets@[p].key != self.buckets@[q].key
        &&& forall|p: int, m: int|
            #![trigger self.buckets@[p].members@[m]]
            0 <= p < self.buckets@.len() && 0 <= m < self.buckets@[p].members@.len() ==> {
                &&& self.buckets@[p].members@[m] < self.records@.len()
                &&& self.records@[self.buckets@[p].members@[m] as int].key == self.buckets@[p].key
            }
        &&& forall|i: int| 0 <= i < self.records@.len() ==> #[trigger] self.record_registered(i)
    }

    /// The registry's invariant: headers match contents, contents are
    /// pairwise distinct, bucket keys are unique, and every record is
    /// listed in the bucket of its key.
    pub closed spec fn wf(self) -> bool {
        self.records_wf() && self.buckets_wf()
    }

    /// Creates an empty registry.
    pub fn new() -> (registry: Interner)
        ensures
            registry.wf(),
            registry.contents() == Seq::<Seq<char>>::empty(),
    {
        let registry = Interner { records: Vec::new(), buckets: Vec::new() };
        proof {
            assert(registry.contents() =~= Seq::<Seq<char>>::empty());
        }
        registry
    }

    /// How many records have been interned so far.
    pub fn record_count(&self) -> (n: usize)
        ensures
            n == self.contents().len(),
    {
        self.records.len()
    }
}

/// Finds the bucket that carries `key`, if there is one.
fn find_bucket(registry: &Interner, key: AtomKey) -> (r: Option<usize>)
    ensures
        match r {
            Some(b) => b < registry.buckets@.len() && registry.buckets@[b as int].key == key,
            None => forall|p: int|
                0 <= p < registry.buckets@.len() ==> (#[trigger] registry.buckets@[p]).key != key,
        },
{
    let n = registry.buckets.len();
    let mut b: usize = 0;
    while b < n
        invariant
            n == registry.buckets@.len(),
            b <= n,
            forall|p: int| 0 <= p < b ==> (#[trigger] registry.buckets@[p]).key != key,
        decreases n - b,
    {
        if registry.buckets[b].key == key {
            return Some(b);
        }
        b += 1;
    }
    None
}

/// Scans bucket `b` for a record whose content equals `string`
/// byte-for-byte, in bucket order.
fn find_in_bucket(registry: &Interner, b: usize, string: &str) -> (r: Option<usize>)
    requires
        registry.wf(),
        b < registry.buckets@.len(),
    ensures
        match r {
            Some(idx) => {
                &&& idx < registry.records@.len()
                &&& registry.records@[idx as int].content@ == string@
                &&& registry.buckets@[b as int].members@.contains(idx)
            },
            None => forall|m: int|
                0 <= m < registry.buckets@[b as int].members@.len()
                    ==> registry.records@[#[trigger] registry.buckets@[b as int].members@[m] as int].content@
                    != string@,
        },
{
    let n = registry.buckets[b].members.len();
    let mut m: usize = 0;
    while m < n
        invariant
            registry.wf(),
            b < registry.buckets@.len(),
            n == registry.buckets@[b as int].members@.len(),
            m <= n,
            forall|k: int|
                0 <= k < m
                    ==> registry.records@[#[trigger] registry.buckets@[b as int].members@[k] as int].content@
                    != string@,
        decreases n - m,
    {
        let idx = registry.buckets[b].members[m];
        proof {
            assert(registry.buckets@[b as int].members@[m as int] < registry.records@.len());
        }
        let candidate: &String = &registry.records[idx].content;
        let same = crate::compare::bytes_equal(candidate.as_str().as_bytes(), string.as_bytes());
        proof {
            crate::compare::lemma_encode_utf8_injective(
                registry.records@[idx as int].content@,
                string@,
            );
        }
        if same {
            proof {
                assert(registry.buckets@[b as int].members@.contains(idx));
            }
            return Some(idx);
        }
        m += 1;
    }
    None
}

/// Appends a new record for `string` to bucket `b` and returns its
/// handle. Only called after the bucket scan found no record with this
/// content.
fn intern_miss(registry: &mut Interner, b: usize, key: AtomKey, string: &str) -> (atom: Atom)
    requires
        old(registry).wf(),
        b < old(registry).buckets@.len(),
        old(registry).buckets@[b as int].key == key,
        key == key_of(string@),
        !old(registry).has_content(string@),
    ensures
        final(registry).wf(),
        final(registry).owns(atom),
        final(registry).content_of(atom) == string@,
        atom.spec_key() == key_of(string@),
        atom.id() == old(registry).contents().len(),
        final(registry).contents() == old(registry).contents().push(string@),
        forall|x: Atom| #[trigger]
            old(registry).owns(x) ==> final(registry).owns(x) && final(registry).content_of(x)
                == old(registry).content_of(x),
{
    let ghost r0 = *registry;
    let idx = registry.records.len();
    let content = string.to_owned();
    registry.records.push(Record { key, content });
    registry.buckets[b].members.push(idx);
    let atom = Atom { index: idx, key };
    proof {
        let r1 = *registry;
        // The contents grew by exactly the new string.
        assert forall|i: int| 0 <= i < r0.contents().len() implies r1.contents()[i]
            == r0.contents()[i] by {
            assert(r1.records@[i] == r0.records@[i]);
        }
        assert(r1.contents() =~= r0.contents().push(string@));
        // No old record holds string@, so distinctness extends to idx.
        assert forall|i: int| 0 <= i < idx implies r1.records@[i].content@ != string@ by {
            assert(r0.contents()[i] == r0.records@[i].content@);
            assert(!(0 <= i < r0.contents().len() && r0.contents()[i] == string@));
        }
        assert(r1.records_wf());
        // Buckets: only bucket b changed, and only by appending idx.
        assert forall|p: int, q: int|
            0 <= p < r1.buckets@.len() && 0 <= q < r1.buckets@.len() && p != q implies (
        #[trigger] r1.buckets@[p]).key != (#[trigger] r1.buckets@[q]).key by {
            assert(r1.buckets@[p].key == r0.buckets@[p].key);
            assert(r1.buckets@[q].key == r0.buckets@[q].key);
        }
        assert forall|p: int, m: int|
            0 <= p < r1.buckets@.len() && 0 <= m < r1.buckets@[p].members@.len() implies {
            &&& (#[trigger] r1.buckets@[p].members@[m]) < r1.records@.len()
            &&& r1.records@[r1.buckets@[p].members@[m] as int].key == r1.buckets@[p].key
        } by {
            if p == b as int && m == r0.buckets@[p].members@.len() {
                assert(r1.buckets@[p].members@[m] == idx);
            } else {
                assert(r1.buckets@[p].members@[m] == r0.buckets@[p].members@[m]);
            }
        }
        assert forall|i: int| 0 <= i < r1.records@.len() implies #[trigger] r1.record_registered(
            i,
        ) by {
            if i < idx {
                assert(r0.record_registered(i));
                let (p, m) = choose|p: int, m: int|
                    #![trigger r0.buckets@[p].members@[m]]
                    {
                        &&& 0 <= p < r0.buckets@.len()
                        &&& 0 <= m < r0.buckets@[p].members@.len()
                        &&& r0.buckets@[p].members@[m] as int == i
                        &&& r0.buckets@[p].key == r0.records@[i].key
                    };
                assert(r1.buckets@[p].members@[m] as int == i);
                assert(r1.buckets@[p].key == r1.records@[i].key);
            } else {
                let p = b as int;
                let m = r0.buckets@[p].members@.len() as int;
                assert(r1.buckets@[p].members@[m] == idx);
                assert(r1.buckets@[p].key == r1.records@[i].key);
            }
        }
        assert(r1.wf());
    }
    atom
}

impl Atom {
    /// Create a new interned string handle, the intern entry point:
    /// returns the existing handle when `string`'s content is already
    /// in the registry (leaving it untouched), and otherwise appends
    /// exactly one new record.
    pub fn new(registry: &mut Interner, string: &str) -> (atom: Atom)
        requires
            old(registry).wf(),
        ensures
            final(registry).wf(),
            final(registry).owns(atom),
            final(registry).content_of(atom) == string@,
            atom.spec_key() == key_of(string@),
            atom.id() < final(registry).contents().len(),
            final(registry).contents()[atom.id()] == string@,
            old(registry).has_content(string@) ==> *final(registry) == *old(registry),
            !old(registry).has_content(string@) ==> final(registry).contents() == old(
                registry,
            ).contents().push(string@),
            forall|i: int|
                0 <= i < old(registry).contents().len() ==> final(registry).contents()[i] == old(
                    registry,
                ).contents()[i],
            forall|x: Atom| #[trigger]
                old(registry).owns(x) ==> final(registry).owns(x) && final(registry).content_of(x)
                    == old(registry).content_of(x),
    {
        let key = AtomKey::from_str(string);
        match find_bucket(registry, key) {
            Some(b) => {
                match find_in_bucket(registry, b, string) {
                    Some(idx) => {
                        proof {
                            assert(registry.records@[idx as int].key == key_of(
                                registry.records@[idx as int].content@,
                            ));
                            assert(registry.contents()[idx as int] == string@);
                        }
                        Atom { index: idx, key }
                    },
                    None => {
                        proof {
                            lemma_scanned_bucket_excludes_content(*registry, b as int, string@);
                        }
                        intern_miss(registry, b, key, string)
                    },
                }
            },
            None => {
                proof {
                    lemma_no_bucket_excludes_content(*registry, string@);
                }
                let b = registry.buckets.len();
                let ghost r0 = *registry;
                registry.buckets.push(Bucket { key, members: Vec::new() });
                proof {
                    let r1 = *registry;
                    assert(r1.records_wf());
                    assert forall|p: int, q: int|
                        0 <= p < r1.buckets@.len() && 0 <= q < r1.buckets@.len() && p != q implies (
                    #[trigger] r1.buckets@[p]).key != (#[trigger] r1.buckets@[q]).key by {
                        if p < b as int && q < b as int {
                            assert(r0.buckets@[p].key != r0.buckets@[q].key);
                        }
                    }
                    assert forall|p: int, m: int|
                        0 <= p < r1.buckets@.len() && 0 <= m
                            < r1.buckets@[p].members@.len() implies {
                        &&& (#[trigger] r1.buckets@[p].members@[m]) < r1.records@.len()
                        &&& r1.records@[r1.buckets@[p].members@[m] as int].key
                            == r1.buckets@[p].key
                    } by {
                        assert(p < b as int);
                        assert(r1.buckets@[p].members@[m] == r0.buckets@[p].members@[m]);
                    }
                    assert forall|i: int| 0 <= i < r1.records@.len() implies
                        #[trigger] r1.record_registered(i) by {
                        assert(r0.record_registered(i));
                        let (p, m) = choose|p: int, m: int|
                            #![trigger r0.buckets@[p].members@[m]]
                            {
                                &&& 0 <= p < r0.buckets@.len()
                                &&& 0 <= m < r0.buckets@[p].members@.len()
                                &&& r0.buckets@[p].members@[m] as int == i
                                &&& r0.buckets@[p].key == r0.records@[i].key
                            };
                        assert(r1.buckets@[p].members@[m] as int == i);
                    }
                    assert(r1.wf());
                    assert(r1.contents() =~= r0.contents());
                    assert forall|x: Atom| r0.owns(x) implies r1.owns(x) && r1.content_of(x)
                        == r0.content_of(x) by {
                        assert(r1.records@ == r0.records@);
                    }
                }
                intern_miss(registry, b, key, string)
            },
        }
    }
}

impl Atom {
    /// Returns the digest stored in the handle's record header, without
    /// scanning the content.
    pub fn hash(&self) -> (digest: u64)
        ensures
            digest == self.spec_key().hash,
    {
        self.key.hash
    }

    /// Returns the byte length stored in the handle's record header,
    /// without scanning the content.
    pub fn len(&self) -> (n: usize)
        ensures
            n == self.spec_key().len,
    {
        self.key.len
    }

    /// The interned string itself, valid as long as the registry.
    pub fn as_str<'a>(self, registry: &'a Interner) -> (s: &'a str)
        requires
            registry.owns(self),
        ensures
            s@ == registry.content_of(self),
    {
        registry.records[self.index].content.as_str()
    }

    /// Compares the identities of two handles: whether they reference
    /// the same record.
    pub fn ptr_eq(lhs: Self, rhs: Self) -> (r: bool)
        ensures
            r == (lhs.id() == rhs.id()),
    {
        lhs.index == rhs.index
    }
}

impl PartialEq for Atom {
    /// Identity comparison: handles of one registry are equal exactly
    /// when they reference the same record, which the registry
    /// guarantees happens exactly for equal contents.
    fn eq(&self, other: &Atom) -> (r: bool) {
        self.index == other.index
    }
}

impl vstd::std_specs::cmp::PartialEqSpecImpl for Atom {
    open spec fn obeys_eq_spec() -> bool {
        true
    }

    open spec fn eq_spec(&self, other: &Atom) -> bool {
        self.id() == other.id()
    }
}

impl Eq for Atom {

}

/// Byte size of a record's fixed header: the fingerprint key's 64-bit
/// digest followed by its native-word length.
pub const HEADER_SIZE: usize = 16;

/// Alignment of a record's fixed header, from its widest field.
pub const HEADER_ALIGN: usize = 8;

/// Combined layout of a record holding `len` payload bytes: the payload
/// (alignment 1) immediately follows the fixed header, and the total
/// size is padded to the header's alignment. Payloads whose padded
/// total would exceed the allocator's size limit are rejected, where
/// building the layout would fail.
pub fn record_layout(len: usize) -> (layout: (usize, usize))
    requires
        len <= isize::MAX as usize - HEADER_SIZE - (HEADER_ALIGN - 1),
    ensures
        layout.1 == HEADER_ALIGN,
        layout.0 % HEADER_ALIGN == 0,
        HEADER_SIZE + len <= layout.0 < HEADER_SIZE + len + HEADER_ALIGN,
{
    let unpadded = HEADER_SIZE + len;
    let rem = unpadded % HEADER_ALIGN;
    let size = if rem == 0 {
        unpadded
    } else {
        unpadded + (HEADER_ALIGN - rem)
    };
    proof {
        if rem != 0 {
            assert((unpadded + (8 - unpadded % 8)) % 8 == 0) by (nonlinear_arith);
        }
    }
    (size, HEADER_ALIGN)
}

/// After a full scan of the bucket carrying `content`'s key found no
/// match, no record of the registry holds `content`.
proof fn lemma_scanned_bucket_excludes_content(registry: Interner, b: int, content: Seq<char>)
    requires
        registry.wf(),
        0 <= b < registry.buckets@.len(),
        registry.buckets@[b].key == key_of(content),
        forall|m: int|
            0 <= m < registry.buckets@[b].members@.len()
                ==> registry.records@[#[trigger] registry.buckets@[b].members@[m] as int].content@
                != content,
    ensures
        !registry.has_content(content),
{
    assert forall|i: int| 0 <= i < registry.contents().len() implies registry.contents()[i]
        != content by {
        if registry.contents()[i] == content {
            assert(registry.records@[i].content@ == content);
            assert((#[trigger] registry.records@[i]).key == key_of(content));
            assert(registry.record_registered(i));
            let (p, m) = choose|p: int, m: int|
                #![trigger registry.buckets@[p].members@[m]]
                {
                    &&& 0 <= p < registry.buckets@.len()
                    &&& 0 <= m < registry.buckets@[p].members@.len()
                    &&& registry.buckets@[p].members@[m] as int == i
                    &&& registry.buckets@[p].key == registry.records@[i].key
                };
            assert(registry.buckets@[p].key == key_of(content));
            assert(p == b);
            assert(registry.records@[registry.buckets@[b].members@[m] as int].content@ != content);
        }
    }
}

/// When no bucket carries `content`'s key, no record of the registry
/// holds `content`.
proof fn lemma_no_bucket_excludes_content(registry: Interner, content: Seq<char>)
    requires
        registry.wf(),
        forall|p: int|
            0 <= p < registry.buckets@.len() ==> (#[trigger] registry.buckets@[p]).key != key_of(
                content,
            ),
    ensures
        !registry.has_content(content),
{
    assert forall|i: int| 0 <= i < registry.contents().len() implies registry.contents()[i]
        != content by {
        if registry.contents()[i] == content {
            assert(registry.records@[i].content@ == content);
            assert((#[trigger] registry.records@[i]).key == key_of(content));
            assert(registry.record_registered(i));
            let (p, m) = choose|p: int, m: int|
                #![trigger registry.buckets@[p].members@[m]]
                {
                    &&& 0 <= p < registry.buckets@.len()
                    &&& 0 <= m < registry.buckets@[p].members@.len()
                    &&& registry.buckets@[p].members@[m] as int == i
                    &&& registry.buckets@[p].key == registry.records@[i].key
                };
            assert(registry.buckets@[p].key == key_of(content));
        }
    }
}

/// Dedup invariant: two handles of one registry are identity-equal
/// exactly when their contents are equal, whatever their fingerprint
/// keys.
pub proof fn lemma_dedup_identity(registry: Interner, a: Atom, b: Atom)
    requires
        registry.wf(),
        registry.owns(a),
        registry.owns(b),
    ensures
        (a.id() == b.id()) <==> (registry.content_of(a) == registry.content_of(b)),
{
    if a.id() != b.id() {
        assert(registry.records@[a.id()].content@ != registry.records@[b.id()].content@);
    }
}

/// Idempotence of interning: handles of one registry that hold the same
/// content are one and the same handle value, so interning a content
/// any number of times hands out a single identity.
pub proof fn lemma_same_content_same_handle(registry: Interner, a: Atom, b: Atom)
    requires
        registry.wf(),
        registry.owns(a),
        registry.owns(b),
        registry.content_of(a) == registry.content_of(b),
    ensures
        a == b,
{
    lemma_dedup_identity(registry, a, b);
}

/// A handle's stored key is the fingerprint key of its content.
pub proof fn lemma_key_matches_content(registry: Interner, atom: Atom)
    requires
        registry.wf(),
        registry.owns(atom),
    ensures
        atom.spec_key() == key_of(registry.content_of(atom)),
{
    assert((#[trigger] registry.records@[atom.id()]).key == key_of(
        registry.records@[atom.id()].content@,
    ));
}

} // verus!
