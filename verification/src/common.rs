//! Identifiers: hashes of group paths, group and item ids.
use vstd::prelude::*;

use std::collections::hash_map::DefaultHasher;
use std::hash::Hasher;
use vstd::std_specs::hash::DefaultHasherAdditionalSpecFns;

verus! {

/// Hash of a group path.
#[derive(Debug, Clone, Copy, PartialEq, Eq, Structural, Hash, PartialOrd, Ord)]
pub struct PathHash(pub u64);

/// Identifier of a registered group, unique within a storage.
#[derive(Debug, Clone, Copy, PartialEq, Eq, Structural, Hash, PartialOrd, Ord)]
pub struct GroupID(pub u64);

/// Identifier of a configuration entity, unique within a storage.
#[derive(Debug, Clone, Copy, PartialEq, Eq, Structural, Hash, PartialOrd, Ord)]
pub struct ItemID(pub u64);

/// The bytes that separate the segments of a path in its hash.
pub open spec fn path_delimiter() -> Seq<u8> {
    seq![3u8, 0u8]
}

/// What hashing a path writes: each segment's UTF-8 bytes, each followed by the delimiter.
pub open spec fn path_hash_writes(p: Seq<Seq<char>>) -> Seq<Seq<u8>>
    decreases p.len(),
{
    if p.len() == 0 {
        Seq::empty()
    } else {
        path_hash_writes(p.drop_last()).push(vstd::utf8::encode_utf8(p.last())).push(
            path_delimiter(),
        )
    }
}

/// Hashing a path writes two pieces per segment.
pub proof fn lemma_path_hash_writes_len(p: Seq<Seq<char>>)
    ensures
        path_hash_writes(p).len() == 2 * p.len(),
    decreases p.len(),
{
    if p.len() > 0 {
        lemma_path_hash_writes_len(p.drop_last());
    }
}

/// What hashing a path writes determines the path: paths that differ in any segment, or
/// in their number of segments, write different pieces to the hasher.
pub proof fn lemma_path_hash_writes_injective(p: Seq<Seq<char>>, q: Seq<Seq<char>>)
    requires
        path_hash_writes(p) == path_hash_writes(q),
    ensures
        p == q,
    decreases p.len(),
{
    lemma_path_hash_writes_len(p);
    lemma_path_hash_writes_len(q);
    if p.len() == 0 {
        assert(p =~= q);
    } else {
        let w = path_hash_writes(p);
        let n = w.len();
        assert(w[n - 2] == vstd::utf8::encode_utf8(p.last()));
        assert(path_hash_writes(q)[n - 2] == vstd::utf8::encode_utf8(q.last()));
        vstd::utf8::encode_utf8_decode_utf8(p.last());
        vstd::utf8::encode_utf8_decode_utf8(q.last());
        assert(p.last() == q.last());
        assert(w.drop_last().drop_last() =~= path_hash_writes(p.drop_last()));
        assert(path_hash_writes(q).drop_last().drop_last() =~= path_hash_writes(q.drop_last()));
        lemma_path_hash_writes_injective(p.drop_last(), q.drop_last());
        assert(p =~= p.drop_last().push(p.last()));
        assert(q =~= q.drop_last().push(q.last()));
    }
}

/// The hash of a path of segment names.
pub open spec fn spec_path_hash(p: Seq<Seq<char>>) -> PathHash {
    PathHash(DefaultHasher::spec_finish(path_hash_writes(p)))
}

impl PathHash {
    /// Hashes the segments of a path, each followed by a delimiter, with `DefaultHasher`.
    pub fn new(paths: &[&str]) -> (r: PathHash)
        ensures
            r == spec_path_hash(paths@.map_values(|s: &str| s@)),
    {
        let ghost p = paths@.map_values(|s: &str| s@);
        let mut hasher = DefaultHasher::new();
        let delim: [u8; 2] = [3u8, 0u8];
        let mut i: usize = 0;
        proof {
            assert(p.take(0) =~= Seq::<Seq<char>>::empty());
        }
        while i < paths.len()
            invariant
                i <= paths@.len(),
                p == paths@.map_values(|s: &str| s@),
                delim@ == path_delimiter(),
                hasher@ == path_hash_writes(p.take(i as int)),
            decreases paths@.len() - i,
        {
            proof {
                assert(p.take(i + 1).drop_last() =~= p.take(i as int));
                assert(p.take(i + 1).last() == paths@[i as int]@);
            }
            hasher.write(paths[i].as_bytes());
            hasher.write(delim.as_slice());
            i = i + 1;
        }
        proof {
            assert(p.take(i as int) =~= p);
        }
        PathHash(hasher.finish())
    }
}

/// Hands out ids in increasing order, starting at 1; 0 is never handed out.
pub struct IdGenerator {
    pub(crate) next: u64,
}

impl View for IdGenerator {
    type V = u64;

    /// The id that the next call of [`IdGenerator::take`] hands out.
    closed spec fn view(&self) -> u64 {
        self.next
    }
}

impl IdGenerator {
    /// The id that the next call of [`IdGenerator::take`] hands out is never 0.
    #[verifier::type_invariant]
    spec fn never_zero(self) -> bool {
        self.next >= 1
    }

    /// A generator whose first id is 1.
    pub fn new() -> (r: IdGenerator)
        ensures
            r@ == 1,
    {
        IdGenerator { next: 1 }
    }

    /// The id that the next call of [`IdGenerator::take`] hands out.
    pub fn next_id(&self) -> (r: u64)
        ensures
            r == self@,
            r >= 1,
    {
        proof {
            use_type_invariant(self);
        }
        self.next
    }

    /// Takes the next id, which is at least 1 and greater than every id taken before.
    pub fn take(&mut self) -> (r: u64)
        requires
            old(self)@ < u64::MAX,
        ensures
            r == old(self)@,
            r >= 1,
            final(self)@ == old(self)@ + 1,
    {
        proof {
            use_type_invariant(&*self);
        }
        let r = self.next;
        self.next = self.next + 1;
        r
    }
}

impl GroupID {
    /// A group id that no earlier call of this generator gave, and never 0.
    pub fn new_unique(gen: &mut IdGenerator) -> (r: GroupID)
        requires
            old(gen)@ < u64::MAX,
        ensures
            r.0 == old(gen)@,
            r.0 >= 1,
            final(gen)@ == old(gen)@ + 1,
    {
        GroupID(gen.take())
    }
}

impl ItemID {
    /// An item id that no earlier call of this generator gave, and never 0.
    pub fn new_unique(gen: &mut IdGenerator) -> (r: ItemID)
        requires
            old(gen)@ < u64::MAX,
        ensures
            r.0 == old(gen)@,
            r.0 >= 1,
            final(gen)@ == old(gen)@ + 1,
    {
        ItemID(gen.take())
    }
}

} // verus!
