use vstd::prelude::*;

use crate::storage::{concat_bytes, MemoryStorage};

verus! {

/// The namespace that a prefix denotes: its length as one byte, then the prefix.
pub open spec fn spec_prefix_impl(prefix: Seq<u8>) -> Seq<u8> {
    seq![prefix.len() as u8] + prefix
}

/// The full key under which a prefixed store keeps `key`.
pub open spec fn spec_full_key(prefix: Seq<u8>, key: Seq<u8>) -> Seq<u8> {
    spec_prefix_impl(prefix) + key
}

/// Prepends the length of the prefix (one byte) to the prefix.
/// Prefixes longer than 0xFF bytes are not supported.
pub fn calculate_prefix_impl(prefix: &[u8]) -> (out: Vec<u8>)
    requires
        prefix@.len() <= 0xFF,
    ensures
        out@ == spec_prefix_impl(prefix@),
{
    let len_byte: u8 = prefix.len() as u8;
    let head: [u8; 1] = [len_byte];
    let out = concat_bytes(head.as_slice(), prefix);
    assert(head@ =~= seq![prefix@.len() as u8]);
    out
}

/// Two namespaced keys coincide only when both the prefixes and the keys do:
/// stores under distinct prefixes never see each other's entries.
pub proof fn lemma_full_key_injective(p1: Seq<u8>, k1: Seq<u8>, p2: Seq<u8>, k2: Seq<u8>)
    requires
        p1.len() <= 0xFF,
        p2.len() <= 0xFF,
        spec_full_key(p1, k1) == spec_full_key(p2, k2),
    ensures
        p1 == p2,
        k1 == k2,
{
    let f1 = spec_full_key(p1, k1);
    let f2 = spec_full_key(p2, k2);
    assert(f1[0] == p1.len() as u8);
    assert(f2[0] == p2.len() as u8);
    assert(p1.len() == p2.len());
    assert forall|i: int| 0 <= i < p1.len() implies p1[i] == p2[i] by {
        assert(f1[i + 1] == p1[i]);
        assert(f2[i + 1] == p2[i]);
    }
    assert(p1 =~= p2);
    assert(f1.len() == f2.len());
    assert(k1.len() == k2.len());
    assert forall|i: int| 0 <= i < k1.len() implies k1[i] == k2[i] by {
        assert(f1[i + 1 + p1.len()] == k1[i]);
        assert(f2[i + 1 + p2.len()] == k2[i]);
    }
    assert(k1 =~= k2);
}

/// A view of a store in which every key lives under a fixed prefix.
pub struct PrefixedStorage {
    prefix_impl: Vec<u8>,
}

impl PrefixedStorage {
    /// The prefix that this view was made with.
    pub closed spec fn prefix(&self) -> Seq<u8> {
        self.prefix_impl@.drop_first()
    }

    /// The view's invariant: its namespace is that of its prefix.
    pub closed spec fn wf(&self) -> bool {
        &&& self.prefix_impl@.len() >= 1
        &&& self.prefix().len() <= 0xFF
        &&& self.prefix_impl@ == spec_prefix_impl(self.prefix())
    }

    /// The full key under which `key` is stored.
    pub open spec fn full_key(&self, key: Seq<u8>) -> Seq<u8> {
        spec_full_key(self.prefix(), key)
    }

    /// A view of a store under `prefix`.
    pub fn new(prefix: &[u8]) -> (s: Self)
        requires
            prefix@.len() <= 0xFF,
        ensures
            s.wf(),
            s.prefix() == prefix@,
    {
        let prefix_impl = calculate_prefix_impl(prefix);
        assert(prefix_impl@.drop_first() =~= prefix@);
        PrefixedStorage { prefix_impl }
    }

    /// Reads `key` in this namespace.
    pub fn get(&self, store: &MemoryStorage, key: &[u8]) -> (r: Option<Vec<u8>>)
        requires
            self.wf(),
            store.wf(),
        ensures
            match r {
                Some(v) => store@.contains_key(self.full_key(key@)) && v@ == store@[self.full_key(key@)],
                None => !store@.contains_key(self.full_key(key@)),
            },
    {
        let full_key = concat_bytes(self.prefix_impl.as_slice(), key);
        store.get(full_key.as_slice())
    }

    /// Writes `value` under `key` in this namespace.
    pub fn set(&self, store: &mut MemoryStorage, key: &[u8], value: &[u8])
        requires
            self.wf(),
            old(store).wf(),
        ensures
            final(store).wf(),
            final(store)@ == old(store)@.insert(self.full_key(key@), value@),
    {
        let full_key = concat_bytes(self.prefix_impl.as_slice(), key);
        store.set(full_key.as_slice(), value);
    }
}

} // verus!
