//! The memory store: an index map from dense integer indices to memory
//! entries, held in an outside collection and seen by the verifier through
//! a contents function and narrow wrappers.

use vstd::prelude::*;
use indexmap::IndexMap;
use crate::memory::MemoryEntry;

verus! {

#[verifier::external_type_specification]
#[verifier::external_body]
#[verifier::reject_recursive_types(K)]
#[verifier::reject_recursive_types(V)]
#[verifier::reject_recursive_types(S)]
pub struct ExIndexMap<K, V, S>(IndexMap<K, V, S>);

/// The memory store's collection type: dense integer indices to entries.
pub type MemoryStore = IndexMap<usize, MemoryEntry>;

/// The key-value contents of a memory index map.
pub uninterp spec fn imap_view(m: MemoryStore) -> Map<usize, MemoryEntry>;

/// Relies on indexmap's `IndexMap::new`: a new map holds no entries.
#[verifier::external_body]
pub fn imap_new() -> (r: MemoryStore)
    ensures
        forall|k: usize| !imap_view(r).contains_key(k),
{
    IndexMap::new()
}

/// Relies on indexmap's `IndexMap::insert`: the pair is inserted, and the
/// value of an equivalent key is replaced.
#[verifier::external_body]
pub fn imap_insert(m: &mut MemoryStore, k: usize, v: MemoryEntry)
    ensures
        imap_view(*final(m)) == imap_view(*old(m)).insert(k, v),
{
    m.insert(k, v);
}

/// Relies on indexmap's `IndexMap::get`: returns the value stored under the
/// key, if any.
#[verifier::external_body]
pub fn imap_get<'a>(m: &'a MemoryStore, k: usize) -> (r: Option<&'a MemoryEntry>)
    ensures
        match r {
            Some(v) => imap_view(*m).contains_key(k) && *v == imap_view(*m)[k],
            None => !imap_view(*m).contains_key(k),
        },
{
    m.get(&k)
}

} // verus!
