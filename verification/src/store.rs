//! The persistent-store adapter: durable partitions backed by
//! `ic_stable_structures` B-tree maps over managed stable memory.
//!
//! Each partition maps owner key bytes to one serialized aggregate. The
//! contents of a partition are named by [`partition_map`]; the trusted
//! wrappers below state how each stable-structure call reads or changes it.

use ic_stable_structures::memory_manager::{MemoryId, MemoryManager, VirtualMemory};
use ic_stable_structures::{DefaultMemoryImpl, StableBTreeMap};
use vstd::prelude::*;

verus! {

/// One durable partition: a stable B-tree map from owner key bytes to the
/// serialized aggregate stored for that owner.
#[verifier::external_body]
pub struct StablePartition {
    map: StableBTreeMap<Vec<u8>, Vec<u8>, VirtualMemory<DefaultMemoryImpl>>,
}

/// What a partition holds: owner key bytes to serialized aggregate bytes.
pub uninterp spec fn partition_map(p: StablePartition) -> Map<Seq<u8>, Seq<u8>>;

/// The contents of a partition that holds nothing.
pub open spec fn empty_partition() -> Map<Seq<u8>, Seq<u8>> {
    Map::empty()
}

/// Relies on `MemoryManager::init` over `DefaultMemoryImpl::default()` — on a
/// native build a freshly allocated in-process memory — and on
/// `StableBTreeMap::init`: a map attached to a fresh region starts empty.
/// The five partitions attach to five distinct regions of one manager, as
/// distinct `MemoryId`s address disjoint virtual memories.
#[verifier::external_body]
pub(crate) fn new_partitions() -> (r: (
    StablePartition,
    StablePartition,
    StablePartition,
    StablePartition,
    StablePartition,
))
    ensures
        partition_map(r.0) == empty_partition(),
        partition_map(r.1) == empty_partition(),
        partition_map(r.2) == empty_partition(),
        partition_map(r.3) == empty_partition(),
        partition_map(r.4) == empty_partition(),
{
    let mm = MemoryManager::init(DefaultMemoryImpl::default());
    (
        StablePartition { map: StableBTreeMap::init(mm.get(MemoryId::new(0))) },
        StablePartition { map: StableBTreeMap::init(mm.get(MemoryId::new(1))) },
        StablePartition { map: StableBTreeMap::init(mm.get(MemoryId::new(2))) },
        StablePartition { map: StableBTreeMap::init(mm.get(MemoryId::new(3))) },
        StablePartition { map: StableBTreeMap::init(mm.get(MemoryId::new(4))) },
    )
}

/// Relies on `MemoryManager::init` over `DefaultMemoryImpl::default()` and
/// `StableBTreeMap::init`: a stand-alone partition over a region of a fresh
/// in-process memory starts empty.
#[verifier::external_body]
pub(crate) fn new_partition() -> (p: StablePartition)
    ensures
        partition_map(p) == empty_partition(),
{
    let mm = MemoryManager::init(DefaultMemoryImpl::default());
    StablePartition { map: StableBTreeMap::init(mm.get(MemoryId::new(0))) }
}

impl StablePartition {
    /// Relies on `StableBTreeMap::get`: returns the value stored under the
    /// key, or nothing when the key is absent.
    #[verifier::external_body]
    pub(crate) fn get(&self, key: &Vec<u8>) -> (r: Option<Vec<u8>>)
        ensures
            match r {
                Some(v) => partition_map(*self).contains_key(key@) && partition_map(*self)[key@]
                    == v@,
                None => !partition_map(*self).contains_key(key@),
            },
    {
        self.map.get(key)
    }

    /// Relies on `StableBTreeMap::contains_key`.
    #[verifier::external_body]
    pub(crate) fn contains_key(&self, key: &Vec<u8>) -> (r: bool)
        ensures
            r == partition_map(*self).contains_key(key@),
    {
        self.map.contains_key(key)
    }

    /// Relies on `StableBTreeMap::insert`: stores the value under the key and
    /// returns what was there before.
    #[verifier::external_body]
    pub(crate) fn insert(&mut self, key: Vec<u8>, value: Vec<u8>) -> (r: Option<Vec<u8>>)
        ensures
            partition_map(*final(self)) == partition_map(*old(self)).insert(key@, value@),
            match r {
                Some(v) => partition_map(*old(self)).contains_key(key@) && partition_map(
                    *old(self),
                )[key@] == v@,
                None => !partition_map(*old(self)).contains_key(key@),
            },
    {
        self.map.insert(key, value)
    }

    /// Relies on `StableBTreeMap::remove`: removes the entry under the key
    /// and returns what was there.
    #[verifier::external_body]
    pub(crate) fn remove(&mut self, key: &Vec<u8>) -> (r: Option<Vec<u8>>)
        ensures
            partition_map(*final(self)) == partition_map(*old(self)).remove(key@),
            match r {
                Some(v) => partition_map(*old(self)).contains_key(key@) && partition_map(
                    *old(self),
                )[key@] == v@,
                None => !partition_map(*old(self)).contains_key(key@),
            },
    {
        self.map.remove(key)
    }

    /// Relies on `StableBTreeMap::len`: the number of entries.
    #[verifier::external_body]
    pub(crate) fn len(&self) -> (r: u64)
        ensures
            r as nat == partition_map(*self).dom().len(),
    {
        self.map.len()
    }

    /// Relies on `StableBTreeMap::iter`: yields each entry exactly once,
    /// here collected into key-value pairs.
    #[verifier::external_body]
    pub(crate) fn entries(&self) -> (r: Vec<(Vec<u8>, Vec<u8>)>)
        ensures
            forall|i: int|
                #![trigger r@[i]]
                0 <= i < r@.len() ==> partition_map(*self).contains_key(r@[i].0@) && partition_map(
                    *self,
                )[r@[i].0@] == r@[i].1@,
            forall|i: int, j: int|
                #![trigger r@[i], r@[j]]
                0 <= i < j < r@.len() ==> r@[i].0@ != r@[j].0@,
            forall|k: Seq<u8>|
                #![trigger partition_map(*self).contains_key(k)]
                partition_map(*self).contains_key(k) ==> exists|i: int|
                    0 <= i < r@.len() && r@[i].0@ == k,
    {
        self.map.iter().map(|e| e.into_pair()).collect()
    }
}

} // verus!
