//! The confidence store: a map from block number to verified-sample count,
//! written once per block by the sampling pipeline and read by the HTTP
//! collaborator. The caller serialises access (one coarse lock around the
//! whole store); the store itself is a plain single-owner map.

use std::collections::HashMap;
use vstd::prelude::*;

verus! {

broadcast use vstd::std_specs::hash::group_hash_axioms;

/// Map from block number to the count of samples that verified for it.
pub struct ConfidenceStore {
    map: HashMap<u64, u32>,
}

impl View for ConfidenceStore {
    type V = Map<u64, u32>;

    closed spec fn view(&self) -> Map<u64, u32> {
        self.map@
    }
}

impl ConfidenceStore {
    /// An empty store, created once at startup.
    pub fn new() -> (s: ConfidenceStore)
        ensures
            s@ == Map::<u64, u32>::empty(),
    {
        ConfidenceStore { map: HashMap::new() }
    }

    /// Record that `count` samples verified for `block`, replacing any
    /// earlier count for the same block.
    pub fn upsert(&mut self, block: u64, count: u32)
        ensures
            final(self)@ == old(self)@.insert(block, count),
    {
        self.map.insert(block, count);
    }

    /// The verified-sample count recorded for `block`, if any.
    pub fn get(&self, block: u64) -> (r: Option<u32>)
        ensures
            r == (if self@.contains_key(block) {
                Some(self@[block])
            } else {
                None::<u32>
            }),
    {
        match self.map.get(&block) {
            Some(count) => Some(*count),
            None => None,
        }
    }

    /// How many blocks have a recorded count.
    pub fn len(&self) -> (n: usize)
        ensures
            n == self@.len(),
    {
        self.map.len()
    }
}

} // verus!
