use vstd::prelude::*;
use std::collections::HashMap;

use crate::bucket::RateLimit;

verus! {

broadcast use vstd::std_specs::hash::group_hash_axioms;

/// Number of keys the rate-limit map can hold.
pub const MAX_ENTRIES: usize = 1024;

/// Key of the default bucket, used for ports without an entry of their own.
pub const DEFAULT_PORT: u16 = 0;

#[derive(Clone, Copy, Debug, PartialEq, Eq, Structural)]
pub enum MapError {
    /// The map holds `MAX_ENTRIES` keys and the key to insert is new.
    Full,
}

/// The map from port key to rate-limit entry shared by the datapath and
/// the control plane. Keys are unique; every entry keeps its bucket within
/// capacity.
pub struct RateLimitMap {
    entries: HashMap<u16, RateLimit>,
}

/// Every entry of `m` is well formed.
pub open spec fn entries_wf(m: Map<u16, RateLimit>) -> bool {
    forall|k: u16| #[trigger] m.contains_key(k) ==> m[k].wf()
}

impl View for RateLimitMap {
    type V = Map<u16, RateLimit>;

    closed spec fn view(&self) -> Map<u16, RateLimit> {
        self.entries@
    }
}

impl RateLimitMap {
    pub open spec fn wf(&self) -> bool {
        &&& self@.dom().finite()
        &&& self@.dom().len() <= MAX_ENTRIES
        &&& entries_wf(self@)
    }

    /// An empty map.
    pub fn new() -> (r: RateLimitMap)
        ensures
            r@ == Map::<u16, RateLimit>::empty(),
            r.wf(),
    {
        RateLimitMap { entries: HashMap::new() }
    }

    /// Number of keys present.
    pub fn len(&self) -> (r: usize)
        ensures
            r == self@.dom().len(),
    {
        self.entries.len()
    }

    pub fn contains(&self, port: u16) -> (r: bool)
        ensures
            r == self@.contains_key(port),
    {
        self.entries.contains_key(&port)
    }

    /// The entry stored under `port`, if any.
    pub fn get(&self, port: u16) -> (r: Option<RateLimit>)
        ensures
            r == (if self@.contains_key(port) { Some(self@[port]) } else { None }),
    {
        match self.entries.get(&port) {
            Some(e) => Some(*e),
            None => None,
        }
    }

    /// Stores `limit` under `port`. Fails, leaving the map as it was, when
    /// `port` is new and the map is full.
    pub fn insert(&mut self, port: u16, limit: RateLimit) -> (r: Result<(), MapError>)
        requires
            old(self).wf(),
            limit.wf(),
        ensures
            final(self).wf(),
            r is Ok <==> (old(self)@.contains_key(port) || old(self)@.dom().len()
                < MAX_ENTRIES),
            r is Ok ==> final(self)@ == old(self)@.insert(port, limit),
            r is Err ==> final(self)@ == old(self)@,
    {
        if !self.entries.contains_key(&port) && self.entries.len() >= MAX_ENTRIES {
            return Err(MapError::Full);
        }
        self.entries.insert(port, limit);
        proof {
            if old(self)@.contains_key(port) {
                assert(self@.dom() =~= old(self)@.dom());
            } else {
                assert(self@.dom() =~= old(self)@.dom().insert(port));
            }
        }
        Ok(())
    }

    /// Removes the entry of `port`, if present.
    pub fn remove(&mut self, port: u16)
        requires
            old(self).wf(),
        ensures
            final(self).wf(),
            final(self)@ == old(self)@.remove(port),
    {
        self.entries.remove(&port);
        proof {
            assert(self@.dom() <= old(self)@.dom());
            vstd::set_lib::lemma_len_subset(self@.dom(), old(self)@.dom());
        }
    }
}

} // verus!
