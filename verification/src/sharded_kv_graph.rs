//! A local shard: one in-process key-value store that the shard manager
//! fills after routing a key here.

use vstd::prelude::*;

use crate::kv_model::InMemoryKVStore;

verus! {

/// Holds the key-value store of the local shard.
pub struct LocalShardedKvStore {
    pub local_shard: InMemoryKVStore,
}

impl LocalShardedKvStore {
    /// Creates a shard with an empty store.
    pub fn new() -> (s: LocalShardedKvStore)
        ensures
            s.local_shard.wf(),
            s.local_shard.kv() == Map::<Seq<char>, Seq<char>>::empty(),
    {
        LocalShardedKvStore { local_shard: InMemoryKVStore::new() }
    }

    /// Adds a pair to the local shard's store, to be used just after the
    /// shard manager has chosen this shard; fails when the key is already
    /// held.
    pub fn add_to_local_shard(&mut self, key: String, value: String) -> (r: Result<(), ()>)
        requires
            old(self).local_shard.wf(),
        ensures
            final(self).local_shard.wf(),
            r.is_ok() <==> !old(self).local_shard.kv().contains_key(key@),
            r.is_ok() ==> final(self).local_shard.kv() == old(self).local_shard.kv().insert(
                key@,
                value@,
            ),
            r.is_err() ==> *final(self) == *old(self),
    {
        self.local_shard.add_value(key, value)
    }
}

} // verus!
