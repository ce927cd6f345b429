//! The companion key-value store: string keys mapped to string values,
//! held as an owned entry list with unique keys.

use std::sync::Arc;
use vstd::pervasive::VecAdditionalExecFns;
use vstd::prelude::*;

use crate::text::string_views;

verus! {

/// The keys of the entry list, in insertion order.
pub open spec fn entry_keys(entries: Seq<(String, String)>) -> Seq<Seq<char>> {
    entries.map_values(|p: (String, String)| p.0@)
}

/// No two entries share a key.
pub open spec fn unique_keys(entries: Seq<(String, String)>) -> bool {
    forall|i: int, j: int|
        0 <= i < entries.len() && 0 <= j < entries.len() && i != j ==> (
        #[trigger] entries[i]).0@ != (#[trigger] entries[j]).0@
}

/// The map held by the entry list; under `unique_keys` each key has the
/// one value stored beside it.
pub open spec fn entry_map(entries: Seq<(String, String)>) -> Map<Seq<char>, Seq<char>>
    decreases entries.len(),
{
    if entries.len() == 0 {
        Map::empty()
    } else {
        entry_map(entries.drop_last()).insert(entries.last().0@, entries.last().1@)
    }
}

/// The held map's domain is exactly the set of stored keys.
pub proof fn lemma_entry_map_dom(entries: Seq<(String, String)>)
    ensures
        forall|k: Seq<char>|
            #[trigger] entry_map(entries).contains_key(k) <==> entry_keys(entries).contains(k),
    decreases entries.len(),
{
    if entries.len() == 0 {
        assert forall|k: Seq<char>|
            #[trigger] entry_map(entries).contains_key(k) <==> entry_keys(entries).contains(
                k,
            ) by {
            assert(!entry_keys(entries).contains(k));
        }
    } else {
        lemma_entry_map_dom(entries.drop_last());
        assert(entry_keys(entries) =~= entry_keys(entries.drop_last()).push(entries.last().0@));
        assert forall|k: Seq<char>|
            #[trigger] entry_map(entries).contains_key(k) <==> entry_keys(entries).contains(
                k,
            ) by {
            vstd::seq_lib::lemma_seq_contains_after_push(
                entry_keys(entries.drop_last()),
                entries.last().0@,
                k,
            );
            assert(entry_map(entries) == entry_map(entries.drop_last()).insert(
                entries.last().0@,
                entries.last().1@,
            ));
        }
    }
}

/// Under unique keys, the held map sends each stored key to the value
/// stored beside it.
pub proof fn lemma_entry_map_at(entries: Seq<(String, String)>, i: int)
    requires
        unique_keys(entries),
        0 <= i < entries.len(),
    ensures
        entry_map(entries).contains_key(entries[i].0@),
        entry_map(entries)[entries[i].0@] == entries[i].1@,
    decreases entries.len(),
{
    if i < entries.len() - 1 {
        assert(unique_keys(entries.drop_last())) by {
            assert(forall|a: int, b: int|
                0 <= a < entries.len() - 1 && 0 <= b < entries.len() - 1 ==> (
                #[trigger] entries.drop_last()[a]) == entries[a] && (
                #[trigger] entries.drop_last()[b]) == entries[b]);
        }
        lemma_entry_map_at(entries.drop_last(), i);
        assert(entries.drop_last()[i] == entries[i]);
        assert(entries[i].0@ != entries.last().0@);
    }
}

/// Removing the entry at slot `i` removes exactly its key from the held
/// map.
pub proof fn lemma_entry_map_remove(entries: Seq<(String, String)>, i: int)
    requires
        unique_keys(entries),
        0 <= i < entries.len(),
    ensures
        entry_map(entries.remove(i)) == entry_map(entries).remove(entries[i].0@),
    decreases entries.len(),
{
    let shorter = entries.remove(i);
    lemma_entry_map_dom(entries);
    lemma_entry_map_dom(shorter);
    assert forall|k: Seq<char>| #[trigger]
        entry_map(shorter).contains_key(k) == entry_map(entries).remove(
            entries[i].0@,
        ).contains_key(k) by {
        broadcast use vstd::seq_lib::lemma_seq_contains_after_push;

        assert(entry_keys(shorter) =~= entry_keys(entries).remove(i));
        if entry_keys(shorter).contains(k) {
            let w = choose|w: int|
                0 <= w < entry_keys(shorter).len() && entry_keys(shorter)[w] == k;
            if w < i {
                assert(entry_keys(entries)[w] == k);
                assert(entries[w].0@ == k);
                assert(k != entries[i].0@);
            } else {
                assert(entry_keys(entries)[w + 1] == k);
                assert(entries[w + 1].0@ == k);
                assert(k != entries[i].0@);
            }
            assert(entry_keys(entries).contains(k));
        }
        if entry_keys(entries).contains(k) && k != entries[i].0@ {
            let w = choose|w: int|
                0 <= w < entry_keys(entries).len() && entry_keys(entries)[w] == k;
            assert(entries[w].0@ == k);
            assert(w != i);
            if w < i {
                assert(entry_keys(shorter)[w] == shorter[w].0@);
                assert(shorter[w] == entries[w]);
            } else {
                assert(entry_keys(shorter)[w - 1] == shorter[w - 1].0@);
                assert(shorter[w - 1] == entries[w]);
            }
            assert(entry_keys(shorter).contains(k));
        }
    }
    assert forall|k: Seq<char>|
        entry_map(shorter).contains_key(k) implies #[trigger] entry_map(shorter)[k] == entry_map(
        entries,
    ).remove(entries[i].0@)[k] by {
        let w = choose|w: int| 0 <= w < shorter.len() && shorter[w].0@ == k;
        assert(unique_keys(shorter)) by {
            assert(forall|a: int|
                0 <= a < shorter.len() ==> (#[trigger] shorter[a]) == if a < i {
                    entries[a]
                } else {
                    entries[a + 1]
                });
        }
        lemma_entry_map_at(shorter, w);
        if w < i {
            lemma_entry_map_at(entries, w);
        } else {
            lemma_entry_map_at(entries, w + 1);
        }
    }
    assert(entry_map(shorter) =~= entry_map(entries).remove(entries[i].0@));
}

/// Overwriting the value at slot `i` updates exactly its key in the held
/// map.
pub proof fn lemma_entry_map_update(entries: Seq<(String, String)>, i: int, p: (String, String))
    requires
        unique_keys(entries),
        0 <= i < entries.len(),
        p.0@ == entries[i].0@,
    ensures
        entry_map(entries.update(i, p)) == entry_map(entries).insert(p.0@, p.1@),
    decreases entries.len(),
{
    let updated = entries.update(i, p);
    assert(unique_keys(updated)) by {
        assert(forall|a: int|
            0 <= a < updated.len() ==> (#[trigger] updated[a]).0@ == entries[a].0@);
    }
    lemma_entry_map_dom(entries);
    lemma_entry_map_dom(updated);
    assert(entry_keys(updated) =~= entry_keys(entries));
    assert forall|k: Seq<char>|
        entry_map(updated).contains_key(k) implies #[trigger] entry_map(updated)[k] == entry_map(
        entries,
    ).insert(p.0@, p.1@)[k] by {
        let w = choose|w: int| 0 <= w < updated.len() && updated[w].0@ == k;
        lemma_entry_map_at(updated, w);
        if w != i {
            lemma_entry_map_at(entries, w);
            assert(updated[w] == entries[w]);
            assert(k != p.0@) by {
                if k == p.0@ {
                    assert(updated[w].0@ == updated[i].0@);
                }
            }
        }
    }
    assert forall|k: Seq<char>|
        entry_map(updated).contains_key(k) == entry_map(entries).insert(
            p.0@,
            p.1@,
        ).contains_key(k) by {
        assert(entry_keys(entries)[i] == entries[i].0@);
        assert(entry_keys(entries).contains(p.0@));
    }
    assert(entry_map(updated) =~= entry_map(entries).insert(p.0@, p.1@));
}

/// Facade over the main key-value entries.
pub struct InMemoryKVStore {
    pub kv_entries: Vec<(String, String)>,
}

impl InMemoryKVStore {
    /// The store's invariant: no two entries share a key.
    pub open spec fn wf(&self) -> bool {
        unique_keys(self.kv_entries@)
    }

    /// The map the store holds.
    pub open spec fn kv(&self) -> Map<Seq<char>, Seq<char>> {
        entry_map(self.kv_entries@)
    }

    /// Creates an empty store.
    pub fn new() -> (s: InMemoryKVStore)
        ensures
            s.wf(),
            s.kv() == Map::<Seq<char>, Seq<char>>::empty(),
    {
        InMemoryKVStore { kv_entries: Vec::new() }
    }

    /// The slot of the entry with the given key, if the store holds one.
    fn find_key(&self, key: &String) -> (r: Option<usize>)
        requires
            self.wf(),
        ensures
            r.is_some() <==> self.kv().contains_key(key@),
            r matches Some(i) ==> i < self.kv_entries@.len() && self.kv_entries@[i as int].0@
                == key@,
    {
        proof {
            lemma_entry_map_dom(self.kv_entries@);
        }
        let ghost entries = self.kv_entries@;
        let n = self.kv_entries.len();
        let mut i: usize = 0;
        while i < n
            invariant
                i <= n,
                n == entries.len(),
                entries == self.kv_entries@,
                forall|j: int| 0 <= j < i ==> (#[trigger] entries[j]).0@ != key@,
            decreases n - i,
        {
            if self.kv_entries[i].0 == *key {
                proof {
                    lemma_entry_map_dom(entries);
                    assert(entry_keys(entries)[i as int] == key@);
                    assert(entry_keys(entries).contains(key@));
                }
                return Some(i);
            }
            i = i + 1;
        }
        assert(!entry_keys(entries).contains(key@)) by {
            if entry_keys(entries).contains(key@) {
                let w = choose|w: int|
                    0 <= w < entry_keys(entries).len() && entry_keys(entries)[w] == key@;
                assert(entries[w].0@ != key@);
            }
        }
        None
    }

    /// Adds a key-value pair; fails when the key is already held, leaving
    /// the store unchanged.
    pub fn add_value(&mut self, key: String, value: String) -> (r: Result<(), ()>)
        requires
            old(self).wf(),
        ensures
            final(self).wf(),
            r.is_ok() <==> !old(self).kv().contains_key(key@),
            r.is_ok() ==> final(self).kv() == old(self).kv().insert(key@, value@),
            r.is_err() ==> *final(self) == *old(self),
    {
        let ghost entries = self.kv_entries@;
        match self.find_key(&key) {
            Some(_) => Err(()),
            None => {
                proof {
                    lemma_entry_map_dom(entries);
                    assert(!entry_keys(entries).contains(key@)) by {
                        if entry_keys(entries).contains(key@) {
                            let w = choose|w: int|
                                0 <= w < entry_keys(entries).len() && entry_keys(entries)[w]
                                    == key@;
                            assert(entries[w].0@ == key@);
                        }
                    }
                }
                let ghost key_view = key@;
                self.kv_entries.push((key, value));
                proof {
                    assert(self.kv_entries@.drop_last() =~= entries);
                    assert forall|a: int, b: int|
                        0 <= a < self.kv_entries@.len() && 0 <= b < self.kv_entries@.len() && a
                            != b implies (#[trigger] self.kv_entries@[a]).0@ != (
                    #[trigger] self.kv_entries@[b]).0@ by {
                        if a < entries.len() && b < entries.len() {
                            assert(entries[a].0@ != entries[b].0@);
                        } else if b == entries.len() {
                            assert(entries[a].0@ == self.kv_entries@[a].0@);
                            assert(entry_keys(entries)[a] == entries[a].0@);
                            if entries[a].0@ == key_view {
                                assert(entry_keys(entries).contains(key_view));
                            }
                        } else {
                            assert(entry_keys(entries)[b] == entries[b].0@);
                            if entries[b].0@ == key_view {
                                assert(entry_keys(entries).contains(key_view));
                            }
                        }
                    }
                }
                Ok(())
            },
        }
    }

    /// Returns the value held under the key; fails when the key is absent.
    pub fn get_value(&self, key: String) -> (r: Result<Arc<String>, ()>)
        requires
            self.wf(),
        ensures
            r.is_ok() <==> self.kv().contains_key(key@),
            r matches Ok(v) ==> v@ == self.kv()[key@],
    {
        match self.find_key(&key) {
            Some(i) => {
                proof {
                    lemma_entry_map_at(self.kv_entries@, i as int);
                }
                Ok(Arc::new(self.kv_entries[i].1.clone()))
            },
            None => Err(()),
        }
    }

    /// Removes the key and its value; fails when the key is absent, leaving
    /// the store unchanged.
    pub fn remove_value(&mut self, key: String) -> (r: Result<(), ()>)
        requires
            old(self).wf(),
        ensures
            final(self).wf(),
            r.is_ok() <==> old(self).kv().contains_key(key@),
            r.is_ok() ==> final(self).kv() == old(self).kv().remove(key@),
            r.is_err() ==> *final(self) == *old(self),
    {
        let ghost entries = self.kv_entries@;
        match self.find_key(&key) {
            Some(i) => {
                proof {
                    lemma_entry_map_remove(entries, i as int);
                    assert(unique_keys(entries.remove(i as int))) by {
                        assert(forall|a: int|
                            0 <= a < entries.len() - 1 ==> (#[trigger] entries.remove(
                                i as int,
                            )[a]) == if a < i as int {
                                entries[a]
                            } else {
                                entries[a + 1]
                            });
                    }
                }
                self.kv_entries.remove(i);
                Ok(())
            },
            None => Err(()),
        }
    }

    /// Overwrites the value under the key; fails when the key is absent,
    /// leaving the store unchanged.
    pub fn update_value(&mut self, key: String, value: String) -> (r: Result<(), ()>)
        requires
            old(self).wf(),
        ensures
            final(self).wf(),
            r.is_ok() <==> old(self).kv().contains_key(key@),
            r.is_ok() ==> final(self).kv() == old(self).kv().insert(key@, value@),
            r.is_err() ==> *final(self) == *old(self),
    {
        let ghost entries = self.kv_entries@;
        match self.find_key(&key) {
            Some(i) => {
                proof {
                    lemma_entry_map_update(entries, i as int, (key, value));
                    assert(forall|a: int|
                        0 <= a < entries.len() ==> ((#[trigger] entries.update(
                            i as int,
                            (key, value),
                        )[a]).0@ == entries[a].0@));
                }
                self.kv_entries.set(i, (key, value));
                Ok(())
            },
            None => Err(()),
        }
    }

    /// Returns every held key, in insertion order.
    pub fn get_all_keys(&self) -> (r: Result<Vec<String>, ()>)
        requires
            self.wf(),
        ensures
            r.is_ok(),
            r matches Ok(v) ==> string_views(v@) == entry_keys(self.kv_entries@),
    {
        let ghost entries = self.kv_entries@;
        let mut vals: Vec<String> = Vec::new();
        let n = self.kv_entries.len();
        let mut i: usize = 0;
        while i < n
            invariant
                i <= n,
                n == entries.len(),
                entries == self.kv_entries@,
                string_views(vals@) =~= entry_keys(entries).take(i as int),
            decreases n - i,
        {
            let ghost pre_vals = vals@;
            vals.push(self.kv_entries[i].0.clone());
            proof {
                assert(vals@.last()@ == entries[i as int].0@);
                assert(vals@.len() == pre_vals.len() + 1);
                assert(string_views(pre_vals).len() == i as int);
                assert(string_views(vals@).len() == i + 1);
                assert forall|j: int| 0 <= j < i + 1 implies string_views(vals@)[j] == entry_keys(
                    entries,
                ).take(i as int + 1)[j] by {
                    assert(string_views(vals@)[j] == vals@[j]@);
                    if j < i {
                        assert(vals@[j] == pre_vals[j]);
                        assert(string_views(pre_vals)[j] == entry_keys(entries).take(i as int)[j]);
                    }
                    assert(entry_keys(entries).take(i as int + 1)[j] == entries[j].0@);
                }
                assert(string_views(vals@) =~= entry_keys(entries).take(i as int + 1));
            }
            i = i + 1;
        }
        proof {
            assert(entry_keys(entries).take(n as int) =~= entry_keys(entries));
        }
        Ok(vals)
    }
}

/// The store interface a key-value backend offers.
pub trait KVStore {
    /// The backend's invariant.
    spec fn store_wf(&self) -> bool;

    /// The map the backend holds.
    spec fn store_map(&self) -> Map<Seq<char>, Seq<char>>;

    /// Adds a pair; fails when the key is already held.
    fn add_value(&mut self, key: String, value: String) -> (r: Result<(), ()>)
        requires
            old(self).store_wf(),
        ensures
            final(self).store_wf(),
            r.is_ok() <==> !old(self).store_map().contains_key(key@),
            r.is_ok() ==> final(self).store_map() == old(self).store_map().insert(key@, value@),
            r.is_err() ==> final(self).store_map() == old(self).store_map(),
    ;

    /// Returns the value held under the key.
    fn get_value(&self, key: String) -> (r: Result<Arc<String>, ()>)
        requires
            self.store_wf(),
        ensures
            r.is_ok() <==> self.store_map().contains_key(key@),
            r matches Ok(v) ==> v@ == self.store_map()[key@],
    ;

    /// Removes the key; fails when it is absent.
    fn remove_key(&mut self, key: String) -> (r: Result<(), ()>)
        requires
            old(self).store_wf(),
        ensures
            final(self).store_wf(),
            r.is_ok() <==> old(self).store_map().contains_key(key@),
            r.is_ok() ==> final(self).store_map() == old(self).store_map().remove(key@),
            r.is_err() ==> final(self).store_map() == old(self).store_map(),
    ;

    /// Overwrites the value under the key; fails when it is absent.
    fn update_value(&mut self, key: String, value: String) -> (r: Result<(), ()>)
        requires
            old(self).store_wf(),
        ensures
            final(self).store_wf(),
            r.is_ok() <==> old(self).store_map().contains_key(key@),
            r.is_ok() ==> final(self).store_map() == old(self).store_map().insert(key@, value@),
            r.is_err() ==> final(self).store_map() == old(self).store_map(),
    ;
}

impl KVStore for InMemoryKVStore {
    open spec fn store_wf(&self) -> bool {
        self.wf()
    }

    open spec fn store_map(&self) -> Map<Seq<char>, Seq<char>> {
        self.kv()
    }

    fn add_value(&mut self, key: String, value: String) -> (r: Result<(), ()>) {
        InMemoryKVStore::add_value(self, key, value)
    }

    fn get_value(&self, key: String) -> (r: Result<Arc<String>, ()>) {
        InMemoryKVStore::get_value(self, key)
    }

    fn remove_key(&mut self, key: String) -> (r: Result<(), ()>) {
        InMemoryKVStore::remove_value(self, key)
    }

    fn update_value(&mut self, key: String, value: String) -> (r: Result<(), ()>) {
        InMemoryKVStore::update_value(self, key, value)
    }
}

/// Chooses which key-value backend to use.
pub enum KVType {
    INMemory,
    Durable,
}

/// Transport shape of an add request on the key-value socket endpoint.
pub struct AddKVRequestDto {
    pub key: String,
    pub value: String,
}

/// Transport shape of a get request on the key-value socket endpoint.
pub struct GetKVRequestDto {
    pub key: String,
}

/// Transport shape of a key-value response.
pub struct KVResponceDto {
    pub error: String,
    pub value: String,
}

} // verus!
