//! The contents of a cache as mathematical values, and what holds of them.
//!
//! What the operations of the cache do is defined here on [`CacheState`].
//! The laws of the cache are proved here: that inserting is idempotent, that
//! an object which nothing refers to is let go of, and that an id is never
//! used again.

use crate::arc_cache::{CachedObject, CACHE_REFERENCES, REMOTE_IDENTITY_BASE};
use vstd::prelude::*;

verus! {

/// The contents of a cache as mathematical maps and sequences.
pub struct CacheState<T> {
    /// The object that each id names.
    pub objects: Map<u64, CachedObject<T>>,
    /// The id of each identity that the cache knows.
    pub ids: Map<u128, u64>,
    /// The id that the next new object will get.
    pub next_id: u64,
    /// The objects named since the pending lists were last cleared.
    pub to_add: Seq<(u64, CachedObject<T>)>,
    /// The ids let go since the pending lists were last cleared.
    pub to_remove: Seq<u64>,
}

/// The ids of a list of additions, in order.
pub open spec fn added_ids<T>(to_add: Seq<(u64, CachedObject<T>)>) -> Seq<u64> {
    to_add.map_values(|entry: (u64, CachedObject<T>)| entry.0)
}

impl<T> CacheState<T> {
    /// The state of a cache that has named nothing yet. The first id that it
    /// assigns is 1.
    pub open spec fn empty() -> Self {
        CacheState {
            objects: Map::empty(),
            ids: Map::empty(),
            next_id: 1,
            to_add: Seq::empty(),
            to_remove: Seq::empty(),
        }
    }

    /// The two tables mirror each other, every id that is or was in use is
    /// below the counter, what waits in `to_add` is held and stands in the
    /// order of its ids, and what waits in `to_remove` is gone.
    pub open spec fn wf(self) -> bool {
        &&& self.next_id >= 1
        &&& self.objects.dom().finite()
        &&& forall|id: u64| #[trigger]
            self.objects.contains_key(id) ==> {
                &&& id < self.next_id
                &&& self.ids.contains_key(self.objects[id].identity)
                &&& self.ids[self.objects[id].identity] == id
            }
        &&& forall|identity: u128| #[trigger]
            self.ids.contains_key(identity) ==> {
                &&& self.objects.contains_key(self.ids[identity])
                &&& self.objects[self.ids[identity]].identity == identity
            }
        &&& forall|i: int, j: int|
            0 <= i < j < self.to_add.len() ==> (#[trigger] self.to_add[i]).0 < (
            #[trigger] self.to_add[j]).0
        &&& forall|i: int|
            0 <= i < self.to_add.len() ==> {
                &&& self.objects.contains_key((#[trigger] self.to_add[i]).0)
                &&& self.objects[self.to_add[i].0] == self.to_add[i].1
            }
        &&& self.to_remove.no_duplicates()
        &&& forall|i: int|
            0 <= i < self.to_remove.len() ==> {
                &&& #[trigger] self.to_remove[i] < self.next_id
                &&& !self.objects.contains_key(self.to_remove[i])
            }
    }

    /// Whether `object` can be inserted: the cache knows its identity, which
    /// needs no new id, or has an id left for it.
    pub open spec fn has_room_for(self, object: CachedObject<T>) -> bool {
        self.ids.contains_key(object.identity) || self.next_id < u64::MAX
    }

    /// The id under which `object` is known after it was inserted.
    pub open spec fn id_of(self, object: CachedObject<T>) -> u64 {
        if self.ids.contains_key(object.identity) {
            self.ids[object.identity]
        } else {
            self.next_id
        }
    }

    /// The state after `object` was inserted: unchanged where its identity
    /// was known, else with the object under the next id and waiting in
    /// `to_add`.
    pub open spec fn inserted(self, object: CachedObject<T>) -> Self {
        if self.ids.contains_key(object.identity) {
            self
        } else {
            CacheState {
                objects: self.objects.insert(self.next_id, object),
                ids: self.ids.insert(object.identity, self.next_id),
                next_id: (self.next_id + 1) as u64,
                to_add: self.to_add.push((self.next_id, object)),
                to_remove: self.to_remove,
            }
        }
    }
}

impl<T> CacheState<T> {
    /// Inserting keeps the invariant.
    pub proof fn lemma_inserted_wf(self, object: CachedObject<T>)
        requires
            self.wf(),
            self.has_room_for(object),
        ensures
            self.inserted(object).wf(),
    {
        if !self.ids.contains_key(object.identity) {
            let id = self.next_id;
            let after = self.inserted(object);
            assert forall|i: int, j: int| 0 <= i < j < after.to_add.len() implies (
            #[trigger] after.to_add[i]).0 < (#[trigger] after.to_add[j]).0 by {
                assert(after.to_add[i] == self.to_add[i]);
                assert(self.objects.contains_key(self.to_add[i].0));
                if j < self.to_add.len() {
                    assert(after.to_add[j] == self.to_add[j]);
                }
            }
            assert forall|other: u64| #[trigger]
                after.objects.contains_key(other) implies {
                &&& other < after.next_id
                &&& after.ids.contains_key(after.objects[other].identity)
                &&& after.ids[after.objects[other].identity] == other
            } by {
                if other != id {
                    assert(self.objects.contains_key(other));
                }
            }
            assert forall|identity: u128| #[trigger]
                after.ids.contains_key(identity) implies {
                &&& after.objects.contains_key(after.ids[identity])
                &&& after.objects[after.ids[identity]].identity == identity
            } by {
                if identity != object.identity {
                    assert(self.ids.contains_key(identity));
                }
            }
            assert forall|i: int| 0 <= i < after.to_add.len() implies {
                &&& after.objects.contains_key((#[trigger] after.to_add[i]).0)
                &&& after.objects[after.to_add[i].0] == after.to_add[i].1
            } by {
                if i < self.to_add.len() {
                    assert(self.to_add[i] == after.to_add[i]);
                    assert(self.objects.contains_key(self.to_add[i].0));
                }
            }
            assert forall|i: int| 0 <= i < after.to_remove.len() implies {
                &&& #[trigger] after.to_remove[i] < after.next_id
                &&& !after.objects.contains_key(after.to_remove[i])
            } by {
                assert(self.to_remove[i] == after.to_remove[i]);
            }
        }
    }

    /// Whether the cache lets go of the object under `id` when `holders`
    /// references to it are alive: it holds the object, nothing but the cache
    /// refers to it, and it does not wait in `to_add`.
    pub open spec fn lets_go(self, id: u64, holders: usize) -> bool {
        &&& holders == CACHE_REFERENCES
        &&& self.objects.contains_key(id)
        &&& !added_ids(self.to_add).contains(id)
    }

    /// The ids that the cache lets go of, given the number of holders that
    /// was counted for each id: each once, in the order of the counts.
    pub open spec fn unreferenced(self, counts: Seq<(u64, usize)>) -> Seq<u64>
        decreases counts.len(),
    {
        if counts.len() == 0 {
            Seq::empty()
        } else {
            let earlier = self.unreferenced(counts.drop_last());
            let (id, holders) = counts.last();
            if self.lets_go(id, holders) && !earlier.contains(id) {
                earlier.push(id)
            } else {
                earlier
            }
        }
    }

    /// Whether the objects under `gone` can be let go of: each id once, each
    /// held, none waiting in `to_add`.
    pub open spec fn may_evict(self, gone: Seq<u64>) -> bool {
        &&& gone.no_duplicates()
        &&& forall|i: int|
            0 <= i < gone.len() ==> {
                &&& self.objects.contains_key(#[trigger] gone[i])
                &&& !added_ids(self.to_add).contains(gone[i])
            }
    }

    /// The state after the objects under `gone` were let go of: they have
    /// left both tables and their ids wait in `to_remove`.
    pub open spec fn evicted(self, gone: Seq<u64>) -> Self {
        CacheState {
            objects: self.objects.remove_keys(gone.to_set()),
            ids: Map::new(
                |identity: u128|
                    self.ids.contains_key(identity) && !gone.contains(self.ids[identity]),
                |identity: u128| self.ids[identity],
            ),
            next_id: self.next_id,
            to_add: self.to_add,
            to_remove: self.to_remove + gone,
        }
    }

    /// What the ids chosen from any counts are can be let go of.
    pub proof fn lemma_unreferenced_may_evict(self, counts: Seq<(u64, usize)>)
        ensures
            self.may_evict(self.unreferenced(counts)),
        decreases counts.len(),
    {
        if counts.len() > 0 {
            self.lemma_unreferenced_may_evict(counts.drop_last());
        }
    }

    /// Letting go keeps the invariant.
    pub proof fn lemma_evicted_wf(self, gone: Seq<u64>)
        requires
            self.wf(),
            self.may_evict(gone),
        ensures
            self.evicted(gone).wf(),
    {
        let after = self.evicted(gone);
        assert(after.objects.dom() =~= self.objects.dom().difference(gone.to_set()));
        assert(after.objects.dom().finite());
        assert forall|id: u64| #[trigger] after.objects.contains_key(id) implies {
            &&& id < after.next_id
            &&& after.ids.contains_key(after.objects[id].identity)
            &&& after.ids[after.objects[id].identity] == id
        } by {
            assert(self.objects.contains_key(id));
            assert(!gone.contains(id));
        }
        assert forall|identity: u128| #[trigger] after.ids.contains_key(identity) implies {
            &&& after.objects.contains_key(after.ids[identity])
            &&& after.objects[after.ids[identity]].identity == identity
        } by {
            assert(self.ids.contains_key(identity));
        }
        assert forall|i: int| 0 <= i < after.to_add.len() implies {
            &&& after.objects.contains_key((#[trigger] after.to_add[i]).0)
            &&& after.objects[after.to_add[i].0] == after.to_add[i].1
        } by {
            assert(self.objects.contains_key(self.to_add[i].0));
            assert(added_ids(self.to_add)[i] == self.to_add[i].0);
            assert(added_ids(self.to_add).contains(self.to_add[i].0));
        }
        assert forall|i: int| 0 <= i < after.to_remove.len() implies {
            &&& #[trigger] after.to_remove[i] < after.next_id
            &&& !after.objects.contains_key(after.to_remove[i])
        } by {
            if i < self.to_remove.len() {
                assert(after.to_remove[i] == self.to_remove[i]);
            } else {
                let k = i - self.to_remove.len();
                assert(after.to_remove[i] == gone[k]);
                assert(self.objects.contains_key(gone[k]));
                assert(gone.contains(gone[k]));
            }
        }
        assert forall|i: int, j: int|
            0 <= i < after.to_remove.len() && 0 <= j < after.to_remove.len() && i != j implies
            after.to_remove[i] != after.to_remove[j] by {
            let n = self.to_remove.len() as int;
            if i >= n && j < n {
                assert(self.objects.contains_key(gone[i - n]));
            }
            if j >= n && i < n {
                assert(self.objects.contains_key(gone[j - n]));
            }
        }
    }
}

/// The identity of a value that arrived from the counterpart under `id`.
pub open spec fn remote_identity(id: u64) -> u128 {
    (REMOTE_IDENTITY_BASE + id) as u128
}

/// The object that the receiving side keeps for an entry of `to_add`: the
/// same value, known by the id under which it arrived.
pub open spec fn adopted<T>(entry: (u64, CachedObject<T>)) -> CachedObject<T> {
    CachedObject { identity: remote_identity(entry.0), value: entry.1.value }
}

/// Whether one of the additions has the id `id`.
pub open spec fn names<T>(to_add: Seq<(u64, CachedObject<T>)>, id: u64) -> bool {
    exists|i: int| 0 <= i < to_add.len() && (#[trigger] to_add[i]).0 == id
}

/// Whether one of the additions gets the identity `identity` on arrival.
pub open spec fn names_identity<T>(to_add: Seq<(u64, CachedObject<T>)>, identity: u128) -> bool {
    exists|i: int| 0 <= i < to_add.len() && remote_identity((#[trigger] to_add[i]).0) == identity
}

impl<T> CacheState<T> {
    /// Whether a delta with this counter and these additions can be applied:
    /// the counter has not gone back, the new ids are pairwise distinct and
    /// below the sender's counter, and no id is held here for another
    /// object. An id is held for the same object where the object under it
    /// arrived under it, which is so where an addition is sent again. The
    /// order of the additions is free.
    pub open spec fn accepts(self, id_counter: u64, to_add: Seq<(u64, CachedObject<T>)>) -> bool {
        &&& self.next_id <= id_counter
        &&& forall|i: int|
            0 <= i < to_add.len() ==> {
                &&& (#[trigger] to_add[i]).0 < id_counter
                &&& self.admits(to_add[i].0)
            }
        &&& forall|i: int, j: int|
            0 <= i < j < to_add.len() ==> (#[trigger] to_add[i]).0 != (#[trigger] to_add[j]).0
    }

    /// Whether an object can arrive under `id`: the id names no object here
    /// but one that arrived under it, and the identity of what arrives under
    /// it belongs to no other id.
    pub open spec fn admits(self, id: u64) -> bool {
        &&& self.objects.contains_key(id) ==> self.objects[id].identity == remote_identity(id)
        &&& self.ids.contains_key(remote_identity(id)) ==> self.ids[remote_identity(id)] == id
    }

    /// The tables after the additions were recorded, first to last.
    pub open spec fn absorbed(self, to_add: Seq<(u64, CachedObject<T>)>) -> Self
        decreases to_add.len(),
    {
        if to_add.len() == 0 {
            self
        } else {
            let earlier = self.absorbed(to_add.drop_last());
            let entry = to_add.last();
            CacheState {
                objects: earlier.objects.insert(entry.0, adopted(entry)),
                ids: earlier.ids.insert(remote_identity(entry.0), entry.0),
                next_id: earlier.next_id,
                to_add: earlier.to_add,
                to_remove: earlier.to_remove,
            }
        }
    }

    /// The state after a delta was applied: the sender's counter, the
    /// additions recorded in both directions, nothing pending.
    pub open spec fn applied(self, id_counter: u64, to_add: Seq<(u64, CachedObject<T>)>) -> Self {
        CacheState {
            objects: self.absorbed(to_add).objects,
            ids: self.absorbed(to_add).ids,
            next_id: id_counter,
            to_add: Seq::empty(),
            to_remove: Seq::empty(),
        }
    }

    /// What the tables hold after additions were recorded: each addition
    /// under its id, and beside them what the tables held before.
    pub proof fn lemma_absorbed(self, id_counter: u64, to_add: Seq<(u64, CachedObject<T>)>)
        requires
            self.wf(),
            self.accepts(id_counter, to_add),
        ensures
            self.absorbed(to_add).objects.dom().finite(),
            forall|id: u64|
                #![trigger self.absorbed(to_add).objects.contains_key(id)]
                #![trigger names(to_add, id)]
                self.absorbed(to_add).objects.contains_key(id) <==> (self.objects.contains_key(id)
                    || names(to_add, id)),
            forall|id: u64| #[trigger]
                self.objects.contains_key(id) && !names(to_add, id) ==> self.absorbed(
                    to_add,
                ).objects[id] == self.objects[id],
            forall|i: int|
                0 <= i < to_add.len() ==> self.absorbed(to_add).objects[(#[trigger] to_add[i]).0]
                    == adopted(to_add[i]),
            forall|identity: u128|
                #![trigger self.absorbed(to_add).ids.contains_key(identity)]
                #![trigger names_identity(to_add, identity)]
                self.absorbed(to_add).ids.contains_key(identity) <==> (self.ids.contains_key(
                    identity,
                ) || names_identity(to_add, identity)),
            forall|identity: u128| #[trigger]
                self.ids.contains_key(identity) && !names_identity(to_add, identity)
                    ==> self.absorbed(to_add).ids[identity] == self.ids[identity],
            forall|i: int|
                0 <= i < to_add.len() ==> self.absorbed(to_add).ids[remote_identity(
                    (#[trigger] to_add[i]).0,
                )] == to_add[i].0,
        decreases to_add.len(),
    {
        let after = self.absorbed(to_add);
        if to_add.len() == 0 {
            assert(after == self);
            assert(forall|id: u64| !names(to_add, id));
            assert(forall|identity: u128| !names_identity(to_add, identity));
        } else {
            let prefix = to_add.drop_last();
            let entry = to_add.last();
            let n = prefix.len() as int;
            assert(to_add[n] == entry);
            assert forall|i: int| 0 <= i < n implies #[trigger] prefix[i] == to_add[i] by {}
            assert(self.accepts(id_counter, prefix)) by {
                assert forall|i: int| 0 <= i < prefix.len() implies {
                    &&& (#[trigger] prefix[i]).0 < id_counter
                    &&& self.admits(prefix[i].0)
                } by {
                    assert(prefix[i] == to_add[i]);
                }
                assert forall|i: int, j: int| 0 <= i < j < prefix.len() implies (
                #[trigger] prefix[i]).0 != (#[trigger] prefix[j]).0 by {
                    assert(prefix[i] == to_add[i]);
                    assert(prefix[j] == to_add[j]);
                }
            }
            self.lemma_absorbed(id_counter, prefix);
            let earlier = self.absorbed(prefix);
            assert forall|id: u64|
                #![trigger after.objects.contains_key(id)]
                #![trigger names(to_add, id)]
                after.objects.contains_key(id) <==> (self.objects.contains_key(id) || names(
                    to_add,
                    id,
                )) by {
                if names(prefix, id) {
                    let k = choose|k: int| 0 <= k < prefix.len() && (#[trigger] prefix[k]).0 == id;
                    assert(to_add[k].0 == id);
                }
                if names(to_add, id) {
                    let k = choose|k: int| 0 <= k < to_add.len() && (#[trigger] to_add[k]).0 == id;
                    if k < n {
                        assert(prefix[k].0 == id);
                    }
                }
            }
            assert forall|id: u64| #[trigger]
                self.objects.contains_key(id) && !names(to_add, id) implies after.objects[id]
                == self.objects[id] by {
                assert(to_add[n].0 != id);
                if names(prefix, id) {
                    let k = choose|k: int| 0 <= k < prefix.len() && (#[trigger] prefix[k]).0 == id;
                    assert(to_add[k].0 == id);
                }
            }
            assert forall|i: int| 0 <= i < to_add.len() implies after.objects[(
            #[trigger] to_add[i]).0] == adopted(to_add[i]) by {
                if i < n {
                    assert(prefix[i] == to_add[i]);
                    assert(to_add[i].0 != to_add[n].0);
                }
            }
            assert forall|identity: u128|
                #![trigger after.ids.contains_key(identity)]
                #![trigger names_identity(to_add, identity)]
                after.ids.contains_key(identity) <==> (self.ids.contains_key(identity)
                    || names_identity(to_add, identity)) by {
                if names_identity(prefix, identity) {
                    let k = choose|k: int|
                        0 <= k < prefix.len() && remote_identity((#[trigger] prefix[k]).0)
                            == identity;
                    assert(remote_identity(to_add[k].0) == identity);
                }
                if names_identity(to_add, identity) {
                    let k = choose|k: int|
                        0 <= k < to_add.len() && remote_identity((#[trigger] to_add[k]).0)
                            == identity;
                    if k < n {
                        assert(remote_identity(prefix[k].0) == identity);
                    }
                }
            }
            assert forall|identity: u128| #[trigger]
                self.ids.contains_key(identity) && !names_identity(to_add, identity) implies
                after.ids[identity] == self.ids[identity] by {
                assert(remote_identity(to_add[n].0) != identity);
                if names_identity(prefix, identity) {
                    let k = choose|k: int|
                        0 <= k < prefix.len() && remote_identity((#[trigger] prefix[k]).0)
                            == identity;
                    assert(remote_identity(to_add[k].0) == identity);
                }
            }
            assert forall|i: int| 0 <= i < to_add.len() implies after.ids[remote_identity(
                (#[trigger] to_add[i]).0,
            )] == to_add[i].0 by {
                if i < n {
                    assert(prefix[i] == to_add[i]);
                    assert(to_add[i].0 != to_add[n].0);
                }
            }
        }
    }

    /// Applying a delta that is accepted keeps the invariant.
    pub proof fn lemma_applied_wf(self, id_counter: u64, to_add: Seq<(u64, CachedObject<T>)>)
        requires
            self.wf(),
            self.accepts(id_counter, to_add),
        ensures
            self.applied(id_counter, to_add).wf(),
    {
        self.lemma_absorbed(id_counter, to_add);
        let after = self.applied(id_counter, to_add);
        assert forall|id: u64| #[trigger] after.objects.contains_key(id) implies {
            &&& id < after.next_id
            &&& after.ids.contains_key(after.objects[id].identity)
            &&& after.ids[after.objects[id].identity] == id
        } by {
            if names(to_add, id) {
                let k = choose|k: int| 0 <= k < to_add.len() && (#[trigger] to_add[k]).0 == id;
                assert(after.objects[to_add[k].0] == adopted(to_add[k]));
                assert(names_identity(to_add, remote_identity(id)));
            } else {
                let identity = self.objects[id].identity;
                assert(self.ids.contains_key(identity));
                if names_identity(to_add, identity) {
                    let k = choose|k: int|
                        0 <= k < to_add.len() && remote_identity((#[trigger] to_add[k]).0)
                            == identity;
                    assert(self.admits(to_add[k].0));
                    assert(names(to_add, to_add[k].0));
                }
            }
        }
        assert forall|identity: u128| #[trigger] after.ids.contains_key(identity) implies {
            &&& after.objects.contains_key(after.ids[identity])
            &&& after.objects[after.ids[identity]].identity == identity
        } by {
            if names_identity(to_add, identity) {
                let k = choose|k: int|
                    0 <= k < to_add.len() && remote_identity((#[trigger] to_add[k]).0)
                        == identity;
                assert(names(to_add, to_add[k].0));
                assert(after.objects[to_add[k].0] == adopted(to_add[k]));
            } else {
                let id = self.ids[identity];
                assert(self.objects.contains_key(id));
                if names(to_add, id) {
                    let k = choose|k: int| 0 <= k < to_add.len() && (#[trigger] to_add[k]).0 == id;
                    assert(self.admits(to_add[k].0));
                    assert(names_identity(to_add, remote_identity(to_add[k].0)));
                }
            }
        }
    }
}

/// The two pending lists are disjoint: no id waits both in `to_add` and in
/// `to_remove`.
pub proof fn lemma_pending_lists_are_disjoint<T>(cache: CacheState<T>, i: int, j: int)
    requires
        cache.wf(),
        0 <= i < cache.to_add.len(),
        0 <= j < cache.to_remove.len(),
    ensures
        cache.to_add[i].0 != cache.to_remove[j],
{
    assert(cache.objects.contains_key(cache.to_add[i].0));
    assert(!cache.objects.contains_key(cache.to_remove[j]));
}

/// Inserting is idempotent: an object that was inserted can always be
/// inserted again, also where the first insertion took the last id. It, or
/// another reference to it, gets the id that it got the first time, and the
/// second insertion changes nothing. So one object leaves one entry in
/// `to_add`.
pub proof fn lemma_insert_is_idempotent<T>(
    cache: CacheState<T>,
    first: CachedObject<T>,
    second: CachedObject<T>,
)
    requires
        cache.wf(),
        cache.has_room_for(first),
        first.identity == second.identity,
    ensures
        cache.inserted(first).wf(),
        cache.inserted(first).has_room_for(second),
        cache.inserted(first).id_of(second) == cache.id_of(first),
        cache.inserted(first).inserted(second) == cache.inserted(first),
        cache.inserted(first).inserted(second).to_add == (if cache.ids.contains_key(
            first.identity,
        ) {
            cache.to_add
        } else {
            cache.to_add.push((cache.next_id, first))
        }),
        !cache.ids.contains_key(first.identity) ==> cache.inserted(first).inserted(
            second,
        ).to_add.len() == cache.to_add.len() + 1,
        cache.inserted(first).inserted(second).to_remove == cache.to_remove,
{
    cache.lemma_inserted_wf(first);
}

/// The counter never goes back: not when an object is inserted, not when
/// objects are let go of, not when an accepted delta is applied.
pub proof fn lemma_counter_never_goes_back<T>(
    cache: CacheState<T>,
    object: CachedObject<T>,
    gone: Seq<u64>,
    id_counter: u64,
    to_add: Seq<(u64, CachedObject<T>)>,
)
    requires
        cache.has_room_for(object),
    ensures
        cache.inserted(object).next_id >= cache.next_id,
        cache.evicted(gone).next_id == cache.next_id,
        cache.accepts(id_counter, to_add) ==> cache.applied(id_counter, to_add).next_id
            >= cache.next_id,
{
}

/// An object that nothing but the cache refers to is let go of: where the
/// holders counted for a held object are the cache's own and the object does
/// not wait in `to_add`, its id is among the ids that are chosen, and waits
/// in `to_remove` once they are let go of.
pub proof fn lemma_unreferenced_is_let_go<T>(
    cache: CacheState<T>,
    counts: Seq<(u64, usize)>,
    i: int,
)
    requires
        0 <= i < counts.len(),
        cache.lets_go(counts[i].0, counts[i].1),
    ensures
        cache.unreferenced(counts).contains(counts[i].0),
        cache.evicted(cache.unreferenced(counts)).to_remove.contains(counts[i].0),
        !cache.evicted(cache.unreferenced(counts)).objects.contains_key(counts[i].0),
    decreases counts.len(),
{
    let id = counts[i].0;
    let earlier = cache.unreferenced(counts.drop_last());
    let chosen = cache.unreferenced(counts);
    if i < counts.len() - 1 {
        assert(counts.drop_last()[i] == counts[i]);
        lemma_unreferenced_is_let_go(cache, counts.drop_last(), i);
        let k = choose|k: int| 0 <= k < earlier.len() && earlier[k] == id;
        assert(chosen[k] == id);
    } else {
        if earlier.contains(id) {
            let k = choose|k: int| 0 <= k < earlier.len() && earlier[k] == id;
            assert(chosen[k] == id);
        } else {
            assert(chosen == earlier.push(id));
            assert(chosen[earlier.len() as int] == id);
        }
    }
    let k = choose|k: int| 0 <= k < chosen.len() && chosen[k] == id;
    let after = cache.evicted(chosen);
    assert(after.to_remove[cache.to_remove.len() + k] == id);
    assert(chosen.to_set().contains(id));
}

/// An id that was let go of is never used again: a value that is new to the
/// cache gets the counter's value for its id, which names no object, waits
/// in neither list, and is above every id that is or was in use. Once the
/// value is inserted, the id names it, and the counter has moved past it.
pub proof fn lemma_new_value_gets_unused_id<T>(cache: CacheState<T>, object: CachedObject<T>)
    requires
        cache.wf(),
        !cache.ids.contains_key(object.identity),
        cache.next_id < u64::MAX,
    ensures
        cache.id_of(object) == cache.next_id,
        !cache.objects.contains_key(cache.id_of(object)),
        !cache.to_remove.contains(cache.id_of(object)),
        !added_ids(cache.to_add).contains(cache.id_of(object)),
        forall|id: u64| cache.objects.contains_key(id) ==> id < cache.id_of(object),
        forall|i: int| 0 <= i < cache.to_remove.len() ==> cache.to_remove[i] < cache.id_of(object),
        cache.inserted(object).objects[cache.id_of(object)] == object,
        cache.inserted(object).next_id > cache.id_of(object),
        cache.inserted(object).to_remove == cache.to_remove,
{
    let id = cache.id_of(object);
    if cache.to_remove.contains(id) {
        let k = choose|k: int| 0 <= k < cache.to_remove.len() && cache.to_remove[k] == id;
        assert(cache.to_remove[k] < cache.next_id);
    }
    if added_ids(cache.to_add).contains(id) {
        let ids = added_ids(cache.to_add);
        let k = choose|k: int| 0 <= k < ids.len() && ids[k] == id;
        assert(cache.objects.contains_key(cache.to_add[k].0));
    }
}

/// An id that the cache has let go of is not given to a new value: once
/// objects are let go of, a value that is new to the cache gets the
/// counter's value, which is none of the ids that wait in `to_remove`, the
/// ones just let go of among them, and is above every id that the cache
/// holds.
pub proof fn lemma_let_go_id_is_not_reused<T>(
    cache: CacheState<T>,
    gone: Seq<u64>,
    object: CachedObject<T>,
    i: int,
)
    requires
        cache.wf(),
        cache.may_evict(gone),
        !cache.evicted(gone).ids.contains_key(object.identity),
        cache.next_id < u64::MAX,
        0 <= i < cache.evicted(gone).to_remove.len(),
    ensures
        cache.evicted(gone).id_of(object) == cache.next_id,
        cache.evicted(gone).id_of(object) != cache.evicted(gone).to_remove[i],
        cache.evicted(gone).to_remove[i] < cache.evicted(gone).id_of(object),
        forall|id: u64|
            cache.objects.contains_key(id) ==> id < cache.evicted(gone).id_of(object),
        cache.evicted(gone).inserted(object).objects[cache.next_id] == object,
{
    cache.lemma_evicted_wf(gone);
    lemma_new_value_gets_unused_id(cache.evicted(gone), object);
}

/// What a delta adds can be resolved: once an accepted delta is applied,
/// each of its ids names the object that arrived under it, the object is
/// known in both directions, so that inserting it again gives that id and
/// changes nothing, the counter is the sender's and nothing is pending.
pub proof fn lemma_applied_resolves<T>(
    cache: CacheState<T>,
    id_counter: u64,
    to_add: Seq<(u64, CachedObject<T>)>,
    i: int,
)
    requires
        cache.wf(),
        cache.accepts(id_counter, to_add),
        0 <= i < to_add.len(),
    ensures
        cache.applied(id_counter, to_add).objects.contains_key(to_add[i].0),
        cache.applied(id_counter, to_add).objects[to_add[i].0] == adopted(to_add[i]),
        cache.applied(id_counter, to_add).objects[to_add[i].0].value == to_add[i].1.value,
        cache.applied(id_counter, to_add).id_of(adopted(to_add[i])) == to_add[i].0,
        cache.applied(id_counter, to_add).inserted(adopted(to_add[i])) == cache.applied(
            id_counter,
            to_add,
        ),
        cache.applied(id_counter, to_add).next_id == id_counter,
        cache.applied(id_counter, to_add).to_add.len() == 0,
        cache.applied(id_counter, to_add).to_remove.len() == 0,
{
    cache.lemma_absorbed(id_counter, to_add);
    assert(names(to_add, to_add[i].0));
    assert(names_identity(to_add, remote_identity(to_add[i].0)));
}

/// The additions but the one under `id`, in their order.
pub open spec fn others<T>(to_add: Seq<(u64, CachedObject<T>)>, id: u64) -> Seq<
    (u64, CachedObject<T>),
>
    decreases to_add.len(),
{
    if to_add.len() == 0 {
        Seq::empty()
    } else if to_add.last().0 == id {
        others(to_add.drop_last(), id)
    } else {
        others(to_add.drop_last(), id).push(to_add.last())
    }
}

/// Whether `entry` is one of the additions.
pub open spec fn among<T>(
    to_add: Seq<(u64, CachedObject<T>)>,
    entry: (u64, CachedObject<T>),
) -> bool {
    exists|i: int| 0 <= i < to_add.len() && #[trigger] to_add[i] == entry
}

/// The additions but the one under `id` are additions, none of them is
/// under `id`, and they have distinct ids where the additions have.
pub proof fn lemma_others<T>(to_add: Seq<(u64, CachedObject<T>)>, id: u64)
    ensures
        forall|k: int|
            0 <= k < others(to_add, id).len() ==> (#[trigger] others(to_add, id)[k]).0 != id
                && among(to_add, others(to_add, id)[k]),
        (forall|i: int, j: int|
            0 <= i < j < to_add.len() ==> (#[trigger] to_add[i]).0 != (#[trigger] to_add[j]).0)
            ==> (forall|i: int, j: int|
            0 <= i < j < others(to_add, id).len() ==> (#[trigger] others(to_add, id)[i]).0 != (
            #[trigger] others(to_add, id)[j]).0),
    decreases to_add.len(),
{
    if to_add.len() > 0 {
        let prefix = to_add.drop_last();
        let n = prefix.len() as int;
        let earlier = others(prefix, id);
        let all = others(to_add, id);
        lemma_others(prefix, id);
        assert forall|k: int| 0 <= k < all.len() implies (#[trigger] all[k]).0 != id && among(
            to_add,
            all[k],
        ) by {
            if k < earlier.len() {
                assert(all[k] == earlier[k]);
                let i = choose|i: int| 0 <= i < prefix.len() && #[trigger] prefix[i] == earlier[k];
                assert(to_add[i] == all[k]);
            } else {
                assert(to_add[n] == all[k]);
            }
        }
        if forall|i: int, j: int|
            0 <= i < j < to_add.len() ==> (#[trigger] to_add[i]).0 != (#[trigger] to_add[j]).0 {
            assert forall|i: int, j: int| 0 <= i < j < prefix.len() implies (
            #[trigger] prefix[i]).0 != (#[trigger] prefix[j]).0 by {
                assert(prefix[i] == to_add[i]);
                assert(prefix[j] == to_add[j]);
            }
            assert forall|i: int, j: int| 0 <= i < j < all.len() implies (#[trigger] all[i]).0 != (
            #[trigger] all[j]).0 by {
                assert(all[i] == earlier[i]);
                if j < earlier.len() {
                    assert(all[j] == earlier[j]);
                } else {
                    let a = choose|a: int|
                        0 <= a < prefix.len() && #[trigger] prefix[a] == earlier[i];
                    assert(to_add[a] == all[i]);
                    assert(to_add[n] == all[j]);
                    assert(to_add[a].0 != to_add[n].0);
                }
            }
        }
    }
}

/// The counts without those for the object under `spared`.
pub open spec fn without(counts: Seq<(u64, usize)>, spared: u64) -> Seq<(u64, usize)>
    decreases counts.len(),
{
    if counts.len() == 0 {
        Seq::empty()
    } else if counts.last().0 == spared {
        without(counts.drop_last(), spared)
    } else {
        without(counts.drop_last(), spared).push(counts.last())
    }
}

/// An object that is spared from the counts is not let go of.
pub proof fn lemma_spared_is_kept<T>(cache: CacheState<T>, counts: Seq<(u64, usize)>, spared: u64)
    ensures
        !cache.unreferenced(without(counts, spared)).contains(spared),
    decreases counts.len(),
{
    if counts.len() > 0 {
        lemma_spared_is_kept(cache, counts.drop_last(), spared);
        if counts.last().0 != spared {
            let kept = without(counts, spared);
            let earlier = cache.unreferenced(without(counts.drop_last(), spared));
            assert(kept.drop_last() =~= without(counts.drop_last(), spared));
            assert(kept.last() == counts.last());
            let chosen = cache.unreferenced(kept);
            if chosen.contains(spared) {
                let k = choose|k: int| 0 <= k < chosen.len() && chosen[k] == spared;
                if k < earlier.len() {
                    assert(earlier[k] == spared);
                }
            }
        }
    }
}

/// The ids of a list of holder counts, in order.
pub open spec fn held_ids(counts: Seq<(u64, usize)>) -> Seq<u64> {
    counts.map_values(|entry: (u64, usize)| entry.0)
}

} // verus!
