//! A cache that names shared immutable values by small integers.
//!
//! A value that several parts of the state share (a style sheet, say) is sent
//! across the boundary once. Afterwards both sides refer to it by the id that
//! the cache assigned. On the sending side a value is recognised by its
//! identity, a token that it received when it was created; the receiving side
//! knows it by the id under which it arrived.

use crate::cache_state::{
    added_ids, adopted, held_ids, names, others, remote_identity, without, CacheState,
};
use crate::error::SyncError;
use crate::fx_map::{fx_get, fx_insert, fx_keys, fx_remove};
use fxhash::FxHashMap;
use std::sync::Arc;
use vstd::prelude::*;

verus! {

/// The first identity of the range that is kept for values that arrived from
/// the counterpart: the identity of such a value is this plus its id.
pub const REMOTE_IDENTITY_BASE: u128 = 0x1_0000_0000_0000_0000;

/// The number of references to a cached value that the cache itself holds
/// while the value is not waiting in `to_add`.
pub const CACHE_REFERENCES: usize = 1;

/// `Arc::clone`: another reference to the same allocation, so the same value.
#[verifier::external_body]
pub(crate) fn arc_clone<T>(value: &Arc<T>) -> (shared: Arc<T>)
    ensures
        shared == *value,
{
    Arc::clone(value)
}

/// `Arc::strong_count`: the number of references to the allocation that are
/// alive at the moment of the call. It depends on every holder in the
/// process; all that holds of every outcome is that the reference through
/// which it is asked is one of them.
#[verifier::external_body]
fn arc_strong_count<T>(value: &Arc<T>) -> (count: usize)
    ensures
        count >= 1,
{
    Arc::strong_count(value)
}

/// A shared, immutable, reference-counted value together with its identity.
pub struct CachedObject<T> {
    /// What the cache recognises the object by: a token below
    /// `REMOTE_IDENTITY_BASE` for an object that was made on this side, the
    /// base plus its id for one that arrived.
    pub identity: u128,
    /// The value, shared by every reference to the object.
    pub value: Arc<T>,
}

impl<T> CachedObject<T> {
    /// Wraps a value that was created on this side. Two objects made with the
    /// same token are taken for the same object.
    pub fn new(token: u64, value: T) -> (object: Self)
        ensures
            object.identity == token,
            *object.value == value,
    {
        CachedObject { identity: token as u128, value: Arc::new(value) }
    }

    /// Wraps a value that arrived from the counterpart under `id`.
    pub fn received(id: u64, value: T) -> (object: Self)
        ensures
            object.identity == REMOTE_IDENTITY_BASE + id,
            *object.value == value,
    {
        CachedObject { identity: REMOTE_IDENTITY_BASE + id as u128, value: Arc::new(value) }
    }

    /// The identity by which the cache recognises this object.
    pub fn identity(&self) -> (identity: u128)
        ensures
            identity == self.identity,
    {
        self.identity
    }

    /// The value itself.
    pub fn get(&self) -> (value: &T)
        ensures
            *value == *self.value,
    {
        &*self.value
    }

    /// Another reference to the same object.
    pub fn share(&self) -> (shared: Self)
        ensures
            shared == *self,
    {
        CachedObject { identity: self.identity, value: arc_clone(&self.value) }
    }

    /// How many references to the object are alive right now, this one
    /// included. The others come and go with every holder in the process,
    /// so the number is known to count this reference and no more is known
    /// of it.
    pub fn holders(&self) -> (holders: usize)
        ensures
            holders >= 1,
    {
        arc_strong_count(&self.value)
    }
}

/// What changed in a cache since its pending lists were last cleared: the
/// payload that travels with a snapshot.
pub struct ArcCacheDelta<T> {
    /// The sender's counter: every id that it has assigned is below it.
    pub id_counter: u64,
    /// The objects that were newly named, each with its id.
    pub to_add: Vec<(u64, CachedObject<T>)>,
    /// The ids of the objects that the sender let go.
    pub to_remove: Vec<u64>,
}

impl<T> ArcCacheDelta<T> {
    /// A delta that names nothing, from a sender whose counter is
    /// `id_counter`.
    pub fn empty(id_counter: u64) -> (delta: Self)
        ensures
            delta.id_counter == id_counter,
            delta.to_add@.len() == 0,
            delta.to_remove@.len() == 0,
    {
        ArcCacheDelta { id_counter, to_add: Vec::new(), to_remove: Vec::new() }
    }

    /// Another delta with the same contents: the same objects, shared.
    pub fn share(&self) -> (shared: Self)
        ensures
            shared.id_counter == self.id_counter,
            shared.to_add@ == self.to_add@,
            shared.to_remove@ == self.to_remove@,
    {
        let mut to_add: Vec<(u64, CachedObject<T>)> = Vec::new();
        let mut i: usize = 0;
        while i < self.to_add.len()
            invariant
                i <= self.to_add.len(),
                to_add@ == self.to_add@.take(i as int),
            decreases self.to_add.len() - i,
        {
            to_add.push((self.to_add[i].0, self.to_add[i].1.share()));
            assert(to_add@ =~= self.to_add@.take(i + 1));
            i += 1;
        }
        let mut to_remove: Vec<u64> = Vec::new();
        let mut j: usize = 0;
        while j < self.to_remove.len()
            invariant
                j <= self.to_remove.len(),
                to_remove@ == self.to_remove@.take(j as int),
            decreases self.to_remove.len() - j,
        {
            to_remove.push(self.to_remove[j]);
            assert(to_remove@ =~= self.to_remove@.take(j + 1));
            j += 1;
        }
        assert(self.to_add@.take(self.to_add.len() as int) =~= self.to_add@);
        assert(self.to_remove@.take(self.to_remove.len() as int) =~= self.to_remove@);
        ArcCacheDelta { id_counter: self.id_counter, to_add, to_remove }
    }

    /// Makes the delta carry `object` under `id`, in place of what it
    /// carried under that id: the other additions stay, in their order, and
    /// the object comes last.
    pub fn announce(&mut self, id: u64, object: CachedObject<T>)
        ensures
            final(self).id_counter == old(self).id_counter,
            final(self).to_remove@ == old(self).to_remove@,
            final(self).to_add@ == others(old(self).to_add@, id).push((id, object)),
    {
        let ghost all = self.to_add@;
        let mut taken: Vec<(u64, CachedObject<T>)> = Vec::new();
        std::mem::swap(&mut self.to_add, &mut taken);
        let mut kept: Vec<(u64, CachedObject<T>)> = Vec::new();
        let mut i: usize = 0;
        while i < taken.len()
            invariant
                i <= taken.len(),
                taken@ == all,
                kept@ == others(all.take(i as int), id),
            decreases taken.len() - i,
        {
            assert(all.take(i + 1).drop_last() =~= all.take(i as int));
            if taken[i].0 != id {
                kept.push((taken[i].0, taken[i].1.share()));
            }
            i += 1;
        }
        assert(all.take(taken.len() as int) =~= all);
        kept.push((id, object));
        self.to_add = kept;
    }

    /// Whether one of the additions has the id `id`.
    pub fn names(&self, id: u64) -> (named: bool)
        ensures
            named == names(self.to_add@, id),
    {
        let mut i: usize = 0;
        while i < self.to_add.len()
            invariant
                i <= self.to_add.len(),
                forall|k: int| 0 <= k < i ==> (#[trigger] self.to_add@[k]).0 != id,
            decreases self.to_add.len() - i,
        {
            if self.to_add[i].0 == id {
                return true;
            }
            i += 1;
        }
        false
    }
}

/// The counts without those for the object under `spared`.
pub fn without_counts_of(counts: &Vec<(u64, usize)>, spared: u64) -> (kept: Vec<(u64, usize)>)
    ensures
        kept@ == without(counts@, spared),
{
    let mut kept: Vec<(u64, usize)> = Vec::new();
    let mut i: usize = 0;
    while i < counts.len()
        invariant
            i <= counts.len(),
            kept@ == without(counts@.take(i as int), spared),
        decreases counts.len() - i,
    {
        assert(counts@.take(i + 1).drop_last() =~= counts@.take(i as int));
        if counts[i].0 != spared {
            kept.push(counts[i]);
        }
        i += 1;
    }
    assert(counts@.take(counts.len() as int) =~= counts@);
    kept
}

/// Whether `id` occurs in `ids`.
fn contains_id(ids: &Vec<u64>, id: u64) -> (found: bool)
    ensures
        found == ids@.contains(id),
{
    let mut i: usize = 0;
    while i < ids.len()
        invariant
            i <= ids.len(),
            forall|k: int| 0 <= k < i ==> ids@[k] != id,
        decreases ids.len() - i,
    {
        if ids[i] == id {
            return true;
        }
        i += 1;
    }
    false
}

/// The cache of one side of the boundary.
pub struct ArcCache<T> {
    arc_to_id: FxHashMap<u128, u64>,
    cache_delta: ArcCacheDelta<T>,
    id_counter: u64,
    id_to_arc: FxHashMap<u64, CachedObject<T>>,
}

impl<T> View for ArcCache<T> {
    type V = CacheState<T>;

    closed spec fn view(&self) -> CacheState<T> {
        CacheState {
            objects: self.id_to_arc@,
            ids: self.arc_to_id@,
            next_id: self.id_counter,
            to_add: self.cache_delta.to_add@,
            to_remove: self.cache_delta.to_remove@,
        }
    }
}

impl<T> ArcCache<T> {
    /// Whether the cache's invariant holds.
    pub open spec fn wf(&self) -> bool {
        self@.wf()
    }

    /// A cache that has named nothing yet.
    pub fn new() -> (cache: Self)
        ensures
            cache.wf(),
            cache@ == CacheState::<T>::empty(),
    {
        let cache = ArcCache {
            arc_to_id: FxHashMap::default(),
            cache_delta: ArcCacheDelta { id_counter: 1, to_add: Vec::new(), to_remove: Vec::new() },
            id_counter: 1,
            id_to_arc: FxHashMap::default(),
        };
        cache
    }

    /// The id that the next new object will get.
    pub fn id_counter(&self) -> (next: u64)
        ensures
            next == self@.next_id,
    {
        self.id_counter
    }

    /// The object that `id` names, if it names one. An id without an object
    /// is a protocol violation once a channel is established.
    pub fn get_by_id(&self, id: u64) -> (found: Option<&CachedObject<T>>)
        ensures
            found == (if self@.objects.contains_key(id) {
                Some(&self@.objects[id])
            } else {
                None::<&CachedObject<T>>
            }),
    {
        fx_get(&self.id_to_arc, id)
    }

    /// Whether the cache knows the identity of `value`, so that inserting it
    /// needs no new id.
    pub fn knows(&self, value: &CachedObject<T>) -> (known: bool)
        ensures
            known == self@.ids.contains_key(value.identity),
    {
        fx_get(&self.arc_to_id, value.identity).is_some()
    }

    /// The id under which the cache knows `value`, if it knows its identity.
    pub fn lookup(&self, value: &CachedObject<T>) -> (id: Option<u64>)
        ensures
            id == (if self@.ids.contains_key(value.identity) {
                Some(self@.ids[value.identity])
            } else {
                None::<u64>
            }),
    {
        match fx_get(&self.arc_to_id, value.identity) {
            Some(id) => Some(*id),
            None => None,
        }
    }

    /// Names `value`. An identity that the cache knows keeps its id and
    /// nothing changes; a new one gets the next id, is recorded in both
    /// directions and waits in `to_add`.
    pub fn insert(&mut self, value: CachedObject<T>) -> (id: u64)
        requires
            old(self).wf(),
            old(self)@.has_room_for(value),
        ensures
            final(self).wf(),
            id == old(self)@.id_of(value),
            final(self)@ == old(self)@.inserted(value),
    {
        let key = value.identity();
        match fx_get(&self.arc_to_id, key) {
            Some(known) => *known,
            None => {
                let id = self.id_counter;
                self.id_counter = id + 1;
                let _ = fx_insert(&mut self.arc_to_id, key, id);
                let _ = fx_insert(&mut self.id_to_arc, id, value.share());
                self.cache_delta.to_add.push((id, value));
                proof {
                    assert(self@ == old(self)@.inserted(value));
                    old(self)@.lemma_inserted_wf(value);
                }
                id
            },
        }
    }

    /// Whether `id` waits in `to_add`.
    fn is_pending(&self, id: u64) -> (pending: bool)
        ensures
            pending == added_ids(self@.to_add).contains(id),
    {
        let mut i: usize = 0;
        while i < self.cache_delta.to_add.len()
            invariant
                i <= self.cache_delta.to_add.len(),
                forall|k: int| 0 <= k < i ==> added_ids(self@.to_add)[k] != id,
            decreases self.cache_delta.to_add.len() - i,
        {
            if self.cache_delta.to_add[i].0 == id {
                assert(added_ids(self@.to_add)[i as int] == id);
                return true;
            }
            i += 1;
        }
        false
    }

    /// Counts the holders of every object that the cache holds: each id once,
    /// in the order in which the table hands them out. Every number counts
    /// the cache's own reference.
    pub fn holder_counts(&self) -> (counts: Vec<(u64, usize)>)
        ensures
            held_ids(counts@).no_duplicates(),
            held_ids(counts@).to_set() == self@.objects.dom(),
            forall|i: int| 0 <= i < counts@.len() ==> (#[trigger] counts@[i]).1 >= CACHE_REFERENCES,
    {
        let keys = fx_keys(&self.id_to_arc);
        let mut counts: Vec<(u64, usize)> = Vec::new();
        let mut i: usize = 0;
        while i < keys.len()
            invariant
                i <= keys.len(),
                keys@.to_set() == self@.objects.dom(),
                held_ids(counts@) == keys@.take(i as int),
                forall|k: int|
                    0 <= k < counts@.len() ==> (#[trigger] counts@[k]).1 >= CACHE_REFERENCES,
            decreases keys.len() - i,
        {
            let id = keys[i];
            assert(keys@.to_set().contains(id));
            let holders = match fx_get(&self.id_to_arc, id) {
                Some(object) => object.holders(),
                None => 0,
            };
            counts.push((id, holders));
            assert(held_ids(counts@) =~= keys@.take(i as int).push(id));
            assert(keys@.take(i + 1) =~= keys@.take(i as int).push(id));
            i += 1;
        }
        assert(keys@.take(keys.len() as int) =~= keys@);
        counts
    }

    /// Chooses, from the holders counted for each id, the ids that the cache
    /// lets go of.
    pub fn collect_unreferenced(&self, counts: &Vec<(u64, usize)>) -> (gone: Vec<u64>)
        ensures
            gone@ == self@.unreferenced(counts@),
            self@.may_evict(gone@),
    {
        let mut gone: Vec<u64> = Vec::new();
        let mut i: usize = 0;
        while i < counts.len()
            invariant
                i <= counts.len(),
                gone@ == self@.unreferenced(counts@.take(i as int)),
            decreases counts.len() - i,
        {
            let (id, holders) = counts[i];
            assert(counts@.take(i + 1).drop_last() =~= counts@.take(i as int));
            if holders == CACHE_REFERENCES && fx_get(&self.id_to_arc, id).is_some()
                && !self.is_pending(id) && !contains_id(&gone, id) {
                gone.push(id);
            }
            i += 1;
        }
        proof {
            assert(counts@.take(counts.len() as int) =~= counts@);
            self@.lemma_unreferenced_may_evict(counts@);
        }
        gone
    }

    /// Lets go of the objects under `gone`: they leave both tables and their
    /// ids are appended to `to_remove`.
    fn evict(&mut self, gone: &Vec<u64>)
        requires
            old(self).wf(),
            old(self)@.may_evict(gone@),
        ensures
            final(self).wf(),
            final(self)@ == old(self)@.evicted(gone@),
    {
        let ghost before = self@;
        let mut i: usize = 0;
        assert(self@ =~= before.evicted(gone@.take(0))) by {
            assert(gone@.take(0) =~= Seq::<u64>::empty());
            assert(before.evicted(gone@.take(0)).objects =~= before.objects);
            assert(before.evicted(gone@.take(0)).ids =~= before.ids);
            assert(before.to_remove + gone@.take(0) =~= before.to_remove);
        }
        while i < gone.len()
            invariant
                i <= gone.len(),
                before.wf(),
                before.may_evict(gone@),
                self@ == before.evicted(gone@.take(i as int)),
            decreases gone.len() - i,
        {
            let id = gone[i];
            let ghost seen = gone@.take(i as int);
            let ghost next = gone@.take(i + 1);
            proof {
                assert(next =~= seen.push(id));
                assert(before.objects.contains_key(id));
                assert(!seen.contains(id));
                assert(self@.objects.contains_key(id));
            }
            match fx_remove(&mut self.id_to_arc, id) {
                Some(object) => {
                    let _ = fx_remove(&mut self.arc_to_id, object.identity());
                    assert(object == before.objects[id]);
                },
                None => {},
            }
            self.cache_delta.to_remove.push(id);
            proof {
                let target = before.evicted(next);
                assert forall|x: u64| next.contains(x) <==> (seen.contains(x) || x == id) by {
                    if seen.contains(x) {
                        let k = choose|k: int| 0 <= k < seen.len() && seen[k] == x;
                        assert(next[k] == x);
                    }
                    if x == id {
                        assert(next[i as int] == x);
                    }
                    if next.contains(x) {
                        let k = choose|k: int| 0 <= k < next.len() && next[k] == x;
                        if k < i {
                            assert(seen[k] == x);
                        }
                    }
                }
                assert(self@.objects =~= target.objects);
                assert(self@.ids =~= target.ids) by {
                    assert forall|identity: u128|
                        before.ids.contains_key(identity) implies (before.ids[identity] == id
                        <==> identity == before.objects[id].identity) by {}
                }
                assert(self@.to_remove =~= target.to_remove);
            }
            i += 1;
        }
        proof {
            assert(gone@.take(gone.len() as int) =~= gone@);
            before.lemma_evicted_wf(gone@);
        }
    }

    /// Lets go of the objects that nothing but the cache refers to, given the
    /// holders that were counted for each id, and hands out what has changed
    /// since the pending lists were last cleared.
    pub fn load_delta_for(&mut self, counts: &Vec<(u64, usize)>) -> (delta: &ArcCacheDelta<T>)
        requires
            old(self).wf(),
        ensures
            final(self).wf(),
            final(self)@ == old(self)@.evicted(old(self)@.unreferenced(counts@)),
            delta.id_counter == final(self)@.next_id,
            delta.to_add@ == final(self)@.to_add,
            delta.to_remove@ == final(self)@.to_remove,
    {
        let gone = self.collect_unreferenced(counts);
        self.evict(&gone);
        self.cache_delta.id_counter = self.id_counter;
        &self.cache_delta
    }

    /// Lets go of every object that nothing but the cache refers to, and
    /// hands out what has changed since the pending lists were last cleared.
    ///
    /// Which objects go depends on the references that are alive in the
    /// process. Whatever they are, the ids appended to `to_remove` name
    /// objects that the cache held and that did not wait in `to_add`, and the
    /// rest of the cache is as before.
    pub fn load_delta(&mut self) -> (delta: &ArcCacheDelta<T>)
        requires
            old(self).wf(),
        ensures
            final(self).wf(),
            old(self)@.to_remove.len() <= final(self)@.to_remove.len(),
            old(self)@.may_evict(final(self)@.to_remove.skip(old(self)@.to_remove.len() as int)),
            final(self)@ == old(self)@.evicted(
                final(self)@.to_remove.skip(old(self)@.to_remove.len() as int),
            ),
            delta.id_counter == final(self)@.next_id,
            delta.to_add@ == final(self)@.to_add,
            delta.to_remove@ == final(self)@.to_remove,
    {
        let counts = self.holder_counts();
        let ghost gone = self@.unreferenced(counts@);
        proof {
            self@.lemma_unreferenced_may_evict(counts@);
        }
        let delta = self.load_delta_for(&counts);
        proof {
            let n = old(self)@.to_remove.len() as int;
            assert((old(self)@.to_remove + gone).skip(n) =~= gone);
        }
        delta
    }

    /// Whether an object can arrive under `id`.
    fn admits(&self, id: u64) -> (admitted: bool)
        ensures
            admitted == self@.admits(id),
    {
        let identity = REMOTE_IDENTITY_BASE + id as u128;
        let free = match fx_get(&self.id_to_arc, id) {
            Some(held) => held.identity == identity,
            None => true,
        };
        let unclaimed = match fx_get(&self.arc_to_id, identity) {
            Some(other) => *other == id,
            None => true,
        };
        free && unclaimed
    }

    /// Whether `delta` can be applied to this cache.
    pub fn check_delta(&self, delta: &ArcCacheDelta<T>) -> (accepted: bool)
        ensures
            accepted == self@.accepts(delta.id_counter, delta.to_add@),
    {
        if delta.id_counter < self.id_counter {
            return false;
        }
        let ghost all = delta.to_add@;
        let mut i: usize = 0;
        while i < delta.to_add.len()
            invariant
                i <= delta.to_add.len(),
                all == delta.to_add@,
                self@.next_id <= delta.id_counter,
                forall|k: int|
                    0 <= k < i ==> {
                        &&& (#[trigger] all[k]).0 < delta.id_counter
                        &&& self@.admits(all[k].0)
                    },
                forall|k: int, l: int|
                    0 <= k < l < i ==> (#[trigger] all[k]).0 != (#[trigger] all[l]).0,
            decreases delta.to_add.len() - i,
        {
            let id = delta.to_add[i].0;
            if id >= delta.id_counter || !self.admits(id) {
                proof {
                    if self@.accepts(delta.id_counter, all) {
                        assert(all[i as int].0 < delta.id_counter);
                        assert(self@.admits(all[i as int].0));
                    }
                }
                return false;
            }
            let mut k: usize = 0;
            while k < i
                invariant
                    k <= i < delta.to_add.len(),
                    all == delta.to_add@,
                    id == all[i as int].0,
                    forall|l: int| 0 <= l < k ==> (#[trigger] all[l]).0 != id,
                decreases i - k,
            {
                if delta.to_add[k].0 == id {
                    proof {
                        if self@.accepts(delta.id_counter, all) {
                            assert(all[k as int].0 != all[i as int].0);
                        }
                    }
                    return false;
                }
                k += 1;
            }
            i += 1;
        }
        true
    }

    /// Takes over what the counterpart's cache has named: the counter becomes
    /// the sender's, each addition is recorded in both directions under the
    /// id it arrived with, and the pending lists of this side are cleared.
    /// The removals that the delta names are the sender's own business.
    ///
    /// A delta is accepted where its counter is not below this cache's, its
    /// ids are pairwise distinct and below its counter, and none of its ids
    /// is held here for another object; the order of the additions is free,
    /// and an addition that is sent again takes the place of the one that
    /// arrived before. A delta that is not accepted is a protocol violation
    /// and changes nothing.
    pub fn apply_delta(&mut self, delta: ArcCacheDelta<T>) -> (result: Result<(), SyncError>)
        requires
            old(self).wf(),
        ensures
            final(self).wf(),
            result is Ok <==> old(self)@.accepts(delta.id_counter, delta.to_add@),
            result is Ok ==> final(self)@ == old(self)@.applied(delta.id_counter, delta.to_add@),
            result matches Err(error) ==> error == SyncError::ProtocolViolation && final(self)@
                == old(self)@,
    {
        if !self.check_delta(&delta) {
            return Err(SyncError::ProtocolViolation);
        }
        let ghost before = self@;
        let mut i: usize = 0;
        while i < delta.to_add.len()
            invariant
                i <= delta.to_add.len(),
                self@.objects == before.absorbed(delta.to_add@.take(i as int)).objects,
                self@.ids == before.absorbed(delta.to_add@.take(i as int)).ids,
            decreases delta.to_add.len() - i,
        {
            let id = delta.to_add[i].0;
            let object = CachedObject {
                identity: REMOTE_IDENTITY_BASE + id as u128,
                value: arc_clone(&delta.to_add[i].1.value),
            };
            let identity = object.identity;
            assert(delta.to_add@.take(i + 1).drop_last() =~= delta.to_add@.take(i as int));
            assert(object == adopted(delta.to_add@[i as int]));
            let _ = fx_insert(&mut self.id_to_arc, id, object);
            let _ = fx_insert(&mut self.arc_to_id, identity, id);
            i += 1;
        }
        self.id_counter = delta.id_counter;
        self.cache_delta.to_add = Vec::new();
        self.cache_delta.to_remove = Vec::new();
        proof {
            assert(delta.to_add@.take(delta.to_add.len() as int) =~= delta.to_add@);
            before.lemma_applied_wf(delta.id_counter, delta.to_add@);
        }
        Ok(())
    }
}

} // verus!
