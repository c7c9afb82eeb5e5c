//! The bucket records of the rooms that were used last, kept in memory.

use crate::collections::{ascending, IdMap};
use crate::persistence::{
    collect_records, copy_records, found_rows, records_in, BucketRecord, FoundRecord, RecordView,
    RoomPersistence,
};
use std::sync::Arc;
use vstd::prelude::*;
use vstd::string::*;

verus! {

/// The cache of the `lru` crate.
#[verifier::external_type_specification]
#[verifier::external_body]
#[verifier::reject_recursive_types(K)]
#[verifier::reject_recursive_types(V)]
#[verifier::reject_recursive_types(S)]
pub struct ExLruCache<K, V, S>(lru::LruCache<K, V, S>);

/// The hasher that a cache of the `lru` crate is made with.
#[verifier::external_type_specification]
#[verifier::external_body]
pub struct ExDefaultHasher(lru::DefaultHasher);

/// What a cache holds: the rooms with the records of their buckets, the room that was used
/// last first.
pub uninterp spec fn cache_rows(
    cache: lru::LruCache<u64, Arc<IdMap<BucketRecord>>>,
) -> Seq<(u64, Map<u64, RecordView>)>;

/// How many rooms a cache can hold.
pub uninterp spec fn cache_capacity(cache: lru::LruCache<u64, Arc<IdMap<BucketRecord>>>) -> nat;

/// The records of a room in a row of rooms, if they are there.
pub open spec fn find_row(rows: Seq<(u64, Map<u64, RecordView>)>, room_id: u64) -> Option<
    Map<u64, RecordView>,
>
    decreases rows.len(),
{
    if rows.len() == 0 {
        None
    } else if rows[0].0 == room_id {
        Some(rows[0].1)
    } else {
        find_row(rows.skip(1), room_id)
    }
}

/// A row of rooms without one.
pub open spec fn without_row(rows: Seq<(u64, Map<u64, RecordView>)>, room_id: u64) -> Seq<
    (u64, Map<u64, RecordView>),
> {
    rows.filter(|row: (u64, Map<u64, RecordView>)| row.0 != room_id)
}

/// A row of rooms with one at its front.
pub open spec fn with_row(
    rows: Seq<(u64, Map<u64, RecordView>)>,
    room_id: u64,
    records: Map<u64, RecordView>,
) -> Seq<(u64, Map<u64, RecordView>)> {
    seq![(room_id, records)] + without_row(rows, room_id)
}

/// The front of a row of rooms, as far as there is room.
pub open spec fn front(rows: Seq<(u64, Map<u64, RecordView>)>, capacity: nat) -> Seq<
    (u64, Map<u64, RecordView>),
> {
    if rows.len() > capacity {
        rows.take(capacity as int)
    } else {
        rows
    }
}

/// `lru::LruCache::new`: an empty cache with the given capacity, which is allocated at once.
#[verifier::external_body]
fn lru_new(capacity: usize) -> (r: lru::LruCache<u64, Arc<IdMap<BucketRecord>>>)
    requires
        0 < capacity <= 0x10000,
    ensures
        cache_rows(r) == Seq::<(u64, Map<u64, RecordView>)>::empty(),
        cache_capacity(r) == capacity,
{
    lru::LruCache::new(std::num::NonZeroUsize::new(capacity).unwrap())
}

/// `lru::LruCache::get`: the value of the key if it is there, which then is the one that was
/// used last; else nothing, and nothing changes.
#[verifier::external_body]
fn lru_get(
    cache: &mut lru::LruCache<u64, Arc<IdMap<BucketRecord>>>,
    room_id: u64,
) -> (r: Option<Arc<IdMap<BucketRecord>>>)
    ensures
        cache_capacity(*final(cache)) == cache_capacity(*old(cache)),
        match r {
            Some(records) => find_row(cache_rows(*old(cache)), room_id) == Some(records@)
                && cache_rows(*final(cache)) == with_row(
                cache_rows(*old(cache)),
                room_id,
                records@,
            ),
            None => find_row(cache_rows(*old(cache)), room_id) is None && cache_rows(*final(cache))
                == cache_rows(*old(cache)),
        },
{
    cache.get(&room_id).cloned()
}

/// `lru::LruCache::put`: the key has the value and is the one that was used last; where
/// that makes one key too many, the one whose last use is longest ago is dropped.
#[verifier::external_body]
fn lru_put(
    cache: &mut lru::LruCache<u64, Arc<IdMap<BucketRecord>>>,
    room_id: u64,
    records: Arc<IdMap<BucketRecord>>,
)
    ensures
        cache_capacity(*final(cache)) == cache_capacity(*old(cache)),
        cache_rows(*final(cache)) == front(
            with_row(cache_rows(*old(cache)), room_id, records@),
            cache_capacity(*old(cache)),
        ),
{
    cache.put(room_id, records);
}

/// `lru::LruCache::pop`: the key is not there any more.
#[verifier::external_body]
fn lru_pop(cache: &mut lru::LruCache<u64, Arc<IdMap<BucketRecord>>>, room_id: u64)
    ensures
        cache_capacity(*final(cache)) == cache_capacity(*old(cache)),
        cache_rows(*final(cache)) == without_row(cache_rows(*old(cache)), room_id),
{
    cache.pop(&room_id);
}

/// How many rooms are kept.
pub const BUCKET_CACHE_CAPACITY: usize = 128;

/// The records of the rooms that were used last.
pub struct BucketCache {
    cache: lru::LruCache<u64, Arc<IdMap<BucketRecord>>>,
}

impl View for BucketCache {
    type V = Seq<(u64, Map<u64, RecordView>)>;

    closed spec fn view(&self) -> Seq<(u64, Map<u64, RecordView>)> {
        cache_rows(self.cache)
    }
}

impl BucketCache {
    /// How many rooms can be kept.
    pub closed spec fn capacity(&self) -> nat {
        cache_capacity(self.cache)
    }

    pub fn new() -> (r: BucketCache)
        ensures
            r@ == Seq::<(u64, Map<u64, RecordView>)>::empty(),
            r.capacity() == BUCKET_CACHE_CAPACITY,
    {
        BucketCache { cache: lru_new(BUCKET_CACHE_CAPACITY) }
    }

    /// The records of a room, where they are kept; the room then is the one that was used
    /// last.
    pub fn get(&mut self, room_id: u64) -> (r: Option<Arc<IdMap<BucketRecord>>>)
        ensures
            final(self).capacity() == old(self).capacity(),
            match r {
                Some(records) => find_row(old(self)@, room_id) == Some(records@) && final(self)@
                    == with_row(old(self)@, room_id, records@),
                None => find_row(old(self)@, room_id) is None && final(self)@ == old(self)@,
            },
    {
        lru_get(&mut self.cache, room_id)
    }

    /// Keeps the records of a room. Where that makes one room too many, the one whose last
    /// use is longest ago is dropped.
    pub fn put(&mut self, room_id: u64, records: Arc<IdMap<BucketRecord>>)
        ensures
            final(self).capacity() == old(self).capacity(),
            final(self)@ == front(
                with_row(old(self)@, room_id, records@),
                old(self).capacity(),
            ),
    {
        lru_put(&mut self.cache, room_id, records);
    }

    /// Drops the records of a room.
    pub fn remove(&mut self, room_id: u64)
        ensures
            final(self).capacity() == old(self).capacity(),
            final(self)@ == without_row(old(self)@, room_id),
    {
        lru_pop(&mut self.cache, room_id);
    }

    /// The buckets of a room in ascending order, where its records are kept.
    pub fn bucket_list(&mut self, room_id: u64) -> (r: Option<Vec<u64>>)
        ensures
            final(self).capacity() == old(self).capacity(),
            final(self)@ == touched(old(self)@, room_id),
            match (find_row(old(self)@, room_id), r) {
                (Some(records), Some(ids)) => ascending(ids@) && ids@.to_set() == records.dom(),
                (None, None) => true,
                _ => false,
            },
    {
        match self.get(room_id) {
            Some(records) => Some(records.keys()),
            None => None,
        }
    }

    /// A copy of the records of a room, where they are kept.
    pub fn buckets(&mut self, room_id: u64) -> (r: Option<IdMap<BucketRecord>>)
        ensures
            final(self).capacity() == old(self).capacity(),
            final(self)@ == touched(old(self)@, room_id),
            match (find_row(old(self)@, room_id), r) {
                (Some(records), Some(copy)) => copy@ == records,
                (None, None) => true,
                _ => false,
            },
    {
        match self.get(room_id) {
            Some(records) => Some(copy_records(&records)),
            None => None,
        }
    }

    /// Keeps a copy of the records of a room that were loaded from its store.
    pub fn note_loaded(&mut self, room_id: u64, records: &IdMap<BucketRecord>)
        ensures
            final(self).capacity() == old(self).capacity(),
            final(self)@ == front(
                with_row(old(self)@, room_id, records@),
                old(self).capacity(),
            ),
    {
        self.put(room_id, Arc::new(copy_records(records)));
    }

    /// Brings what is kept of a room up to date with a record that was stored. A room of
    /// which nothing is kept stays out.
    pub fn note_saved(&mut self, room_id: u64, record: BucketRecord)
        ensures
            final(self).capacity() == old(self).capacity(),
            final(self)@ == match find_row(old(self)@, room_id) {
                Some(records) => front(
                    with_row(
                        touched(old(self)@, room_id),
                        room_id,
                        records.insert(record.id, record@),
                    ),
                    old(self).capacity(),
                ),
                None => old(self)@,
            },
    {
        if let Some(records) = self.get(room_id) {
            let mut copy: IdMap<BucketRecord> = copy_records(&records);
            copy.insert(record.id, record);
            self.put(room_id, Arc::new(copy));
        }
    }

    /// Brings what is kept of a room up to date with a record that was dropped.
    pub fn note_removed(&mut self, room_id: u64, bucket_id: u64)
        ensures
            final(self).capacity() == old(self).capacity(),
            final(self)@ == match find_row(old(self)@, room_id) {
                Some(records) => front(
                    with_row(touched(old(self)@, room_id), room_id, records.remove(bucket_id)),
                    old(self).capacity(),
                ),
                None => old(self)@,
            },
    {
        if let Some(records) = self.get(room_id) {
            let mut copy: IdMap<BucketRecord> = copy_records(&records);
            copy.remove(bucket_id);
            self.put(room_id, Arc::new(copy));
        }
    }
}

impl RoomPersistence {
    /// The records of a room's buckets as they were found in its store. They are kept.
    pub fn load_buckets(&self, cache: &mut BucketCache, found: &[FoundRecord]) -> (r: IdMap<
        BucketRecord,
    >)
        ensures
            r@ == records_in(found_rows(found@)),
            final(cache).capacity() == old(cache).capacity(),
            final(cache)@ == front(
                with_row(old(cache)@, self.room_id, r@),
                old(cache).capacity(),
            ),
    {
        let records: IdMap<BucketRecord> = collect_records(found);
        cache.note_loaded(self.room_id, &records);
        records
    }
}

/// What is kept after a room was looked up.
pub open spec fn touched(rows: Seq<(u64, Map<u64, RecordView>)>, room_id: u64) -> Seq<
    (u64, Map<u64, RecordView>),
> {
    match find_row(rows, room_id) {
        Some(records) => with_row(rows, room_id, records),
        None => rows,
    }
}

// ---------------------------------------------------------------------------
// Laws
// ---------------------------------------------------------------------------

proof fn lemma_find_without(
    rows: Seq<(u64, Map<u64, RecordView>)>,
    dropped: u64,
    room_id: u64,
)
    ensures
        find_row(without_row(rows, dropped), room_id) == if room_id == dropped {
            None
        } else {
            find_row(rows, room_id)
        },
        without_row(rows, dropped).len() <= rows.len(),
        find_row(rows, dropped) is Some ==> without_row(rows, dropped).len() < rows.len(),
    decreases rows.len(),
{
    reveal(Seq::filter);
    if rows.len() > 0 {
        let rest = rows.skip(1);
        lemma_find_without(rest, dropped, room_id);
        lemma_filter_front(rows, dropped);
        let tail = without_row(rest, dropped);
        if rows[0].0 != dropped {
            assert((seq![rows[0]] + tail).skip(1) =~= tail);
        }
    }
}

/// Filtering goes entry by entry from the front as well.
proof fn lemma_filter_front(rows: Seq<(u64, Map<u64, RecordView>)>, dropped: u64)
    requires
        rows.len() > 0,
    ensures
        without_row(rows, dropped) == if rows[0].0 != dropped {
            seq![rows[0]] + without_row(rows.skip(1), dropped)
        } else {
            without_row(rows.skip(1), dropped)
        },
    decreases rows.len(),
{
    reveal(Seq::filter);
    let rest = rows.skip(1);
    if rest.len() > 0 {
        assert(rows.drop_last().skip(1) =~= rest.drop_last());
        assert(rows.last() == rest.last());
        lemma_filter_front(rows.drop_last(), dropped);
        let shorter = without_row(rest.drop_last(), dropped);
        if rows[0].0 != dropped && rows.last().0 != dropped {
            assert((seq![rows[0]] + shorter).push(rows.last()) =~= seq![rows[0]] + shorter.push(
                rows.last(),
            ));
        }
    } else {
        assert(rows.drop_last() =~= Seq::empty());
        assert(rest =~= Seq::empty());
        assert(seq![rows[0]] + Seq::empty() =~= Seq::empty().push(rows[0]));
    }
}

/// What was put is found, as long as anything can be kept.
pub proof fn law_put_is_found(
    rows: Seq<(u64, Map<u64, RecordView>)>,
    room_id: u64,
    records: Map<u64, RecordView>,
    capacity: nat,
)
    requires
        capacity > 0,
    ensures
        find_row(front(with_row(rows, room_id, records), capacity), room_id) == Some(records),
{
    let row = with_row(rows, room_id, records);
    assert(row[0] == (room_id, records));
    assert(front(row, capacity)[0] == (room_id, records));
}

/// Putting the records of one room leaves those of another as they are, or drops them.
pub proof fn law_put_keeps_others(
    rows: Seq<(u64, Map<u64, RecordView>)>,
    room_id: u64,
    records: Map<u64, RecordView>,
    capacity: nat,
    other: u64,
)
    requires
        other != room_id,
    ensures
        ({
            let after = find_row(front(with_row(rows, room_id, records), capacity), other);
            after is None || after == find_row(rows, other)
        }),
        rows.len() < capacity ==> find_row(
            front(with_row(rows, room_id, records), capacity),
            other,
        ) == find_row(rows, other),
{
    let row = with_row(rows, room_id, records);
    lemma_find_without(rows, room_id, other);
    assert(row.skip(1) =~= without_row(rows, room_id));
    assert(row[0] == (room_id, records));
    lemma_find_front(row, capacity, other);
}

proof fn lemma_find_front(rows: Seq<(u64, Map<u64, RecordView>)>, capacity: nat, room_id: u64)
    ensures
        find_row(front(rows, capacity), room_id) is None || find_row(front(rows, capacity), room_id)
            == find_row(rows, room_id),
    decreases rows.len(),
{
    if rows.len() > capacity && capacity > 0 {
        let rest = rows.skip(1);
        let less = (capacity - 1) as nat;
        lemma_find_front(rest, less, room_id);
        assert(front(rows, capacity)[0] == rows[0]);
        assert(front(rows, capacity).skip(1) =~= front(rest, less));
    }
}

/// Looking a room up changes what is found of no room.
pub proof fn law_lookup_changes_nothing(
    rows: Seq<(u64, Map<u64, RecordView>)>,
    room_id: u64,
    other: u64,
)
    ensures
        find_row(touched(rows, room_id), other) == find_row(rows, other),
{
    if let Some(records) = find_row(rows, room_id) {
        let row = with_row(rows, room_id, records);
        lemma_find_without(rows, room_id, other);
        assert(row.skip(1) =~= without_row(rows, room_id));
        assert(row[0] == (room_id, records));
    }
}

/// A room that was dropped is not found; the others are as before.
pub proof fn law_remove_drops_one(
    rows: Seq<(u64, Map<u64, RecordView>)>,
    room_id: u64,
    other: u64,
)
    ensures
        find_row(without_row(rows, room_id), room_id) is None,
        other != room_id ==> find_row(without_row(rows, room_id), other) == find_row(rows, other),
{
    lemma_find_without(rows, room_id, room_id);
    lemma_find_without(rows, room_id, other);
}

/// No more rooms are ever kept than there is room for.
pub proof fn law_capacity_holds(
    rows: Seq<(u64, Map<u64, RecordView>)>,
    room_id: u64,
    records: Map<u64, RecordView>,
    capacity: nat,
)
    requires
        rows.len() <= capacity,
    ensures
        front(with_row(rows, room_id, records), capacity).len() <= capacity,
        touched(rows, room_id).len() <= capacity,
        without_row(rows, room_id).len() <= capacity,
{
    lemma_find_without(rows, room_id, room_id);
}

/// A record that was stored is found again in what is kept of its room, and the other
/// records of the room are as before.
pub proof fn law_saved_record_is_found(
    rows: Seq<(u64, Map<u64, RecordView>)>,
    room_id: u64,
    records: Map<u64, RecordView>,
    record: RecordView,
    capacity: nat,
)
    requires
        capacity > 0,
        find_row(rows, room_id) == Some(records),
    ensures
        find_row(
            front(
                with_row(
                    touched(rows, room_id),
                    room_id,
                    records.insert(record.id, record),
                ),
                capacity,
            ),
            room_id,
        ) == Some(records.insert(record.id, record)),
{
    law_put_is_found(
        touched(rows, room_id),
        room_id,
        records.insert(record.id, record),
        capacity,
    );
}

} // verus!
