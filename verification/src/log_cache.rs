//! A ring buffer of recently written entries around a log store.

use crate::error::{RaftError, Result};
use crate::log::{log_views, with_logs, without_range, Log, LogStore, LogView};
use vstd::prelude::*;

verus! {

/// A [`LogStore`] wrapper that caches the most recent log entries in a
/// fixed-size ring buffer. The wrap is transparent: every call is forwarded
/// to the underlying store, but a read is answered from the ring buffer
/// where that holds the entry.
pub struct LogCache<L: LogStore> {
    store: L,
    cache: Ring,
}

/// Slots for entries, indexed by the index modulo their number. Slots are
/// empty until they are populated by a write.
struct Ring {
    slots: Vec<Option<Log>>,
}

/// What a ring buffer holds, slot by slot.
spec fn slot_views(cache: Seq<Option<Log>>) -> Seq<Option<LogView>> {
    cache.map_values(
        |slot: Option<Log>|
            match slot {
                Some(log) => Some(log@),
                None => None::<LogView>,
            },
    )
}

/// The slot of the entry with the given index: that of as much of it as a
/// `usize` holds.
pub open spec fn slot_of(index: u64, capacity: nat) -> int {
    (index as usize) as int % capacity as int
}

/// A ring buffer without entries.
pub open spec fn empty_ring(capacity: nat) -> Seq<Option<LogView>> {
    Seq::new(capacity, |s: int| None::<LogView>)
}

/// A ring buffer after entries were put into it, in order.
pub open spec fn ring_with(ring: Seq<Option<LogView>>, logs: Seq<LogView>) -> Seq<Option<LogView>>
    decreases logs.len(),
{
    if logs.len() == 0 {
        ring
    } else {
        ring_with(ring, logs.drop_last()).update(
            slot_of(logs.last().index, ring.len()),
            Some(logs.last()),
        )
    }
}

/// What a ring buffer holds for an index.
pub open spec fn cached(ring: Seq<Option<LogView>>, index: u64) -> Option<LogView> {
    match ring[slot_of(index, ring.len())] {
        Some(log) => if log.index == index {
            Some(log)
        } else {
            None
        },
        None => None,
    }
}

/// Whether each entry of a ring buffer stands in its slot and is the one that
/// is stored under its index.
pub open spec fn coherent(ring: Seq<Option<LogView>>, stored: Map<u64, LogView>) -> bool {
    forall|s: int|
        0 <= s < ring.len() ==> match #[trigger] ring[s] {
            Some(log) => {
                &&& slot_of(log.index, ring.len()) == s
                &&& stored.contains_key(log.index)
                &&& stored[log.index] == log
            },
            None => true,
        }
}

/// Writing entries through keeps a ring buffer coherent with the store.
pub proof fn law_writes_keep_the_ring_coherent(
    ring: Seq<Option<LogView>>,
    stored: Map<u64, LogView>,
    logs: Seq<LogView>,
)
    requires
        ring.len() > 0,
        coherent(ring, stored),
    ensures
        coherent(ring_with(ring, logs), with_logs(stored, logs)),
        ring_with(ring, logs).len() == ring.len(),
    decreases logs.len(),
{
    if logs.len() > 0 {
        let front = logs.drop_last();
        let log = logs.last();
        law_writes_keep_the_ring_coherent(ring, stored, front);
        let before = ring_with(ring, front);
        let after = ring_with(ring, logs);
        let slot = slot_of(log.index, ring.len());
        assert(0 <= slot < ring.len()) by (nonlinear_arith)
            requires
                slot == (log.index as usize) as int % ring.len() as int,
                ring.len() > 0,
        ;
        assert forall|s: int| 0 <= s < after.len() implies match #[trigger] after[s] {
            Some(l) => {
                &&& slot_of(l.index, after.len()) == s
                &&& with_logs(stored, logs).contains_key(l.index)
                &&& with_logs(stored, logs)[l.index] == l
            },
            None => true,
        } by {
            if s != slot {
                assert(after[s] == before[s]);
            }
        }
    }
}

/// What a read finds in a coherent ring buffer is what the store holds.
pub proof fn law_cached_entries_are_stored(
    ring: Seq<Option<LogView>>,
    stored: Map<u64, LogView>,
    index: u64,
)
    requires
        ring.len() > 0,
        coherent(ring, stored),
        cached(ring, index) is Some,
    ensures
        stored.contains_key(index),
        cached(ring, index) == Some(stored[index]),
{
    let slot = slot_of(index, ring.len());
    assert(0 <= slot < ring.len()) by (nonlinear_arith)
        requires
            slot == (index as usize) as int % ring.len() as int,
            ring.len() > 0,
    ;
    assert(ring[slot] is Some);
}

/// What reads give back: the entries of the ring buffer, and behind them those
/// that are stored.
pub open spec fn overlaid(ring: Seq<Option<LogView>>, stored: Map<u64, LogView>) -> Map<
    u64,
    LogView,
> {
    Map::new(
        |index: u64| cached(ring, index) is Some || stored.contains_key(index),
        |index: u64|
            match cached(ring, index) {
                Some(log) => log,
                None => stored[index],
            },
    )
}

/// A coherent ring buffer is transparent: reads give back what is stored.
pub proof fn law_coherent_ring_is_transparent(
    ring: Seq<Option<LogView>>,
    stored: Map<u64, LogView>,
)
    requires
        ring.len() > 0,
        coherent(ring, stored),
    ensures
        overlaid(ring, stored) == stored,
{
    assert forall|index: u64| cached(ring, index) is Some implies stored.contains_key(index)
        && cached(ring, index) == Some(stored[index]) by {
        law_cached_entries_are_stored(ring, stored, index);
    }
    assert(overlaid(ring, stored) =~= stored);
}

/// An empty ring buffer is coherent with any store.
proof fn lemma_empty_ring_is_coherent(capacity: nat, stored: Map<u64, LogView>)
    ensures
        coherent(empty_ring(capacity), stored),
{
}

impl Ring {
    #[verifier::type_invariant]
    spec fn well_formed(self) -> bool {
        self.slots@.len() > 0
    }

    /// A ring buffer without entries.
    fn new(capacity: usize) -> (r: Self)
        requires
            capacity > 0,
        ensures
            slot_views(r.slots@) == empty_ring(capacity as nat),
    {
        Ring { slots: blank_slots(capacity) }
    }

    /// The number of slots.
    fn capacity(&self) -> (r: usize)
        ensures
            r == slot_views(self.slots@).len(),
            r > 0,
    {
        proof {
            use_type_invariant(self);
        }
        self.slots.len()
    }

    /// The slot of the entry with the given index.
    fn slot(&self, index: u64) -> (r: usize)
        ensures
            r == slot_of(index, slot_views(self.slots@).len()),
            r < self.slots@.len(),
    {
        proof {
            use_type_invariant(self);
        }
        (#[verifier::truncate] (index as usize)) % self.slots.len()
    }

    /// The entry with the given index, where it is held.
    fn get(&self, index: u64) -> (r: Option<Log>)
        ensures
            match cached(slot_views(self.slots@), index) {
                Some(hit) => r matches Some(log) && log@ == hit,
                None => r is None,
            },
    {
        let slot: usize = self.slot(index);
        assert(slot_views(self.slots@)[slot as int] == match self.slots@[slot as int] {
            Some(log) => Some(log@),
            None => None::<LogView>,
        });
        match &self.slots[slot] {
            Some(log) => if log.index == index {
                Some(log.clone())
            } else {
                None
            },
            None => None,
        }
    }

    /// Puts written entries into the ring buffer.
    fn put(&mut self, logs: &Vec<Log>)
        ensures
            slot_views(final(self).slots@) == ring_with(
                slot_views(old(self).slots@),
                log_views(logs@),
            ),
    {
        let ghost views = log_views(logs@);
        let mut i: usize = 0;
        assert(views.take(0) =~= Seq::empty());
        while i < logs.len()
            invariant
                i <= logs@.len(),
                self.slots@.len() == old(self).slots@.len(),
                views == log_views(logs@),
                slot_views(self.slots@) == ring_with(
                    slot_views(old(self).slots@),
                    views.take(i as int),
                ),
            decreases logs@.len() - i,
        {
            let slot: usize = self.slot(logs[i].index);
            let log = logs[i].clone();
            proof {
                assert(views.take(i + 1).drop_last() =~= views.take(i as int));
                assert(views.take(i + 1).last() == logs@[i as int]@);
            }
            let ghost before = self.slots@;
            self.slots[slot] = Some(log);
            assert(slot_views(self.slots@) =~= slot_views(before).update(
                slot as int,
                Some(logs@[i as int]@),
            ));
            i += 1;
        }
        assert(views.take(i as int) =~= views);
    }

    /// Empties the slots.
    fn clear(&mut self)
        ensures
            slot_views(final(self).slots@) == empty_ring(slot_views(old(self).slots@).len()),
    {
        let capacity: usize = self.capacity();
        let slots = blank_slots(capacity);
        proof {
            assert(slot_views(slots@).len() == slots@.len());
        }
        self.slots = slots;
    }
}

/// Slots without entries.
fn blank_slots(capacity: usize) -> (r: Vec<Option<Log>>)
    ensures
        r@.len() == capacity,
        slot_views(r@) == empty_ring(capacity as nat),
{
    let mut slots: Vec<Option<Log>> = Vec::new();
    while slots.len() < capacity
        invariant
            slots@.len() <= capacity,
            forall|s: int| 0 <= s < slots@.len() ==> (#[trigger] slots@[s]) is None,
        decreases capacity - slots@.len(),
    {
        slots.push(None);
    }
    assert(slot_views(slots@) =~= empty_ring(capacity as nat));
    slots
}

impl<L: LogStore> LogCache<L> {
    /// The underlying store.
    pub closed spec fn inner(&self) -> L {
        self.store
    }

    /// What the ring buffer holds, slot by slot.
    pub closed spec fn ring(&self) -> Seq<Option<LogView>> {
        slot_views(self.cache.slots@)
    }

    /// Wraps `store` with a ring buffer of `capacity` entries. Fails if
    /// `capacity` is zero.
    pub fn new(capacity: usize, store: L) -> (r: Result<Self>)
        ensures
            capacity == 0 ==> (r matches Err(RaftError::Other(text)) && text@
                == "capacity must be positive"@),
            capacity > 0 ==> (r matches Ok(cache) && {
                &&& cache.inner() == store
                &&& cache.ring() == empty_ring(capacity as nat)
                &&& cache.settled() == store.settled()
                &&& cache.entries() == store.entries()
            }),
    {
        if capacity == 0 {
            return Err(RaftError::Other("capacity must be positive".to_owned()));
        }
        proof {
            lemma_empty_ring_is_coherent(capacity as nat, store.entries());
            law_coherent_ring_is_transparent(empty_ring(capacity as nat), store.entries());
        }
        Ok(LogCache { store, cache: Ring::new(capacity) })
    }

    /// Returns the configured ring-buffer capacity.
    pub fn capacity(&self) -> (r: usize)
        ensures
            r == self.ring().len(),
            r > 0,
    {
        self.cache.capacity()
    }
}

impl<L: LogStore> LogStore for LogCache<L> {
    open spec fn entries(&self) -> Map<u64, LogView> {
        overlaid(self.ring(), self.inner().entries())
    }

    /// Whether the underlying store is settled and the ring buffer holds what
    /// is stored. A write that failed may have left other entries in the store
    /// than the ring buffer still holds.
    open spec fn settled(&self) -> bool {
        self.inner().settled() && coherent(self.ring(), self.inner().entries())
    }

    fn first_index(&self) -> (r: Result<u64>)
        ensures
            call_ensures(L::first_index, (&self.inner(),), r),
    {
        self.store.first_index()
    }

    fn last_index(&self) -> (r: Result<u64>)
        ensures
            call_ensures(L::last_index, (&self.inner(),), r),
    {
        self.store.last_index()
    }

    fn get_log(&self, index: u64) -> (r: Result<Log>)
        ensures
            match cached(self.ring(), index) {
                Some(hit) => r matches Ok(log) && log@ == hit,
                None => call_ensures(L::get_log, (&self.inner(), index), r),
            },
    {
        match self.cache.get(index) {
            Some(log) => Ok(log),
            None => self.store.get_log(index),
        }
    }

    fn store_log(&mut self, log: &Log) -> (r: Result<()>)
        ensures
            exists|s: &mut L, one: &Vec<Log>|
                {
                    &&& *s == old(self).inner()
                    &&& log_views(one@) == seq![log@]
                    &&& #[trigger] call_ensures(L::store_logs, (s, one), r)
                    &&& *final(s) == final(self).inner()
                },
            final(self).ring() == if r is Ok {
                ring_with(old(self).ring(), seq![log@])
            } else {
                old(self).ring()
            },
    {
        let mut one: Vec<Log> = Vec::new();
        one.push(log.clone());
        proof {
            assert(log_views(one@) =~= seq![log@]);
            reveal_with_fuel(with_logs, 2);
            assert(seq![log@].drop_last() =~= Seq::empty());
        }
        self.store_logs(&one)
    }

    /// Stores multiple log entries, in order. They are stored first, and the
    /// ring buffer takes them up on success only, so that a write that failed
    /// does not poison it.
    fn store_logs(&mut self, logs: &Vec<Log>) -> (r: Result<()>)
        ensures
            exists|s: &mut L|
                {
                    &&& *s == old(self).inner()
                    &&& #[trigger] call_ensures(L::store_logs, (s, logs), r)
                    &&& *final(s) == final(self).inner()
                },
            final(self).ring() == if r is Ok {
                ring_with(old(self).ring(), log_views(logs@))
            } else {
                old(self).ring()
            },
    {
        let ghost ring = self.ring();
        let ghost stored = self.inner().entries();
        proof {
            use_type_invariant(&self.cache);
            if self.settled() {
                law_coherent_ring_is_transparent(ring, stored);
                law_writes_keep_the_ring_coherent(ring, stored, log_views(logs@));
                law_coherent_ring_is_transparent(
                    ring_with(ring, log_views(logs@)),
                    with_logs(stored, log_views(logs@)),
                );
            }
        }
        let r = self.store.store_logs(logs);
        match &r {
            Ok(()) => {
                self.cache.put(logs);
            },
            Err(_) => {},
        }
        r
    }

    /// Deletes a range of log entries, inclusive on both ends. The ring
    /// buffer is emptied first, so reads go back to the store.
    fn delete_range(&mut self, min: u64, max: u64) -> (r: Result<()>)
        ensures
            exists|s: &mut L|
                {
                    &&& *s == old(self).inner()
                    &&& #[trigger] call_ensures(L::delete_range, (s, min, max), r)
                    &&& *final(s) == final(self).inner()
                },
            final(self).ring() == empty_ring(old(self).ring().len()),
    {
        let ghost capacity = self.ring().len();
        proof {
            use_type_invariant(&self.cache);
            let stored = self.inner().entries();
            if self.settled() {
                law_coherent_ring_is_transparent(self.ring(), stored);
            }
            let rest = without_range(stored, min, max);
            lemma_empty_ring_is_coherent(capacity, rest);
            law_coherent_ring_is_transparent(empty_ring(capacity), rest);
        }
        self.cache.clear();
        self.store.delete_range(min, max)
    }
}

} // verus!
