//! A log and stable store in memory, for tests.

use crate::bytemap::ByteMap;
use crate::error::{RaftError, Result};
use crate::log::{
    log_views, with_logs, without_range, CommitTrackingLogStore, Log, LogStore, LogView,
};
use crate::stable::StableStore;
use std::collections::HashMap;
use vstd::prelude::*;

verus! {

/// Implements both the [`LogStore`] and [`StableStore`] interfaces in
/// memory. Do NOT use for production; only for unit tests.
pub struct InmemStore {
    low_index: u64,
    high_index: u64,
    logs: HashMap<u64, Log>,
    kv: ByteMap<Vec<u8>>,
    kv_int: ByteMap<u64>,
}

/// The first and last index after entries were stored.
pub open spec fn bounds_after_store(bounds: (u64, u64), logs: Seq<LogView>) -> (u64, u64)
    decreases logs.len(),
{
    if logs.len() == 0 {
        bounds
    } else {
        let before = bounds_after_store(bounds, logs.drop_last());
        let index = logs.last().index;
        (
            if before.0 == 0 {
                index
            } else {
                before.0
            },
            if index > before.1 {
                index
            } else {
                before.1
            },
        )
    }
}

/// The first and last index after a range was deleted.
pub open spec fn bounds_after_delete(bounds: (u64, u64), min: u64, max: u64) -> (u64, u64) {
    let low = if min <= bounds.0 {
        if max < u64::MAX {
            (max + 1) as u64
        } else {
            u64::MAX
        }
    } else {
        bounds.0
    };
    let high = if max >= bounds.1 {
        if min > 0 {
            (min - 1) as u64
        } else {
            0
        }
    } else {
        bounds.1
    };
    if low > high {
        (0, 0)
    } else {
        (low, high)
    }
}

/// What the entries of a map say, one by one.
pub open spec fn entry_views(logs: Map<u64, Log>) -> Map<u64, LogView> {
    logs.map_values(|l: Log| l@)
}

/// What the byte strings of a map are, one by one.
pub open spec fn byte_views(kv: Map<Seq<u8>, Vec<u8>>) -> Map<Seq<u8>, Seq<u8>> {
    kv.map_values(|v: Vec<u8>| v@)
}

impl InmemStore {
    /// The first and last index.
    pub closed spec fn bounds(&self) -> (u64, u64) {
        (self.low_index, self.high_index)
    }

    /// The entries, by index.
    pub closed spec fn held(&self) -> Map<u64, LogView> {
        entry_views(self.logs@)
    }

    /// The byte values, by key.
    pub closed spec fn held_bytes(&self) -> Map<Seq<u8>, Seq<u8>> {
        byte_views(self.kv@)
    }

    /// The numbers, by key.
    pub closed spec fn held_numbers(&self) -> Map<Seq<u8>, u64> {
        self.kv_int@
    }

    /// An empty store.
    pub fn new() -> (r: Self)
        ensures
            r.held() == Map::<u64, LogView>::empty(),
            r.bounds() == (0u64, 0u64),
            r.held_bytes() == Map::<Seq<u8>, Seq<u8>>::empty(),
            r.held_numbers() == Map::<Seq<u8>, u64>::empty(),
    {
        broadcast use vstd::std_specs::hash::group_hash_axioms;

        let r = InmemStore {
            low_index: 0,
            high_index: 0,
            logs: HashMap::new(),
            kv: ByteMap::new(),
            kv_int: ByteMap::new(),
        };
        assert(r.held() =~= Map::<u64, LogView>::empty());
        assert(r.held_bytes() =~= Map::<Seq<u8>, Seq<u8>>::empty());
        r
    }

    /// Stores one entry.
    fn put(&mut self, log: &Log)
        ensures
            final(self).held() == old(self).held().insert(log.index, log@),
            final(self).bounds() == bounds_after_store(old(self).bounds(), seq![log@]),
            final(self).held_bytes() == old(self).held_bytes(),
            final(self).held_numbers() == old(self).held_numbers(),
    {
        broadcast use vstd::std_specs::hash::group_hash_axioms;

        proof {
            reveal_with_fuel(bounds_after_store, 2);
            assert(seq![log@].drop_last() =~= Seq::empty());
        }
        if self.low_index == 0 {
            self.low_index = log.index;
        }
        if log.index > self.high_index {
            self.high_index = log.index;
        }
        let _replaced = self.logs.insert(log.index, log.clone());
        assert(self.held() =~= old(self).held().insert(log.index, log@));
    }
}

impl Default for InmemStore {
    fn default() -> (r: Self)
        ensures
            r.held() == Map::<u64, LogView>::empty(),
            r.bounds() == (0u64, 0u64),
            r.held_bytes() == Map::<Seq<u8>, Seq<u8>>::empty(),
            r.held_numbers() == Map::<Seq<u8>, u64>::empty(),
    {
        InmemStore::new()
    }
}

impl LogStore for InmemStore {
    open spec fn entries(&self) -> Map<u64, LogView> {
        self.held()
    }

    open spec fn settled(&self) -> bool {
        true
    }

    fn first_index(&self) -> (r: Result<u64>)
        ensures
            r matches Ok(index) && index == self.bounds().0,
    {
        Ok(self.low_index)
    }

    fn last_index(&self) -> (r: Result<u64>)
        ensures
            r matches Ok(index) && index == self.bounds().1,
    {
        Ok(self.high_index)
    }

    fn get_log(&self, index: u64) -> (r: Result<Log>)
        ensures
            r is Ok <==> self.held().contains_key(index),
            r matches Err(e) ==> e is LogNotFound,
    {
        broadcast use vstd::std_specs::hash::group_hash_axioms;

        match self.logs.get(&index) {
            Some(log) => Ok(log.clone()),
            None => Err(RaftError::LogNotFound),
        }
    }

    fn store_log(&mut self, log: &Log) -> (r: Result<()>)
        ensures
            r is Ok,
            final(self).bounds() == bounds_after_store(old(self).bounds(), seq![log@]),
            final(self).held_bytes() == old(self).held_bytes(),
            final(self).held_numbers() == old(self).held_numbers(),
    {
        self.put(log);
        Ok(())
    }

    fn store_logs(&mut self, logs: &Vec<Log>) -> (r: Result<()>)
        ensures
            r is Ok,
            final(self).bounds() == bounds_after_store(old(self).bounds(), log_views(logs@)),
            final(self).held_bytes() == old(self).held_bytes(),
            final(self).held_numbers() == old(self).held_numbers(),
    {
        let ghost views = log_views(logs@);
        let mut i: usize = 0;
        assert(views.take(0) =~= Seq::empty());
        while i < logs.len()
            invariant
                i <= logs@.len(),
                views == log_views(logs@),
                self.held() == with_logs(old(self).held(), views.take(i as int)),
                self.bounds() == bounds_after_store(old(self).bounds(), views.take(i as int)),
                self.held_bytes() == old(self).held_bytes(),
                self.held_numbers() == old(self).held_numbers(),
            decreases logs@.len() - i,
        {
            proof {
                reveal_with_fuel(bounds_after_store, 2);
                assert(views.take(i + 1).drop_last() =~= views.take(i as int));
                assert(views.take(i + 1).last() == logs@[i as int]@);
                assert(seq![logs@[i as int]@].drop_last() =~= Seq::empty());
            }
            self.put(&logs[i]);
            i += 1;
        }
        assert(views.take(i as int) =~= views);
        Ok(())
    }

    fn delete_range(&mut self, min: u64, max: u64) -> (r: Result<()>)
        ensures
            r is Ok,
            final(self).bounds() == bounds_after_delete(old(self).bounds(), min, max),
            final(self).held_bytes() == old(self).held_bytes(),
            final(self).held_numbers() == old(self).held_numbers(),
    {
        broadcast use vstd::std_specs::hash::group_hash_axioms;

        if min <= max {
            let mut index: u64 = min;
            let _removed = self.logs.remove(&min);
            assert(self.held() =~= without_range(old(self).held(), min, index));
            while index < max
                invariant
                    min <= index <= max,
                    self.held() == without_range(old(self).held(), min, index),
                    self.bounds() == old(self).bounds(),
                    self.kv == old(self).kv,
                    self.kv_int == old(self).kv_int,
                decreases max - index,
            {
                let ghost before = self.held();
                index += 1;
                let _removed = self.logs.remove(&index);
                assert(self.held() =~= before.remove(index));
                assert(before.remove(index) =~= without_range(old(self).held(), min, index));
            }
        } else {
            assert(self.held() =~= without_range(old(self).held(), min, max));
        }
        let ghost now = self.held();
        if min <= self.low_index {
            self.low_index = max.saturating_add(1);
        }
        if max >= self.high_index {
            self.high_index = min.saturating_sub(1);
        }
        if self.low_index > self.high_index {
            self.low_index = 0;
            self.high_index = 0;
        }
        assert(self.held() == now);
        Ok(())
    }
}

impl StableStore for InmemStore {
    open spec fn byte_values(&self) -> Map<Seq<u8>, Seq<u8>> {
        self.held_bytes()
    }

    open spec fn numbers(&self) -> Map<Seq<u8>, u64> {
        self.held_numbers()
    }

    fn set(&mut self, key: &[u8], val: &[u8]) -> (r: Result<()>)
        ensures
            r is Ok,
            final(self).held_numbers() == old(self).held_numbers(),
            final(self).held() == old(self).held(),
            final(self).bounds() == old(self).bounds(),
    {
        self.kv.insert(key, vstd::slice::slice_to_vec(val));
        assert(self.held_bytes() =~= old(self).held_bytes().insert(key@, val@));
        Ok(())
    }

    fn get(&self, key: &[u8]) -> (r: Result<Option<Vec<u8>>>)
        ensures
            r is Ok,
    {
        match self.kv.get(key) {
            Some(val) => {
                let copy = val.clone();
                assert(copy@ =~= val@);
                Ok(Some(copy))
            },
            None => Ok(None),
        }
    }

    fn set_u64(&mut self, key: &[u8], val: u64) -> (r: Result<()>)
        ensures
            r is Ok,
            final(self).held_bytes() == old(self).held_bytes(),
            final(self).held() == old(self).held(),
            final(self).bounds() == old(self).bounds(),
    {
        self.kv_int.insert(key, val);
        Ok(())
    }

    fn get_u64(&self, key: &[u8]) -> (r: Result<Option<u64>>)
        ensures
            r is Ok,
    {
        match self.kv_int.get(key) {
            Some(val) => Ok(Some(*val)),
            None => Ok(None),
        }
    }
}

/// An in-memory store that additionally tracks the commit index. Only for
/// testing.
pub struct InmemCommitTrackingStore {
    store: InmemStore,
    commit_index: u64,
}

impl InmemCommitTrackingStore {
    /// The store beneath.
    pub closed spec fn inner(&self) -> InmemStore {
        self.store
    }

    /// The commit index that was staged last.
    pub closed spec fn committed(&self) -> u64 {
        self.commit_index
    }

    /// An empty store.
    pub fn new() -> (r: Self)
        ensures
            r.inner().held() == Map::<u64, LogView>::empty(),
            r.inner().bounds() == (0u64, 0u64),
            r.inner().held_bytes() == Map::<Seq<u8>, Seq<u8>>::empty(),
            r.inner().held_numbers() == Map::<Seq<u8>, u64>::empty(),
            r.committed() == 0,
    {
        InmemCommitTrackingStore { store: InmemStore::new(), commit_index: 0 }
    }
}

impl Default for InmemCommitTrackingStore {
    fn default() -> (r: Self)
        ensures
            r.inner().held() == Map::<u64, LogView>::empty(),
            r.inner().bounds() == (0u64, 0u64),
            r.inner().held_bytes() == Map::<Seq<u8>, Seq<u8>>::empty(),
            r.inner().held_numbers() == Map::<Seq<u8>, u64>::empty(),
            r.committed() == 0,
    {
        InmemCommitTrackingStore::new()
    }
}

impl LogStore for InmemCommitTrackingStore {
    open spec fn entries(&self) -> Map<u64, LogView> {
        self.inner().held()
    }

    open spec fn settled(&self) -> bool {
        true
    }

    fn first_index(&self) -> (r: Result<u64>)
        ensures
            r matches Ok(index) && index == self.inner().bounds().0,
    {
        self.store.first_index()
    }

    fn last_index(&self) -> (r: Result<u64>)
        ensures
            r matches Ok(index) && index == self.inner().bounds().1,
    {
        self.store.last_index()
    }

    fn get_log(&self, index: u64) -> (r: Result<Log>)
        ensures
            r is Ok <==> self.inner().held().contains_key(index),
            r matches Err(e) ==> e is LogNotFound,
    {
        self.store.get_log(index)
    }

    fn store_log(&mut self, log: &Log) -> (r: Result<()>)
        ensures
            r is Ok,
            final(self).inner().bounds() == bounds_after_store(
                old(self).inner().bounds(),
                seq![log@],
            ),
            final(self).inner().held_bytes() == old(self).inner().held_bytes(),
            final(self).inner().held_numbers() == old(self).inner().held_numbers(),
            final(self).committed() == old(self).committed(),
    {
        self.store.store_log(log)
    }

    fn store_logs(&mut self, logs: &Vec<Log>) -> (r: Result<()>)
        ensures
            r is Ok,
            final(self).inner().bounds() == bounds_after_store(
                old(self).inner().bounds(),
                log_views(logs@),
            ),
            final(self).inner().held_bytes() == old(self).inner().held_bytes(),
            final(self).inner().held_numbers() == old(self).inner().held_numbers(),
            final(self).committed() == old(self).committed(),
    {
        self.store.store_logs(logs)
    }

    fn delete_range(&mut self, min: u64, max: u64) -> (r: Result<()>)
        ensures
            r is Ok,
            final(self).inner().bounds() == bounds_after_delete(
                old(self).inner().bounds(),
                min,
                max,
            ),
            final(self).inner().held_bytes() == old(self).inner().held_bytes(),
            final(self).inner().held_numbers() == old(self).inner().held_numbers(),
            final(self).committed() == old(self).committed(),
    {
        self.store.delete_range(min, max)
    }
}

impl StableStore for InmemCommitTrackingStore {
    open spec fn byte_values(&self) -> Map<Seq<u8>, Seq<u8>> {
        self.inner().held_bytes()
    }

    open spec fn numbers(&self) -> Map<Seq<u8>, u64> {
        self.inner().held_numbers()
    }

    fn set(&mut self, key: &[u8], val: &[u8]) -> (r: Result<()>)
        ensures
            r is Ok,
            final(self).inner().held_numbers() == old(self).inner().held_numbers(),
            final(self).inner().held() == old(self).inner().held(),
            final(self).inner().bounds() == old(self).inner().bounds(),
            final(self).committed() == old(self).committed(),
    {
        self.store.set(key, val)
    }

    fn get(&self, key: &[u8]) -> (r: Result<Option<Vec<u8>>>)
        ensures
            r is Ok,
    {
        self.store.get(key)
    }

    fn set_u64(&mut self, key: &[u8], val: u64) -> (r: Result<()>)
        ensures
            r is Ok,
            final(self).inner().held_bytes() == old(self).inner().held_bytes(),
            final(self).inner().held() == old(self).inner().held(),
            final(self).inner().bounds() == old(self).inner().bounds(),
            final(self).committed() == old(self).committed(),
    {
        self.store.set_u64(key, val)
    }

    fn get_u64(&self, key: &[u8]) -> (r: Result<Option<u64>>)
        ensures
            r is Ok,
    {
        self.store.get_u64(key)
    }
}

impl CommitTrackingLogStore for InmemCommitTrackingStore {
    open spec fn staged(&self) -> u64 {
        self.committed()
    }

    fn stage_commit_index(&mut self, index: u64) -> (r: Result<()>)
        ensures
            r is Ok,
            final(self).inner() == old(self).inner(),
    {
        self.commit_index = index;
        Ok(())
    }

    fn get_commit_index(&self) -> (r: Result<u64>)
        ensures
            r is Ok,
    {
        Ok(self.commit_index)
    }
}

/// Whether a store holds exactly the entries from its first to its last
/// index, and none where both are zero.
pub open spec fn contiguous(stored: Map<u64, LogView>, bounds: (u64, u64)) -> bool {
    if bounds == (0u64, 0u64) {
        forall|i: u64| !#[trigger] stored.contains_key(i)
    } else {
        &&& 0 < bounds.0 <= bounds.1
        &&& forall|i: u64| #[trigger] stored.contains_key(i) <==> bounds.0 <= i <= bounds.1
    }
}

/// Storing the entry that follows the last one keeps a store without gaps,
/// with bounds that say what it holds.
pub proof fn law_appending_keeps_the_bounds_right(
    stored: Map<u64, LogView>,
    bounds: (u64, u64),
    log: LogView,
)
    requires
        contiguous(stored, bounds),
        log.index > 0,
        bounds != (0u64, 0u64) ==> log.index == bounds.1 + 1,
    ensures
        contiguous(stored.insert(log.index, log), bounds_after_store(bounds, seq![log])),
{
    reveal_with_fuel(bounds_after_store, 2);
    assert(seq![log].drop_last() =~= Seq::empty());
}

/// Deleting a range at either end of a store without gaps, or all of it,
/// keeps it so, with bounds that say what it holds.
pub proof fn law_trimming_keeps_the_bounds_right(
    stored: Map<u64, LogView>,
    bounds: (u64, u64),
    min: u64,
    max: u64,
)
    requires
        contiguous(stored, bounds),
        bounds != (0u64, 0u64),
        0 < min <= max,
        min <= bounds.0 <= max || (bounds.0 <= min && max >= bounds.1 && min <= bounds.1),
    ensures
        contiguous(
            without_range(stored, min, max),
            bounds_after_delete(bounds, min, max),
        ),
{
}

} // verus!
