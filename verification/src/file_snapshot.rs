//! What a snapshot store on disk decides: which directories are snapshots,
//! in which order they come, which of them are kept, and whether what is
//! read is what was written.
//!
//! Each snapshot lives in its own directory under
//! `<base>/snapshots/<term>-<index>-<msec>/`. The state file is `state.bin`;
//! metadata (with the check of the state file) is in `meta.json`. Only
//! snapshot version 1 is supported.

use crate::config::SNAPSHOT_VERSION_MAX;
use crate::configuration::Configuration;
use crate::crc64::{big_endian, crc_from, Crc64};
use crate::error::{RaftError, Result};
use crate::inmem_snapshot::{unsupported_snapshot_text, unsupported_snapshot_version};
use crate::snapshot::{snapshot_id, snapshot_name, SnapshotMeta, SnapshotMetaView};
use crate::text::{ends_with_text, joined, same_bytes, text_ends_with};
use std::cmp::Ordering;
use vstd::prelude::*;
use vstd::utf8::encode_utf8;

verus! {

/// The directory, below the base directory, that holds the snapshots.
pub const SNAPSHOTS_SUBDIR: &'static str = "snapshots";

/// The file with a snapshot's metadata.
pub const META_FILE: &'static str = "meta.json";

/// The file with a snapshot's contents.
pub const STATE_FILE: &'static str = "state.bin";

/// What the name of a snapshot that is being written ends with.
pub const TMP_SUFFIX: &'static str = ".tmp";

/// Metadata for a snapshot on disk: the public [`SnapshotMeta`] fields plus
/// the check of the state file.
#[derive(Debug)]
pub struct FileSnapshotMeta {
    pub version: u8,
    pub id: String,
    pub index: u64,
    pub term: u64,
    pub configuration: Configuration,
    pub configuration_index: u64,
    pub size: u64,
    /// Check of the state file. Populated on close.
    pub crc: Option<Vec<u8>>,
}

/// What a [`FileSnapshotMeta`] says.
#[verifier::ext_equal]
pub struct FileSnapshotMetaView {
    pub meta: SnapshotMetaView,
    pub crc: Option<Seq<u8>>,
}

impl View for FileSnapshotMeta {
    type V = FileSnapshotMetaView;

    open spec fn view(&self) -> FileSnapshotMetaView {
        FileSnapshotMetaView {
            meta: SnapshotMetaView {
                version: self.version,
                id: self.id@,
                index: self.index,
                term: self.term,
                configuration: self.configuration@,
                configuration_index: self.configuration_index,
                size: self.size,
            },
            crc: match self.crc {
                Some(crc) => Some(crc@),
                None => None,
            },
        }
    }
}

impl FileSnapshotMeta {
    /// The metadata without the check.
    pub fn into_public(self) -> (r: SnapshotMeta)
        ensures
            r@ == self@.meta,
    {
        SnapshotMeta {
            version: self.version,
            id: self.id,
            index: self.index,
            term: self.term,
            configuration: self.configuration,
            configuration_index: self.configuration_index,
            size: self.size,
        }
    }
}

/// What a list of metadata says, one by one.
pub open spec fn meta_views(metas: Seq<FileSnapshotMeta>) -> Seq<FileSnapshotMetaView> {
    metas.map_values(|m: FileSnapshotMeta| m@)
}

/// Whether one byte string comes before another: it has the smaller byte
/// where they first differ, or it is a proper beginning of the other.
pub open spec fn bytes_before(a: Seq<u8>, b: Seq<u8>) -> bool
    decreases a.len(),
{
    if b.len() == 0 {
        false
    } else if a.len() == 0 {
        true
    } else if a[0] != b[0] {
        a[0] < b[0]
    } else {
        bytes_before(a.drop_first(), b.drop_first())
    }
}

/// Whether one snapshot is older than another: by term, then by index, then
/// by ID.
pub open spec fn older(a: SnapshotMetaView, b: SnapshotMetaView) -> bool {
    if a.term != b.term {
        a.term < b.term
    } else if a.index != b.index {
        a.index < b.index
    } else {
        bytes_before(encode_utf8(a.id), encode_utf8(b.id))
    }
}

/// Whether two snapshots are equally old.
pub open spec fn same_age(a: SnapshotMetaView, b: SnapshotMetaView) -> bool {
    a.term == b.term && a.index == b.index && encode_utf8(a.id) == encode_utf8(b.id)
}

/// How many bytes two byte strings have in common at their beginnings.
fn common_beginning(a: &[u8], b: &[u8]) -> (r: usize)
    ensures
        r <= a@.len(),
        r <= b@.len(),
        a@.take(r as int) == b@.take(r as int),
        r < a@.len() && r < b@.len() ==> a@[r as int] != b@[r as int],
{
    let mut i: usize = 0;
    while i < a.len() && i < b.len() && a[i] == b[i]
        invariant
            i <= a@.len(),
            i <= b@.len(),
            forall|k: int| 0 <= k < i ==> a@[k] == b@[k],
        decreases a@.len() - i,
    {
        i += 1;
    }
    assert(a@.take(i as int) =~= b@.take(i as int));
    i
}

/// What follows a common beginning decides the order.
proof fn lemma_common_beginning(a: Seq<u8>, b: Seq<u8>, n: int)
    requires
        0 <= n <= a.len(),
        n <= b.len(),
        a.take(n) == b.take(n),
        n < a.len() && n < b.len() ==> a[n] != b[n],
    ensures
        bytes_before(a, b) == (n < b.len() && (n == a.len() || a[n] < b[n])),
        (a == b) == (n == a.len() && n == b.len()),
    decreases n,
{
    if n > 0 {
        assert(a[0] == a.take(n)[0]);
        assert(b[0] == b.take(n)[0]);
        let (x, y) = (a.drop_first(), b.drop_first());
        assert(x.take(n - 1) =~= a.take(n).drop_first());
        assert(y.take(n - 1) =~= b.take(n).drop_first());
        lemma_common_beginning(x, y, n - 1);
        assert(a =~= seq![a[0]] + x);
        assert(b =~= seq![b[0]] + y);
        if n == a.len() && n == b.len() {
            assert(a.take(n) =~= a);
            assert(b.take(n) =~= b);
        }
    } else {
        if a.len() == 0 && b.len() == 0 {
            assert(a =~= b);
        }
    }
}

/// No byte string comes before itself, and of two different ones exactly one
/// comes before the other.
pub proof fn law_bytes_are_ordered(a: Seq<u8>, b: Seq<u8>)
    ensures
        !bytes_before(a, a),
        !(bytes_before(a, b) && bytes_before(b, a)),
        a != b ==> bytes_before(a, b) || bytes_before(b, a),
    decreases a.len(),
{
    if a.len() > 0 {
        law_bytes_are_ordered(a.drop_first(), a.drop_first());
        if b.len() > 0 && a[0] == b[0] {
            law_bytes_are_ordered(a.drop_first(), b.drop_first());
            assert(a =~= seq![a[0]] + a.drop_first());
            assert(b =~= seq![b[0]] + b.drop_first());
        }
    } else if b.len() == 0 {
        assert(a =~= b);
    }
}

/// A byte string that comes before one that comes before a third comes before
/// the third.
pub proof fn law_byte_order_carries_on(a: Seq<u8>, b: Seq<u8>, c: Seq<u8>)
    requires
        bytes_before(a, b),
        bytes_before(b, c),
    ensures
        bytes_before(a, c),
    decreases a.len(),
{
    if a.len() > 0 && b.len() > 0 && c.len() > 0 && a[0] == b[0] && b[0] == c[0] {
        law_byte_order_carries_on(a.drop_first(), b.drop_first(), c.drop_first());
    }
}

/// The older of two snapshots stays the older one against anything that is
/// no older than the other.
pub proof fn law_age_carries_on(a: SnapshotMetaView, b: SnapshotMetaView, c: SnapshotMetaView)
    ensures
        older(a, b) && older(b, c) ==> older(a, c),
        !older(a, b) && !older(b, c) ==> !older(a, c),
        !(older(a, b) && older(b, a)),
        !older(a, a),
{
    let (x, y, z) = (encode_utf8(a.id), encode_utf8(b.id), encode_utf8(c.id));
    if bytes_before(x, y) && bytes_before(y, z) {
        law_byte_order_carries_on(x, y, z);
    }
    law_bytes_are_ordered(x, y);
    law_bytes_are_ordered(y, z);
    law_bytes_are_ordered(x, z);
    if bytes_before(x, z) && bytes_before(z, y) {
        law_byte_order_carries_on(x, z, y);
    }
    if bytes_before(y, x) && bytes_before(x, z) {
        law_byte_order_carries_on(y, x, z);
    }
}

/// A list of snapshots, newest first, with one more put in: behind those that
/// are no older.
pub open spec fn put_in(
    sorted: Seq<FileSnapshotMetaView>,
    m: FileSnapshotMetaView,
) -> Seq<FileSnapshotMetaView>
    decreases sorted.len(),
{
    if sorted.len() > 0 && older(sorted.last().meta, m.meta) {
        put_in(sorted.drop_last(), m).push(sorted.last())
    } else {
        sorted.push(m)
    }
}

/// Snapshots in order, newest first; equally old ones stay in the order in
/// which they came.
pub open spec fn newest_first(metas: Seq<FileSnapshotMetaView>) -> Seq<FileSnapshotMetaView>
    decreases metas.len(),
{
    if metas.len() == 0 {
        metas
    } else {
        put_in(newest_first(metas.drop_last()), metas.last())
    }
}

/// Whether no snapshot of a list is older than one that comes after it.
pub open spec fn in_order(metas: Seq<FileSnapshotMetaView>) -> bool {
    forall|i: int, j: int|
        0 <= i < j < metas.len() ==> !older(
            (#[trigger] metas[i]).meta,
            (#[trigger] metas[j]).meta,
        )
}

proof fn lemma_put_in(sorted: Seq<FileSnapshotMetaView>, m: FileSnapshotMetaView)
    requires
        in_order(sorted),
    ensures
        in_order(put_in(sorted, m)),
        put_in(sorted, m).len() == sorted.len() + 1,
        put_in(sorted, m).to_multiset() == sorted.to_multiset().insert(m),
        forall|k: int|
            0 <= k < put_in(sorted, m).len() ==> (#[trigger] put_in(sorted, m)[k] == m
                || sorted.contains(put_in(sorted, m)[k])),
    decreases sorted.len(),
{
    broadcast use vstd::seq_lib::group_to_multiset_ensures;

    let r = put_in(sorted, m);
    if sorted.len() > 0 && older(sorted.last().meta, m.meta) {
        let front = sorted.drop_last();
        let last = sorted.last();
        lemma_put_in(front, m);
        let p = put_in(front, m);
        assert(front.push(last) =~= sorted);
        assert(r.to_multiset() =~= sorted.to_multiset().insert(m));
        assert forall|k: int| 0 <= k < r.len() implies (#[trigger] r[k] == m || sorted.contains(
            r[k],
        )) by {
            if k < p.len() {
                assert(r[k] == p[k]);
                if p[k] != m {
                    let q = choose|q: int| 0 <= q < front.len() && front[q] == p[k];
                    assert(sorted[q] == p[k]);
                }
            } else {
                assert(sorted[sorted.len() - 1] == last);
            }
        }
        assert forall|i: int, j: int| 0 <= i < j < r.len() implies !older(
            (#[trigger] r[i]).meta,
            (#[trigger] r[j]).meta,
        ) by {
            if j < p.len() {
                assert(!older(p[i].meta, p[j].meta));
            } else {
                assert(r[i] == p[i]);
                if p[i] == m {
                    law_age_carries_on(last.meta, m.meta, last.meta);
                } else {
                    let q = choose|q: int| 0 <= q < front.len() && front[q] == p[i];
                    assert(sorted[q] == p[i]);
                    assert(!older(sorted[q].meta, sorted[sorted.len() - 1].meta));
                }
            }
        }
    } else {
        assert(r.to_multiset() =~= sorted.to_multiset().insert(m));
        assert forall|k: int| 0 <= k < r.len() implies (#[trigger] r[k] == m || sorted.contains(
            r[k],
        )) by {
            if k < sorted.len() {
                assert(r[k] == sorted[k]);
            }
        }
        assert forall|i: int, j: int| 0 <= i < j < r.len() implies !older(
            (#[trigger] r[i]).meta,
            (#[trigger] r[j]).meta,
        ) by {
            if j < sorted.len() {
                assert(!older(sorted[i].meta, sorted[j].meta));
            } else {
                let last = sorted[sorted.len() - 1];
                if i < sorted.len() - 1 {
                    assert(!older(sorted[i].meta, last.meta));
                    law_age_carries_on(sorted[i].meta, last.meta, m.meta);
                }
            }
        }
    }
}

/// Putting snapshots in order, newest first, neither loses nor adds one, and
/// no older one comes before a newer one.
pub proof fn law_newest_come_first(metas: Seq<FileSnapshotMetaView>)
    ensures
        in_order(newest_first(metas)),
        newest_first(metas).to_multiset() == metas.to_multiset(),
        newest_first(metas).len() == metas.len(),
    decreases metas.len(),
{
    broadcast use vstd::seq_lib::group_to_multiset_ensures;

    if metas.len() > 0 {
        law_newest_come_first(metas.drop_last());
        lemma_put_in(newest_first(metas.drop_last()), metas.last());
        assert(metas.drop_last().push(metas.last()) =~= metas);
    }
}

/// Where an element stands after it was put in.
proof fn lemma_put_in_at(sorted: Seq<FileSnapshotMetaView>, m: FileSnapshotMetaView, k: int)
    requires
        0 <= k <= sorted.len(),
        forall|j: int| k <= j < sorted.len() ==> older((#[trigger] sorted[j]).meta, m.meta),
        k > 0 ==> !older(sorted[k - 1].meta, m.meta),
    ensures
        put_in(sorted, m) == sorted.insert(k, m),
    decreases sorted.len(),
{
    if k < sorted.len() {
        let front = sorted.drop_last();
        assert(older(sorted[sorted.len() - 1].meta, m.meta));
        assert forall|j: int| k <= j < front.len() implies older(
            (#[trigger] front[j]).meta,
            m.meta,
        ) by {
            assert(older(sorted[j].meta, m.meta));
        }
        lemma_put_in_at(front, m, k);
        assert(front.insert(k, m).push(sorted.last()) =~= sorted.insert(k, m));
    } else {
        assert(sorted.push(m) =~= sorted.insert(k, m));
    }
}

/// Whether one byte string comes before another.
fn is_before(a: &[u8], b: &[u8]) -> (r: bool)
    ensures
        r == bytes_before(a@, b@),
{
    let n: usize = common_beginning(a, b);
    proof {
        lemma_common_beginning(a@, b@, n as int);
    }
    n < b.len() && (n == a.len() || a[n] < b[n])
}

/// Decides for a snapshot store on disk that retains up to `retain`
/// snapshots. The directory is carried along for those that read and write
/// there.
pub struct FileSnapshotStore<P> {
    path: P,
    retain: usize,
    no_sync: bool,
}

/// The snapshots of a directory that are listed: the newest ones.
pub open spec fn listed_metas(
    metas: Seq<FileSnapshotMetaView>,
    retain: nat,
) -> Seq<FileSnapshotMetaView> {
    let sorted = newest_first(metas);
    if sorted.len() <= retain {
        sorted
    } else {
        sorted.take(retain as int)
    }
}

/// The snapshots of a directory that are removed: all but the newest ones.
pub open spec fn reaped_metas(
    metas: Seq<FileSnapshotMetaView>,
    retain: nat,
) -> Seq<FileSnapshotMetaView> {
    let sorted = newest_first(metas);
    if sorted.len() <= retain {
        Seq::empty()
    } else {
        sorted.skip(retain as int)
    }
}

/// Every snapshot is either listed or removed, as many are listed as are
/// retained (or all there are), and none that is listed is older than one
/// that is removed.
pub proof fn law_newest_are_retained(metas: Seq<FileSnapshotMetaView>, retain: nat)
    ensures
        listed_metas(metas, retain) + reaped_metas(metas, retain) == newest_first(metas),
        listed_metas(metas, retain).len() == if metas.len() <= retain {
            metas.len()
        } else {
            retain
        },
        forall|i: int, j: int|
            0 <= i < listed_metas(metas, retain).len() && 0 <= j < reaped_metas(
                metas,
                retain,
            ).len() ==> !older(
                (#[trigger] listed_metas(metas, retain)[i]).meta,
                (#[trigger] reaped_metas(metas, retain)[j]).meta,
            ),
{
    law_newest_come_first(metas);
    let sorted = newest_first(metas);
    let (listed, reaped) = (listed_metas(metas, retain), reaped_metas(metas, retain));
    assert(listed + reaped =~= sorted);
    assert forall|i: int, j: int| 0 <= i < listed.len() && 0 <= j < reaped.len() implies !older(
        (#[trigger] listed[i]).meta,
        (#[trigger] reaped[j]).meta,
    ) by {
        assert(listed[i] == sorted[i]);
        assert(reaped[j] == sorted[retain + j]);
    }
}

impl<P> FileSnapshotStore<P> {
    /// The directory that holds the snapshots.
    pub closed spec fn dir(&self) -> P {
        self.path
    }

    /// How many snapshots are kept.
    pub closed spec fn kept(&self) -> usize {
        self.retain
    }

    /// Whether files are not forced to disk.
    pub closed spec fn unsynced(&self) -> bool {
        self.no_sync
    }

    /// A store whose snapshots lie in the directory `path`. `retain` controls
    /// how many snapshots are kept on disk.
    pub fn new(path: P, retain: usize) -> (r: Result<Self>)
        ensures
            retain < 1 ==> (r matches Err(RaftError::Other(text)) && text@
                == "must retain at least one snapshot"@),
            retain >= 1 ==> (r matches Ok(store) && store.dir() == path && store.kept() == retain
                && !store.unsynced()),
    {
        if retain < 1 {
            return Err(RaftError::Other("must retain at least one snapshot".to_owned()));
        }
        Ok(FileSnapshotStore { path, retain, no_sync: false })
    }

    /// Disables (or enables) forcing files to disk. Only intended for tests.
    pub fn set_no_sync(&mut self, no_sync: bool)
        ensures
            final(self).unsynced() == no_sync,
            final(self).dir() == old(self).dir(),
            final(self).kept() == old(self).kept(),
    {
        self.no_sync = no_sync;
    }

    /// Whether files are not forced to disk.
    pub fn no_sync(&self) -> (r: bool)
        ensures
            r == self.unsynced(),
    {
        self.no_sync
    }

    /// Path to the snapshot directory.
    pub fn path(&self) -> (r: &P)
        ensures
            *r == self.dir(),
    {
        &self.path
    }

    /// Compares snapshots by age: term, index, then ID.
    pub fn cmp(a: &FileSnapshotMeta, b: &FileSnapshotMeta) -> (r: Ordering)
        ensures
            r == if older(a@.meta, b@.meta) {
                Ordering::Less
            } else if same_age(a@.meta, b@.meta) {
                Ordering::Equal
            } else {
                Ordering::Greater
            },
    {
        proof {
            law_bytes_are_ordered(encode_utf8(a.id@), encode_utf8(b.id@));
        }
        if a.term != b.term {
            if a.term < b.term {
                Ordering::Less
            } else {
                Ordering::Greater
            }
        } else if a.index != b.index {
            if a.index < b.index {
                Ordering::Less
            } else {
                Ordering::Greater
            }
        } else if is_before(a.id.as_str().as_bytes(), b.id.as_str().as_bytes()) {
            Ordering::Less
        } else if same_bytes(a.id.as_str().as_bytes(), b.id.as_str().as_bytes()) {
            Ordering::Equal
        } else {
            Ordering::Greater
        }
    }

    /// Whether one snapshot is older than another.
    fn is_older(a: &FileSnapshotMeta, b: &FileSnapshotMeta) -> (r: bool)
        ensures
            r == older(a@.meta, b@.meta),
    {
        match Self::cmp(a, b) {
            Ordering::Less => true,
            Ordering::Equal => false,
            Ordering::Greater => false,
        }
    }

    /// Puts snapshots in order, newest first.
    pub fn sorted(metas: Vec<FileSnapshotMeta>) -> (r: Vec<FileSnapshotMeta>)
        ensures
            meta_views(r@) == newest_first(meta_views(metas@)),
    {
        let ghost given = meta_views(metas@);
        let mut rest = metas;
        let mut sorted: Vec<FileSnapshotMeta> = Vec::new();
        let total: usize = rest.len();
        assert(meta_views(sorted@) =~= newest_first(given.take(0)));
        while rest.len() > 0
            invariant
                total == given.len(),
                sorted@.len() + rest@.len() == total,
                meta_views(rest@) == given.skip(sorted@.len() as int),
                meta_views(sorted@) == newest_first(given.take(sorted@.len() as int)),
            decreases rest@.len(),
        {
            let ghost done = sorted@.len() as int;
            let ghost before = sorted@;
            let ghost left = rest@;
            let m = rest.remove(0);
            assert(m@ == meta_views(left)[0]);
            assert(meta_views(rest@) =~= meta_views(left).drop_first());
            assert(given.skip(done).drop_first() =~= given.skip(done + 1));
            assert(given.take(done + 1).drop_last() =~= given.take(done));
            let mut k: usize = sorted.len();
            while k > 0 && Self::is_older(&sorted[k - 1], &m)
                invariant
                    k <= sorted@.len(),
                    sorted@ == before,
                    forall|j: int|
                        k <= j < sorted@.len() ==> older(
                            (#[trigger] meta_views(before)[j]).meta,
                            m@.meta,
                        ),
                decreases k,
            {
                k -= 1;
                assert(meta_views(before)[k as int] == before[k as int]@);
            }
            proof {
                if k > 0 {
                    assert(meta_views(before)[k - 1] == before[k - 1]@);
                }
                lemma_put_in_at(meta_views(before), m@, k as int);
            }
            let ghost view = m@;
            sorted.insert(k, m);
            assert(meta_views(sorted@) =~= meta_views(before).insert(k as int, view));
        }
        assert(given.take(total as int) =~= given);
        sorted
    }

    /// The snapshots that are listed, newest first, out of those found in the
    /// directory.
    pub fn listed(&self, metas: Vec<FileSnapshotMeta>) -> (r: Vec<SnapshotMeta>)
        ensures
            r@.len() == listed_metas(meta_views(metas@), self.kept() as nat).len(),
            forall|i: int|
                0 <= i < r@.len() ==> (#[trigger] r@[i])@ == listed_metas(
                    meta_views(metas@),
                    self.kept() as nat,
                )[i].meta,
    {
        let ghost given = meta_views(metas@);
        let sorted = Self::sorted(metas);
        let ghost all = meta_views(sorted@);
        let mut rest = sorted;
        let mut out: Vec<SnapshotMeta> = Vec::new();
        while out.len() < self.retain && rest.len() > 0
            invariant
                all == newest_first(given),
                out@.len() + rest@.len() == all.len(),
                out@.len() <= self.retain,
                meta_views(rest@) == all.skip(out@.len() as int),
                forall|i: int| 0 <= i < out@.len() ==> (#[trigger] out@[i])@ == all[i].meta,
            decreases rest@.len(),
        {
            let ghost left = rest@;
            let ghost done = out@.len() as int;
            let m = rest.remove(0);
            assert(m@ == meta_views(left)[0]);
            assert(meta_views(rest@) =~= meta_views(left).drop_first());
            assert(all.skip(done).drop_first() =~= all.skip(done + 1));
            out.push(m.into_public());
        }
        out
    }

    /// The IDs of the snapshots that are removed, out of those found in the
    /// directory: all beyond the number that is retained.
    pub fn reaped(&self, metas: Vec<FileSnapshotMeta>) -> (r: Vec<String>)
        ensures
            r@.len() == reaped_metas(meta_views(metas@), self.kept() as nat).len(),
            forall|i: int|
                0 <= i < r@.len() ==> (#[trigger] r@[i])@ == reaped_metas(
                    meta_views(metas@),
                    self.kept() as nat,
                )[i].meta.id,
    {
        let ghost given = meta_views(metas@);
        let sorted = Self::sorted(metas);
        let ghost all = meta_views(sorted@);
        let mut out: Vec<String> = Vec::new();
        let mut i: usize = self.retain;
        while i < sorted.len()
            invariant
                all == newest_first(given),
                all == meta_views(sorted@),
                i >= self.retain,
                i <= sorted@.len() || i == self.retain,
                out@.len() == i - self.retain,
                forall|k: int|
                    0 <= k < out@.len() ==> (#[trigger] out@[k])@ == all[self.retain + k].meta.id,
            decreases sorted@.len() - i,
        {
            out.push(sorted[i].id.clone());
            i += 1;
        }
        out
    }

    /// Begins a snapshot at the given index and term, with the given
    /// committed configuration.
    pub fn begin(
        &self,
        version: u8,
        index: u64,
        term: u64,
        configuration: &Configuration,
        configuration_index: u64,
    ) -> (r: Result<FileSnapshotSink>)
        ensures
            version != SNAPSHOT_VERSION_MAX ==> (r matches Err(RaftError::Snapshot(text)) && text@
                == unsupported_snapshot_version(version)),
            version == SNAPSHOT_VERSION_MAX ==> (r matches Ok(sink) && {
                &&& !sink.closed
                &&& exists|millis: u128|
                    sink.meta@ == (FileSnapshotMetaView {
                        meta: SnapshotMetaView {
                            version,
                            id: #[trigger] snapshot_id(term, index, millis),
                            index,
                            term,
                            configuration: configuration@,
                            configuration_index,
                            size: 0,
                        },
                        crc: None,
                    })
            }),
    {
        if version != SNAPSHOT_VERSION_MAX {
            return Err(RaftError::Snapshot(unsupported_snapshot_text(version)));
        }
        let id = snapshot_name(term, index);
        Ok(
            FileSnapshotSink {
                meta: FileSnapshotMeta {
                    version,
                    id,
                    index,
                    term,
                    configuration: configuration.clone(),
                    configuration_index,
                    size: 0,
                    crc: None,
                },
                closed: false,
            },
        )
    }
}

/// Whether an entry of the snapshot directory is a finished snapshot: a
/// directory that is not a temporary one.
pub fn is_snapshot(name: &str, is_dir: bool) -> (r: bool)
    ensures
        r == (is_dir && !ends_with_text(name@, TMP_SUFFIX@)),
{
    is_dir && !text_ends_with(name, TMP_SUFFIX)
}

/// The name of the directory in which a snapshot is written, until it is
/// finished.
pub fn tmp_name(id: &str) -> (r: String)
    ensures
        r@ == id@ + TMP_SUFFIX@,
        ends_with_text(r@, TMP_SUFFIX@),
{
    let r = joined(id, TMP_SUFFIX);
    assert(r@.subrange(r@.len() - TMP_SUFFIX@.len(), r@.len() as int) =~= TMP_SUFFIX@);
    r
}

/// Whether the contents of a snapshot are those that were written, as far as
/// the check of them tells.
pub open spec fn intact(meta: FileSnapshotMetaView, check: u64) -> bool {
    match meta.crc {
        Some(crc) => crc == big_endian(check),
        None => true,
    }
}

/// Compares the check of the contents that were read with the one that was
/// noted down when the snapshot was written.
pub fn check_contents(meta: &FileSnapshotMeta, read: &Crc64) -> (r: Result<()>)
    ensures
        intact(meta@, read.so_far()) ==> r is Ok,
        !intact(meta@, read.so_far()) ==> (r matches Err(RaftError::Snapshot(text)) && text@
            == "CRC mismatch"@),
{
    let computed = read.finish().into_bytes();
    match &meta.crc {
        Some(stored) => {
            if !same_bytes(stored.as_slice(), vstd::array::array_as_slice(&computed)) {
                return Err(RaftError::Snapshot("CRC mismatch".to_owned()));
            }
        },
        None => {},
    }
    Ok(())
}

/// A snapshot that is being written to a temporary directory.
#[derive(Debug)]
pub struct FileSnapshotSink {
    pub meta: FileSnapshotMeta,
    pub closed: bool,
}

impl FileSnapshotSink {
    /// The ID of the snapshot being written.
    pub fn id(&self) -> (r: String)
        ensures
            r@ == self.meta.id@,
    {
        self.meta.id.clone()
    }

    /// Ends the writing, once: whether there is anything left to do. A second
    /// close, or one after a cancel, does nothing.
    pub fn end(&mut self) -> (r: bool)
        ensures
            r == !old(self).closed,
            final(self).closed,
            final(self).meta == old(self).meta,
    {
        let first = !self.closed;
        self.closed = true;
        first
    }

    /// Notes down the size and the check of what was written.
    pub fn seal(&mut self, size: u64, contents: &Crc64)
        ensures
            final(self)@ == (FileSnapshotMetaView {
                meta: SnapshotMetaView { size, ..old(self)@.meta },
                crc: Some(big_endian(contents.so_far())),
            }),
            final(self).closed == old(self).closed,
            intact(final(self)@, contents.so_far()),
    {
        let digest = contents.finish().into_bytes();
        let crc = vstd::slice::slice_to_vec(vstd::array::array_as_slice(&digest));
        self.meta.size = size;
        self.meta.crc = Some(crc);
    }
}

impl View for FileSnapshotSink {
    type V = FileSnapshotMetaView;

    open spec fn view(&self) -> FileSnapshotMetaView {
        self.meta@
    }
}

/// Contents that are read back as they were written, in whatever pieces, pass
/// the check of a snapshot that was sealed over them.
pub proof fn law_unchanged_contents_pass(
    sealed: FileSnapshotMetaView,
    first: Seq<u8>,
    second: Seq<u8>,
)
    requires
        sealed.crc == Some(big_endian(crc_from(0, first + second))),
    ensures
        intact(sealed, crc_from(crc_from(0, first), second)),
{
    crate::crc64::law_check_by_pieces(0, first, second);
}

/// Contents whose check differs from the one of what was written are
/// refused.
pub proof fn law_changed_check_is_noticed(sealed: FileSnapshotMetaView, written: u64, read: u64)
    requires
        sealed.crc == Some(big_endian(written)),
        read != written,
    ensures
        !intact(sealed, read),
{
    if big_endian(written) == big_endian(read) {
        crate::crc64::law_bytes_tell_numbers_apart(written, read);
    }
}

/// Contents of which one byte was changed since they were written are
/// refused, wherever the byte is.
pub proof fn law_changed_byte_is_noticed(
    sealed: FileSnapshotMetaView,
    front: Seq<u8>,
    written: u8,
    read: u8,
    back: Seq<u8>,
)
    requires
        sealed.crc == Some(big_endian(crc_from(0, front.push(written) + back))),
        read != written,
    ensures
        !intact(sealed, crc_from(0, front.push(read) + back)),
{
    crate::crc64::law_changed_byte_changes_the_check(0, front, written, read, back);
    law_changed_check_is_noticed(
        sealed,
        crc_from(0, front.push(written) + back),
        crc_from(0, front.push(read) + back),
    );
}

} // verus!
