//! Per-connection handle to one named store, and its write-buffer-to-disk
//! lifecycle: add, count, flush, load, resynchronize, clear.
//!
//! A `Store` holds no data, only identity: the logical name keying the shared
//! registry and the file name its flushes target. The file name is derived
//! deterministically from the store name, so a store's write target and read
//! target never diverge.

use vstd::prelude::*;

use crate::assoc::assoc_find;
use crate::assoc::keys_unique;
use crate::assoc::lemma_assoc_view_absent;
use crate::assoc::lemma_assoc_view_member;
use crate::assoc::lemma_assoc_view_update;
use crate::disk::Disk;
use crate::disk::disk_size;
use crate::disk::flushed_disk;
use crate::registry::EntryModel;
use crate::registry::SharedState;
use crate::registry::StoreEntry;
use crate::registry::added_entry;
use crate::registry::autoflush_due;
use crate::registry::cleared_entry;
use crate::registry::flushed_entry;
use crate::registry::loaded_entry;
use crate::registry::resynced_entry;
use crate::tick::Update;

verus! {

/// A connection's handle to one named store.
pub struct Store {
    /// Logical key into the shared registry.
    pub name: String,
    /// File name of the store's persisted form.
    pub fname: String,
}

/// Mathematical image of a store handle.
pub struct StoreModel {
    pub name: Seq<char>,
    pub fname: Seq<char>,
}

impl View for Store {
    type V = StoreModel;

    open spec fn view(&self) -> StoreModel {
        StoreModel { name: self.name@, fname: self.fname@ }
    }
}

/// Registry and persistent-layer fields that a store operation leaves alone.
pub open spec fn preserves_rest(s0: SharedState, s1: SharedState) -> bool {
    &&& s1.settings == s0.settings
    &&& s1.n_cxns == s0.n_cxns
    &&& s1.history@ == s0.history@
}

/// Everything one `add` does: the record is buffered and counted under the
/// registry lock and, when that very buffer length crosses the configured
/// multiple, the store is flushed.
pub open spec fn add_effect(
    s0: SharedState,
    d0: Disk,
    s1: SharedState,
    d1: Disk,
    name: Seq<char>,
    fname: Seq<char>,
    up: Update,
) -> bool {
    let e1 = added_entry(s0.stores()[name], up);
    &&& preserves_rest(s0, s1)
    &&& if autoflush_due(s0.settings, e1.buffer.len()) {
        &&& s1.stores() == s0.stores().insert(name, flushed_entry(e1))
        &&& d1.contents() == flushed_disk(d0.contents(), fname, name, e1.buffer)
    } else {
        &&& s1.stores() == s0.stores().insert(name, e1)
        &&& d1.contents() == d0.contents()
    }
}

/// Everything one `flush` does: for a non-empty buffer the store's file
/// grows (or is created) as the codec writes it, and the buffer is emptied
/// only after that write; an empty buffer performs no write at all. The
/// logical count is untouched either way.
pub open spec fn flush_effect(
    s0: SharedState,
    d0: Disk,
    s1: SharedState,
    d1: Disk,
    name: Seq<char>,
    fname: Seq<char>,
) -> bool {
    let e = s0.stores()[name];
    &&& preserves_rest(s0, s1)
    &&& s1.stores() == s0.stores().insert(name, flushed_entry(e))
    &&& d1.contents() == flushed_disk(d0.contents(), fname, name, e.buffer)
}

/// Everything one `load` does: when the store's file exists and the buffer is
/// not already materialized, the decoded records are appended to the buffer;
/// otherwise nothing changes.
pub open spec fn load_effect(s0: SharedState, d: Disk, s1: SharedState, name: Seq<char>) -> bool {
    let e = s0.stores()[name];
    &&& preserves_rest(s0, s1)
    &&& if d.contents().contains_key(name) && !e.in_memory {
        s1.stores() == s0.stores().insert(name, loaded_entry(e, d.contents()[name].records))
    } else {
        s1.stores() == s0.stores()
    }
}

impl Store {
    /// File identity is derived from the logical name.
    pub open spec fn wf(&self) -> bool {
        self.fname@ == self.name@
    }

    /// A handle to the store `name`.
    pub fn new(name: String) -> (s: Store)
        ensures
            s.name@ == name@,
            s.wf(),
    {
        let fname = name.clone();
        Store { name, fname }
    }

    /// Index of this store's entry in the registry.
    fn find_entry(&self, shared: &SharedState) -> (i: usize)
        requires
            shared.wf(),
            shared.stores().contains_key(self.name@),
        ensures
            i < shared.vec_store@.len(),
            shared.vec_store@[i as int].0@ == self.name@,
            shared.vec_store@[i as int].1@ == shared.stores()[self.name@],
    {
        match assoc_find(&shared.vec_store, &self.name) {
            Some(i) => {
                proof {
                    lemma_assoc_view_member(shared.vec_store@, i as int);
                }
                i
            },
            None => {
                proof {
                    lemma_assoc_view_absent(shared.vec_store@, self.name@);
                }
                unreached()
            },
        }
    }

    /// Push one record into the store's shared buffer and count it; flush
    /// when the buffer length observed under the same lock acquisition
    /// crosses the configured multiple.
    pub fn add(&self, shared: &mut SharedState, disk: &mut Disk, up: Update)
        requires
            old(shared).wf(),
            old(disk).wf(),
            self.wf(),
            old(shared).stores().contains_key(self.name@),
            old(shared).stores()[self.name@].logical_count < u64::MAX,
        ensures
            final(shared).wf(),
            final(disk).wf(),
            add_effect(*old(shared), *old(disk), *final(shared), *final(disk), self.name@, self.fname@, up),
    {
        let i = self.find_entry(shared);
        let ghost before = shared.vec_store@;
        let mut pair = shared.vec_store.remove(i);
        pair.1.buffer.push(up);
        pair.1.logical_count = pair.1.logical_count + 1;
        let size = pair.1.buffer.len();
        let is_autoflush = shared.settings.autoflush && size != 0 && size
            % (shared.settings.flush_interval as usize) == 0;
        shared.vec_store.insert(i, pair);
        proof {
            assert(shared.vec_store@ =~= before.update(
                i as int,
                (before[i as int].0, shared.vec_store@[i as int].1),
            ));
            lemma_assoc_view_update(before, i as int, shared.vec_store@[i as int].1);
            assert(shared.vec_store@[i as int].1@ == added_entry(
                old(shared).stores()[self.name@],
                up,
            ));
            assert(is_autoflush == autoflush_due(
                old(shared).settings,
                added_entry(old(shared).stores()[self.name@], up).buffer.len(),
            ));
        }
        if is_autoflush {
            let ghost mid = *shared;
            let _ = self.flush(shared, disk);
            proof {
                let e1 = added_entry(old(shared).stores()[self.name@], up);
                assert(mid.stores()[self.name@] == e1);
                assert(shared.stores() =~= old(shared).stores().insert(
                    self.name@,
                    flushed_entry(e1),
                ));
            }
        }
    }

    /// The store's logical count; never touches the buffer.
    pub fn count(&self, shared: &SharedState) -> (c: u64)
        requires
            shared.wf(),
            shared.stores().contains_key(self.name@),
        ensures
            c == shared.stores()[self.name@].logical_count,
    {
        let i = self.find_entry(shared);
        shared.vec_store[i].1.logical_count
    }

    /// Persist the buffered records: append to the store's file when one
    /// exists, encode a fresh file otherwise, then release the buffer from
    /// memory — only after the write, so a write that does not complete
    /// loses no buffered data. An empty buffer performs no write. The
    /// modeled persistent layer is total, so the result is always success;
    /// an embedding whose byte-level write fails must surface that failure
    /// instead of reporting this result.
    pub fn flush(&self, shared: &mut SharedState, disk: &mut Disk) -> (r: Option<bool>)
        requires
            old(shared).wf(),
            old(disk).wf(),
            self.wf(),
            old(shared).stores().contains_key(self.name@),
        ensures
            final(shared).wf(),
            final(disk).wf(),
            r == Some(true),
            flush_effect(*old(shared), *old(disk), *final(shared), *final(disk), self.name@, self.fname@),
    {
        let i = self.find_entry(shared);
        let ghost before = shared.vec_store@;
        let mut pair = shared.vec_store.remove(i);
        if pair.1.buffer.len() > 0 {
            if disk.exists_file(&self.fname) {
                disk.append(&self.fname, &pair.1.buffer);
            } else {
                disk.encode(&self.fname, &self.name, &pair.1.buffer);
            }
        }
        pair.1.buffer.clear();
        pair.1.in_memory = false;
        shared.vec_store.insert(i, pair);
        proof {
            assert(shared.vec_store@ =~= before.update(
                i as int,
                (before[i as int].0, shared.vec_store@[i as int].1),
            ));
            lemma_assoc_view_update(before, i as int, shared.vec_store@[i as int].1);
            assert(shared.vec_store@[i as int].1@ == flushed_entry(
                old(shared).stores()[self.name@],
            ));
        }
        Some(true)
    }

    /// Materialize the store's file into the shared buffer, once: a no-op
    /// when the file is absent or the buffer is already materialized.
    pub fn load(&self, shared: &mut SharedState, disk: &Disk)
        requires
            old(shared).wf(),
            disk.wf(),
            self.wf(),
            old(shared).stores().contains_key(self.name@),
        ensures
            final(shared).wf(),
            load_effect(*old(shared), *disk, *final(shared), self.name@),
    {
        if !disk.exists_file(&self.name) {
            return ;
        }
        let i = self.find_entry(shared);
        if shared.vec_store[i].1.in_memory {
            return ;
        }
        match disk.decode(&self.name, None) {
            Some(mut ups) => {
                let ghost before = shared.vec_store@;
                let mut pair = shared.vec_store.remove(i);
                pair.1.buffer.append(&mut ups);
                pair.1.in_memory = true;
                shared.vec_store.insert(i, pair);
                proof {
                    assert(shared.vec_store@ =~= before.update(
                        i as int,
                        (before[i as int].0, shared.vec_store@[i as int].1),
                    ));
                    lemma_assoc_view_update(before, i as int, shared.vec_store@[i as int].1);
                    assert(shared.vec_store@[i as int].1@ == loaded_entry(
                        old(shared).stores()[self.name@],
                        disk.contents()[self.name@].records,
                    ));
                }
            },
            None => {
                proof {
                    assert(false);
                }
            },
        }
    }

    /// Overwrite the store's logical count with the file header's record
    /// count — disk truth; an absent file counts as zero records.
    pub fn load_size_from_file(&self, shared: &mut SharedState, disk: &Disk)
        requires
            old(shared).wf(),
            disk.wf(),
            self.wf(),
            old(shared).stores().contains_key(self.name@),
        ensures
            final(shared).wf(),
            preserves_rest(*old(shared), *final(shared)),
            final(shared).stores() == old(shared).stores().insert(
                self.name@,
                resynced_entry(
                    old(shared).stores()[self.name@],
                    disk_size(disk.contents(), self.name@),
                ),
            ),
    {
        let header_size: u64 = match disk.get_size(&self.name) {
            Some(n) => n,
            None => 0,
        };
        let i = self.find_entry(shared);
        let ghost before = shared.vec_store@;
        let mut pair = shared.vec_store.remove(i);
        pair.1.logical_count = header_size;
        shared.vec_store.insert(i, pair);
        proof {
            assert(shared.vec_store@ =~= before.update(
                i as int,
                (before[i as int].0, shared.vec_store@[i as int].1),
            ));
            lemma_assoc_view_update(before, i as int, shared.vec_store@[i as int].1);
        }
    }

    /// Empty the buffer, drop the materialization flag, and resynchronize
    /// the logical count from the file header, so that the count reflects
    /// disk truth rather than zero.
    pub fn clear(&self, shared: &mut SharedState, disk: &Disk)
        requires
            old(shared).wf(),
            disk.wf(),
            self.wf(),
            old(shared).stores().contains_key(self.name@),
        ensures
            final(shared).wf(),
            preserves_rest(*old(shared), *final(shared)),
            final(shared).stores() == old(shared).stores().insert(
                self.name@,
                cleared_entry(disk_size(disk.contents(), self.name@)),
            ),
    {
        let i = self.find_entry(shared);
        let ghost before = shared.vec_store@;
        let mut pair = shared.vec_store.remove(i);
        pair.1.buffer.clear();
        pair.1.in_memory = false;
        shared.vec_store.insert(i, pair);
        proof {
            assert(shared.vec_store@ =~= before.update(
                i as int,
                (before[i as int].0, shared.vec_store@[i as int].1),
            ));
            lemma_assoc_view_update(before, i as int, shared.vec_store@[i as int].1);
        }
        self.load_size_from_file(shared, disk);
        proof {
            assert(shared.stores() =~= old(shared).stores().insert(
                self.name@,
                cleared_entry(disk_size(disk.contents(), self.name@)),
            ));
        }
    }
}

} // verus!
