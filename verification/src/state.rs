//! Per-connection orchestration: routing client operations to the right
//! store, and the connection-scoped mode flags.
//!
//! A `State` is created when a client connects and destroyed when it
//! disconnects; its map from store name to [`Store`] handle is only a
//! routing cache over the shared registry, never shared across connections.

use vstd::prelude::*;
use vstd::string::StringExecFns;

use crate::assoc::assoc_find;
use crate::assoc::assoc_view;
use crate::assoc::keys_unique;
use crate::assoc::lemma_assoc_view_absent;
use crate::assoc::lemma_assoc_view_index;
use crate::assoc::lemma_assoc_view_member;
use crate::assoc::lemma_assoc_view_push;
use crate::assoc::lemma_assoc_view_update;
use crate::disk::Disk;
use crate::disk::disk_size;
use crate::json::info_json;
use crate::json::info_string;
use crate::json::perf_json;
use crate::json::perf_string;
use crate::json::update_list_json;
use crate::json::update_vec_to_json;
use crate::disk::file_at;
use crate::disk::flushed_disk;
use crate::registry::SharedState;
use crate::registry::StoreEntry;
use crate::registry::cleared_entry;
use crate::registry::empty_entry;
use crate::registry::flushed_entry;
use crate::registry::lemma_total_count_prefix;
use crate::registry::total_count;
use crate::store::Store;
use crate::store::StoreModel;
use crate::store::add_effect;
use crate::store::load_effect;
use crate::store::preserves_rest;
use crate::tick::Update;
use crate::wire::wire_batch;
use crate::wire::write_batches;

verus! {

/// What a paged read returns: the whole buffer when no count is given; the
/// first `n` buffered records when `n` of them exist; and no result — never
/// a silent short page — when the buffer holds fewer than `n` records or
/// none at all.
pub open spec fn page_of(buf: Seq<Update>, count: Option<u32>) -> Option<Seq<Update>> {
    match count {
        Option::None => Option::Some(buf),
        Option::Some(n) => if buf.len() < n as nat || buf.len() == 0 {
            Option::None
        } else {
            Option::Some(buf.take(n as int))
        },
    }
}

/// One client connection's state.
pub struct State {
    /// Inside a bulk insert?
    pub is_adding: bool,
    /// Store selected for the bulk insert, if any.
    pub bulkadd_db: Option<String>,
    /// This connection's store handles, keyed by store name.
    pub store: Vec<(String, Store)>,
    /// The store this connection currently operates on.
    pub current_store_name: String,
}

impl State {
    /// The mapping from store name to this connection's handle.
    pub open spec fn local_stores(&self) -> Map<Seq<char>, StoreModel> {
        assoc_view(self.store@)
    }

    /// Connection invariant: distinct keys, each handle keyed by its own
    /// store name, and a current store this connection knows.
    pub open spec fn wf(&self) -> bool {
        &&& keys_unique(self.store@)
        &&& forall|i: int|
            0 <= i < self.store@.len() ==> (#[trigger] self.store@[i]).1.name@ == self.store@[i].0@
                && self.store@[i].1.fname@ == self.store@[i].0@
        &&& self.local_stores().contains_key(self.current_store_name@)
    }

    /// Every store this connection knows exists in the shared registry.
    pub open spec fn compat(&self, shared: SharedState) -> bool {
        forall|i: int|
            0 <= i < self.store@.len() ==> shared.stores().contains_key(
                (#[trigger] self.store@[i]).0@,
            )
    }

    /// The current store is present in the shared registry.
    pub proof fn lemma_current_in_shared(&self, shared: SharedState)
        requires
            self.wf(),
            self.compat(shared),
        ensures
            shared.stores().contains_key(self.current_store_name@),
    {
        lemma_assoc_view_index(self.store@, self.current_store_name@);
    }

    /// A name this connection knows is present in the shared registry.
    pub proof fn lemma_known_in_shared(&self, shared: SharedState, name: Seq<char>)
        requires
            self.compat(shared),
            self.local_stores().contains_key(name),
        ensures
            shared.stores().contains_key(name),
    {
        lemma_assoc_view_index(self.store@, name);
    }

    /// The handle of the current store.
    fn get_current_store(&self) -> (s: &Store)
        requires
            self.wf(),
        ensures
            s.name@ == self.current_store_name@,
            s.wf(),
    {
        match assoc_find(&self.store, &self.current_store_name) {
            Some(i) => &self.store[i].1,
            None => {
                proof {
                    lemma_assoc_view_absent(self.store@, self.current_store_name@);
                }
                unreached()
            },
        }
    }

    /// A connection starts on `"default"` with one handle per registry
    /// entry, outside any bulk insert.
    pub fn new(shared: &SharedState) -> (st: State)
        requires
            shared.wf(),
        ensures
            st.wf(),
            st.compat(*shared),
            st.current_store_name@ == "default"@,
            st.is_adding == false,
            st.bulkadd_db == Option::<String>::None,
            st.store@.len() == shared.vec_store@.len(),
            forall|i: int|
                0 <= i < st.store@.len() ==> (#[trigger] st.store@[i]).0@
                    == shared.vec_store@[i].0@,
            st.local_stores().dom() == shared.stores().dom(),
    {
        let mut store: Vec<(String, Store)> = Vec::new();
        let mut i: usize = 0;
        while i < shared.vec_store.len()
            invariant
                shared.wf(),
                i <= shared.vec_store@.len(),
                store@.len() == i,
                forall|j: int|
                    0 <= j < i ==> (#[trigger] store@[j]).0@ == shared.vec_store@[j].0@
                        && store@[j].1.name@ == store@[j].0@ && store@[j].1.fname@ == store@[j].0@,
            decreases shared.vec_store@.len() - i,
        {
            let key = shared.vec_store[i].0.clone();
            let handle = Store::new(shared.vec_store[i].0.clone());
            store.push((key, handle));
            i = i + 1;
        }
        let st = State {
            is_adding: false,
            bulkadd_db: None,
            store,
            current_store_name: "default".to_owned(),
        };
        proof {
            assert(keys_unique(st.store@));
            assert forall|k: Seq<char>| #[trigger]
                st.local_stores().contains_key(k) == shared.stores().contains_key(k) by {
                if st.local_stores().contains_key(k) {
                    lemma_assoc_view_index(st.store@, k);
                    let j = choose|j: int| 0 <= j < st.store@.len() && st.store@[j].0@ == k;
                    lemma_assoc_view_member(shared.vec_store@, j);
                }
                if shared.stores().contains_key(k) {
                    lemma_assoc_view_index(shared.vec_store@, k);
                    let j = choose|j: int|
                        0 <= j < shared.vec_store@.len() && shared.vec_store@[j].0@ == k;
                    lemma_assoc_view_member(st.store@, j);
                }
            }
            assert(st.local_stores().dom() =~= shared.stores().dom());
            assert(st.local_stores().contains_key("default"@));
            assert forall|i2: int| 0 <= i2 < st.store@.len() implies shared.stores().contains_key(
                (#[trigger] st.store@[i2]).0@,
            ) by {
                lemma_assoc_view_member(shared.vec_store@, i2);
            }
        }
        st
    }

    /// Insert one record into the named store; no result when this
    /// connection does not know the name.
    pub fn insert(&self, shared: &mut SharedState, disk: &mut Disk, up: Update, store_name: &String) -> (r:
        Option<()>)
        requires
            self.wf(),
            old(shared).wf(),
            old(disk).wf(),
            self.compat(*old(shared)),
            self.local_stores().contains_key(store_name@) ==> old(shared).stores()[store_name@].logical_count
                < u64::MAX,
        ensures
            final(shared).wf(),
            final(disk).wf(),
            if self.local_stores().contains_key(store_name@) {
                &&& r == Some(())
                &&& add_effect(
                    *old(shared),
                    *old(disk),
                    *final(shared),
                    *final(disk),
                    store_name@,
                    store_name@,
                    up,
                )
            } else {
                &&& r == Option::<()>::None
                &&& *final(shared) == *old(shared)
                &&& *final(disk) == *old(disk)
            },
    {
        match assoc_find(&self.store, store_name) {
            Some(i) => {
                proof {
                    lemma_assoc_view_member(self.store@, i as int);
                    self.lemma_known_in_shared(*old(shared), store_name@);
                }
                let handle = &self.store[i].1;
                handle.add(shared, disk, up);
                Some(())
            },
            None => {
                proof {
                    lemma_assoc_view_absent(self.store@, store_name@);
                }
                None
            },
        }
    }

    /// Whether this connection knows a store of that name.
    pub fn store_exists(&self, store_name: &String) -> (r: bool)
        requires
            self.wf(),
        ensures
            r == self.local_stores().contains_key(store_name@),
    {
        match assoc_find(&self.store, store_name) {
            Some(i) => {
                proof {
                    lemma_assoc_view_member(self.store@, i as int);
                }
                true
            },
            None => {
                proof {
                    lemma_assoc_view_absent(self.store@, store_name@);
                }
                false
            },
        }
    }

    /// Insert one record into the current store.
    pub fn add(&self, shared: &mut SharedState, disk: &mut Disk, up: Update)
        requires
            self.wf(),
            old(shared).wf(),
            old(disk).wf(),
            self.compat(*old(shared)),
            old(shared).stores()[self.current_store_name@].logical_count < u64::MAX,
        ensures
            final(shared).wf(),
            final(disk).wf(),
            add_effect(
                *old(shared),
                *old(disk),
                *final(shared),
                *final(disk),
                self.current_store_name@,
                self.current_store_name@,
                up,
            ),
    {
        proof {
            self.lemma_current_in_shared(*old(shared));
        }
        let handle = self.get_current_store();
        handle.add(shared, disk, up);
    }

    /// Create (or destructively reset) the named store: a fresh empty entry
    /// in the shared registry, and a fresh handle in this connection's map.
    pub fn create(&mut self, shared: &mut SharedState, store_name: &String)
        requires
            old(self).wf(),
            old(shared).wf(),
            old(self).compat(*old(shared)),
        ensures
            final(self).wf(),
            final(shared).wf(),
            final(self).compat(*final(shared)),
            preserves_rest(*old(shared), *final(shared)),
            final(shared).stores() == old(shared).stores().insert(store_name@, empty_entry()),
            final(self).local_stores() == old(self).local_stores().insert(
                store_name@,
                StoreModel { name: store_name@, fname: store_name@ },
            ),
            final(self).current_store_name@ == old(self).current_store_name@,
            final(self).is_adding == old(self).is_adding,
            final(self).bulkadd_db == old(self).bulkadd_db,
    {
        let fresh = StoreEntry { buffer: Vec::new(), logical_count: 0, in_memory: false };
        proof {
            assert(fresh@.buffer =~= Seq::<Update>::empty());
            assert(fresh@ == empty_entry());
        }
        match assoc_find(&shared.vec_store, store_name) {
            Some(i) => {
                let ghost before = shared.vec_store@;
                proof {
                    lemma_assoc_view_update(before, i as int, fresh);
                }
                let pair = shared.vec_store.remove(i);
                shared.vec_store.insert(i, (pair.0, fresh));
                proof {
                    assert(shared.vec_store@ =~= before.update(
                        i as int,
                        (before[i as int].0, shared.vec_store@[i as int].1),
                    ));
                }
            },
            None => {
                proof {
                    lemma_assoc_view_push(shared.vec_store@, *store_name, fresh);
                }
                shared.vec_store.push((store_name.clone(), fresh));
            },
        }
        let handle = Store::new(store_name.clone());
        match assoc_find(&self.store, store_name) {
            Some(i) => {
                let ghost lbefore = self.store@;
                proof {
                    lemma_assoc_view_update(lbefore, i as int, handle);
                }
                let pair = self.store.remove(i);
                self.store.insert(i, (pair.0, handle));
                proof {
                    assert(self.store@ =~= lbefore.update(
                        i as int,
                        (lbefore[i as int].0, self.store@[i as int].1),
                    ));
                }
            },
            None => {
                proof {
                    lemma_assoc_view_push(self.store@, *store_name, handle);
                }
                self.store.push((store_name.clone(), handle));
            },
        }
        proof {
            assert(self.local_stores().contains_key(self.current_store_name@));
            assert forall|i2: int| 0 <= i2 < self.store@.len() implies shared.stores().contains_key(
                (#[trigger] self.store@[i2]).0@,
            ) by {
                if self.store@[i2].0@ != store_name@ {
                    assert(old(self).local_stores().contains_key(self.store@[i2].0@)) by {
                        lemma_assoc_view_member(old(self).store@, i2);
                    }
                    old(self).lemma_known_in_shared(*old(shared), self.store@[i2].0@);
                }
            }
        }
    }

    /// Select the named store and materialize its file into the shared
    /// buffer; no result — and no change — when this connection does not
    /// know the name. Missing stores are not created here.
    pub fn use_db(&mut self, shared: &mut SharedState, disk: &Disk, store_name: &String) -> (r:
        Option<()>)
        requires
            old(self).wf(),
            old(shared).wf(),
            disk.wf(),
            old(self).compat(*old(shared)),
        ensures
            final(self).wf(),
            final(shared).wf(),
            final(self).compat(*final(shared)),
            if old(self).local_stores().contains_key(store_name@) {
                &&& r == Some(())
                &&& final(self).current_store_name@ == store_name@
                &&& final(self).store@ == old(self).store@
                &&& final(self).is_adding == old(self).is_adding
                &&& final(self).bulkadd_db == old(self).bulkadd_db
                &&& load_effect(*old(shared), *disk, *final(shared), store_name@)
            } else {
                &&& r == Option::<()>::None
                &&& *final(self) == *old(self)
                &&& *final(shared) == *old(shared)
            },
    {
        match assoc_find(&self.store, store_name) {
            Some(i) => {
                proof {
                    lemma_assoc_view_member(self.store@, i as int);
                    old(self).lemma_known_in_shared(*old(shared), store_name@);
                }
                self.current_store_name = store_name.clone();
                let handle = &self.store[i].1;
                handle.load(shared, disk);
                Some(())
            },
            None => {
                proof {
                    lemma_assoc_view_absent(self.store@, store_name@);
                }
                None
            },
        }
    }

    /// The logical count of the current store.
    pub fn count(&self, shared: &SharedState) -> (c: u64)
        requires
            self.wf(),
            shared.wf(),
            self.compat(*shared),
        ensures
            c == shared.stores()[self.current_store_name@].logical_count,
    {
        proof {
            self.lemma_current_in_shared(*shared);
        }
        let handle = self.get_current_store();
        handle.count(shared)
    }

    /// The total logical count across every entry in the shared registry,
    /// including stores this connection never touched.
    pub fn countall(&self, shared: &SharedState) -> (c: u64)
        requires
            shared.wf(),
            total_count(shared.vec_store@) <= u64::MAX,
        ensures
            c == total_count(shared.vec_store@),
    {
        let mut acc: u64 = 0;
        let mut i: usize = 0;
        while i < shared.vec_store.len()
            invariant
                i <= shared.vec_store@.len(),
                acc == total_count(shared.vec_store@.take(i as int)),
                total_count(shared.vec_store@) <= u64::MAX,
            decreases shared.vec_store@.len() - i,
        {
            proof {
                assert(shared.vec_store@.take(i + 1).drop_last() =~= shared.vec_store@.take(
                    i as int,
                ));
                assert(shared.vec_store@.take(i + 1).last() == shared.vec_store@[i as int]);
                lemma_total_count_prefix(shared.vec_store@, i as int);
                lemma_total_count_prefix(shared.vec_store@, i + 1);
            }
            acc = acc + shared.vec_store[i].1.logical_count;
            i = i + 1;
        }
        proof {
            assert(shared.vec_store@.take(shared.vec_store@.len() as int) =~= shared.vec_store@);
        }
        acc
    }

    /// Clear the current store.
    pub fn clear(&self, shared: &mut SharedState, disk: &Disk)
        requires
            self.wf(),
            old(shared).wf(),
            disk.wf(),
            self.compat(*old(shared)),
        ensures
            final(shared).wf(),
            preserves_rest(*old(shared), *final(shared)),
            final(shared).stores() == old(shared).stores().insert(
                self.current_store_name@,
                cleared_entry(disk_size(disk.contents(), self.current_store_name@)),
            ),
    {
        proof {
            self.lemma_current_in_shared(*old(shared));
        }
        let handle = self.get_current_store();
        handle.clear(shared, disk);
    }

    /// Clear every store this connection knows.
    pub fn clearall(&self, shared: &mut SharedState, disk: &Disk)
        requires
            self.wf(),
            old(shared).wf(),
            disk.wf(),
            self.compat(*old(shared)),
        ensures
            final(shared).wf(),
            preserves_rest(*old(shared), *final(shared)),
            final(shared).stores().dom() == old(shared).stores().dom(),
            forall|k: Seq<char>|
                old(shared).stores().contains_key(k) ==> #[trigger] final(shared).stores()[k]
                    == if self.local_stores().contains_key(k) {
                    cleared_entry(disk_size(disk.contents(), k))
                } else {
                    old(shared).stores()[k]
                },
    {
        let mut i: usize = 0;
        while i < self.store.len()
            invariant
                self.wf(),
                shared.wf(),
                disk.wf(),
                self.compat(*old(shared)),
                i <= self.store@.len(),
                preserves_rest(*old(shared), *shared),
                shared.stores().dom() == old(shared).stores().dom(),
                forall|k: Seq<char>|
                    old(shared).stores().contains_key(k) ==> #[trigger] shared.stores()[k] == if (
                    exists|j: int| 0 <= j < i && (#[trigger] self.store@[j]).0@ == k) {
                        cleared_entry(disk_size(disk.contents(), k))
                    } else {
                        old(shared).stores()[k]
                    },
            decreases self.store@.len() - i,
        {
            let handle = &self.store[i].1;
            proof {
                lemma_assoc_view_member(self.store@, i as int);
                self.lemma_known_in_shared(*old(shared), self.store@[i as int].0@);
                assert(shared.stores().dom() =~= old(shared).stores().dom());
            }
            let ghost prev = *shared;
            handle.clear(shared, disk);
            proof {
                assert forall|k: Seq<char>| old(shared).stores().contains_key(k) implies #[trigger] shared.stores()[k]
                    == if (exists|j: int|
                    0 <= j < i + 1 && (#[trigger] self.store@[j]).0@ == k) {
                    cleared_entry(disk_size(disk.contents(), k))
                } else {
                    old(shared).stores()[k]
                } by {
                    if k == self.store@[i as int].0@ {
                        assert(self.store@[i as int].0@ == k);
                    } else {
                        assert(!(exists|j: int| 0 <= j < i + 1 && self.store@[j].0@ == k)
                            <==> !(exists|j: int| 0 <= j < i && self.store@[j].0@ == k));
                    }
                }
                assert(shared.stores().dom() =~= old(shared).stores().dom());
            }
            i = i + 1;
        }
        proof {
            assert forall|k: Seq<char>| old(shared).stores().contains_key(k) implies #[trigger] shared.stores()[k]
                == if self.local_stores().contains_key(k) {
                cleared_entry(disk_size(disk.contents(), k))
            } else {
                old(shared).stores()[k]
            } by {
                if self.local_stores().contains_key(k) {
                    lemma_assoc_view_index(self.store@, k);
                } else {
                    if exists|j: int| 0 <= j < self.store@.len() && (#[trigger] self.store@[j]).0@
                        == k {
                        let j = choose|j: int|
                            0 <= j < self.store@.len() && (#[trigger] self.store@[j]).0@ == k;
                        lemma_assoc_view_member(self.store@, j);
                    }
                }
            }
        }
    }

    /// Flush the current store.
    pub fn flush(&self, shared: &mut SharedState, disk: &mut Disk)
        requires
            self.wf(),
            old(shared).wf(),
            old(disk).wf(),
            self.compat(*old(shared)),
        ensures
            final(shared).wf(),
            final(disk).wf(),
            preserves_rest(*old(shared), *final(shared)),
            final(shared).stores() == old(shared).stores().insert(
                self.current_store_name@,
                flushed_entry(old(shared).stores()[self.current_store_name@]),
            ),
            final(disk).contents() == flushed_disk(
                old(disk).contents(),
                self.current_store_name@,
                self.current_store_name@,
                old(shared).stores()[self.current_store_name@].buffer,
            ),
    {
        proof {
            self.lemma_current_in_shared(*old(shared));
        }
        let handle = self.get_current_store();
        let _ = handle.flush(shared, disk);
    }

    /// Flush every store this connection knows.
    pub fn flushall(&self, shared: &mut SharedState, disk: &mut Disk)
        requires
            self.wf(),
            old(shared).wf(),
            old(disk).wf(),
            self.compat(*old(shared)),
        ensures
            final(shared).wf(),
            final(disk).wf(),
            preserves_rest(*old(shared), *final(shared)),
            final(shared).stores().dom() == old(shared).stores().dom(),
            forall|k: Seq<char>|
                old(shared).stores().contains_key(k) ==> #[trigger] final(shared).stores()[k]
                    == if self.local_stores().contains_key(k) {
                    flushed_entry(old(shared).stores()[k])
                } else {
                    old(shared).stores()[k]
                },
            forall|k: Seq<char>|
                self.local_stores().contains_key(k) ==> #[trigger] file_at(
                    final(disk).contents(),
                    k,
                ) == file_at(
                    flushed_disk(
                        old(disk).contents(),
                        k,
                        k,
                        old(shared).stores()[k].buffer,
                    ),
                    k,
                ),
            forall|k: Seq<char>|
                !self.local_stores().contains_key(k) ==> #[trigger] file_at(
                    final(disk).contents(),
                    k,
                ) == file_at(old(disk).contents(), k),
    {
        let mut i: usize = 0;
        while i < self.store.len()
            invariant
                self.wf(),
                shared.wf(),
                disk.wf(),
                self.compat(*old(shared)),
                i <= self.store@.len(),
                preserves_rest(*old(shared), *shared),
                shared.stores().dom() == old(shared).stores().dom(),
                forall|k: Seq<char>|
                    old(shared).stores().contains_key(k) ==> #[trigger] shared.stores()[k] == if (
                    exists|j: int| 0 <= j < i && (#[trigger] self.store@[j]).0@ == k) {
                        flushed_entry(old(shared).stores()[k])
                    } else {
                        old(shared).stores()[k]
                    },
                forall|k: Seq<char>|
                    (exists|j: int| 0 <= j < i && (#[trigger] self.store@[j]).0@ == k)
                        ==> #[trigger] file_at(disk.contents(), k) == file_at(
                        flushed_disk(
                            old(disk).contents(),
                            k,
                            k,
                            old(shared).stores()[k].buffer,
                        ),
                        k,
                    ),
                forall|k: Seq<char>|
                    !(exists|j: int| 0 <= j < i && (#[trigger] self.store@[j]).0@ == k)
                        ==> #[trigger] file_at(disk.contents(), k) == file_at(
                        old(disk).contents(),
                        k,
                    ),
            decreases self.store@.len() - i,
        {
            let handle = &self.store[i].1;
            let ghost key = self.store@[i as int].0@;
            proof {
                lemma_assoc_view_member(self.store@, i as int);
                self.lemma_known_in_shared(*old(shared), key);
                assert(shared.stores().dom() =~= old(shared).stores().dom());
                assert(!(exists|j: int| 0 <= j < i && (#[trigger] self.store@[j]).0@ == key));
                assert(shared.stores()[key] == old(shared).stores()[key]);
                assert(file_at(disk.contents(), key) == file_at(old(disk).contents(), key));
            }
            let ghost dprev = *disk;
            let ghost sprev = *shared;
            let _ = handle.flush(shared, disk);
            proof {
                let buf = old(shared).stores()[key].buffer;
                assert(sprev.stores()[key] == old(shared).stores()[key]);
                assert(file_at(dprev.contents(), key) == file_at(old(disk).contents(), key));
                assert forall|k: Seq<char>| old(shared).stores().contains_key(k) implies #[trigger] shared.stores()[k]
                    == if (exists|j: int|
                    0 <= j < i + 1 && (#[trigger] self.store@[j]).0@ == k) {
                    flushed_entry(old(shared).stores()[k])
                } else {
                    old(shared).stores()[k]
                } by {
                    if k == key {
                        assert(self.store@[i as int].0@ == k);
                    } else {
                        assert(!(exists|j: int| 0 <= j < i + 1 && self.store@[j].0@ == k)
                            <==> !(exists|j: int| 0 <= j < i && self.store@[j].0@ == k));
                    }
                }
                assert forall|k: Seq<char>|
                    (exists|j: int| 0 <= j < i + 1 && (#[trigger] self.store@[j]).0@ == k)
                    implies #[trigger] file_at(disk.contents(), k) == file_at(
                    flushed_disk(old(disk).contents(), k, k, old(shared).stores()[k].buffer),
                    k,
                ) by {
                    if k == key {
                        if buf.len() == 0 {
                            assert(disk.contents() == dprev.contents());
                        } else {
                            assert(dprev.contents().contains_key(key) == old(
                                disk,
                            ).contents().contains_key(key));
                            if old(disk).contents().contains_key(key) {
                                assert(dprev.contents()[key] == old(disk).contents()[key]);
                            }
                            assert(crate::disk::flushed_file_value(dprev.contents(), key, key, buf)
                                == crate::disk::flushed_file_value(
                                old(disk).contents(),
                                key,
                                key,
                                buf,
                            ));
                            assert(file_at(disk.contents(), key) == Option::Some(
                                crate::disk::flushed_file_value(dprev.contents(), key, key, buf),
                            ));
                        }
                    } else {
                        assert(exists|j: int|
                            0 <= j < i && (#[trigger] self.store@[j]).0@ == k) by {
                            let j = choose|j: int|
                                0 <= j < i + 1 && (#[trigger] self.store@[j]).0@ == k;
                            assert(j != i);
                            assert(0 <= j < i && self.store@[j].0@ == k);
                        }
                        assert(file_at(disk.contents(), k) == file_at(dprev.contents(), k));
                    }
                }
                assert forall|k: Seq<char>|
                    !(exists|j: int| 0 <= j < i + 1 && (#[trigger] self.store@[j]).0@ == k)
                    implies #[trigger] file_at(disk.contents(), k) == file_at(
                    old(disk).contents(),
                    k,
                ) by {
                    assert(self.store@[i as int].0@ == key);
                    assert(k != key);
                    assert(!(exists|j: int| 0 <= j < i && (#[trigger] self.store@[j]).0@ == k));
                    assert(file_at(disk.contents(), k) == file_at(dprev.contents(), k));
                }
                assert(shared.stores().dom() =~= old(shared).stores().dom());
            }
            i = i + 1;
        }
        proof {
            assert forall|k: Seq<char>| old(shared).stores().contains_key(k) implies #[trigger] shared.stores()[k]
                == if self.local_stores().contains_key(k) {
                flushed_entry(old(shared).stores()[k])
            } else {
                old(shared).stores()[k]
            } by {
                if self.local_stores().contains_key(k) {
                    lemma_assoc_view_index(self.store@, k);
                } else {
                    if exists|j: int| 0 <= j < self.store@.len() && (#[trigger] self.store@[j]).0@
                        == k {
                        let j = choose|j: int|
                            0 <= j < self.store@.len() && (#[trigger] self.store@[j]).0@ == k;
                        lemma_assoc_view_member(self.store@, j);
                    }
                }
            }
            assert forall|k: Seq<char>| self.local_stores().contains_key(k) implies #[trigger] file_at(
                disk.contents(),
                k,
            ) == file_at(
                flushed_disk(old(disk).contents(), k, k, old(shared).stores()[k].buffer),
                k,
            ) by {
                lemma_assoc_view_index(self.store@, k);
            }
            assert forall|k: Seq<char>| !self.local_stores().contains_key(k) implies #[trigger] file_at(
                disk.contents(),
                k,
            ) == file_at(old(disk).contents(), k) by {
                if exists|j: int| 0 <= j < self.store@.len() && (#[trigger] self.store@[j]).0@
                    == k {
                    let j = choose|j: int|
                        0 <= j < self.store@.len() && (#[trigger] self.store@[j]).0@ == k;
                    lemma_assoc_view_member(self.store@, j);
                }
            }
        }
    }

    /// The `info` report: one lock-once snapshot of the whole registry —
    /// process metadata (connections, thread budget, clock reading,
    /// autoflush configuration, base directory, registry-wide count) and one
    /// row per store. `now_secs` is the caller's clock reading, in Unix
    /// seconds.
    pub fn info(&self, shared: &SharedState, now_secs: u64) -> (r: String)
        requires
            shared.wf(),
            total_count(shared.vec_store@) <= u64::MAX,
        ensures
            r@ == info_json(*shared, now_secs),
    {
        let total = self.countall(shared);
        info_string(shared, now_secs, total)
    }

    /// The `perf` report: every store's rolling size samples, rendered from
    /// one snapshot.
    pub fn perf(&self, shared: &SharedState) -> (r: String)
        ensures
            r@ == perf_json(shared.history@),
    {
        perf_string(shared)
    }

    /// The first `count` buffered records of the current store in binary
    /// wire form, or the whole buffer when no count is given; no result on a
    /// short page, as [`page_of`] says.
    pub fn get(&self, shared: &SharedState, count: Option<u32>) -> (r: Option<Vec<u8>>)
        requires
            self.wf(),
            shared.wf(),
            self.compat(*shared),
        ensures
            ({
                let page = page_of(shared.stores()[self.current_store_name@].buffer, count);
                match r {
                    Some(b) => page matches Some(sel) && b@ == wire_batch(sel),
                    None => page is None,
                }
            }),
    {
        match self.get_aux(shared, count) {
            Some(v) => {
                let mut bytes: Vec<u8> = Vec::new();
                write_batches(&mut bytes, &v);
                proof {
                    assert(bytes@ =~= wire_batch(v@));
                }
                Some(bytes)
            },
            None => None,
        }
    }

    /// The first `count` buffered records of the current store as a JSON
    /// array, or the whole buffer when no count is given; no result on a
    /// short page, as [`page_of`] says.
    pub fn get_n_as_json(&self, shared: &SharedState, count: Option<u32>) -> (r: Option<String>)
        requires
            self.wf(),
            shared.wf(),
            self.compat(*shared),
        ensures
            ({
                let page = page_of(shared.stores()[self.current_store_name@].buffer, count);
                match r {
                    Some(s) => page matches Some(sel) && s@ == "["@ + update_list_json(sel)
                        + "]\n"@,
                    None => page is None,
                }
            }),
    {
        match self.get_aux(shared, count) {
            Some(v) => {
                let body = update_vec_to_json(&v);
                let mut out = String::new();
                out.append("[");
                out.append(body.as_str());
                out.append("]\n");
                proof {
                    assert(out@ =~= "["@ + update_list_json(v@) + "]\n"@);
                }
                Some(out)
            },
            None => None,
        }
    }

    /// The first records of the current store's buffer, as [`page_of`] says.
    fn get_aux(&self, shared: &SharedState, count: Option<u32>) -> (r: Option<Vec<Update>>)
        requires
            self.wf(),
            shared.wf(),
            self.compat(*shared),
        ensures
            match r {
                Some(v) => page_of(shared.stores()[self.current_store_name@].buffer, count)
                    == Option::Some(v@),
                None => page_of(shared.stores()[self.current_store_name@].buffer, count)
                    == Option::<Seq<Update>>::None,
            },
    {
        proof {
            self.lemma_current_in_shared(*shared);
        }
        match assoc_find(&shared.vec_store, &self.current_store_name) {
            Some(i) => {
                proof {
                    lemma_assoc_view_member(shared.vec_store@, i as int);
                }
                let buf = &shared.vec_store[i].1.buffer;
                let k: usize = match count {
                    None => buf.len(),
                    Some(n) => {
                        if buf.len() < n as usize || buf.len() == 0 {
                            return None;
                        }
                        n as usize
                    },
                };
                let mut out: Vec<Update> = Vec::new();
                let mut j: usize = 0;
                while j < k
                    invariant
                        j <= k,
                        k <= buf@.len(),
                        out@ == buf@.take(j as int),
                    decreases k - j,
                {
                    out.push(buf[j]);
                    assert(out@ =~= buf@.take(j + 1));
                    j = j + 1;
                }
                proof {
                    assert(buf@.take(buf@.len() as int) =~= buf@);
                }
                Some(out)
            },
            None => {
                proof {
                    lemma_assoc_view_absent(shared.vec_store@, self.current_store_name@);
                }
                unreached()
            },
        }
    }
}

} // verus!
