//! The shared store registry: the single source of truth for every store's
//! buffer, logical count, materialization flag, connection accounting, and
//! historical size samples.
//!
//! In the running server one reader/writer lock guards a single value of
//! [`SharedState`]; every operation below is the effect of one critical
//! section of that lock.

use vstd::prelude::*;

use crate::assoc::assoc_view;
use crate::assoc::keys_unique;
use crate::settings::Settings;
use crate::tick::Update;

verus! {

/// One store's shared entry: its buffered records and its logical count.
///
/// The logical count is authoritative even when the buffer has been cleared
/// from memory: it is incremented by exactly one on every successful insert
/// and only ever overwritten from a file header's count. `in_memory` records
/// whether the buffer has been materialized from the store's file; it lives
/// here, one flag per store, so that every connection observes the same
/// materialization state.
pub struct StoreEntry {
    /// Buffered records, insertion order = arrival order.
    pub buffer: Vec<Update>,
    /// Running count of records the store is understood to contain.
    pub logical_count: u64,
    /// Whether the store's file has been materialized into the buffer.
    pub in_memory: bool,
}

/// Mathematical image of one registry entry.
pub struct EntryModel {
    pub buffer: Seq<Update>,
    pub logical_count: u64,
    pub in_memory: bool,
}

impl View for StoreEntry {
    type V = EntryModel;

    open spec fn view(&self) -> EntryModel {
        EntryModel {
            buffer: self.buffer@,
            logical_count: self.logical_count,
            in_memory: self.in_memory,
        }
    }
}

/// One size sample of one store, for the `perf` report.
#[derive(Clone, Copy, PartialEq, Eq, Structural, Debug)]
pub struct HistPoint {
    /// Unix timestamp of the sample, in seconds.
    pub ts: u64,
    /// Sampled size.
    pub size: u64,
}

/// Process-wide state, owned jointly by every connection handler.
pub struct SharedState {
    /// Number of connected clients.
    pub n_cxns: u16,
    /// Server configuration.
    pub settings: Settings,
    /// The registry: store name to its entry.
    pub vec_store: Vec<(String, StoreEntry)>,
    /// Rolling size samples per store; append-only, never pruned here.
    pub history: Vec<(String, Vec<HistPoint>)>,
}

/// An empty registry entry: no buffer, zero count, nothing materialized.
pub open spec fn empty_entry() -> EntryModel {
    EntryModel { buffer: Seq::empty(), logical_count: 0, in_memory: false }
}

/// The entry after one insert: the record is buffered and the logical count
/// grows by one.
pub open spec fn added_entry(e: EntryModel, up: Update) -> EntryModel {
    EntryModel {
        buffer: e.buffer.push(up),
        logical_count: (e.logical_count + 1) as u64,
        in_memory: e.in_memory,
    }
}

/// The entry after a flush: the buffer is emptied (its data lives on disk),
/// the logical count is untouched, nothing is materialized.
pub open spec fn flushed_entry(e: EntryModel) -> EntryModel {
    EntryModel { buffer: Seq::empty(), logical_count: e.logical_count, in_memory: false }
}

/// The entry after a load materializes `recs` from the store's file.
pub open spec fn loaded_entry(e: EntryModel, recs: Seq<Update>) -> EntryModel {
    EntryModel { buffer: e.buffer + recs, logical_count: e.logical_count, in_memory: true }
}

/// The entry after its logical count is resynchronized from disk truth.
pub open spec fn resynced_entry(e: EntryModel, disk_count: u64) -> EntryModel {
    EntryModel { buffer: e.buffer, logical_count: disk_count, in_memory: e.in_memory }
}

/// The entry after a clear: buffer emptied, nothing materialized, and the
/// logical count reflecting disk truth rather than zero.
pub open spec fn cleared_entry(disk_count: u64) -> EntryModel {
    EntryModel { buffer: Seq::empty(), logical_count: disk_count, in_memory: false }
}

/// Whether an insert that left the buffer at length `len` must flush.
pub open spec fn autoflush_due(settings: Settings, len: nat) -> bool {
    settings.autoflush && len != 0 && len % (settings.flush_interval as nat) == 0
}

/// Sum of the logical counts of every entry.
pub open spec fn total_count(s: Seq<(String, StoreEntry)>) -> int
    decreases s.len(),
{
    if s.len() == 0 {
        0
    } else {
        total_count(s.drop_last()) + s.last().1.logical_count
    }
}

/// The sum over a prefix never exceeds the sum over the whole registry.
pub proof fn lemma_total_count_prefix(s: Seq<(String, StoreEntry)>, i: int)
    requires
        0 <= i <= s.len(),
    ensures
        total_count(s.take(i)) <= total_count(s),
        total_count(s.take(i)) >= 0,
    decreases s.len() - i,
{
    if i == s.len() {
        assert(s.take(i) =~= s);
        lemma_total_count_nonneg(s);
    } else {
        assert(s.take(i + 1).drop_last() =~= s.take(i));
        assert(s.take(i + 1).last() == s[i]);
        lemma_total_count_prefix(s, i + 1);
        lemma_total_count_nonneg(s.take(i));
    }
}

/// Every sum of logical counts is non-negative.
pub proof fn lemma_total_count_nonneg(s: Seq<(String, StoreEntry)>)
    ensures
        total_count(s) >= 0,
    decreases s.len(),
{
    if s.len() > 0 {
        lemma_total_count_nonneg(s.drop_last());
    }
}

impl SharedState {
    /// The mapping from store name to its entry.
    pub open spec fn stores(&self) -> Map<Seq<char>, EntryModel> {
        assoc_view(self.vec_store@)
    }

    /// The mapping from store name to its size samples.
    pub open spec fn samples(&self) -> Map<Seq<char>, Seq<HistPoint>> {
        assoc_view(self.history@)
    }

    /// Registry invariant: distinct keys, a usable configuration, and the
    /// seeded `"default"` entry, which no operation removes.
    pub open spec fn wf(&self) -> bool {
        &&& keys_unique(self.vec_store@)
        &&& keys_unique(self.history@)
        &&& self.settings.wf()
        &&& self.stores().contains_key("default"@)
    }

    /// Construction seeds exactly one entry, `"default"`, empty.
    pub fn new(settings: Settings) -> (s: SharedState)
        requires
            settings.wf(),
        ensures
            s.wf(),
            s.n_cxns == 0,
            s.settings == settings,
            s.history@.len() == 0,
            s.vec_store@.len() == 1,
            s.vec_store@[0].0@ == "default"@,
            s.stores() == Map::<Seq<char>, EntryModel>::empty().insert("default"@, empty_entry()),
    {
        let mut vec_store: Vec<(String, StoreEntry)> = Vec::new();
        let entry = StoreEntry { buffer: Vec::new(), logical_count: 0, in_memory: false };
        vec_store.push(("default".to_owned(), entry));
        let s = SharedState { n_cxns: 0, settings, vec_store, history: Vec::new() };
        proof {
            assert(s.vec_store@.drop_last() =~= Seq::<(String, StoreEntry)>::empty());
            assert(assoc_view::<StoreEntry>(Seq::empty()) =~= Map::<Seq<char>, EntryModel>::empty());
            assert(s.vec_store@.last().1@.buffer =~= Seq::<Update>::empty());
            assert(s.vec_store@.last().1@ == empty_entry());
            assert(s.stores() =~= Map::<Seq<char>, EntryModel>::empty().insert(
                "default"@,
                empty_entry(),
            ));
        }
        s
    }
}

} // verus!
