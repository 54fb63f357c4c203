//! Engine-wide laws, stated over the same abstract transitions that the
//! operations' contracts use, and proved once for all inputs.

use vstd::prelude::*;

use crate::assoc::lemma_assoc_view_member;
use crate::disk::FileModel;
use crate::disk::disk_size;
use crate::disk::flushed_disk;
use crate::registry::EntryModel;
use crate::registry::SharedState;
use crate::registry::total_count;
use crate::registry::added_entry;
use crate::registry::autoflush_due;
use crate::registry::cleared_entry;
use crate::registry::flushed_entry;
use crate::registry::loaded_entry;
use crate::settings::Settings;
use crate::tick::Update;

verus! {

/// A sequence of operations on one store's entry: an insert of one record
/// (`Some`) or a flush (`None`), applied oldest first.
pub open spec fn apply_ops(e: EntryModel, ops: Seq<Option<Update>>) -> EntryModel
    decreases ops.len(),
{
    if ops.len() == 0 {
        e
    } else {
        let prev = apply_ops(e, ops.drop_last());
        match ops.last() {
            Option::Some(u) => added_entry(prev, u),
            Option::None => flushed_entry(prev),
        }
    }
}

/// How many of the operations are inserts.
pub open spec fn n_adds(ops: Seq<Option<Update>>) -> int
    decreases ops.len(),
{
    if ops.len() == 0 {
        0int
    } else {
        n_adds(ops.drop_last()) + if ops.last() is Some {
            1int
        } else {
            0int
        }
    }
}

/// Each operation adds at most one to the insert count.
pub proof fn lemma_n_adds_bounds(ops: Seq<Option<Update>>)
    ensures
        0 <= n_adds(ops) <= ops.len(),
    decreases ops.len(),
{
    if ops.len() > 0 {
        lemma_n_adds_bounds(ops.drop_last());
    }
}

/// Count monotonicity: however inserts to one store interleave with
/// flushes — its own autoflushes included — and with other stores'
/// operations, which never touch this entry, the logical count after the
/// run exceeds the starting count by exactly the number of inserts.
pub proof fn lemma_count_monotonic(e: EntryModel, ops: Seq<Option<Update>>)
    requires
        e.logical_count + n_adds(ops) <= u64::MAX,
    ensures
        apply_ops(e, ops).logical_count == e.logical_count + n_adds(ops),
    decreases ops.len(),
{
    if ops.len() > 0 {
        lemma_n_adds_bounds(ops.drop_last());
        lemma_count_monotonic(e, ops.drop_last());
    }
}

/// Flush idempotence of data, not of file identity: flushing an empty
/// buffer performs no codec write — the persistent layer is exactly what it
/// was — and leaves the logical count unchanged.
pub proof fn lemma_flush_empty_no_write(
    disk: Map<Seq<char>, FileModel>,
    fname: Seq<char>,
    store_name: Seq<char>,
    e: EntryModel,
)
    requires
        e.buffer.len() == 0,
    ensures
        flushed_disk(disk, fname, store_name, e.buffer) == disk,
        flushed_entry(e).logical_count == e.logical_count,
{
}

/// Load/clear round-trip: clearing a store whose file exists and whose
/// buffer held exactly the file's records, then loading it again, yields a
/// buffer of the same length — indeed the same records — and a logical
/// count equal to disk truth.
pub proof fn lemma_clear_load_roundtrip(
    e: EntryModel,
    disk: Map<Seq<char>, FileModel>,
    name: Seq<char>,
)
    requires
        disk.contains_key(name),
        e.buffer == disk[name].records,
    ensures
        ({
            let cleared = cleared_entry(disk_size(disk, name));
            let reloaded = loaded_entry(cleared, disk[name].records);
            &&& !cleared.in_memory
            &&& reloaded.buffer.len() == e.buffer.len()
            &&& reloaded.buffer == e.buffer
            &&& reloaded.logical_count == disk_size(disk, name)
        }),
{
    let cleared = cleared_entry(disk_size(disk, name));
    assert(cleared.buffer + disk[name].records =~= disk[name].records);
}

/// The logical counts of the first `n` registry entries, each read through
/// the same mapping that one store's `count` reports from.
pub open spec fn sum_of_counts(s: SharedState, n: int) -> int
    decreases n,
{
    if n <= 0 {
        0int
    } else {
        sum_of_counts(s, n - 1) + s.stores()[s.vec_store@[n - 1].0@].logical_count
    }
}

/// Registry-wide count: the total that `countall` reports equals the sum of
/// the per-store counts that `count` reports, over every entry in the
/// shared registry — stores a connection never touched included.
pub proof fn lemma_countall_is_sum_of_counts(s: SharedState)
    requires
        s.wf(),
    ensures
        total_count(s.vec_store@) == sum_of_counts(s, s.vec_store@.len() as int),
{
    lemma_sum_prefix(s, s.vec_store@.len() as int);
    assert(s.vec_store@.take(s.vec_store@.len() as int) =~= s.vec_store@);
}

proof fn lemma_sum_prefix(s: SharedState, n: int)
    requires
        s.wf(),
        0 <= n <= s.vec_store@.len(),
    ensures
        total_count(s.vec_store@.take(n)) == sum_of_counts(s, n),
    decreases n,
{
    if n > 0 {
        lemma_sum_prefix(s, n - 1);
        assert(s.vec_store@.take(n).drop_last() =~= s.vec_store@.take(n - 1));
        assert(s.vec_store@.take(n).last() == s.vec_store@[n - 1]);
        lemma_assoc_view_member(s.vec_store@, n - 1);
    }
}

/// The entry after one insert, autoflush included: buffered and counted,
/// then flushed exactly when the resulting buffer length crosses the
/// configured multiple.
pub open spec fn add_step(st: Settings, e: EntryModel, u: Update) -> EntryModel {
    let e1 = added_entry(e, u);
    if autoflush_due(st, e1.buffer.len()) {
        flushed_entry(e1)
    } else {
        e1
    }
}

/// A run of inserts, oldest first.
pub open spec fn add_steps(st: Settings, e: EntryModel, ups: Seq<Update>) -> EntryModel
    decreases ups.len(),
{
    if ups.len() == 0 {
        e
    } else {
        add_step(st, add_steps(st, e, ups.drop_last()), ups.last())
    }
}

/// Autoflush trigger: with autoflush enabled, inserting up to
/// `flush_interval` records into a store whose buffer starts empty grows
/// the buffer by exactly one record per insert — no flush fires early — and
/// the insert that reaches the interval triggers exactly one flush, leaving
/// the buffer empty immediately after it.
pub proof fn lemma_autoflush_trigger(st: Settings, e: EntryModel, ups: Seq<Update>)
    requires
        st.wf(),
        st.autoflush,
        e.buffer.len() == 0,
        ups.len() <= st.flush_interval,
        e.logical_count + ups.len() <= u64::MAX,
    ensures
        add_steps(st, e, ups).logical_count == e.logical_count + ups.len(),
        add_steps(st, e, ups).buffer.len() == if ups.len() < st.flush_interval {
            ups.len() as int
        } else {
            0int
        },
    decreases ups.len(),
{
    if ups.len() > 0 {
        lemma_autoflush_trigger(st, e, ups.drop_last());
        let prev = add_steps(st, e, ups.drop_last());
        let e1 = added_entry(prev, ups.last());
        assert(e1.buffer.len() == ups.len());
        if ups.len() < st.flush_interval {
            vstd::arithmetic::div_mod::lemma_small_mod(ups.len(), st.flush_interval as nat);
            assert(ups.len() % (st.flush_interval as nat) == ups.len());
            assert(!autoflush_due(st, e1.buffer.len()));
        } else {
            assert(ups.len() == st.flush_interval);
            vstd::arithmetic::div_mod::lemma_mod_self_0(st.flush_interval as int);
            assert(ups.len() % (st.flush_interval as nat) == 0);
            assert(autoflush_due(st, e1.buffer.len()));
        }
    }
}

} // verus!
