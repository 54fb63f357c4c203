//! The persistent layer, as the engine observes it through the codec.
//!
//! One store persists as one tick file: a header naming the store and an
//! ordered run of records. The four codec operations the engine consumes —
//! encode a fresh file, append strictly-newer records to an existing one,
//! decode a full or bounded prefix, and read the header's record count — are
//! transitions and queries on a [`Disk`] value, the mapping from file name to
//! file content.

use vstd::prelude::*;

use crate::assoc::assoc_find;
use crate::assoc::assoc_view;
use crate::assoc::keys_unique;
use crate::assoc::lemma_assoc_view_absent;
use crate::assoc::lemma_assoc_view_member;
use crate::assoc::lemma_assoc_view_push;
use crate::assoc::lemma_assoc_view_update;
use crate::tick::Update;

verus! {

/// The decoded content of one tick file.
pub struct TickFile {
    /// Store identity recorded in the header.
    pub store_name: String,
    /// The records, in file order.
    pub records: Vec<Update>,
}

/// Mathematical image of one tick file.
pub struct FileModel {
    pub store_name: Seq<char>,
    pub records: Seq<Update>,
}

impl View for TickFile {
    type V = FileModel;

    open spec fn view(&self) -> FileModel {
        FileModel { store_name: self.store_name@, records: self.records@ }
    }
}

/// The whole persistent layer: every tick file, keyed by file name.
pub struct Disk {
    pub files: Vec<(String, TickFile)>,
}

/// Timestamp that an append must strictly exceed: the trailing record's, or
/// less than every timestamp when the file is empty.
pub open spec fn tail_ts(records: Seq<Update>) -> int {
    if records.len() == 0 {
        -1
    } else {
        records.last().ts as int
    }
}

/// The subsequence of `ups`, in order, whose timestamps strictly exceed `t`.
pub open spec fn newer_than(ups: Seq<Update>, t: int) -> Seq<Update>
    decreases ups.len(),
{
    if ups.len() == 0 {
        Seq::empty()
    } else if ups.last().ts > t {
        newer_than(ups.drop_last(), t).push(ups.last())
    } else {
        newer_than(ups.drop_last(), t)
    }
}

/// One step of the append filter, for a prefix growing from the left.
pub proof fn lemma_newer_than_take_step(ups: Seq<Update>, t: int, i: int)
    requires
        0 <= i < ups.len(),
    ensures
        newer_than(ups.take(i + 1), t) == if ups[i].ts > t {
            newer_than(ups.take(i), t).push(ups[i])
        } else {
            newer_than(ups.take(i), t)
        },
{
    assert(ups.take(i + 1).drop_last() =~= ups.take(i));
    assert(ups.take(i + 1).last() == ups[i]);
}

/// What a bounded decode returns: the whole run, or its first `n` records.
pub open spec fn decoded(records: Seq<Update>, limit: Option<usize>) -> Seq<Update> {
    match limit {
        Option::None => records,
        Option::Some(n) => if n <= records.len() {
            records.take(n as int)
        } else {
            records
        },
    }
}

/// The file that one flush of `buffer` leaves at `fname`: an existing file
/// grows by the strictly-newer records, an absent one is created whole.
pub open spec fn flushed_file_value(
    disk: Map<Seq<char>, FileModel>,
    fname: Seq<char>,
    store_name: Seq<char>,
    buffer: Seq<Update>,
) -> FileModel {
    if disk.contains_key(fname) {
        FileModel {
            store_name: disk[fname].store_name,
            records: disk[fname].records + newer_than(buffer, tail_ts(disk[fname].records)),
        }
    } else {
        FileModel { store_name, records: buffer }
    }
}

/// The persistent layer after one flush: untouched for an empty buffer,
/// otherwise the one file at `fname` written as [`flushed_file_value`] says.
pub open spec fn flushed_disk(
    disk: Map<Seq<char>, FileModel>,
    fname: Seq<char>,
    store_name: Seq<char>,
    buffer: Seq<Update>,
) -> Map<Seq<char>, FileModel> {
    if buffer.len() == 0 {
        disk
    } else {
        disk.insert(fname, flushed_file_value(disk, fname, store_name, buffer))
    }
}

/// The file at `fname`, or nothing when no file of that name exists.
pub open spec fn file_at(disk: Map<Seq<char>, FileModel>, fname: Seq<char>) -> Option<FileModel> {
    if disk.contains_key(fname) {
        Option::Some(disk[fname])
    } else {
        Option::None
    }
}

/// The header count of the file at `fname`; an absent file holds no records.
pub open spec fn disk_size(disk: Map<Seq<char>, FileModel>, fname: Seq<char>) -> u64 {
    if disk.contains_key(fname) {
        disk[fname].records.len() as u64
    } else {
        0
    }
}

/// Copy a run of records.
pub fn copy_updates(v: &Vec<Update>) -> (r: Vec<Update>)
    ensures
        r@ == v@,
{
    let mut r: Vec<Update> = Vec::new();
    let mut i: usize = 0;
    while i < v.len()
        invariant
            i <= v@.len(),
            r@ == v@.take(i as int),
        decreases v@.len() - i,
    {
        r.push(v[i]);
        assert(v@.take(i + 1).drop_last() =~= v@.take(i as int));
        assert(r@ =~= v@.take(i + 1));
        i = i + 1;
    }
    assert(v@.take(v@.len() as int) =~= v@);
    r
}

/// The records of `ups` strictly newer than `tail` (`None`: keep them all).
fn filter_newer(ups: &Vec<Update>, tail: Option<u64>) -> (r: Vec<Update>)
    ensures
        r@ == newer_than(
            ups@,
            match tail {
                Option::None => -1,
                Option::Some(t) => t as int,
            },
        ),
{
    let ghost t: int = match tail {
        Option::None => -1,
        Option::Some(t) => t as int,
    };
    let mut r: Vec<Update> = Vec::new();
    let mut i: usize = 0;
    while i < ups.len()
        invariant
            i <= ups@.len(),
            r@ == newer_than(ups@.take(i as int), t),
            t == match tail {
                Option::None => -1,
                Option::Some(tv) => tv as int,
            },
        decreases ups@.len() - i,
    {
        let keep = match tail {
            Option::None => true,
            Option::Some(tv) => ups[i].ts > tv,
        };
        proof {
            lemma_newer_than_take_step(ups@, t, i as int);
        }
        if keep {
            r.push(ups[i]);
        }
        i = i + 1;
    }
    assert(ups@.take(ups@.len() as int) =~= ups@);
    r
}

impl Disk {
    /// Distinct file names.
    pub open spec fn wf(&self) -> bool {
        keys_unique(self.files@)
    }

    /// The mapping from file name to file content.
    pub open spec fn contents(&self) -> Map<Seq<char>, FileModel> {
        assoc_view(self.files@)
    }

    /// An empty persistent layer.
    pub fn new() -> (d: Disk)
        ensures
            d.wf(),
            d.contents() == Map::<Seq<char>, FileModel>::empty(),
    {
        Disk { files: Vec::new() }
    }

    fn find(&self, fname: &String) -> (r: Option<usize>)
        requires
            self.wf(),
        ensures
            match r {
                Some(i) => i < self.files@.len() && self.files@[i as int].0@ == fname@
                    && self.contents().contains_key(fname@) && self.contents()[fname@]
                    == self.files@[i as int].1@,
                None => !self.contents().contains_key(fname@) && forall|i: int|
                    0 <= i < self.files@.len() ==> self.files@[i].0@ != fname@,
            },
    {
        let r = assoc_find(&self.files, fname);
        proof {
            match r {
                Some(i) => lemma_assoc_view_member(self.files@, i as int),
                None => lemma_assoc_view_absent(self.files@, fname@),
            }
        }
        r
    }

    /// Whether a file of that name exists.
    pub fn exists_file(&self, fname: &String) -> (r: bool)
        requires
            self.wf(),
        ensures
            r == self.contents().contains_key(fname@),
    {
        self.find(fname).is_some()
    }

    /// Relied-on codec operation `encode`: write a fresh file holding the
    /// header and the full run of `ups`, replacing any file of that name.
    pub fn encode(&mut self, fname: &String, store_name: &String, ups: &Vec<Update>)
        requires
            old(self).wf(),
        ensures
            final(self).wf(),
            final(self).contents() == old(self).contents().insert(
                fname@,
                FileModel { store_name: store_name@, records: ups@ },
            ),
    {
        let tf = TickFile { store_name: store_name.clone(), records: copy_updates(ups) };
        let r = self.find(fname);
        match r {
            Some(i) => {
                let ghost before = self.files@;
                let pair = self.files.remove(i);
                self.files.insert(i, (pair.0, tf));
                proof {
                    assert(self.files@ =~= before.update(i as int, (before[i as int].0, self.files@[i as int].1)));
                    lemma_assoc_view_update(before, i as int, self.files@[i as int].1);
                }
            },
            None => {
                proof {
                    lemma_assoc_view_push(self.files@, *fname, tf);
                }
                self.files.push((fname.clone(), tf));
            },
        }
    }

    /// Relied-on codec operation `append`: extend an existing file by the
    /// records of `ups` strictly newer than the file's trailing timestamp.
    pub fn append(&mut self, fname: &String, ups: &Vec<Update>)
        requires
            old(self).wf(),
            old(self).contents().contains_key(fname@),
        ensures
            final(self).wf(),
            final(self).contents() == old(self).contents().insert(
                fname@,
                FileModel {
                    store_name: old(self).contents()[fname@].store_name,
                    records: old(self).contents()[fname@].records + newer_than(
                        ups@,
                        tail_ts(old(self).contents()[fname@].records),
                    ),
                },
            ),
    {
        let r = self.find(fname);
        match r {
            Some(i) => {
                let n = self.files[i].1.records.len();
                let tail: Option<u64> = if n == 0 {
                    None
                } else {
                    Some(self.files[i].1.records[n - 1].ts)
                };
                let mut fresh = filter_newer(ups, tail);
                let ghost before = self.files@;
                let mut pair = self.files.remove(i);
                pair.1.records.append(&mut fresh);
                self.files.insert(i, pair);
                proof {
                    assert(self.files@ =~= before.update(i as int, (before[i as int].0, self.files@[i as int].1)));
                    lemma_assoc_view_update(before, i as int, self.files@[i as int].1);
                }
            },
            None => {
                proof {
                    assert(false);
                }
            },
        }
    }

    /// Relied-on codec operation `get_size`: the header's record count,
    /// without reading the body. `None` when no file of that name exists.
    pub fn get_size(&self, fname: &String) -> (r: Option<u64>)
        requires
            self.wf(),
        ensures
            match r {
                Some(n) => self.contents().contains_key(fname@) && n == disk_size(
                    self.contents(),
                    fname@,
                ),
                None => !self.contents().contains_key(fname@),
            },
    {
        match self.find(fname) {
            Some(i) => Some(self.files[i].1.records.len() as u64),
            None => None,
        }
    }

    /// Relied-on codec operation `decode`: the full record run, or its first
    /// `limit` records. `None` when no file of that name exists.
    pub fn decode(&self, fname: &String, limit: Option<usize>) -> (r: Option<Vec<Update>>)
        requires
            self.wf(),
        ensures
            match r {
                Some(v) => self.contents().contains_key(fname@) && v@ == decoded(
                    self.contents()[fname@].records,
                    limit,
                ),
                None => !self.contents().contains_key(fname@),
            },
    {
        match self.find(fname) {
            Some(i) => {
                let recs = &self.files[i].1.records;
                let k: usize = match limit {
                    None => recs.len(),
                    Some(n) => if n <= recs.len() {
                        n
                    } else {
                        recs.len()
                    },
                };
                let mut out: Vec<Update> = Vec::new();
                let mut j: usize = 0;
                while j < k
                    invariant
                        j <= k,
                        k <= recs@.len(),
                        out@ == recs@.take(j as int),
                    decreases k - j,
                {
                    out.push(recs[j]);
                    assert(out@ =~= recs@.take(j + 1));
                    j = j + 1;
                }
                proof {
                    assert(recs@.take(recs@.len() as int) =~= recs@);
                }
                Some(out)
            },
            None => None,
        }
    }
}

} // verus!
