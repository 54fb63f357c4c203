//! Server configuration as the engine sees it.

use vstd::prelude::*;

verus! {

/// Configuration shared by every connection.
///
/// `flush_interval` must be at least 1: the autoflush check divides the
/// buffer length by it.
pub struct Settings {
    /// Persist a store automatically once its buffer length is a multiple of
    /// `flush_interval`.
    pub autoflush: bool,
    /// The multiple at which autoflush triggers.
    pub flush_interval: u32,
    /// Thread budget reported by `info`.
    pub threads: u64,
    /// Base directory of the tick files, reported by `info`.
    pub dtf_folder: String,
}

impl Settings {
    /// A usable configuration: the autoflush divisor is non-zero.
    pub open spec fn wf(&self) -> bool {
        self.flush_interval >= 1
    }

    pub fn new(autoflush: bool, flush_interval: u32, threads: u64, dtf_folder: String) -> (s:
        Settings)
        requires
            flush_interval >= 1,
        ensures
            s.autoflush == autoflush,
            s.flush_interval == flush_interval,
            s.threads == threads,
            s.dtf_folder@ == dtf_folder@,
            s.wf(),
    {
        Settings { autoflush, flush_interval, threads, dtf_folder }
    }
}

} // verus!
