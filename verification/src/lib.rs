//! In-process storage engine for a tick-data server.
//!
//! The library manages named, append-only collections of timestamped market
//! updates ("stores"): new records are buffered in memory inside a shared
//! registry, persisted on demand (or automatically, once a buffer crosses a
//! configured multiple) to one file per store, and read back on request.
//!
//! The persistent layer is modeled as an explicit value, [`disk::Disk`]: a
//! mapping from file name to the decoded content of one tick file. Every
//! operation the server performs against the file system is a verified
//! transition on that value, so the whole buffering / flush / load state
//! machine is specified and proved here. An embedding program supplies the
//! byte-level persistence and the clock, and serializes the operations of one
//! registry exactly as the server's single registry-wide writer lock does:
//! each method call below is the effect of one critical section.

pub mod assoc;
pub mod disk;
pub mod json;
pub mod laws;
pub mod registry;
pub mod settings;
pub mod state;
pub mod store;
pub mod tick;
pub mod wire;
