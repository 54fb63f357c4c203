//! The record type held by every store.

use vstd::prelude::*;

verus! {

/// One immutable tick / order-book record.
///
/// The engine never interprets a record beyond its timestamp, which orders
/// records within a file: appends keep only records strictly newer than the
/// file's trailing timestamp. Prices and sizes travel as the raw bit patterns
/// of the producer's 32-bit floating-point values; the engine treats them as
/// opaque payload words, and an embedding converts at the boundary.
#[derive(Clone, Copy, PartialEq, Eq, Structural, Debug)]
pub struct Update {
    /// Event timestamp; the ordering key of a store's file.
    pub ts: u64,
    /// Exchange sequence number.
    pub seq: u32,
    /// Trade event (`true`) or book-level event (`false`).
    pub is_trade: bool,
    /// Bid side (`true`) or ask side (`false`).
    pub is_bid: bool,
    /// Bit pattern of the 32-bit price.
    pub price_bits: u32,
    /// Bit pattern of the 32-bit size.
    pub size_bits: u32,
}

} // verus!
