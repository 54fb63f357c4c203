//! Binary wire form of a run of records, used by paged reads: a big-endian
//! record count followed by one fixed-width frame per record.

use vstd::prelude::*;

use crate::tick::Update;

verus! {

/// Byte `sh` bits down from `n`, big-endian style.
pub open spec fn byte_of(n: u64, sh: u64) -> u8 {
    ((n >> sh) & 0xff) as u8
}

/// Eight big-endian bytes of a 64-bit number.
pub open spec fn be_u64(n: u64) -> Seq<u8> {
    seq![
        byte_of(n, 56),
        byte_of(n, 48),
        byte_of(n, 40),
        byte_of(n, 32),
        byte_of(n, 24),
        byte_of(n, 16),
        byte_of(n, 8),
        byte_of(n, 0),
    ]
}

/// Four big-endian bytes of a 32-bit number.
pub open spec fn be_u32(n: u32) -> Seq<u8> {
    seq![byte_of(n as u64, 24), byte_of(n as u64, 16), byte_of(n as u64, 8), byte_of(n as u64, 0)]
}

/// The flags byte of one record: bit 0 for a trade, bit 1 for the bid side.
pub open spec fn flags_byte(u: Update) -> u8 {
    ((if u.is_trade {
        1int
    } else {
        0int
    }) + (if u.is_bid {
        2int
    } else {
        0int
    })) as u8
}

/// One record's fixed 21-byte frame: timestamp, sequence number, flags,
/// price bits, size bits.
pub open spec fn wire_update(u: Update) -> Seq<u8> {
    be_u64(u.ts) + be_u32(u.seq) + seq![flags_byte(u)] + be_u32(u.price_bits) + be_u32(u.size_bits)
}

/// The frames of a run of records, in order.
pub open spec fn wire_data(ups: Seq<Update>) -> Seq<u8>
    decreases ups.len(),
{
    if ups.len() == 0 {
        Seq::empty()
    } else {
        wire_data(ups.drop_last()) + wire_update(ups.last())
    }
}

/// The whole wire form: the record count, then every frame.
pub open spec fn wire_batch(ups: Seq<Update>) -> Seq<u8> {
    be_u64(ups.len() as u64) + wire_data(ups)
}

fn push_be_u64(out: &mut Vec<u8>, n: u64)
    ensures
        final(out)@ == old(out)@ + be_u64(n),
{
    out.push(((n >> 56u64) & 0xff) as u8);
    out.push(((n >> 48u64) & 0xff) as u8);
    out.push(((n >> 40u64) & 0xff) as u8);
    out.push(((n >> 32u64) & 0xff) as u8);
    out.push(((n >> 24u64) & 0xff) as u8);
    out.push(((n >> 16u64) & 0xff) as u8);
    out.push(((n >> 8u64) & 0xff) as u8);
    out.push((n & 0xff) as u8);
    proof {
        assert(n & 0xff == (n >> 0u64) & 0xff) by (bit_vector);
        assert(out@ =~= old(out)@ + be_u64(n));
    }
}

fn push_be_u32(out: &mut Vec<u8>, n: u32)
    ensures
        final(out)@ == old(out)@ + be_u32(n),
{
    let w = n as u64;
    out.push(((w >> 24u64) & 0xff) as u8);
    out.push(((w >> 16u64) & 0xff) as u8);
    out.push(((w >> 8u64) & 0xff) as u8);
    out.push((w & 0xff) as u8);
    proof {
        let w2 = n as u64;
        assert(w2 & 0xff == (w2 >> 0u64) & 0xff) by (bit_vector);
        assert(out@ =~= old(out)@ + be_u32(n));
    }
}

fn push_update(out: &mut Vec<u8>, u: Update)
    ensures
        final(out)@ == old(out)@ + wire_update(u),
{
    push_be_u64(out, u.ts);
    push_be_u32(out, u.seq);
    let flags: u8 = (if u.is_trade {
        1u8
    } else {
        0u8
    }) + (if u.is_bid {
        2u8
    } else {
        0u8
    });
    out.push(flags);
    push_be_u32(out, u.price_bits);
    push_be_u32(out, u.size_bits);
    proof {
        assert(out@ =~= old(out)@ + wire_update(u));
    }
}

/// Serialize a run of records to the binary wire form of a paged read.
pub fn write_batches(out: &mut Vec<u8>, ups: &Vec<Update>)
    ensures
        final(out)@ == old(out)@ + wire_batch(ups@),
{
    push_be_u64(out, ups.len() as u64);
    let mut i: usize = 0;
    while i < ups.len()
        invariant
            i <= ups@.len(),
            out@ == old(out)@ + be_u64(ups@.len() as u64) + wire_data(ups@.take(i as int)),
        decreases ups@.len() - i,
    {
        push_update(out, ups[i]);
        proof {
            assert(ups@.take(i + 1).drop_last() =~= ups@.take(i as int));
            assert(ups@.take(i + 1).last() == ups@[i as int]);
            assert(out@ =~= old(out)@ + be_u64(ups@.len() as u64) + wire_data(ups@.take(i + 1)));
        }
        i = i + 1;
    }
    proof {
        assert(ups@.take(ups@.len() as int) =~= ups@);
        assert(out@ =~= old(out)@ + wire_batch(ups@));
    }
}

} // verus!
