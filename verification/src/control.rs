//! The control message that opens a benchmark connection.

use crate::wire::{
    be_bytes, be_value, law_be_bytes_of_value, law_be_value_of_bytes, lemma_be_limits,
    lemma_be_value_bound, push_be, read_be,
};
use vstd::prelude::*;

verus! {

/// The vsock port of the benchmark.
pub const VSOCK_PORT: u32 = 5001;

/// How much to transfer, in what pieces, and whether also back: three big-endian
/// 64-bit numbers.
#[derive(Clone, Copy, Debug, PartialEq, Eq, Structural)]
pub struct ControlMessage {
    pub total_bytes: u64,
    pub buffer_size: u64,
    pub flags: u64,
}

/// The bytes of a control message.
pub open spec fn message_bytes(m: ControlMessage) -> Seq<u8> {
    be_bytes(m.total_bytes as nat, 8) + be_bytes(m.buffer_size as nat, 8) + be_bytes(
        m.flags as nat,
        8,
    )
}

/// The control message in 24 bytes.
pub open spec fn message_of(b: Seq<u8>) -> ControlMessage {
    ControlMessage {
        total_bytes: be_value(b.subrange(0, 8)) as u64,
        buffer_size: be_value(b.subrange(8, 16)) as u64,
        flags: be_value(b.subrange(16, 24)) as u64,
    }
}

/// The lowest flag bit asks for the transfer back.
pub open spec fn wants_reverse(m: ControlMessage) -> bool {
    m.flags % 2 == 1
}

/// The control message of a run.
pub open spec fn request_message(
    total_bytes: u64,
    buffer_size: u64,
    reverse: bool,
) -> ControlMessage {
    ControlMessage {
        total_bytes,
        buffer_size,
        flags: if reverse {
            1
        } else {
            0
        },
    }
}

impl ControlMessage {
    /// The control message that asks for a run.
    pub fn request(total_bytes: u64, buffer_size: u64, reverse: bool) -> (r: Self)
        ensures
            r == request_message(total_bytes, buffer_size, reverse),
            wants_reverse(r) == reverse,
            r.total_bytes == total_bytes,
            r.buffer_size == buffer_size,
            r.flags == if reverse {
                1u64
            } else {
                0
            },
    {
        ControlMessage {
            total_bytes,
            buffer_size,
            flags: if reverse {
                1
            } else {
                0
            },
        }
    }

    /// Reads a control message.
    pub fn from_bytes(buf: &[u8; 24]) -> (r: Self)
        ensures
            r == message_of(buf@),
            r.total_bytes == be_value(buf@.subrange(0, 8)),
            r.buffer_size == be_value(buf@.subrange(8, 16)),
            r.flags == be_value(buf@.subrange(16, 24)),
    {
        let bytes: &[u8] = buf.as_slice();
        ControlMessage {
            total_bytes: read_be(bytes, 0, 8),
            buffer_size: read_be(bytes, 8, 8),
            flags: read_be(bytes, 16, 8),
        }
    }

    /// Writes the control message: 24 bytes.
    pub fn to_bytes(&self) -> (r: Vec<u8>)
        ensures
            r@ == message_bytes(*self),
            r@.len() == 24,
    {
        proof {
            lemma_be_limits();
            law_be_value_of_bytes(self.total_bytes as nat, 8);
            law_be_value_of_bytes(self.buffer_size as nat, 8);
            law_be_value_of_bytes(self.flags as nat, 8);
        }
        let mut out: Vec<u8> = Vec::new();
        push_be(&mut out, self.total_bytes, 8);
        push_be(&mut out, self.buffer_size, 8);
        push_be(&mut out, self.flags, 8);
        assert(out@ =~= message_bytes(*self));
        out
    }

    /// Whether the transfer back is asked for.
    pub fn reverse_requested(&self) -> (r: bool)
        ensures
            r == wants_reverse(*self),
            r == (self.flags % 2 == 1),
    {
        let flags: u64 = self.flags;
        assert((flags & 1 != 0) == (flags % 2 == 1)) by (bit_vector);
        flags & 1 != 0
    }
}

/// A control message reads back as it was written.
pub proof fn law_message_reads_back(m: ControlMessage)
    ensures
        message_bytes(m).len() == 24,
        message_of(message_bytes(m)) == m,
{
    lemma_be_limits();
    law_be_value_of_bytes(m.total_bytes as nat, 8);
    law_be_value_of_bytes(m.buffer_size as nat, 8);
    law_be_value_of_bytes(m.flags as nat, 8);
    let b = message_bytes(m);
    assert(b.subrange(0, 8) =~= be_bytes(m.total_bytes as nat, 8));
    assert(b.subrange(8, 16) =~= be_bytes(m.buffer_size as nat, 8));
    assert(b.subrange(16, 24) =~= be_bytes(m.flags as nat, 8));
}

/// Every 24 bytes are a control message, and are written back as they were read.
pub proof fn law_message_writes_back(b: Seq<u8>)
    requires
        b.len() == 24,
    ensures
        message_bytes(message_of(b)) == b,
{
    lemma_be_limits();
    lemma_be_value_bound(b.subrange(0, 8));
    lemma_be_value_bound(b.subrange(8, 16));
    lemma_be_value_bound(b.subrange(16, 24));
    law_be_bytes_of_value(b.subrange(0, 8));
    law_be_bytes_of_value(b.subrange(8, 16));
    law_be_bytes_of_value(b.subrange(16, 24));
    assert(message_bytes(message_of(b)) =~= b);
}

/// The bytes that acknowledge a transfer: how much arrived.
pub open spec fn ack_bytes(count: u64) -> Seq<u8> {
    be_bytes(count as nat, 8)
}

/// Writes an acknowledgement: 8 bytes.
pub fn write_ack(count: u64) -> (r: Vec<u8>)
    ensures
        r@ == ack_bytes(count),
        r@.len() == 8,
        be_value(r@) == count,
{
    proof {
        lemma_be_limits();
        law_be_value_of_bytes(count as nat, 8);
    }
    let mut out: Vec<u8> = Vec::new();
    push_be(&mut out, count, 8);
    assert(out@ =~= ack_bytes(count));
    out
}

/// Reads an acknowledgement.
pub fn read_ack(buf: &[u8]) -> (r: u64)
    requires
        buf@.len() == 8,
    ensures
        r == be_value(buf@),
{
    assert(buf@.subrange(0, 8) =~= buf@);
    read_be(buf, 0, 8)
}

/// An acknowledgement reads back as the count that was written.
pub proof fn law_ack_reads_back(count: u64)
    ensures
        ack_bytes(count).len() == 8,
        be_value(ack_bytes(count)) == count,
{
    lemma_be_limits();
    law_be_value_of_bytes(count as nat, 8);
}

/// Total, buffer size and flags stand in this order, in eight bytes each, and only the
/// lowest flag bit asks for the transfer back.
pub proof fn law_message_layout(m: ControlMessage)
    ensures
        message_bytes(m).len() == 24,
        be_value(message_bytes(m).subrange(0, 8)) == m.total_bytes,
        be_value(message_bytes(m).subrange(8, 16)) == m.buffer_size,
        be_value(message_bytes(m).subrange(16, 24)) == m.flags,
        wants_reverse(m) == (message_bytes(m)[23] % 2 == 1),
{
    lemma_be_limits();
    law_be_value_of_bytes(m.total_bytes as nat, 8);
    law_be_value_of_bytes(m.buffer_size as nat, 8);
    law_be_value_of_bytes(m.flags as nat, 8);
    let b = message_bytes(m);
    assert(b.subrange(0, 8) =~= be_bytes(m.total_bytes as nat, 8));
    assert(b.subrange(8, 16) =~= be_bytes(m.buffer_size as nat, 8));
    let flags = b.subrange(16, 24);
    assert(flags =~= be_bytes(m.flags as nat, 8));
    lemma_last_bit(flags);
}

proof fn lemma_last_bit(s: Seq<u8>)
    requires
        s.len() > 0,
    ensures
        be_value(s) % 2 == s.last() % 2,
{
}

/// What 24 bytes say, field by field.
pub proof fn law_message_fields(b: Seq<u8>)
    requires
        b.len() == 24,
    ensures
        message_of(b).total_bytes == be_value(b.subrange(0, 8)),
        message_of(b).buffer_size == be_value(b.subrange(8, 16)),
        message_of(b).flags == be_value(b.subrange(16, 24)),
        wants_reverse(message_of(b)) == (b[23] % 2 == 1),
{
    lemma_be_limits();
    lemma_be_value_bound(b.subrange(0, 8));
    lemma_be_value_bound(b.subrange(8, 16));
    lemma_be_value_bound(b.subrange(16, 24));
    lemma_last_bit(b.subrange(16, 24));
}

} // verus!
