//! The packet codec: the fixed 20-byte wire record with its 3-byte
//! avalanche checksum.

use vstd::prelude::*;

use crate::fountain::Fountain;
use crate::packet::Packet;
use crate::xorshift::XorShift;
use crate::xorshift::xs_step;

verus! {

/// The four bytes of a 32-bit value, high byte first.
pub open spec fn be32(v: u32) -> Seq<u8> {
    seq![
        ((v >> 24) & 0xFF) as u8,
        ((v >> 16) & 0xFF) as u8,
        ((v >> 8) & 0xFF) as u8,
        (v & 0xFF) as u8,
    ]
}

/// The integrity checksum of a packet: the xorshift generator chained
/// over the fields in order, each intermediate output XORed with the
/// next field and used to reseed, so that a change in any field
/// avalanches through the final output.
pub open spec fn spec_checksum(p: Packet) -> u32 {
    let c1 = xs_step(p.rng_seed);
    let c2 = xs_step(c1 ^ p.total_size);
    let c3 = xs_step(c2 ^ p.degree);
    let c4 = xs_step(c3 ^ p.xor_block.index);
    xs_step(c4 ^ p.xor_block.content as u32)
}

/// The 20-byte wire record of a packet: total size, degree, seed and
/// combined index as big-endian 32-bit fields, the combined content
/// byte, then the low three bytes of the checksum, high byte first.
pub open spec fn spec_serialize(p: Packet) -> Seq<u8> {
    let c = spec_checksum(p);
    be32(p.total_size) + be32(p.degree) + be32(p.rng_seed) + be32(p.xor_block.index)
        + seq![
            p.xor_block.content,
            ((c >> 16) & 0xFF) as u8,
            ((c >> 8) & 0xFF) as u8,
            (c & 0xFF) as u8,
        ]
}

/// Serialization is a pure function of the packet's fields: packets that
/// agree field for field serialize to identical byte records.
pub proof fn lemma_serialize_deterministic(p1: Packet, p2: Packet)
    requires
        p1 == p2,
    ensures
        spec_serialize(p1) == spec_serialize(p2),
{
}

impl Fountain {
    /// Serialize a packet into its fixed 20-byte wire record, exactly as
    /// `spec_serialize` lays it out.
    pub fn serialize_packet(packet: &Packet) -> (r: [u8; 20])
        ensures
            r@ == spec_serialize(*packet),
    {
        let mut g = XorShift::from_seed(packet.rng_seed);
        let mut parity = g.rand();
        g = XorShift::from_seed(parity ^ packet.total_size);
        parity = g.rand();
        g = XorShift::from_seed(parity ^ packet.degree);
        parity = g.rand();
        g = XorShift::from_seed(parity ^ packet.xor_block.index);
        parity = g.rand();
        g = XorShift::from_seed(parity ^ (packet.xor_block.content as u32));
        parity = g.rand();

        let bytes: [u8; 20] = [
            ((packet.total_size >> 24) & 0xFF) as u8,
            ((packet.total_size >> 16) & 0xFF) as u8,
            ((packet.total_size >> 8) & 0xFF) as u8,
            (packet.total_size & 0xFF) as u8,
            ((packet.degree >> 24) & 0xFF) as u8,
            ((packet.degree >> 16) & 0xFF) as u8,
            ((packet.degree >> 8) & 0xFF) as u8,
            (packet.degree & 0xFF) as u8,
            ((packet.rng_seed >> 24) & 0xFF) as u8,
            ((packet.rng_seed >> 16) & 0xFF) as u8,
            ((packet.rng_seed >> 8) & 0xFF) as u8,
            (packet.rng_seed & 0xFF) as u8,
            ((packet.xor_block.index >> 24) & 0xFF) as u8,
            ((packet.xor_block.index >> 16) & 0xFF) as u8,
            ((packet.xor_block.index >> 8) & 0xFF) as u8,
            (packet.xor_block.index & 0xFF) as u8,
            packet.xor_block.content,
            ((parity >> 16) & 0xFF) as u8,
            ((parity >> 8) & 0xFF) as u8,
            (parity & 0xFF) as u8,
        ];
        proof {
            assert(bytes@ =~= spec_serialize(*packet));
        }
        bytes
    }
}

} // verus!
