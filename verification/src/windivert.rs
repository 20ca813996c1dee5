//! The packet address that WinDivert hands out with each packet, as plain
//! values: its flag word and the 64-byte union that holds the network-layer
//! interface indices.

use vstd::prelude::*;

verus! {

/// Network-layer data of a packet address: interface and sub-interface.
#[derive(Clone, Copy, Debug, Default, PartialEq, Eq, Structural)]
pub struct WinDivertDataNetwork {
    pub if_idx: u32,
    pub sub_if_idx: u32,
}

/// A packet address: timestamp, flag word, reserved word and the union
/// that holds layer-specific data.
#[derive(Clone, Copy, Debug)]
pub struct WinDivertAddress {
    pub timestamp: i64,
    pub flags: u32,
    pub reserved2: u32,
    pub union_data: [u8; 64],
}

/// Bit of the flag word that marks an outbound packet.
pub const OUTBOUND_FLAG_BIT: u32 = 17;

/// Bits of the flag word that mark the IP, TCP and UDP checksums valid.
pub const IP_CHECKSUM_VALID_BIT: u32 = 21;

pub const TCP_CHECKSUM_VALID_BIT: u32 = 22;

pub const UDP_CHECKSUM_VALID_BIT: u32 = 23;

/// The little-endian `u32` in bytes `b[at..at + 4]`.
pub open spec fn le_u32(b: Seq<u8>, at: int) -> u32 {
    (b[at] as u32) | ((b[at + 1] as u32) << 8u32) | ((b[at + 2] as u32) << 16u32) | ((b[at
        + 3] as u32) << 24u32)
}

/// `b` with the little-endian bytes of `v` written at `at..at + 4`.
pub open spec fn with_le_u32(b: Seq<u8>, at: int, v: u32) -> Seq<u8> {
    b.update(at, (v & 0xff) as u8).update(at + 1, ((v >> 8u32) & 0xff) as u8).update(
        at + 2,
        ((v >> 16u32) & 0xff) as u8,
    ).update(at + 3, ((v >> 24u32) & 0xff) as u8)
}

/// The flag word with the three checksum-valid bits cleared.
pub open spec fn flags_checksums_invalid(flags: u32) -> u32 {
    flags & !0x00e0_0000u32
}

impl WinDivertAddress {
    /// The network-layer data held in the union (as laid out in memory on a
    /// little-endian host).
    pub open spec fn network_data(self) -> WinDivertDataNetwork {
        WinDivertDataNetwork {
            if_idx: le_u32(self.union_data@, 0),
            sub_if_idx: le_u32(self.union_data@, 4),
        }
    }

    pub open spec fn outbound(self) -> bool {
        (self.flags >> 17u32) & 1 != 0
    }

    /// An address with every field zero.
    pub fn zeroed() -> (a: WinDivertAddress)
        ensures
            a.timestamp == 0,
            a.flags == 0,
            a.reserved2 == 0,
            forall|i: int| 0 <= i < 64 ==> #[trigger] a.union_data@[i] == 0,
    {
        WinDivertAddress { timestamp: 0, flags: 0, reserved2: 0, union_data: [0u8; 64] }
    }

    /// True when the packet is on the outbound path.
    pub fn is_outbound(&self) -> (b: bool)
        ensures
            b == self.outbound(),
    {
        (self.flags >> OUTBOUND_FLAG_BIT) & 1 != 0
    }

    /// The network-layer data of the address.
    pub fn network(&self) -> (n: WinDivertDataNetwork)
        ensures
            n == self.network_data(),
    {
        let d = &self.union_data;
        let if_idx = (d[0] as u32) | ((d[1] as u32) << 8u32) | ((d[2] as u32) << 16u32) | ((
        d[3] as u32) << 24u32);
        let sub_if_idx = (d[4] as u32) | ((d[5] as u32) << 8u32) | ((d[6] as u32) << 16u32) | ((
        d[7] as u32) << 24u32);
        WinDivertDataNetwork { if_idx, sub_if_idx }
    }

    /// Writes the network-layer data into the union.
    pub fn set_network(&mut self, net: WinDivertDataNetwork)
        ensures
            final(self).union_data@ == with_le_u32(
                with_le_u32(old(self).union_data@, 0, net.if_idx),
                4,
                net.sub_if_idx,
            ),
            final(self).flags == old(self).flags,
            final(self).timestamp == old(self).timestamp,
            final(self).reserved2 == old(self).reserved2,
    {
        let a = net.if_idx;
        let b = net.sub_if_idx;
        self.union_data[0] = (a & 0xff) as u8;
        self.union_data[1] = ((a >> 8u32) & 0xff) as u8;
        self.union_data[2] = ((a >> 16u32) & 0xff) as u8;
        self.union_data[3] = ((a >> 24u32) & 0xff) as u8;
        self.union_data[4] = (b & 0xff) as u8;
        self.union_data[5] = ((b >> 8u32) & 0xff) as u8;
        self.union_data[6] = ((b >> 16u32) & 0xff) as u8;
        self.union_data[7] = ((b >> 24u32) & 0xff) as u8;
        assert(self.union_data@ =~= with_le_u32(
            with_le_u32(old(self).union_data@, 0, net.if_idx),
            4,
            net.sub_if_idx,
        ));
    }

    /// Clears the valid-checksum flags so that the checksums are recomputed
    /// after a header edit.
    pub fn invalidate_checksum_flags(&mut self)
        ensures
            final(self).flags == flags_checksums_invalid(old(self).flags),
            final(self).union_data == old(self).union_data,
            final(self).timestamp == old(self).timestamp,
            final(self).reserved2 == old(self).reserved2,
    {
        let mask: u32 = (1u32 << IP_CHECKSUM_VALID_BIT) | (1u32 << TCP_CHECKSUM_VALID_BIT) | (1u32
            << UDP_CHECKSUM_VALID_BIT);
        assert(mask == 0x00e0_0000u32) by (bit_vector)
            requires
                mask == (1u32 << 21u32) | (1u32 << 22u32) | (1u32 << 23u32),
        ;
        self.flags = self.flags & !mask;
    }
}

/// Reading the network data back gives what `set_network` wrote.
pub proof fn lemma_network_round_trip(
    before: WinDivertAddress,
    after: WinDivertAddress,
    net: WinDivertDataNetwork,
)
    requires
        after.union_data@ == with_le_u32(
            with_le_u32(before.union_data@, 0, net.if_idx),
            4,
            net.sub_if_idx,
        ),
    ensures
        after.network_data() == net,
{
    broadcast use vstd::array::array_len_matches_n;

    let a = net.if_idx;
    let b = net.sub_if_idx;
    let s = after.union_data@;
    assert(before.union_data@.len() == 64);
    assert(s[0] == (a & 0xff) as u8 && s[1] == ((a >> 8u32) & 0xff) as u8 && s[2] == ((a
        >> 16u32) & 0xff) as u8 && s[3] == ((a >> 24u32) & 0xff) as u8);
    assert(s[4] == (b & 0xff) as u8 && s[5] == ((b >> 8u32) & 0xff) as u8 && s[6] == ((b
        >> 16u32) & 0xff) as u8 && s[7] == ((b >> 24u32) & 0xff) as u8);
    lemma_le_bytes(a);
    lemma_le_bytes(b);
}

proof fn lemma_le_bytes(a: u32)
    ensures
        (((a & 0xff) as u8) as u32) | ((((a >> 8u32) & 0xff) as u8 as u32) << 8u32) | ((((a
            >> 16u32) & 0xff) as u8 as u32) << 16u32) | ((((a >> 24u32) & 0xff) as u8 as u32)
            << 24u32) == a,
{
    assert((((a & 0xff) as u8) as u32) | ((((a >> 8u32) & 0xff) as u8 as u32) << 8u32) | ((((a
        >> 16u32) & 0xff) as u8 as u32) << 16u32) | ((((a >> 24u32) & 0xff) as u8 as u32)
        << 24u32) == a) by (bit_vector);
}

/// Clearing the checksum flags keeps the direction of the packet.
pub proof fn lemma_invalidate_keeps_direction(flags: u32)
    ensures
        (flags_checksums_invalid(flags) >> 17u32) & 1 == (flags >> 17u32) & 1,
        flags_checksums_invalid(flags) & 0x00e0_0000u32 == 0,
{
    assert((flags & !0x00e0_0000u32) >> 17u32 & 1 == (flags >> 17u32) & 1) by (bit_vector);
    assert((flags & !0x00e0_0000u32) & 0x00e0_0000u32 == 0) by (bit_vector);
}

} // verus!
