//! The ACL envelope: a connection handle with two flags, a length and the
//! payload, which is exactly one L2CAP frame.

use vstd::prelude::*;
use crate::data::{lemma_data_ext, Data, CAPACITY};
use crate::wire::{
    hi_byte, join_le16, le16, le16_bytes, lemma_le16_round_trip, lo_byte, split_le16,
};

verus! {

/// The byte that announces an ACL data packet on the transport.
pub const PACKET_TYPE_ACL: u8 = 0x02;

/// Where a packet stands in a higher-layer message.
#[derive(Clone, Copy, Debug, PartialEq, Eq)]
pub enum BoundaryFlag {
    FirstNonAutoFlushable,
    Continuing,
    FirstAutoFlushable,
    Reserved,
}

/// The broadcast flag as the controller reports it.
#[derive(Clone, Copy, Debug, PartialEq, Eq)]
pub enum ControllerBroadcastFlag {
    PointToPoint,
    NotParkedState,
    ParkedState,
    Reserved,
}

/// The broadcast flag as the host sends it.
#[derive(Clone, Copy, Debug, PartialEq, Eq)]
pub enum HostBroadcastFlag {
    NoBroadcast,
    ActiveSlaveBroadcast,
    ParkedSlaveBroadcast,
    Reserved,
}

impl BoundaryFlag {
    /// The two bits that stand for this flag.
    pub open spec fn bits(self) -> u16 {
        match self {
            BoundaryFlag::FirstNonAutoFlushable => 0,
            BoundaryFlag::Continuing => 1,
            BoundaryFlag::FirstAutoFlushable => 2,
            BoundaryFlag::Reserved => 3,
        }
    }

    /// The flag that the two bits `bits` stand for.
    pub open spec fn of_bits(bits: u16) -> BoundaryFlag {
        if bits == 0 {
            BoundaryFlag::FirstNonAutoFlushable
        } else if bits == 1 {
            BoundaryFlag::Continuing
        } else if bits == 2 {
            BoundaryFlag::FirstAutoFlushable
        } else {
            BoundaryFlag::Reserved
        }
    }

    pub fn to_bits(&self) -> (out: u16)
        ensures
            out == self.bits(),
    {
        match self {
            BoundaryFlag::FirstNonAutoFlushable => 0,
            BoundaryFlag::Continuing => 1,
            BoundaryFlag::FirstAutoFlushable => 2,
            BoundaryFlag::Reserved => 3,
        }
    }

    pub fn from_bits(bits: u16) -> (out: BoundaryFlag)
        ensures
            out == BoundaryFlag::of_bits(bits),
    {
        if bits == 0 {
            BoundaryFlag::FirstNonAutoFlushable
        } else if bits == 1 {
            BoundaryFlag::Continuing
        } else if bits == 2 {
            BoundaryFlag::FirstAutoFlushable
        } else {
            BoundaryFlag::Reserved
        }
    }
}

impl ControllerBroadcastFlag {
    /// The two bits that stand for this flag.
    pub open spec fn bits(self) -> u16 {
        match self {
            ControllerBroadcastFlag::PointToPoint => 0,
            ControllerBroadcastFlag::NotParkedState => 1,
            ControllerBroadcastFlag::ParkedState => 2,
            ControllerBroadcastFlag::Reserved => 3,
        }
    }

    /// The flag that the two bits `bits` stand for.
    pub open spec fn of_bits(bits: u16) -> ControllerBroadcastFlag {
        if bits == 0 {
            ControllerBroadcastFlag::PointToPoint
        } else if bits == 1 {
            ControllerBroadcastFlag::NotParkedState
        } else if bits == 2 {
            ControllerBroadcastFlag::ParkedState
        } else {
            ControllerBroadcastFlag::Reserved
        }
    }

    pub fn from_bits(bits: u16) -> (out: ControllerBroadcastFlag)
        ensures
            out == ControllerBroadcastFlag::of_bits(bits),
    {
        if bits == 0 {
            ControllerBroadcastFlag::PointToPoint
        } else if bits == 1 {
            ControllerBroadcastFlag::NotParkedState
        } else if bits == 2 {
            ControllerBroadcastFlag::ParkedState
        } else {
            ControllerBroadcastFlag::Reserved
        }
    }
}

impl HostBroadcastFlag {
    /// The two bits that stand for this flag.
    pub open spec fn bits(self) -> u16 {
        match self {
            HostBroadcastFlag::NoBroadcast => 0,
            HostBroadcastFlag::ActiveSlaveBroadcast => 1,
            HostBroadcastFlag::ParkedSlaveBroadcast => 2,
            HostBroadcastFlag::Reserved => 3,
        }
    }

    pub fn to_bits(&self) -> (out: u16)
        ensures
            out == self.bits(),
    {
        match self {
            HostBroadcastFlag::NoBroadcast => 0,
            HostBroadcastFlag::ActiveSlaveBroadcast => 1,
            HostBroadcastFlag::ParkedSlaveBroadcast => 2,
            HostBroadcastFlag::Reserved => 3,
        }
    }
}

/// An ACL packet as the controller delivers it.
#[derive(Clone, Copy, Debug)]
pub struct AclPacket {
    pub handle: u16,
    pub boundary_flag: BoundaryFlag,
    pub bc_flag: ControllerBroadcastFlag,
    pub data: Data,
}

impl AclPacket {
    /// The handle has twelve bits and the payload is a well-formed buffer.
    pub open spec fn wf(self) -> bool {
        &&& self.handle < 4096
        &&& self.data.wf()
    }

    /// The packet on the wire.
    pub open spec fn wire(self) -> Seq<u8> {
        acl_frame(self.handle, self.boundary_flag.bits(), self.bc_flag.bits(), self.data@)
    }
}

/// Why bytes are no ACL packet that a buffer can hold.
#[derive(Clone, Copy, Debug, PartialEq, Eq)]
pub enum AclParseError {
    /// The leading byte is missing or is not `0x02`.
    WrongPacketType,
    /// The header is incomplete, or the length it declares is not the
    /// number of bytes that follow it.
    LengthMismatch,
    /// The payload is longer than a buffer.
    TooLong,
}

/// The 16-bit word that packs the low twelve bits of `handle`, the two
/// bits `boundary` above them and the two bits `broadcast` on top.
pub open spec fn acl_flags_word(handle: u16, boundary: u16, broadcast: u16) -> u16 {
    (handle % 4096 + 4096 * (boundary % 4) + 16384 * (broadcast % 4)) as u16
}

/// An ACL packet on the wire: the packet type, the word of handle and
/// flags, the length of the payload and the payload. Only the low twelve
/// bits of `handle` and the low two bits of each flag are sent.
pub open spec fn acl_frame(handle: u16, boundary: u16, broadcast: u16, payload: Seq<u8>) -> Seq<
    u8,
> {
    seq![PACKET_TYPE_ACL] + le16_bytes(acl_flags_word(handle, boundary, broadcast)) + le16_bytes(
        payload.len() as u16,
    ) + payload
}

/// Wraps `payload` into an ACL packet.
pub fn encode_acl_packet(
    handle: u16,
    boundary_flag: BoundaryFlag,
    bc_flag: HostBroadcastFlag,
    payload: Data,
) -> (out: Data)
    requires
        payload.len + 5 <= CAPACITY,
    ensures
        out.wf(),
        out@ == acl_frame(handle, boundary_flag.bits(), bc_flag.bits(), payload@),
        out.len == payload.len + 5,
{
    let word: u16 = handle % 4096 + 4096 * boundary_flag.to_bits() + 16384 * bc_flag.to_bits();
    let (word_lo, word_hi) = split_le16(word);
    let (len_lo, len_hi) = split_le16(payload.len as u16);
    let mut out = Data::default();
    out.push(PACKET_TYPE_ACL);
    out.push(word_lo);
    out.push(word_hi);
    out.push(len_lo);
    out.push(len_hi);
    out.append(payload.to_slice());
    assert(out@ =~= acl_frame(handle, boundary_flag.bits(), bc_flag.bits(), payload@));
    out
}

/// The error that `bytes` earn as an ACL packet, or `None` where they are
/// one that fits a buffer.
pub open spec fn acl_parse_error(bytes: Seq<u8>) -> Option<AclParseError> {
    if bytes.len() == 0 || bytes[0] != PACKET_TYPE_ACL {
        Some(AclParseError::WrongPacketType)
    } else if bytes.len() < 5 || le16(bytes[3], bytes[4]) != bytes.len() - 5 {
        Some(AclParseError::LengthMismatch)
    } else if bytes.len() - 5 > CAPACITY {
        Some(AclParseError::TooLong)
    } else {
        None
    }
}

/// The packet that the bytes of an ACL packet stand for.
pub open spec fn acl_parsed(bytes: Seq<u8>, packet: AclPacket) -> bool {
    let word = le16(bytes[1], bytes[2]);
    &&& packet.handle == word % 4096
    &&& packet.boundary_flag == BoundaryFlag::of_bits((word / 4096 % 4) as u16)
    &&& packet.bc_flag == ControllerBroadcastFlag::of_bits((word / 16384) as u16)
    &&& packet.data.wf()
    &&& packet.data@ == bytes.skip(5)
}

/// Reads an ACL packet, packet type included.
pub fn parse_acl_packet(bytes: &[u8]) -> (out: Result<AclPacket, AclParseError>)
    ensures
        acl_parse_error(bytes@) matches Some(error) ==> out == Err::<AclPacket, AclParseError>(
            error,
        ),
        acl_parse_error(bytes@) is None ==> (out matches Ok(packet) && acl_parsed(bytes@, packet)),
{
    if bytes.len() == 0 || bytes[0] != PACKET_TYPE_ACL {
        return Err(AclParseError::WrongPacketType);
    }
    if bytes.len() < 5 {
        return Err(AclParseError::LengthMismatch);
    }
    let word = join_le16(bytes[1], bytes[2]);
    let len = join_le16(bytes[3], bytes[4]);
    if len as usize != bytes.len() - 5 {
        return Err(AclParseError::LengthMismatch);
    }
    if bytes.len() - 5 > CAPACITY {
        return Err(AclParseError::TooLong);
    }
    let data = Data::new(vstd::slice::slice_subrange(bytes, 5, bytes.len()));
    assert(data@ =~= bytes@.skip(5));
    Ok(
        AclPacket {
            handle: word % 4096,
            boundary_flag: BoundaryFlag::from_bits(word / 4096 % 4),
            bc_flag: ControllerBroadcastFlag::from_bits(word / 16384),
            data,
        },
    )
}

/// Parsing undoes encoding: a frame made of a handle, two flags and a
/// payload that fits a buffer is accepted, and the packet read from it
/// holds the twelve bits of the handle, the flags and the payload.
pub proof fn lemma_acl_parse_of_frame(
    handle: u16,
    boundary: u16,
    broadcast: u16,
    payload: Seq<u8>,
    packet: AclPacket,
)
    requires
        payload.len() <= CAPACITY,
        acl_parsed(acl_frame(handle, boundary, broadcast, payload), packet),
    ensures
        acl_parse_error(acl_frame(handle, boundary, broadcast, payload)) is None,
        packet.handle == handle % 4096,
        packet.boundary_flag == BoundaryFlag::of_bits(boundary % 4),
        packet.bc_flag == ControllerBroadcastFlag::of_bits(broadcast % 4),
        packet.data@ == payload,
{
    let bytes = acl_frame(handle, boundary, broadcast, payload);
    let word = acl_flags_word(handle, boundary, broadcast);
    lemma_le16_round_trip(word, 0, 0);
    lemma_le16_round_trip(payload.len() as u16, 0, 0);
    assert(bytes[1] == lo_byte(word) && bytes[2] == hi_byte(word));
    assert(bytes[3] == lo_byte(payload.len() as u16) && bytes[4] == hi_byte(
        payload.len() as u16,
    ));
    assert(bytes.skip(5) =~= payload);
}

/// Parsing undoes encoding: the wire form of a well-formed packet is
/// accepted, and the packet read from it is that very packet.
pub proof fn lemma_acl_parse_of_wire(packet: AclPacket, parsed: AclPacket)
    requires
        packet.wf(),
        acl_parsed(packet.wire(), parsed),
    ensures
        acl_parse_error(packet.wire()) is None,
        parsed == packet,
{
    lemma_acl_parse_of_frame(
        packet.handle,
        packet.boundary_flag.bits(),
        packet.bc_flag.bits(),
        packet.data@,
        parsed,
    );
    lemma_data_ext(parsed.data, packet.data);
}

/// Encoding undoes parsing: the packet read from bytes has those bytes as
/// its wire form.
pub proof fn lemma_acl_wire_of_parse(bytes: Seq<u8>, packet: AclPacket)
    requires
        acl_parse_error(bytes) is None,
        acl_parsed(bytes, packet),
    ensures
        packet.wf(),
        packet.wire() == bytes,
{
    let word = le16(bytes[1], bytes[2]);
    lemma_le16_round_trip(0, bytes[1], bytes[2]);
    lemma_le16_round_trip(0, bytes[3], bytes[4]);
    assert(acl_flags_word(packet.handle, packet.boundary_flag.bits(), packet.bc_flag.bits())
        == word);
    assert(packet.wire() =~= bytes);
}

} // verus!
