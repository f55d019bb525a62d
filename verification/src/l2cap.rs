//! The L2CAP frame: a length, a channel id and the payload. The only
//! channel is the fixed one of the Attribute Protocol.

use vstd::prelude::*;
use crate::acl::AclPacket;
use crate::data::{Data, CAPACITY};
use crate::wire::{
    hi_byte, join_le16, le16, le16_bytes, lemma_le16_round_trip, lo_byte, split_le16,
};

verus! {

/// The channel id of the Attribute Protocol.
pub const ATT_CHANNEL: u16 = 0x0004;

/// Why the payload of an ACL packet is no L2CAP frame for this host.
#[derive(Clone, Copy, Debug, PartialEq, Eq)]
pub enum L2capParseError {
    /// The header is incomplete, or the length it declares is not the
    /// number of bytes that follow it.
    LengthMismatch,
    /// The frame is addressed to another channel than that of the
    /// Attribute Protocol.
    WrongChannel,
}

/// An L2CAP frame on the wire: the length of the payload, the channel id
/// of the Attribute Protocol and the payload.
pub open spec fn l2cap_frame(payload: Seq<u8>) -> Seq<u8> {
    le16_bytes(payload.len() as u16) + le16_bytes(ATT_CHANNEL) + payload
}

/// Wraps `data` into an L2CAP frame on the channel of the Attribute
/// Protocol.
pub fn encode_l2cap(data: Data) -> (out: Data)
    requires
        data.len + 4 <= CAPACITY,
    ensures
        out.wf(),
        out@ == l2cap_frame(data@),
        out.len == data.len + 4,
{
    let (len_lo, len_hi) = split_le16(data.len as u16);
    let (channel_lo, channel_hi) = split_le16(ATT_CHANNEL);
    let mut out = Data::default();
    out.push(len_lo);
    out.push(len_hi);
    out.push(channel_lo);
    out.push(channel_hi);
    out.append(data.to_slice());
    assert(out@ =~= l2cap_frame(data@));
    out
}

/// The error that `bytes` earn as an L2CAP frame, or `None` where they
/// are one.
pub open spec fn l2cap_parse_error(bytes: Seq<u8>) -> Option<L2capParseError> {
    if bytes.len() < 4 || le16(bytes[0], bytes[1]) != bytes.len() - 4 {
        Some(L2capParseError::LengthMismatch)
    } else if le16(bytes[2], bytes[3]) != ATT_CHANNEL {
        Some(L2capParseError::WrongChannel)
    } else {
        None
    }
}

/// Unwraps the L2CAP frame that an ACL packet carries.
pub fn parse_l2cap(packet: AclPacket) -> (out: Result<Data, L2capParseError>)
    requires
        packet.data.in_bounds(),
    ensures
        l2cap_parse_error(packet.data@) matches Some(error) ==> out == Err::<
            Data,
            L2capParseError,
        >(error),
        l2cap_parse_error(packet.data@) is None ==> (out matches Ok(payload) && payload.wf()
            && payload@ == packet.data@.skip(4)),
{
    let bytes = packet.data.to_slice();
    if bytes.len() < 4 {
        return Err(L2capParseError::LengthMismatch);
    }
    let len = join_le16(bytes[0], bytes[1]);
    let channel = join_le16(bytes[2], bytes[3]);
    if len as usize != bytes.len() - 4 {
        return Err(L2capParseError::LengthMismatch);
    }
    if channel != ATT_CHANNEL {
        return Err(L2capParseError::WrongChannel);
    }
    let payload = Data::new(vstd::slice::slice_subrange(bytes, 4, bytes.len()));
    assert(payload@ =~= packet.data@.skip(4));
    Ok(payload)
}

/// Parsing undoes encoding: a frame made of a payload is accepted, and
/// what follows its header is that payload.
pub proof fn lemma_l2cap_parse_of_frame(payload: Seq<u8>)
    requires
        payload.len() <= u16::MAX,
    ensures
        l2cap_parse_error(l2cap_frame(payload)) is None,
        l2cap_frame(payload).skip(4) == payload,
{
    let bytes = l2cap_frame(payload);
    lemma_le16_round_trip(payload.len() as u16, 0, 0);
    lemma_le16_round_trip(ATT_CHANNEL, 0, 0);
    assert(bytes[0] == lo_byte(payload.len() as u16));
    assert(bytes[1] == hi_byte(payload.len() as u16));
    assert(bytes[2] == lo_byte(ATT_CHANNEL));
    assert(bytes[3] == hi_byte(ATT_CHANNEL));
    assert(bytes.skip(4) =~= payload);
}

/// Encoding undoes parsing: an accepted frame is the frame made of what
/// follows its header.
pub proof fn lemma_l2cap_frame_of_parse(bytes: Seq<u8>)
    requires
        l2cap_parse_error(bytes) is None,
    ensures
        l2cap_frame(bytes.skip(4)) == bytes,
{
    lemma_le16_round_trip(0, bytes[0], bytes[1]);
    lemma_le16_round_trip(0, bytes[2], bytes[3]);
    assert(l2cap_frame(bytes.skip(4)) =~= bytes);
}

} // verus!
