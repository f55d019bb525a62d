//! The events a controller reports to the host.

use vstd::prelude::*;
use crate::data::{Data, CAPACITY};
use crate::wire::{join_le16, le16};

verus! {

/// The byte that announces an event packet on the transport.
pub const PACKET_TYPE_EVENT: u8 = 0x04;

pub const EVENT_DISCONNECTION_COMPLETE: u8 = 0x05;

pub const EVENT_COMMAND_COMPLETE: u8 = 0x0e;

pub const EVENT_NUMBER_OF_COMPLETED_PACKETS: u8 = 0x13;

/// A status or reason as the controller reports it.
#[derive(Clone, Copy, Debug, PartialEq, Eq)]
pub enum ErrorCode {
    /// `0x00`
    Okay,
    /// `0x13`
    RemoteUserTerminatedConnection,
    /// Any other code, as it came.
    Unknown(u8),
}

impl ErrorCode {
    /// The code that the byte `value` stands for.
    pub open spec fn of_byte(value: u8) -> ErrorCode {
        if value == 0x00 {
            ErrorCode::Okay
        } else if value == 0x13 {
            ErrorCode::RemoteUserTerminatedConnection
        } else {
            ErrorCode::Unknown(value)
        }
    }

    /// The code that the byte `value` stands for.
    pub fn from_u8(value: u8) -> (out: ErrorCode)
        ensures
            out == ErrorCode::of_byte(value),
    {
        if value == 0x00 {
            ErrorCode::Okay
        } else if value == 0x13 {
            ErrorCode::RemoteUserTerminatedConnection
        } else {
            ErrorCode::Unknown(value)
        }
    }
}

/// An event, as far as this host reads it.
#[derive(Clone, Copy, Debug)]
pub enum EventType {
    /// The controller has finished the command `opcode`; `data` is what it
    /// answers, status byte first.
    CommandComplete { num_packets: u8, opcode: u16, data: Data },
    /// The connection `handle` is gone.
    DisconnectComplete { handle: u16, status: ErrorCode, reason: ErrorCode },
    /// The controller has sent packets. Of the pairs of handle and count
    /// that the event lists, this holds the first.
    NumberOfCompletedPackets {
        number_of_connection_handles: u8,
        connection_handles: u16,
        completed_packets: u16,
    },
    /// An event of another kind, or one whose parameters are cut short.
    Unknown,
}

/// `bytes` are an event packet whose length byte counts its parameters.
pub open spec fn event_framed(bytes: Seq<u8>) -> bool {
    &&& bytes.len() >= 3
    &&& bytes[0] == PACKET_TYPE_EVENT
    &&& bytes[2] == bytes.len() - 3
}

/// `event` is what the event packet `bytes` reports. The packet is
/// `[0x04, event_code, length, parameters…]`:
/// - code `0x0e`, at least 3 parameters: a command has completed
///   (`num_packets`, `opcode` as two bytes, and the rest is the answer);
/// - code `0x05`, at least 4 parameters: a disconnection (`status`,
///   `handle` as two bytes, `reason`);
/// - code `0x13`, at least 5 parameters: completed packets (the count of
///   pairs, then the first pair of `handle` and `completed`, two bytes
///   each);
/// - everything else, an answer too long for a buffer included:
///   [`EventType::Unknown`].
pub open spec fn event_parsed(bytes: Seq<u8>, event: EventType) -> bool {
    let params = bytes.skip(3);
    if event_framed(bytes) && bytes[1] == EVENT_COMMAND_COMPLETE && 3 <= params.len() <= CAPACITY
        + 3 {
        &&& event matches EventType::CommandComplete { num_packets, opcode, data }
        &&& num_packets == params[0]
        &&& opcode == le16(params[1], params[2])
        &&& data.wf()
        &&& data@ == params.skip(3)
    } else if event_framed(bytes) && bytes[1] == EVENT_DISCONNECTION_COMPLETE && params.len()
        >= 4 {
        event == (EventType::DisconnectComplete {
            status: ErrorCode::of_byte(params[0]),
            handle: le16(params[1], params[2]),
            reason: ErrorCode::of_byte(params[3]),
        })
    } else if event_framed(bytes) && bytes[1] == EVENT_NUMBER_OF_COMPLETED_PACKETS
        && params.len() >= 5 {
        event == (EventType::NumberOfCompletedPackets {
            number_of_connection_handles: params[0],
            connection_handles: le16(params[1], params[2]),
            completed_packets: le16(params[3], params[4]),
        })
    } else {
        event is Unknown
    }
}

/// Reads an event packet, packet type included.
pub fn parse_event(bytes: &[u8]) -> (out: EventType)
    ensures
        event_parsed(bytes@, out),
{
    if bytes.len() < 3 || bytes[0] != PACKET_TYPE_EVENT || bytes[2] as usize != bytes.len() - 3 {
        return EventType::Unknown;
    }
    let code = bytes[1];
    let count = bytes.len() - 3;
    let ghost params = bytes@.skip(3);
    if code == EVENT_COMMAND_COMPLETE && 3 <= count && count <= CAPACITY + 3 {
        let data = Data::new(vstd::slice::slice_subrange(bytes, 6, bytes.len()));
        assert(data@ =~= params.skip(3));
        EventType::CommandComplete {
            num_packets: bytes[3],
            opcode: join_le16(bytes[4], bytes[5]),
            data,
        }
    } else if code == EVENT_DISCONNECTION_COMPLETE && count >= 4 {
        EventType::DisconnectComplete {
            status: ErrorCode::from_u8(bytes[3]),
            handle: join_le16(bytes[4], bytes[5]),
            reason: ErrorCode::from_u8(bytes[6]),
        }
    } else if code == EVENT_NUMBER_OF_COMPLETED_PACKETS && count >= 5 {
        EventType::NumberOfCompletedPackets {
            number_of_connection_handles: bytes[3],
            connection_handles: join_le16(bytes[4], bytes[5]),
            completed_packets: join_le16(bytes[6], bytes[7]),
        }
    } else {
        EventType::Unknown
    }
}

} // verus!
