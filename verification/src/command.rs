//! The commands the host sends to the controller.

use vstd::prelude::*;
use crate::data::{Data, CAPACITY};
use crate::wire::{hi_byte, join_le16, le16, lo_byte, split_le16};

verus! {

/// The byte that announces a command packet on the transport.
pub const PACKET_TYPE_COMMAND: u8 = 0x01;

pub const CONTROLLER_OGF: u8 = 0x03;

pub const RESET_OCF: u16 = 0x03;

pub const LE_OGF: u8 = 0x08;

pub const SET_ADVERTISING_PARAMETERS_OCF: u16 = 0x06;

pub const SET_ADVERTISING_DATA_OCF: u16 = 0x08;

pub const SET_ADVERTISE_ENABLE_OCF: u16 = 0x0a;

/// The opcode made of the group `ogf` and the command `ocf`: the low six
/// bits of `ogf` stand above the low ten bits of `ocf`.
pub open spec fn opcode_of(ogf: u8, ocf: u16) -> u16 {
    ((ogf % 64) * 1024 + ocf % 1024) as u16
}

/// The header of a command packet: which command, and how many bytes of
/// parameters follow.
#[derive(Clone, Copy, Debug, PartialEq, Eq)]
pub struct CommandHeader {
    pub opcode: u16,
    pub len: u8,
}

impl CommandHeader {
    /// The header on the wire: the opcode as two bytes, then the length.
    pub open spec fn wire(self) -> Seq<u8> {
        seq![lo_byte(self.opcode), hi_byte(self.opcode), self.len]
    }

    /// The group of the command.
    pub open spec fn spec_ogf(&self) -> u8 {
        (self.opcode / 1024) as u8
    }

    /// The command within its group.
    pub open spec fn spec_ocf(&self) -> u16 {
        self.opcode % 1024
    }

    /// Reads a header from the three bytes that follow the packet type.
    pub fn from_bytes(bytes: &[u8]) -> (out: CommandHeader)
        requires
            bytes@.len() >= 3,
        ensures
            out.opcode == le16(bytes@[0], bytes@[1]),
            out.len == bytes@[2],
    {
        CommandHeader { opcode: join_le16(bytes[0], bytes[1]), len: bytes[2] }
    }

    /// The header of the command `ocf` of group `ogf` with `len` bytes of
    /// parameters.
    pub fn from_ogf_ocf(ogf: u8, ocf: u16, len: u8) -> (out: CommandHeader)
        ensures
            out.opcode == opcode_of(ogf, ocf),
            out.len == len,
    {
        let group: u16 = (ogf % 64) as u16;
        CommandHeader { opcode: group * 1024 + ocf % 1024, len }
    }

    /// The group of the command.
    #[verifier::when_used_as_spec(spec_ogf)]
    pub fn ogf(&self) -> (out: u8)
        ensures
            out == self.spec_ogf(),
    {
        (self.opcode / 1024) as u8
    }

    /// The command within its group.
    #[verifier::when_used_as_spec(spec_ocf)]
    pub fn ocf(&self) -> (out: u16)
        ensures
            out == self.spec_ocf(),
    {
        self.opcode % 1024
    }

    /// The wire form of this header.
    pub fn encode(&self) -> (out: Data)
        ensures
            out.wf(),
            out@ == self.wire(),
            out.len == 3,
    {
        let (lo, hi) = split_le16(self.opcode);
        let mut out = Data::default();
        out.push(lo);
        out.push(hi);
        out.push(self.len);
        assert(out@ =~= self.wire());
        out
    }
}

/// A header made of a group and a command gives both back, and a header
/// read from bytes has those bytes as its wire form.
pub proof fn lemma_command_header_round_trip(ogf: u8, ocf: u16, header: CommandHeader)
    ensures
        ogf < 64 && ocf < 1024 ==> (CommandHeader { opcode: opcode_of(ogf, ocf), len: 0 }).ogf()
            == ogf,
        ogf < 64 && ocf < 1024 ==> (CommandHeader { opcode: opcode_of(ogf, ocf), len: 0 }).ocf()
            == ocf,
        opcode_of(header.ogf(), header.ocf()) == header.opcode,
        le16(header.wire()[0], header.wire()[1]) == header.opcode,
        header.wire()[2] == header.len,
{
    crate::wire::lemma_le16_round_trip(header.opcode, 0, 0);
}

/// A command for the controller.
#[derive(Clone, Copy, Debug)]
pub enum Command {
    Reset,
    LeSetAdvertisingParameters,
    LeSetAdvertisingData { data: Data },
    LeSetAdvertiseEnable(bool),
}

/// The opcode of a command.
pub open spec fn command_opcode(command: Command) -> u16 {
    match command {
        Command::Reset => opcode_of(CONTROLLER_OGF, RESET_OCF),
        Command::LeSetAdvertisingParameters => opcode_of(LE_OGF, SET_ADVERTISING_PARAMETERS_OCF),
        Command::LeSetAdvertisingData { .. } => opcode_of(LE_OGF, SET_ADVERTISING_DATA_OCF),
        Command::LeSetAdvertiseEnable(_) => opcode_of(LE_OGF, SET_ADVERTISE_ENABLE_OCF),
    }
}

/// The parameters of a command.
///
/// Advertising parameters are fixed: an interval of `0x0100` at both
/// ends, connectable undirected advertising, public addresses, a peer
/// address of zeros, all three channels and no filter.
pub open spec fn command_parameters(command: Command) -> Seq<u8> {
    match command {
        Command::Reset => Seq::empty(),
        Command::LeSetAdvertisingParameters => seq![
            0x00u8, 0x01, 0x00, 0x01, 0x00, 0x00, 0x00, 0x00, 0x00, 0x00, 0x00, 0x00, 0x00, 0x07,
            0x00,
        ],
        Command::LeSetAdvertisingData { data } => data@,
        Command::LeSetAdvertiseEnable(enable) => seq![
            if enable {
                1u8
            } else {
                0u8
            },
        ],
    }
}

/// The header of the packet of a command: its opcode and the number of
/// its parameter bytes.
pub open spec fn command_header(command: Command) -> CommandHeader {
    CommandHeader {
        opcode: command_opcode(command),
        len: command_parameters(command).len() as u8,
    }
}

/// A command packet: the packet type, the header and the parameters.
pub open spec fn command_bytes(command: Command) -> Seq<u8> {
    seq![PACKET_TYPE_COMMAND] + command_header(command).wire() + command_parameters(command)
}

/// The opcode of `command`.
pub fn opcode(command: &Command) -> (out: u16)
    ensures
        out == command_opcode(*command),
{
    match command {
        Command::Reset => CommandHeader::from_ogf_ocf(CONTROLLER_OGF, RESET_OCF, 0).opcode,
        Command::LeSetAdvertisingParameters => CommandHeader::from_ogf_ocf(
            LE_OGF,
            SET_ADVERTISING_PARAMETERS_OCF,
            0,
        ).opcode,
        Command::LeSetAdvertisingData { .. } => CommandHeader::from_ogf_ocf(
            LE_OGF,
            SET_ADVERTISING_DATA_OCF,
            0,
        ).opcode,
        Command::LeSetAdvertiseEnable(_) => CommandHeader::from_ogf_ocf(
            LE_OGF,
            SET_ADVERTISE_ENABLE_OCF,
            0,
        ).opcode,
    }
}

/// The packet of `command` fits a buffer, which it does unless the
/// advertising data it carries leave no room for the four bytes before
/// them.
pub open spec fn command_fits(command: Command) -> bool {
    match command {
        Command::LeSetAdvertisingData { data } => data.len + 4 <= CAPACITY,
        _ => true,
    }
}

/// The packet that carries `command` to the controller.
pub fn create_command_data(command: Command) -> (out: Data)
    requires
        command_fits(command),
    ensures
        out.wf(),
        out@ == command_bytes(command),
        out.len == command_bytes(command).len(),
{
    let mut out = Data::default();
    out.push(PACKET_TYPE_COMMAND);
    match command {
        Command::Reset => {
            let header = CommandHeader::from_ogf_ocf(CONTROLLER_OGF, RESET_OCF, 0);
            out.append(header.encode().to_slice());
        },
        Command::LeSetAdvertisingParameters => {
            let parameters: [u8; 15] = [
                0x00, 0x01, 0x00, 0x01, 0x00, 0x00, 0x00, 0x00, 0x00, 0x00, 0x00, 0x00, 0x00, 0x07,
                0x00,
            ];
            let header = CommandHeader::from_ogf_ocf(LE_OGF, SET_ADVERTISING_PARAMETERS_OCF, 15);
            out.append(header.encode().to_slice());
            out.append(parameters.as_slice());
        },
        Command::LeSetAdvertisingData { data } => {
            let header = CommandHeader::from_ogf_ocf(
                LE_OGF,
                SET_ADVERTISING_DATA_OCF,
                data.len as u8,
            );
            out.append(header.encode().to_slice());
            out.append(data.to_slice());
        },
        Command::LeSetAdvertiseEnable(enable) => {
            let header = CommandHeader::from_ogf_ocf(LE_OGF, SET_ADVERTISE_ENABLE_OCF, 1);
            out.append(header.encode().to_slice());
            out.push(if enable { 1 } else { 0 });
        },
    }
    assert(out@ =~= command_bytes(command));
    out
}

} // verus!
