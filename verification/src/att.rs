//! The Attribute Protocol: the requests a server understands and the
//! responses it sends.

use vstd::prelude::*;
use crate::data::{lemma_data_ext, Data, CAPACITY};
use crate::wire::{
    hi_byte, join_le16, le16, le16_bytes, lemma_le16_round_trip, lo_byte, split_le16,
};

verus! {

pub const ATT_ERROR_RESPONSE_OPCODE: u8 = 0x01;

pub const ATT_READ_BY_TYPE_REQUEST_OPCODE: u8 = 0x08;

pub const ATT_READ_BY_TYPE_RESPONSE_OPCODE: u8 = 0x09;

pub const ATT_READ_REQUEST_OPCODE: u8 = 0x0a;

pub const ATT_READ_RESPONSE_OPCODE: u8 = 0x0b;

pub const ATT_READ_BY_GROUP_TYPE_REQUEST_OPCODE: u8 = 0x10;

pub const ATT_READ_BY_GROUP_TYPE_RESPONSE_OPCODE: u8 = 0x11;

pub const ATT_WRITE_REQUEST_OPCODE: u8 = 0x12;

pub const ATT_WRITE_RESPONSE_OPCODE: u8 = 0x13;

/// A 16-bit or 128-bit attribute type.
///
/// A 128-bit UUID is held most significant byte first, as it is written;
/// on the wire it travels least significant byte first.
#[derive(Clone, Copy, Debug, PartialEq, Eq)]
pub enum Uuid {
    Uuid16(u16),
    Uuid128([u8; 16]),
}

impl Uuid {
    /// The bytes that stand for this UUID on the wire: two or sixteen, and
    /// the number alone tells which variant it is.
    pub open spec fn wire(self) -> Seq<u8> {
        match self {
            Uuid::Uuid16(value) => le16_bytes(value),
            Uuid::Uuid128(bytes) => Seq::new(16, |i: int| bytes@[15 - i]),
        }
    }

    /// The wire form of this UUID.
    pub fn encode(&self) -> (out: Data)
        ensures
            out.wf(),
            out@ == self.wire(),
            out.len == self.wire().len(),
    {
        let mut out = Data::default();
        match self {
            Uuid::Uuid16(value) => {
                let (lo, hi) = split_le16(*value);
                out.push(lo);
                out.push(hi);
            },
            Uuid::Uuid128(bytes) => {
                let mut i: usize = 0;
                while i < 16
                    invariant
                        i <= 16,
                        out.wf(),
                        out.len == i,
                        forall|k: int| 0 <= k < i ==> out@[k] == bytes@[15 - k],
                    decreases 16 - i,
                {
                    out.push(bytes[15 - i]);
                    i += 1;
                }
            },
        }
        assert(out@ =~= self.wire());
        out
    }

    /// Reads a UUID from its wire form. Two bytes give a 16-bit UUID,
    /// sixteen a 128-bit one, and no other length is a UUID.
    pub fn parse(bytes: &[u8]) -> (out: Option<Uuid>)
        ensures
            out is Some <==> (bytes@.len() == 2 || bytes@.len() == 16),
            out matches Some(uuid) ==> uuid.wire() == bytes@,
    {
        if bytes.len() == 2 {
            let uuid = Uuid::Uuid16(join_le16(bytes[0], bytes[1]));
            assert(uuid.wire() =~= bytes@);
            Some(uuid)
        } else if bytes.len() == 16 {
            let mut value = [0u8; 16];
            let mut i: usize = 0;
            while i < 16
                invariant
                    i <= 16,
                    bytes@.len() == 16,
                    forall|k: int| 0 <= k < i ==> value@[k] == bytes@[15 - k],
                decreases 16 - i,
            {
                value[i] = bytes[15 - i];
                i += 1;
            }
            let uuid = Uuid::Uuid128(value);
            assert(uuid.wire() =~= bytes@);
            Some(uuid)
        } else {
            None
        }
    }

    /// Whether this is the 16-bit UUID `value`.
    pub fn is_uuid16(&self, value: u16) -> (out: bool)
        ensures
            out <==> *self == Uuid::Uuid16(value),
    {
        match self {
            Uuid::Uuid16(own) => *own == value,
            Uuid::Uuid128(_) => false,
        }
    }
}

/// The wire form of a UUID has a length that [`Uuid::parse`] accepts.
pub proof fn lemma_uuid_wire_len(uuid: Uuid)
    ensures
        uuid.wire().len() == 2 || uuid.wire().len() == 16,
{
}

/// Different UUIDs have different wire forms, so the UUID that
/// [`Uuid::parse`] returns for bytes is the only one that the bytes stand
/// for.
pub proof fn lemma_uuid_wire_injective(a: Uuid, b: Uuid)
    requires
        a.wire() == b.wire(),
    ensures
        a == b,
{
    match (a, b) {
        (Uuid::Uuid16(x), Uuid::Uuid16(y)) => {
            assert(a.wire()[0] == b.wire()[0]);
            assert(a.wire()[1] == b.wire()[1]);
        },
        (Uuid::Uuid128(x), Uuid::Uuid128(y)) => {
            assert forall|i: int| 0 <= i < 16 implies x[i] == y[i] by {
                assert(a.wire()[15 - i] == x@[i]);
                assert(b.wire()[15 - i] == y@[i]);
            }
            assert(x =~= y);
        },
        (Uuid::Uuid16(_), Uuid::Uuid128(_)) => {
            assert(a.wire().len() == 2);
            assert(b.wire().len() == 16);
        },
        (Uuid::Uuid128(_), Uuid::Uuid16(_)) => {
            assert(a.wire().len() == 16);
            assert(b.wire().len() == 2);
        },
    }
}

/// A request of the Attribute Protocol.
#[derive(Clone, Copy, Debug)]
pub enum Att {
    ReadByGroupTypeReq { start: u16, end: u16, group_type: Uuid },
    ReadByTypeReq { start: u16, end: u16, attribute_type: Uuid },
    ReadReq { handle: u16 },
    WriteReq { handle: u16, data: Data },
}

/// Why a payload is no request this server understands.
#[derive(Clone, Copy, Debug, PartialEq, Eq)]
pub enum AttParseError {
    /// The first byte is none of the four request opcodes.
    UnsupportedOpcode(u8),
    /// The payload ends before the fixed fields of the request do.
    Truncated,
    /// The fixed fields are there, but what follows them has a length the
    /// request does not allow.
    BadLength,
}

impl Att {
    /// The payload that carries this request.
    pub open spec fn wire(self) -> Seq<u8> {
        match self {
            Att::ReadByGroupTypeReq { start, end, group_type } => seq![
                ATT_READ_BY_GROUP_TYPE_REQUEST_OPCODE,
            ] + le16_bytes(start) + le16_bytes(end) + group_type.wire(),
            Att::ReadByTypeReq { start, end, attribute_type } => seq![
                ATT_READ_BY_TYPE_REQUEST_OPCODE,
            ] + le16_bytes(start) + le16_bytes(end) + attribute_type.wire(),
            Att::ReadReq { handle } => seq![ATT_READ_REQUEST_OPCODE] + le16_bytes(handle),
            Att::WriteReq { handle, data } => seq![ATT_WRITE_REQUEST_OPCODE] + le16_bytes(handle)
                + data@,
        }
    }

    /// The value of a write request is a well-formed buffer.
    pub open spec fn wf(self) -> bool {
        self matches Att::WriteReq { data, .. } ==> data.wf()
    }
}

/// The error that `bytes` earn as a request, or `None` where they are one.
pub open spec fn att_parse_error(bytes: Seq<u8>) -> Option<AttParseError> {
    if bytes.len() == 0 {
        Some(AttParseError::Truncated)
    } else if bytes[0] == ATT_READ_BY_GROUP_TYPE_REQUEST_OPCODE || bytes[0]
        == ATT_READ_BY_TYPE_REQUEST_OPCODE {
        if bytes.len() < 7 {
            Some(AttParseError::Truncated)
        } else if bytes.len() != 7 && bytes.len() != 21 {
            Some(AttParseError::BadLength)
        } else {
            None
        }
    } else if bytes[0] == ATT_READ_REQUEST_OPCODE {
        if bytes.len() < 3 {
            Some(AttParseError::Truncated)
        } else if bytes.len() != 3 {
            Some(AttParseError::BadLength)
        } else {
            None
        }
    } else if bytes[0] == ATT_WRITE_REQUEST_OPCODE {
        if bytes.len() < 3 {
            Some(AttParseError::Truncated)
        } else {
            None
        }
    } else {
        Some(AttParseError::UnsupportedOpcode(bytes[0]))
    }
}

/// Reads the request that the payload of an L2CAP frame carries.
///
/// The first byte selects one of the four request shapes. On success the
/// request is the one whose wire form is the payload; by
/// [`lemma_att_wire_injective`] there is no other.
pub fn parse_att(packet: Data) -> (out: Result<Att, AttParseError>)
    requires
        packet.in_bounds(),
    ensures
        att_parse_error(packet@) matches Some(error) ==> out == Err::<Att, AttParseError>(error),
        att_parse_error(packet@) is None ==> (out matches Ok(att) && att.wf() && att.wire()
            == packet@),
{
    let bytes = packet.to_slice();
    if bytes.len() == 0 {
        return Err(AttParseError::Truncated);
    }
    let opcode = bytes[0];
    if opcode == ATT_READ_BY_GROUP_TYPE_REQUEST_OPCODE || opcode
        == ATT_READ_BY_TYPE_REQUEST_OPCODE {
        if bytes.len() < 7 {
            return Err(AttParseError::Truncated);
        }
        let start = join_le16(bytes[1], bytes[2]);
        let end = join_le16(bytes[3], bytes[4]);
        let tail = vstd::slice::slice_subrange(bytes, 5, bytes.len());
        match Uuid::parse(tail) {
            None => Err(AttParseError::BadLength),
            Some(uuid) => {
                let att = if opcode == ATT_READ_BY_GROUP_TYPE_REQUEST_OPCODE {
                    Att::ReadByGroupTypeReq { start, end, group_type: uuid }
                } else {
                    Att::ReadByTypeReq { start, end, attribute_type: uuid }
                };
                assert(att.wire() =~= packet@);
                Ok(att)
            },
        }
    } else if opcode == ATT_READ_REQUEST_OPCODE {
        if bytes.len() < 3 {
            return Err(AttParseError::Truncated);
        }
        if bytes.len() != 3 {
            return Err(AttParseError::BadLength);
        }
        let att = Att::ReadReq { handle: join_le16(bytes[1], bytes[2]) };
        assert(att.wire() =~= packet@);
        Ok(att)
    } else if opcode == ATT_WRITE_REQUEST_OPCODE {
        if bytes.len() < 3 {
            return Err(AttParseError::Truncated);
        }
        let handle = join_le16(bytes[1], bytes[2]);
        let data = Data::new(vstd::slice::slice_subrange(bytes, 3, bytes.len()));
        let att = Att::WriteReq { handle, data };
        assert(att.wire() =~= packet@);
        Ok(att)
    } else {
        Err(AttParseError::UnsupportedOpcode(opcode))
    }
}

/// Different well-formed requests have different wire forms, so the
/// request that [`parse_att`] returns for a payload is the only one that
/// the payload stands for.
pub proof fn lemma_att_wire_injective(a: Att, b: Att)
    requires
        a.wf(),
        b.wf(),
        a.wire() == b.wire(),
    ensures
        a == b,
{
    lemma_att_wire_head(a);
    lemma_att_wire_head(b);
    match (a, b) {
        (
            Att::ReadByGroupTypeReq { start: s1, end: e1, group_type: u1 },
            Att::ReadByGroupTypeReq { start: s2, end: e2, group_type: u2 },
        ) => {
            lemma_range_request_fields(ATT_READ_BY_GROUP_TYPE_REQUEST_OPCODE, s1, e1, u1);
            lemma_range_request_fields(ATT_READ_BY_GROUP_TYPE_REQUEST_OPCODE, s2, e2, u2);
            lemma_uuid_wire_injective(u1, u2);
        },
        (
            Att::ReadByTypeReq { start: s1, end: e1, attribute_type: u1 },
            Att::ReadByTypeReq { start: s2, end: e2, attribute_type: u2 },
        ) => {
            lemma_range_request_fields(ATT_READ_BY_TYPE_REQUEST_OPCODE, s1, e1, u1);
            lemma_range_request_fields(ATT_READ_BY_TYPE_REQUEST_OPCODE, s2, e2, u2);
            lemma_uuid_wire_injective(u1, u2);
        },
        (Att::ReadReq { handle: h1 }, Att::ReadReq { handle: h2 }) => {
            assert(a.wire()[1] == lo_byte(h1) && a.wire()[2] == hi_byte(h1));
            assert(b.wire()[1] == lo_byte(h2) && b.wire()[2] == hi_byte(h2));
            lemma_le16_round_trip(h1, 0, 0);
            lemma_le16_round_trip(h2, 0, 0);
        },
        (Att::WriteReq { handle: h1, data: d1 }, Att::WriteReq { handle: h2, data: d2 }) => {
            assert(a.wire()[1] == lo_byte(h1) && a.wire()[2] == hi_byte(h1));
            assert(b.wire()[1] == lo_byte(h2) && b.wire()[2] == hi_byte(h2));
            lemma_le16_round_trip(h1, 0, 0);
            lemma_le16_round_trip(h2, 0, 0);
            assert(d1@ =~= a.wire().skip(3));
            assert(d2@ =~= b.wire().skip(3));
            lemma_data_ext(d1, d2);
        },
        _ => {},
    }
}

/// The opcode that announces a request.
pub open spec fn request_opcode(att: Att) -> u8 {
    match att {
        Att::ReadByGroupTypeReq { .. } => ATT_READ_BY_GROUP_TYPE_REQUEST_OPCODE,
        Att::ReadByTypeReq { .. } => ATT_READ_BY_TYPE_REQUEST_OPCODE,
        Att::ReadReq { .. } => ATT_READ_REQUEST_OPCODE,
        Att::WriteReq { .. } => ATT_WRITE_REQUEST_OPCODE,
    }
}

/// A request starts with its opcode.
proof fn lemma_att_wire_head(att: Att)
    ensures
        att.wire().len() >= 3,
        att.wire()[0] == request_opcode(att),
{
}

/// The fields of a range request can be read back from its wire form.
proof fn lemma_range_request_fields(opcode: u8, start: u16, end: u16, uuid: Uuid)
    ensures
        ({
            let w = seq![opcode] + le16_bytes(start) + le16_bytes(end) + uuid.wire();
            &&& w.len() == 5 + uuid.wire().len()
            &&& w[0] == opcode
            &&& le16(w[1], w[2]) == start
            &&& le16(w[3], w[4]) == end
            &&& w.skip(5) == uuid.wire()
        }),
{
    let w = seq![opcode] + le16_bytes(start) + le16_bytes(end) + uuid.wire();
    assert(w.skip(5) =~= uuid.wire());
}

/// The wire form of a well-formed request is a request: handed to
/// [`parse_att`], it is accepted, and what comes back is that request.
pub proof fn lemma_att_wire_parses(att: Att)
    requires
        att.wf(),
    ensures
        att_parse_error(att.wire()) is None,
{
    match att {
        Att::ReadByGroupTypeReq { start, end, group_type } => {
            lemma_range_request_fields(ATT_READ_BY_GROUP_TYPE_REQUEST_OPCODE, start, end, group_type);
        },
        Att::ReadByTypeReq { start, end, attribute_type } => {
            lemma_range_request_fields(ATT_READ_BY_TYPE_REQUEST_OPCODE, start, end, attribute_type);
        },
        Att::ReadReq { handle } => {},
        Att::WriteReq { handle, data } => {},
    }
}

/// The error codes of the Attribute Protocol.
#[derive(Clone, Copy, Debug, PartialEq, Eq)]
pub enum AttErrorCode {
    InvalidHandle,
    ReadNotPermitted,
    WriteNotPermitted,
    InvalidPdu,
    InsufficientAuthentication,
    RequestNotSupported,
    InvalidOffset,
    InsufficientAuthorization,
    PrepareQueueFull,
    AttributeNotFound,
    AttributeNotLong,
    InsufficientEncryptionKeySize,
    InvalidAttributeValueLength,
    UnlikelyError,
    InsufficientEncryption,
    UnsupportedGroupType,
    InsufficientResources,
}

impl AttErrorCode {
    /// The byte that stands for this error in an error response.
    pub open spec fn code(self) -> u8 {
        match self {
            AttErrorCode::InvalidHandle => 0x01,
            AttErrorCode::ReadNotPermitted => 0x02,
            AttErrorCode::WriteNotPermitted => 0x03,
            AttErrorCode::InvalidPdu => 0x04,
            AttErrorCode::InsufficientAuthentication => 0x05,
            AttErrorCode::RequestNotSupported => 0x06,
            AttErrorCode::InvalidOffset => 0x07,
            AttErrorCode::InsufficientAuthorization => 0x08,
            AttErrorCode::PrepareQueueFull => 0x09,
            AttErrorCode::AttributeNotFound => 0x0a,
            AttErrorCode::AttributeNotLong => 0x0b,
            AttErrorCode::InsufficientEncryptionKeySize => 0x0c,
            AttErrorCode::InvalidAttributeValueLength => 0x0d,
            AttErrorCode::UnlikelyError => 0x0e,
            AttErrorCode::InsufficientEncryption => 0x0f,
            AttErrorCode::UnsupportedGroupType => 0x10,
            AttErrorCode::InsufficientResources => 0x11,
        }
    }

    /// The byte that stands for this error in an error response.
    pub fn to_u8(&self) -> (out: u8)
        ensures
            out == self.code(),
    {
        match self {
            AttErrorCode::InvalidHandle => 0x01,
            AttErrorCode::ReadNotPermitted => 0x02,
            AttErrorCode::WriteNotPermitted => 0x03,
            AttErrorCode::InvalidPdu => 0x04,
            AttErrorCode::InsufficientAuthentication => 0x05,
            AttErrorCode::RequestNotSupported => 0x06,
            AttErrorCode::InvalidOffset => 0x07,
            AttErrorCode::InsufficientAuthorization => 0x08,
            AttErrorCode::PrepareQueueFull => 0x09,
            AttErrorCode::AttributeNotFound => 0x0a,
            AttErrorCode::AttributeNotLong => 0x0b,
            AttErrorCode::InsufficientEncryptionKeySize => 0x0c,
            AttErrorCode::InvalidAttributeValueLength => 0x0d,
            AttErrorCode::UnlikelyError => 0x0e,
            AttErrorCode::InsufficientEncryption => 0x0f,
            AttErrorCode::UnsupportedGroupType => 0x10,
            AttErrorCode::InsufficientResources => 0x11,
        }
    }
}

/// One entry of a group-type response: a handle range and the UUID of the
/// group it holds.
#[derive(Clone, Copy, Debug)]
pub struct AttributeData {
    pub attribute_handle: u16,
    pub end_group_handle: u16,
    pub attribute_value: Uuid,
}

impl AttributeData {
    /// The entry for the group `attribute_value` that reaches from
    /// `attribute_handle` to `end_group_handle`.
    pub fn new(attribute_handle: u16, end_group_handle: u16, attribute_value: Uuid) -> (out:
        AttributeData)
        ensures
            out.attribute_handle == attribute_handle,
            out.end_group_handle == end_group_handle,
            out.attribute_value == attribute_value,
    {
        AttributeData { attribute_handle, end_group_handle, attribute_value }
    }

    /// The entry on the wire: both handles, then the UUID.
    pub open spec fn wire(self) -> Seq<u8> {
        le16_bytes(self.attribute_handle) + le16_bytes(self.end_group_handle)
            + self.attribute_value.wire()
    }

    /// The wire form of this entry.
    pub fn encode(&self) -> (out: Data)
        ensures
            out.wf(),
            out@ == self.wire(),
            out.len == self.wire().len(),
    {
        let mut out = Data::default();
        let (lo, hi) = split_le16(self.attribute_handle);
        out.push(lo);
        out.push(hi);
        let (lo, hi) = split_le16(self.end_group_handle);
        out.push(lo);
        out.push(hi);
        let uuid = self.attribute_value.encode();
        out.append(uuid.to_slice());
        assert(out@ =~= self.wire());
        out
    }
}

/// One entry of a type response: a handle and the value found there.
#[derive(Clone, Copy, Debug)]
pub struct AttributePayloadData {
    pub handle: u16,
    pub data: Data,
}

impl AttributePayloadData {
    /// The entry for the value `data` at `handle`.
    pub fn new(handle: u16, data: Data) -> (out: AttributePayloadData)
        ensures
            out.handle == handle,
            out.data == data,
    {
        AttributePayloadData { handle, data }
    }

    /// The entry on the wire: the handle, then the value.
    pub open spec fn wire(self) -> Seq<u8> {
        le16_bytes(self.handle) + self.data@
    }

    /// The wire form of this entry.
    pub fn encode(&self) -> (out: Data)
        requires
            self.data.len + 2 <= CAPACITY,
        ensures
            out.wf(),
            out@ == self.wire(),
            out.len == self.data.len + 2,
    {
        let mut out = Data::default();
        let (lo, hi) = split_le16(self.handle);
        out.push(lo);
        out.push(hi);
        out.append(self.data.to_slice());
        assert(out@ =~= self.wire());
        out
    }
}

/// The wire forms of the first `n` entries of a group-type response, one
/// behind the other.
pub open spec fn group_entries_wire(list: Seq<AttributeData>, n: nat) -> Seq<u8>
    decreases n,
{
    if n == 0 {
        Seq::empty()
    } else {
        group_entries_wire(list, (n - 1) as nat) + list[n - 1].wire()
    }
}

/// The wire forms of the first `n` entries of a type response, one behind
/// the other.
pub open spec fn payload_entries_wire(list: Seq<AttributePayloadData>, n: nat) -> Seq<u8>
    decreases n,
{
    if n == 0 {
        Seq::empty()
    } else {
        payload_entries_wire(list, (n - 1) as nat) + list[n - 1].wire()
    }
}

/// A group-type response: the opcode, the length of one entry, then the
/// entries. The length is that of the first entry, and 0 where there is
/// none.
pub open spec fn read_by_group_type_response(list: Seq<AttributeData>) -> Seq<u8> {
    let entry_len = if list.len() == 0 {
        0u8
    } else {
        list[0].wire().len() as u8
    };
    seq![ATT_READ_BY_GROUP_TYPE_RESPONSE_OPCODE, entry_len] + group_entries_wire(list, list.len())
}

/// A type response: the opcode, the length of one entry, then the entries.
/// The length is that of the first entry, and 0 where there is none.
pub open spec fn read_by_type_response(list: Seq<AttributePayloadData>) -> Seq<u8> {
    let entry_len = if list.len() == 0 {
        0u8
    } else {
        list[0].wire().len() as u8
    };
    seq![ATT_READ_BY_TYPE_RESPONSE_OPCODE, entry_len] + payload_entries_wire(list, list.len())
}

/// A read response: the opcode, then the value.
pub open spec fn read_response(value: Seq<u8>) -> Seq<u8> {
    seq![ATT_READ_RESPONSE_OPCODE] + value
}

/// A write response: the opcode alone.
pub open spec fn write_response() -> Seq<u8> {
    seq![ATT_WRITE_RESPONSE_OPCODE]
}

/// An error response: the opcode, the opcode of the request that failed,
/// the handle it failed on and the reason.
pub open spec fn error_response(opcode: u8, handle: u16, code: AttErrorCode) -> Seq<u8> {
    seq![ATT_ERROR_RESPONSE_OPCODE, opcode, lo_byte(handle), hi_byte(handle), code.code()]
}

/// Encodes a group-type response with the entries of `attribute_list`.
pub fn att_encode_read_by_group_type_response(attribute_list: &[AttributeData]) -> (out: Data)
    requires
        read_by_group_type_response(attribute_list@).len() <= CAPACITY,
    ensures
        out.wf(),
        out@ == read_by_group_type_response(attribute_list@),
        out.len == read_by_group_type_response(attribute_list@).len(),
{
    let mut out = Data::default();
    out.push(ATT_READ_BY_GROUP_TYPE_RESPONSE_OPCODE);
    if attribute_list.len() == 0 {
        out.push(0);
    } else {
        out.push(
            match attribute_list[0].attribute_value {
                Uuid::Uuid16(_) => 6,
                Uuid::Uuid128(_) => 20,
            },
        );
    }
    let ghost head = out@;
    let mut i: usize = 0;
    while i < attribute_list.len()
        invariant
            i <= attribute_list@.len(),
            out.wf(),
            head.len() == 2,
            out@ == head + group_entries_wire(attribute_list@, i as nat),
            (head + group_entries_wire(attribute_list@, attribute_list@.len())).len() <= CAPACITY,
        decreases attribute_list@.len() - i,
    {
        let entry = attribute_list[i].encode();
        proof {
            lemma_group_entries_len(attribute_list@, (i + 1) as nat, attribute_list@.len());
            assert(out.len == out@.len());
            assert(entry.len == entry@.len());
        }
        out.append(entry.to_slice());
        i += 1;
    }
    out
}

/// Encodes a type response with the entries of `attribute_list`.
pub fn att_encode_read_by_type_response(attribute_list: &[AttributePayloadData]) -> (out: Data)
    requires
        read_by_type_response(attribute_list@).len() <= CAPACITY,
    ensures
        out.wf(),
        out@ == read_by_type_response(attribute_list@),
        out.len == read_by_type_response(attribute_list@).len(),
{
    let mut out = Data::default();
    out.push(ATT_READ_BY_TYPE_RESPONSE_OPCODE);
    if attribute_list.len() == 0 {
        out.push(0);
    } else {
        proof {
            lemma_payload_entries_len(attribute_list@, 1, attribute_list@.len());
            assert(payload_entries_wire(attribute_list@, 1) =~= attribute_list@[0].wire()) by {
                assert(payload_entries_wire(attribute_list@, 0) =~= Seq::<u8>::empty());
            }
        }
        out.push((attribute_list[0].data.len + 2) as u8);
    }
    let ghost head = out@;
    let mut i: usize = 0;
    while i < attribute_list.len()
        invariant
            i <= attribute_list@.len(),
            out.wf(),
            head.len() == 2,
            out@ == head + payload_entries_wire(attribute_list@, i as nat),
            (head + payload_entries_wire(attribute_list@, attribute_list@.len())).len()
                <= CAPACITY,
        decreases attribute_list@.len() - i,
    {
        proof {
            lemma_payload_entries_len(attribute_list@, (i + 1) as nat, attribute_list@.len());
            assert(attribute_list@[i as int].data.len == attribute_list@[i as int].data@.len());
        }
        let entry = attribute_list[i].encode();
        proof {
            assert(out.len == out@.len());
            assert(entry.len == entry@.len());
        }
        out.append(entry.to_slice());
        i += 1;
    }
    out
}

/// A longer run of entries is no shorter on the wire.
proof fn lemma_group_entries_len(list: Seq<AttributeData>, m: nat, n: nat)
    requires
        m <= n,
    ensures
        group_entries_wire(list, m).len() <= group_entries_wire(list, n).len(),
    decreases n,
{
    if m < n {
        lemma_group_entries_len(list, m, (n - 1) as nat);
    }
}

/// A longer run of entries is no shorter on the wire.
proof fn lemma_payload_entries_len(list: Seq<AttributePayloadData>, m: nat, n: nat)
    requires
        m <= n,
    ensures
        payload_entries_wire(list, m).len() <= payload_entries_wire(list, n).len(),
    decreases n,
{
    if m < n {
        lemma_payload_entries_len(list, m, (n - 1) as nat);
    }
}

/// Encodes a read response that carries `data`.
pub fn att_encode_read_response(data: &Data) -> (out: Data)
    requires
        data.len + 1 <= CAPACITY,
    ensures
        out.wf(),
        out@ == read_response(data@),
        out.len == data.len + 1,
{
    let mut out = Data::default();
    out.push(ATT_READ_RESPONSE_OPCODE);
    out.append(data.to_slice());
    out
}

/// Encodes the write response.
pub fn att_encode_write_response() -> (out: Data)
    ensures
        out.wf(),
        out@ == write_response(),
        out.len == 1,
{
    let mut out = Data::default();
    out.push(ATT_WRITE_RESPONSE_OPCODE);
    assert(out@ =~= write_response());
    out
}

/// Encodes the error response to the request with opcode `opcode` that
/// failed on `handle` for the reason `code`.
pub fn att_encode_error_response(opcode: u8, handle: u16, code: AttErrorCode) -> (out: Data)
    ensures
        out.wf(),
        out@ == error_response(opcode, handle, code),
        out.len == 5,
{
    let mut out = Data::default();
    let (lo, hi) = split_le16(handle);
    out.push(ATT_ERROR_RESPONSE_OPCODE);
    out.push(opcode);
    out.push(lo);
    out.push(hi);
    out.push(code.to_u8());
    assert(out@ =~= error_response(opcode, handle, code));
    out
}

} // verus!
