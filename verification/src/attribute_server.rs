//! The attribute server: a table of handles for a list of services, and
//! the answers to the requests of a peer.

use vstd::prelude::*;
use crate::acl::{
    acl_frame, acl_parse_error, acl_parsed, encode_acl_packet, AclPacket, BoundaryFlag,
    ControllerBroadcastFlag, HostBroadcastFlag,
};
use crate::att::{
    att_encode_error_response, att_encode_read_by_group_type_response,
    att_encode_read_by_type_response, att_encode_read_response, att_encode_write_response,
    att_parse_error, error_response, parse_att, read_by_group_type_response, read_response,
    write_response, Att, AttErrorCode, AttParseError, AttributeData, AttributePayloadData, Uuid,
    ATT_READ_BY_GROUP_TYPE_REQUEST_OPCODE, ATT_READ_BY_TYPE_REQUEST_OPCODE,
    ATT_READ_BY_TYPE_RESPONSE_OPCODE, ATT_READ_REQUEST_OPCODE, ATT_WRITE_REQUEST_OPCODE,
};
use crate::controller::{Ble, PollResult};
use crate::data::{Data, CAPACITY};
use crate::l2cap::{encode_l2cap, l2cap_frame, l2cap_parse_error, parse_l2cap, L2capParseError};
use crate::wire::{le16_bytes, split_le16};

verus! {

/// Permission bit: the characteristic can be read.
pub const ATT_READABLE: u8 = 0x02;

/// Permission bit: the characteristic can be written.
pub const ATT_WRITEABLE: u8 = 0x08;

/// The 16-bit UUID of a primary service declaration.
pub const PRIMARY_SERVICE_UUID16: u16 = 0x2800;

/// The 16-bit UUID of a characteristic declaration.
pub const CHARACTERISTIC_UUID16: u16 = 0x2803;

/// The number of services whose handles fit into 16 bits.
pub const MAX_SERVICES: usize = 21845;

/// The number of bytes of a value that a read response carries at most:
/// what a buffer holds beside the headers of the three layers.
pub const MAX_READ_VALUE_LEN: usize = 118;

/// Why a packet from the peer could not be served.
#[derive(Clone, Copy, Debug, PartialEq, Eq)]
pub enum AttributeServerError {
    L2capError(L2capParseError),
    AttError(AttParseError),
}

impl From<L2capParseError> for AttributeServerError {
    fn from(err: L2capParseError) -> (out: Self) {
        AttributeServerError::L2capError(err)
    }
}

impl vstd::std_specs::convert::FromSpecImpl<L2capParseError> for AttributeServerError {
    open spec fn obeys_from_spec() -> bool {
        true
    }

    open spec fn from_spec(err: L2capParseError) -> Self {
        AttributeServerError::L2capError(err)
    }
}

impl From<AttParseError> for AttributeServerError {
    fn from(err: AttParseError) -> (out: Self) {
        AttributeServerError::AttError(err)
    }
}

impl vstd::std_specs::convert::FromSpecImpl<AttParseError> for AttributeServerError {
    open spec fn obeys_from_spec() -> bool {
        true
    }

    open spec fn from_spec(err: AttParseError) -> Self {
        AttributeServerError::AttError(err)
    }
}

/// What a service does when its characteristic is read or written.
///
/// Nothing is assumed of an implementation: the server copes with
/// whatever `read` returns.
pub trait Characteristic {
    /// The current value.
    fn read(&mut self) -> Data;

    /// Takes a new value.
    fn write(&mut self, data: Data);
}

/// A boxed characteristic behaves as the one in the box, so that a list
/// of services can hold characteristics of different kinds.
impl<'a> Characteristic for Box<dyn Characteristic + 'a> {
    fn read(&mut self) -> Data {
        (**self).read()
    }

    fn write(&mut self, data: Data) {
        (**self).write(data)
    }
}

/// A service with one characteristic, as the user describes it.
pub struct Service<C: Characteristic> {
    pub uuid: Uuid,
    pub permissions: u8,
    pub characteristic: C,
}

impl<C: Characteristic> Service<C> {
    /// A service with the characteristic `uuid`, the permission bits
    /// `permissions` ([`ATT_READABLE`], [`ATT_WRITEABLE`]) and the
    /// behaviour `characteristic`.
    pub fn new(uuid: Uuid, permissions: u8, characteristic: C) -> (out: Service<C>)
        ensures
            out.uuid == uuid,
            out.permissions == permissions,
            out.characteristic == characteristic,
    {
        Service { uuid, permissions, characteristic }
    }
}

/// The entry of the handle table for one service.
#[derive(Clone, Copy, Debug, PartialEq, Eq)]
pub struct ServiceRecord {
    pub uuid: Uuid,
    pub permissions: u8,
    pub start_handle: u16,
    pub characteristics_handle: u16,
    pub end_handle: u16,
}

/// The entry of the service at `index`: its handles are `1 + 3·index` for
/// the start and two more for both the characteristic and the end.
pub open spec fn record_of(index: int, uuid: Uuid, permissions: u8) -> ServiceRecord {
    ServiceRecord {
        uuid,
        permissions,
        start_handle: (1 + 3 * index) as u16,
        characteristics_handle: (3 + 3 * index) as u16,
        end_handle: (3 + 3 * index) as u16,
    }
}

/// Every entry of `table` has the handles that its place gives it, and
/// all of them fit into 16 bits.
pub open spec fn table_wf(table: Seq<ServiceRecord>) -> bool {
    &&& table.len() <= MAX_SERVICES
    &&& forall|i: int|
        0 <= i < table.len() ==> #[trigger] table[i] == record_of(
            i,
            table[i].uuid,
            table[i].permissions,
        )
}

/// `table` is the handle table of `services`: it has an entry for each,
/// in their order, with the UUID and the permissions of the service and
/// the handles that its place gives it.
pub open spec fn table_of<C: Characteristic>(
    services: Seq<Service<C>>,
    table: Seq<ServiceRecord>,
) -> bool {
    &&& table.len() == services.len()
    &&& table.len() <= MAX_SERVICES
    &&& forall|i: int|
        0 <= i < table.len() ==> #[trigger] table[i] == record_of(
            i,
            services[i].uuid,
            services[i].permissions,
        )
}

/// The table of a list of services is well-formed.
pub proof fn lemma_table_of_wf<C: Characteristic>(
    services: Seq<Service<C>>,
    table: Seq<ServiceRecord>,
)
    requires
        table_of(services, table),
    ensures
        table_wf(table),
{
}

/// A call of a service's [`Characteristic`].
pub enum Access {
    /// The service at `service` was read and returned `value`.
    Read { service: int, value: Data },
    /// The service at `service` was handed `value`.
    Write { service: int, value: Data },
}

/// The state of a server as contracts see it.
pub struct ServerView<C: Characteristic> {
    /// The services, in the order in which they were given.
    pub services: Seq<Service<C>>,
    /// The handle table.
    pub table: Seq<ServiceRecord>,
    /// Every byte written to the transport so far.
    pub sent: Seq<u8>,
    /// Every call of a characteristic so far.
    pub accesses: Seq<Access>,
}

/// Between `before` and `after` no service but the one at `index` has
/// changed, and of that one neither the UUID nor the permissions.
pub open spec fn only_touched<C: Characteristic>(
    before: Seq<Service<C>>,
    index: int,
    after: Seq<Service<C>>,
) -> bool {
    &&& after.len() == before.len()
    &&& forall|j: int| 0 <= j < before.len() && j != index ==> after[j] == before[j]
    &&& 0 <= index < before.len() ==> after[index].uuid == before[index].uuid
    &&& 0 <= index < before.len() ==> after[index].permissions == before[index].permissions
}

/// The range of the entry lies within `start..=end`.
pub open spec fn fits(record: ServiceRecord, start: u16, end: u16) -> bool {
    record.start_handle >= start && record.end_handle <= end
}

/// `index` is the first entry of `table` whose range lies within
/// `start..=end`.
pub open spec fn is_first_fit(table: Seq<ServiceRecord>, start: u16, end: u16, index: int) -> bool {
    &&& 0 <= index < table.len()
    &&& fits(table[index], start, end)
    &&& forall|j: int| 0 <= j < index ==> !fits(#[trigger] table[j], start, end)
}

/// The first entry of `table` whose range lies within `start..=end`.
pub open spec fn first_fit(table: Seq<ServiceRecord>, start: u16, end: u16) -> Option<int> {
    if exists|i: int| is_first_fit(table, start, end, i) {
        Some(choose|i: int| is_first_fit(table, start, end, i))
    } else {
        None
    }
}

/// `index` is the first entry of `table` whose characteristic has the
/// handle `handle`.
pub open spec fn is_owner(table: Seq<ServiceRecord>, handle: u16, index: int) -> bool {
    &&& 0 <= index < table.len()
    &&& table[index].characteristics_handle == handle
    &&& forall|j: int| 0 <= j < index ==> (#[trigger] table[j]).characteristics_handle != handle
}

/// The first entry of `table` whose characteristic has the handle
/// `handle`.
pub open spec fn owner(table: Seq<ServiceRecord>, handle: u16) -> Option<int> {
    if exists|i: int| is_owner(table, handle, i) {
        Some(choose|i: int| is_owner(table, handle, i))
    } else {
        None
    }
}

/// The frame that carries the response `pdu` to the peer: an L2CAP frame
/// on the channel of the Attribute Protocol inside an ACL packet for the
/// handle 0, flagged as the automatically flushable start of a message
/// that is no broadcast.
pub open spec fn response_frame(pdu: Seq<u8>) -> Seq<u8> {
    acl_frame(
        0,
        BoundaryFlag::FirstAutoFlushable.bits(),
        HostBroadcastFlag::NoBroadcast.bits(),
        l2cap_frame(pdu),
    )
}

/// The response to a read-by-group-type request for `start..=end`.
///
/// Where the group type is the primary service and an entry fits, the
/// response holds one entry: the range of the first that fits, with the
/// group type. Otherwise it is the error that no attribute was found at
/// `start`.
pub open spec fn read_by_group_type_reply(
    table: Seq<ServiceRecord>,
    start: u16,
    end: u16,
    group_type: Uuid,
) -> Seq<u8> {
    match first_fit(table, start, end) {
        Some(i) if group_type == Uuid::Uuid16(PRIMARY_SERVICE_UUID16) => {
            read_by_group_type_response(
                seq![
                    AttributeData {
                        attribute_handle: table[i].start_handle,
                        end_group_handle: table[i].end_handle,
                        attribute_value: group_type,
                    },
                ],
            )
        },
        _ => error_response(
            ATT_READ_BY_GROUP_TYPE_REQUEST_OPCODE,
            start,
            AttErrorCode::AttributeNotFound,
        ),
    }
}

/// The value of a characteristic declaration: the permission bits, the
/// handle of the characteristic's value and its UUID.
pub open spec fn characteristic_declaration(record: ServiceRecord) -> Seq<u8> {
    seq![record.permissions] + le16_bytes(record.characteristics_handle) + record.uuid.wire()
}

/// A type response with one entry: `value` at `handle`.
pub open spec fn single_type_response(handle: u16, value: Seq<u8>) -> Seq<u8> {
    seq![ATT_READ_BY_TYPE_RESPONSE_OPCODE, (2 + value.len()) as u8] + le16_bytes(handle) + value
}

/// The response to a read-by-type request for `start..=end`.
///
/// Where the type is the characteristic declaration and an entry fits,
/// the response holds one entry: the declaration of the first that fits,
/// at the handle behind its start. Otherwise it is the error that no
/// attribute was found at `start`.
pub open spec fn read_by_type_reply(
    table: Seq<ServiceRecord>,
    start: u16,
    end: u16,
    attribute_type: Uuid,
) -> Seq<u8> {
    match first_fit(table, start, end) {
        Some(i) if attribute_type == Uuid::Uuid16(CHARACTERISTIC_UUID16) => single_type_response(
            (table[i].start_handle + 1) as u16,
            characteristic_declaration(table[i]),
        ),
        _ => error_response(
            ATT_READ_BY_TYPE_REQUEST_OPCODE,
            start,
            AttErrorCode::AttributeNotFound,
        ),
    }
}

/// The part of a value that a read response carries: its first
/// [`MAX_READ_VALUE_LEN`] bytes, or all of it where it has no more.
pub open spec fn readable_part(value: Data) -> Seq<u8> {
    value.data@.subrange(
        0,
        if value.len <= MAX_READ_VALUE_LEN {
            value.len as int
        } else {
            MAX_READ_VALUE_LEN as int
        },
    )
}

/// What serving `request` does to a server: which characteristic is
/// called, and which response is sent.
///
/// - A read-by-group-type or read-by-type request calls nothing and
///   sends [`read_by_group_type_reply`] or [`read_by_type_reply`].
/// - A read request for the handle of a characteristic reads that
///   characteristic once and sends what it returned, as far as
///   [`readable_part`] goes.
/// - A write request for the handle of a characteristic hands the value
///   to that characteristic once and sends a write response.
/// - A read or write request for another handle calls nothing and sends
///   the error that no attribute was found at that handle.
pub open spec fn answered<C: Characteristic>(
    before: ServerView<C>,
    request: Att,
    after: ServerView<C>,
) -> bool {
    &&& after.table == before.table
    &&& match request {
        Att::ReadByGroupTypeReq { start, end, group_type } => {
            &&& after.services == before.services
            &&& after.accesses == before.accesses
            &&& after.sent == before.sent + response_frame(
                read_by_group_type_reply(before.table, start, end, group_type),
            )
        },
        Att::ReadByTypeReq { start, end, attribute_type } => {
            &&& after.services == before.services
            &&& after.accesses == before.accesses
            &&& after.sent == before.sent + response_frame(
                read_by_type_reply(before.table, start, end, attribute_type),
            )
        },
        Att::ReadReq { handle } => match owner(before.table, handle) {
            Some(i) => {
                &&& only_touched(before.services, i, after.services)
                &&& after.accesses.len() == before.accesses.len() + 1
                &&& after.accesses.drop_last() == before.accesses
                &&& after.accesses.last() matches Access::Read { service, value }
                &&& service == i
                &&& after.sent == before.sent + response_frame(read_response(readable_part(value)))
            },
            None => {
                &&& after.services == before.services
                &&& after.accesses == before.accesses
                &&& after.sent == before.sent + response_frame(
                    error_response(ATT_READ_REQUEST_OPCODE, handle, AttErrorCode::AttributeNotFound),
                )
            },
        },
        Att::WriteReq { handle, data } => match owner(before.table, handle) {
            Some(i) => {
                &&& only_touched(before.services, i, after.services)
                &&& after.accesses == before.accesses.push(Access::Write { service: i, value: data })
                &&& after.sent == before.sent + response_frame(write_response())
            },
            None => {
                &&& after.services == before.services
                &&& after.accesses == before.accesses
                &&& after.sent == before.sent + response_frame(
                    error_response(
                        ATT_WRITE_REQUEST_OPCODE,
                        handle,
                        AttErrorCode::AttributeNotFound,
                    ),
                )
            },
        },
    }
}

/// What serving the result of a poll does to a server.
///
/// Nothing and an event change nothing. The payload of an ACL packet is
/// unwrapped as an L2CAP frame and read as a request; an error of either
/// step is returned and changes nothing. A request is served as
/// [`answered`] says.
pub open spec fn served<C: Characteristic>(
    before: ServerView<C>,
    polled: Option<PollResult>,
    after: ServerView<C>,
    out: Result<(), AttributeServerError>,
) -> bool {
    match polled {
        Some(PollResult::AsyncData(packet)) => {
            let frame = packet.data@;
            let payload = frame.skip(4);
            match (l2cap_parse_error(frame), att_parse_error(payload)) {
                (Some(error), _) => {
                    &&& out == Err::<(), AttributeServerError>(
                        AttributeServerError::L2capError(error),
                    )
                    &&& after == before
                },
                (None, Some(error)) => {
                    &&& out == Err::<(), AttributeServerError>(
                        AttributeServerError::AttError(error),
                    )
                    &&& after == before
                },
                (None, None) => {
                    &&& out is Ok
                    &&& forall|request: Att|
                        request.wf() && request.wire() == payload ==> answered(
                            before,
                            request,
                            after,
                        )
                },
            }
        },
        _ => out is Ok && after == before,
    }
}

/// The server of a list of services on one controller.
///
/// Its state is the handle table that it computes when it is made.
/// Beside the table it keeps a ghost record of every call it has made of
/// a characteristic.
pub struct AttributeServer<'a, 'b, C: Characteristic> {
    ble: &'a mut Ble<'b>,
    services: &'a mut [Service<C>],
    table: Vec<ServiceRecord>,
    accesses: Ghost<Seq<Access>>,
}

impl<'a, 'b, C: Characteristic> View for AttributeServer<'a, 'b, C> {
    type V = ServerView<C>;

    closed spec fn view(&self) -> ServerView<C> {
        ServerView {
            services: self.services@,
            table: self.table@,
            sent: self.ble.sent(),
            accesses: self.accesses@,
        }
    }
}

impl<'a, 'b, C: Characteristic> AttributeServer<'a, 'b, C> {
    /// The table is the handle table of the services: the one that
    /// [`AttributeServer::new`] computes, and that holds in every state
    /// of a server.
    pub open spec fn wf(&self) -> bool {
        table_of(self@.services, self@.table)
    }

    /// The controller as it stands.
    pub closed spec fn controller(&self) -> Ble<'b> {
        *self.ble
    }

    /// A server for `services` on the controller `ble`.
    ///
    /// The service at index `i` gets the start handle `1 + 3·i`, and the
    /// handle two behind it for both its characteristic and its end.
    pub fn new(ble: &'a mut Ble<'b>, services: &'a mut [Service<C>]) -> (out: Self)
        requires
            old(services)@.len() <= MAX_SERVICES,
        ensures
            out.wf(),
            out@.services == old(services)@,
            out@.sent == old(ble).sent(),
            out@.accesses == Seq::<Access>::empty(),
            table_of(old(services)@, out@.table),
            out.controller() == *old(ble),
    {
        let mut table: Vec<ServiceRecord> = Vec::new();
        let mut i: usize = 0;
        while i < services.len()
            invariant
                i <= services@.len() <= MAX_SERVICES,
                table@.len() == i,
                forall|k: int|
                    0 <= k < i ==> #[trigger] table@[k] == record_of(
                        k,
                        services@[k].uuid,
                        services@[k].permissions,
                    ),
            decreases services@.len() - i,
        {
            let start_handle: u16 = (1 + 3 * i) as u16;
            table.push(
                ServiceRecord {
                    uuid: services[i].uuid,
                    permissions: services[i].permissions,
                    start_handle,
                    characteristics_handle: start_handle + 2,
                    end_handle: start_handle + 2,
                },
            );
            i += 1;
        }
        AttributeServer { ble, services, table, accesses: Ghost(Seq::empty()) }
    }

    /// The entry of the handle table for the service at `index`.
    pub fn record(&self, index: usize) -> (out: Option<ServiceRecord>)
        ensures
            index < self@.table.len() ==> out == Some(self@.table[index as int]),
            index >= self@.table.len() ==> out is None,
    {
        if index < self.table.len() {
            Some(self.table[index])
        } else {
            None
        }
    }

    /// The first service whose handle range lies within `start..=end`.
    pub fn find_by_range(&self, start: u16, end: u16) -> (out: Option<usize>)
        ensures
            out matches Some(i) ==> is_first_fit(self@.table, start, end, i as int),
            out is None ==> forall|j: int|
                0 <= j < self@.table.len() ==> !fits(#[trigger] self@.table[j], start, end),
            out == match first_fit(self@.table, start, end) {
                Some(i) => Some(i as usize),
                None => None,
            },
    {
        let mut i: usize = 0;
        while i < self.table.len()
            invariant
                i <= self.table@.len(),
                forall|j: int| 0 <= j < i ==> !fits(#[trigger] self.table@[j], start, end),
            decreases self.table@.len() - i,
        {
            let record = &self.table[i];
            if record.start_handle >= start && record.end_handle <= end {
                proof {
                    lemma_first_fit_is(self.table@, start, end, i as int);
                }
                return Some(i);
            }
            i += 1;
        }
        proof {
            if exists|k: int| is_first_fit(self.table@, start, end, k) {
                let k = choose|k: int| is_first_fit(self.table@, start, end, k);
                assert(!fits(self.table@[k], start, end));
            }
        }
        None
    }

    /// The first service whose characteristic has the handle `handle`.
    pub fn find_by_characteristic(&self, handle: u16) -> (out: Option<usize>)
        ensures
            out matches Some(i) ==> is_owner(self@.table, handle, i as int),
            out is None ==> forall|j: int|
                0 <= j < self@.table.len() ==> (#[trigger] self@.table[j]).characteristics_handle
                    != handle,
            out == match owner(self@.table, handle) {
                Some(i) => Some(i as usize),
                None => None,
            },
    {
        let mut i: usize = 0;
        while i < self.table.len()
            invariant
                i <= self.table@.len(),
                forall|j: int|
                    0 <= j < i ==> (#[trigger] self.table@[j]).characteristics_handle != handle,
            decreases self.table@.len() - i,
        {
            if self.table[i].characteristics_handle == handle {
                proof {
                    lemma_owner_is(self.table@, handle, i as int);
                }
                return Some(i);
            }
            i += 1;
        }
        proof {
            if exists|k: int| is_owner(self.table@, handle, k) {
                let k = choose|k: int| is_owner(self.table@, handle, k);
                assert(self.table@[k].characteristics_handle != handle);
            }
        }
        None
    }

    /// What the controller has polled last.
    pub open spec fn last_poll(&self) -> Option<PollResult> {
        self.controller().polls().last()
    }

    /// Polls the controller once and serves what it has read.
    ///
    /// What the poll returns is said by [`Ble::polled`], and what serving
    /// it does by [`served`]: this function does both, one after the
    /// other, for whatever the transport delivers.
    pub fn do_work(&mut self) -> (out: Result<(), AttributeServerError>)
        requires
            old(self).wf(),
        ensures
            final(self).wf(),
            old(self).controller().polled(final(self).controller(), final(self).last_poll()),
            served(old(self)@, final(self).last_poll(), final(self)@, out),
    {
        let polled = self.ble.poll();
        self.serve(polled)
    }

    /// Serves the result of a poll.
    pub fn serve(&mut self, polled: Option<PollResult>) -> (out: Result<(), AttributeServerError>)
        requires
            old(self).wf(),
            polled matches Some(PollResult::AsyncData(packet)) ==> packet.data.in_bounds(),
        ensures
            final(self).wf(),
            served(old(self)@, polled, final(self)@, out),
            final(self).controller().same_intake(old(self).controller()),
    {
        match polled {
            None => Ok(()),
            Some(PollResult::Event(_)) => Ok(()),
            Some(PollResult::AsyncData(packet)) => {
                let payload = match parse_l2cap(packet) {
                    Ok(payload) => payload,
                    Err(error) => {
                        return Err(AttributeServerError::from(error));
                    },
                };
                let request = match parse_att(payload) {
                    Ok(request) => request,
                    Err(error) => {
                        return Err(AttributeServerError::from(error));
                    },
                };
                let ghost before = self@;
                match request {
                    Att::ReadByGroupTypeReq { start, end, group_type } => {
                        self.handle_read_by_group_type_req(start, end, group_type);
                    },
                    Att::ReadByTypeReq { start, end, attribute_type } => {
                        self.handle_read_by_type_req(start, end, attribute_type);
                    },
                    Att::ReadReq { handle } => {
                        self.handle_read_req(handle);
                    },
                    Att::WriteReq { handle, data } => {
                        self.handle_write_req(handle, data);
                    },
                }
                proof {
                    assert forall|other: Att|
                        other.wf() && other.wire() == payload@ implies answered(
                        before,
                        other,
                        self@,
                    ) by {
                        crate::att::lemma_att_wire_injective(other, request);
                    }
                }
                Ok(())
            },
        }
    }

    /// Answers a read-by-group-type request.
    pub fn handle_read_by_group_type_req(&mut self, start: u16, end: u16, group_type: Uuid)
        requires
            old(self).wf(),
        ensures
            final(self).wf(),
            answered(
                old(self)@,
                (Att::ReadByGroupTypeReq { start, end, group_type }),
                final(self)@,
            ),
            final(self).controller().same_intake(old(self).controller()),
    {
        if group_type.is_uuid16(PRIMARY_SERVICE_UUID16) {
            match self.find_by_range(start, end) {
                Some(i) => {
                    let record = self.table[i];
                    let attribute_list = [
                        AttributeData::new(record.start_handle, record.end_handle, group_type),
                    ];
                    proof {
                        lemma_single_group_response(attribute_list@[0]);
                        assert(attribute_list@ =~= seq![attribute_list@[0]]);
                    }
                    let response = att_encode_read_by_group_type_response(
                        attribute_list.as_slice(),
                    );
                    self.write_att(response);
                    return ;
                },
                None => {},
            }
        }
        self.write_att(
            att_encode_error_response(
                ATT_READ_BY_GROUP_TYPE_REQUEST_OPCODE,
                start,
                AttErrorCode::AttributeNotFound,
            ),
        );
    }

    /// Answers a read-by-type request.
    pub fn handle_read_by_type_req(&mut self, start: u16, end: u16, attribute_type: Uuid)
        requires
            old(self).wf(),
        ensures
            final(self).wf(),
            answered(
                old(self)@,
                (Att::ReadByTypeReq { start, end, attribute_type }),
                final(self)@,
            ),
            final(self).controller().same_intake(old(self).controller()),
    {
        if attribute_type.is_uuid16(CHARACTERISTIC_UUID16) {
            match self.find_by_range(start, end) {
                Some(i) => {
                    let record = self.table[i];
                    let (lo, hi) = split_le16(record.characteristics_handle);
                    let mut data = Data::default();
                    data.push(record.permissions);
                    data.push(lo);
                    data.push(hi);
                    let uuid = record.uuid.encode();
                    data.append(uuid.to_slice());
                    assert(data@ =~= characteristic_declaration(record));
                    let attribute_list = [
                        AttributePayloadData::new(record.start_handle + 1, data),
                    ];
                    proof {
                        lemma_single_type_response(attribute_list@[0]);
                        assert(attribute_list@ =~= seq![attribute_list@[0]]);
                    }
                    let response = att_encode_read_by_type_response(attribute_list.as_slice());
                    self.write_att(response);
                    return ;
                },
                None => {},
            }
        }
        self.write_att(
            att_encode_error_response(
                ATT_READ_BY_TYPE_REQUEST_OPCODE,
                start,
                AttErrorCode::AttributeNotFound,
            ),
        );
    }

    /// Answers a read request.
    pub fn handle_read_req(&mut self, handle: u16)
        requires
            old(self).wf(),
        ensures
            final(self).wf(),
            answered(old(self)@, (Att::ReadReq { handle }), final(self)@),
            final(self).controller().same_intake(old(self).controller()),
    {
        match self.find_by_characteristic(handle) {
            Some(i) => {
                let ghost before = self@;
                let value = self.services[i].characteristic.read();
                proof {
                    self.accesses@ = self.accesses@.push(Access::Read { service: i as int, value });
                    assert(self@.accesses.drop_last() =~= before.accesses);
                }
                let len = if value.len <= MAX_READ_VALUE_LEN {
                    value.len
                } else {
                    MAX_READ_VALUE_LEN
                };
                let part = Data::new(vstd::slice::slice_subrange(value.data.as_slice(), 0, len));
                assert(part@ == readable_part(value));
                let response = att_encode_read_response(&part);
                self.write_att(response);
            },
            None => {
                self.write_att(
                    att_encode_error_response(
                        ATT_READ_REQUEST_OPCODE,
                        handle,
                        AttErrorCode::AttributeNotFound,
                    ),
                );
            },
        }
    }

    /// Answers a write request.
    pub fn handle_write_req(&mut self, handle: u16, data: Data)
        requires
            old(self).wf(),
        ensures
            final(self).wf(),
            answered(old(self)@, (Att::WriteReq { handle, data }), final(self)@),
            final(self).controller().same_intake(old(self).controller()),
    {
        match self.find_by_characteristic(handle) {
            Some(i) => {
                self.services[i].characteristic.write(data);
                proof {
                    self.accesses@ = self.accesses@.push(
                        Access::Write { service: i as int, value: data },
                    );
                }
                self.write_att(att_encode_write_response());
            },
            None => {
                self.write_att(
                    att_encode_error_response(
                        ATT_WRITE_REQUEST_OPCODE,
                        handle,
                        AttErrorCode::AttributeNotFound,
                    ),
                );
            },
        }
    }

    /// Sends a response of the Attribute Protocol to the peer.
    pub fn write_att(&mut self, data: Data)
        requires
            old(self).wf(),
            data.len + 9 <= CAPACITY,
        ensures
            final(self).wf(),
            final(self)@.services == old(self)@.services,
            final(self)@.table == old(self)@.table,
            final(self)@.accesses == old(self)@.accesses,
            final(self)@.sent == old(self)@.sent + response_frame(data@),
            final(self).controller().same_intake(old(self).controller()),
    {
        let frame = encode_l2cap(data);
        let packet = encode_acl_packet(
            0x0000,
            BoundaryFlag::FirstAutoFlushable,
            HostBroadcastFlag::NoBroadcast,
            frame,
        );
        self.ble.write_bytes(packet.to_slice());
    }
}

/// The handles of a table: the service at `i` starts at `1 + 3·i`, and
/// its characteristic and its end are two behind the start. So the start
/// of a service lies before its characteristic, and that not behind its
/// end.
pub proof fn lemma_handles(table: Seq<ServiceRecord>, i: int)
    requires
        table_wf(table),
        0 <= i < table.len(),
    ensures
        table[i].start_handle == 1 + 3 * i,
        table[i].characteristics_handle == table[i].start_handle + 2,
        table[i].end_handle == table[i].start_handle + 2,
        table[i].start_handle < table[i].characteristics_handle <= table[i].end_handle,
{
}

/// The handle ranges of two services do not overlap: the earlier one
/// ends before the later one starts.
pub proof fn lemma_ranges_disjoint(table: Seq<ServiceRecord>, i: int, j: int)
    requires
        table_wf(table),
        0 <= i < j < table.len(),
    ensures
        table[i].end_handle < table[j].start_handle,
{
}

/// No two services share the handle of a characteristic, so a request
/// names at most one.
pub proof fn lemma_owner_unique(table: Seq<ServiceRecord>, handle: u16, i: int, j: int)
    requires
        table_wf(table),
        0 <= i < table.len(),
        0 <= j < table.len(),
        table[i].characteristics_handle == handle,
        table[j].characteristics_handle == handle,
    ensures
        i == j,
        owner(table, handle) == Some(i),
{
    assert(is_owner(table, handle, i)) by {
        assert forall|k: int| 0 <= k < i implies (#[trigger] table[k]).characteristics_handle
            != handle by {
            assert(table[k] == record_of(k, table[k].uuid, table[k].permissions));
        }
    }
    lemma_owner_is(table, handle, i);
}

/// Discovery goes through the services in ascending order.
///
/// A query that reaches to the end of the handle space and starts
/// behind the end of the service before `index`, but not behind the
/// start of the service at `index`, finds the service at `index`. A
/// query that starts behind the end of every service finds none.
pub proof fn lemma_discovery_in_order(table: Seq<ServiceRecord>, index: int, start: u16)
    requires
        table_wf(table),
    ensures
        (0 <= index < table.len() && start <= table[index].start_handle && (index > 0 ==> table[index
            - 1].end_handle < start)) ==> first_fit(table, start, 0xffff) == Some(index),
        (forall|i: int| 0 <= i < table.len() ==> (#[trigger] table[i]).end_handle < start)
            ==> first_fit(table, start, 0xffff) is None,
{
    if 0 <= index < table.len() && start <= table[index].start_handle && (index > 0 ==> table[index
        - 1].end_handle < start) {
        assert forall|j: int| 0 <= j < index implies !fits(#[trigger] table[j], start, 0xffff) by {
            assert(table[index - 1] == record_of(
                index - 1,
                table[index - 1].uuid,
                table[index - 1].permissions,
            ));
        }
        lemma_first_fit_is(table, start, 0xffff, index);
    }
    if forall|i: int| 0 <= i < table.len() ==> (#[trigger] table[i]).end_handle < start {
        if exists|k: int| is_first_fit(table, start, 0xffff, k) {
            let k = choose|k: int| is_first_fit(table, start, 0xffff, k);
            assert(table[k].end_handle < start);
        }
    }
}

/// A response reaches the peer as it was made.
///
/// The frame of a response is an ACL packet for the handle 0, flagged
/// as the automatically flushable start of a message from one point to
/// another; its payload is an L2CAP frame on the channel of the
/// Attribute Protocol, and what that frame carries is the response.
pub proof fn lemma_response_round_trip(pdu: Seq<u8>, packet: AclPacket)
    requires
        pdu.len() + 9 <= CAPACITY,
        acl_parsed(response_frame(pdu), packet),
    ensures
        acl_parse_error(response_frame(pdu)) is None,
        packet.handle == 0,
        packet.boundary_flag == BoundaryFlag::FirstAutoFlushable,
        packet.bc_flag == ControllerBroadcastFlag::PointToPoint,
        l2cap_parse_error(packet.data@) is None,
        packet.data@.skip(4) == pdu,
{
    crate::acl::lemma_acl_parse_of_frame(
        0,
        BoundaryFlag::FirstAutoFlushable.bits(),
        HostBroadcastFlag::NoBroadcast.bits(),
        l2cap_frame(pdu),
        packet,
    );
    crate::l2cap::lemma_l2cap_parse_of_frame(pdu);
}

/// The first entry that fits is the one that [`first_fit`] names.
pub proof fn lemma_first_fit_is(table: Seq<ServiceRecord>, start: u16, end: u16, index: int)
    requires
        is_first_fit(table, start, end, index),
    ensures
        first_fit(table, start, end) == Some(index),
{
    let chosen = choose|i: int| is_first_fit(table, start, end, i);
    if chosen < index {
        assert(!fits(table[chosen], start, end));
    } else if index < chosen {
        assert(!fits(table[index], start, end));
    }
}

/// The first entry with a handle is the one that [`owner`] names.
pub proof fn lemma_owner_is(table: Seq<ServiceRecord>, handle: u16, index: int)
    requires
        is_owner(table, handle, index),
    ensures
        owner(table, handle) == Some(index),
{
    let chosen = choose|i: int| is_owner(table, handle, i);
    if chosen < index {
        assert(table[chosen].characteristics_handle != handle);
    } else if index < chosen {
        assert(table[index].characteristics_handle != handle);
    }
}

/// A group-type response with one entry is the opcode, the length of the
/// entry and the entry.
proof fn lemma_single_group_response(entry: AttributeData)
    ensures
        read_by_group_type_response(seq![entry]) == seq![
            crate::att::ATT_READ_BY_GROUP_TYPE_RESPONSE_OPCODE,
            entry.wire().len() as u8,
        ] + entry.wire(),
        read_by_group_type_response(seq![entry]).len() <= 22,
{
    let list = seq![entry];
    assert(crate::att::group_entries_wire(list, 1) =~= entry.wire()) by {
        assert(crate::att::group_entries_wire(list, 0) =~= Seq::<u8>::empty());
    }
}

/// A type response with one entry is [`single_type_response`] of that
/// entry.
proof fn lemma_single_type_response(entry: AttributePayloadData)
    ensures
        crate::att::read_by_type_response(seq![entry]) == single_type_response(
            entry.handle,
            entry.data@,
        ),
        crate::att::read_by_type_response(seq![entry]).len() == 4 + entry.data.len,
{
    let list = seq![entry];
    assert(crate::att::payload_entries_wire(list, 1) =~= entry.wire()) by {
        assert(crate::att::payload_entries_wire(list, 0) =~= Seq::<u8>::empty());
    }
    assert(crate::att::read_by_type_response(list) =~= single_type_response(
        entry.handle,
        entry.data@,
    ));
}

} // verus!
