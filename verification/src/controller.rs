//! The controller interface: the transport a user supplies, and the host
//! side that sends commands over it and reads packets from it.

use vstd::prelude::*;
use crate::acl::{acl_parse_error, acl_parsed, parse_acl_packet, AclPacket, PACKET_TYPE_ACL};
use crate::command::{
    command_bytes, command_fits, command_opcode, create_command_data, opcode, Command,
};
use crate::data::{Data, CAPACITY};
use crate::event::{event_parsed, parse_event, EventType, PACKET_TYPE_EVENT};
use crate::wire::{join_le16, le16};

verus! {

/// The byte stream to the controller and a clock, both supplied by the
/// user of this crate. Nothing is assumed of an implementation: every
/// contract in this crate holds whatever these methods return.
pub trait HciConnection {
    /// The next byte from the controller, or `None` where none has
    /// arrived.
    fn read(&self) -> Option<u8>;

    /// Sends one byte to the controller.
    fn write(&self, data: u8);

    /// The time in milliseconds, on a clock that does not run backwards.
    fn millis(&self) -> u64;
}

/// What [`Ble::poll`] has read.
#[derive(Clone, Copy, Debug)]
pub enum PollResult {
    Event(EventType),
    AsyncData(AclPacket),
}

/// Why a command did not complete.
#[derive(Clone, Copy, Debug, PartialEq, Eq)]
pub enum Error {
    /// No answer to the command came in time.
    Timeout,
    /// The controller answered with this status, which is not zero.
    Failed(u8),
}

/// How long the host waits for the answer to a command, in milliseconds.
pub const TIMEOUT_MILLIS: u64 = 1000;

/// How often the host polls for the answer to a command at most. The
/// bound is out of reach in practice; it makes the wait end even on a
/// clock that stands still.
pub const COMMAND_POLL_LIMIT: u64 = 0xffff_ffff_ffff_ffff;

/// The length of the longest packet: an ACL header and a payload of
/// `0xffff` bytes.
pub const MAX_PACKET_LEN: usize = 65540;

/// The length of the packet that begins with `prefix`, as far as
/// `prefix` tells: 1 before the packet type is there, the length of the
/// header while the header is incomplete, and then the header and what
/// it declares. A byte that is no packet type the controller sends is a
/// packet of its own.
pub open spec fn packet_len(prefix: Seq<u8>) -> nat {
    if prefix.len() == 0 {
        1
    } else if prefix[0] == PACKET_TYPE_EVENT {
        if prefix.len() < 3 {
            3
        } else {
            (3 + prefix[2]) as nat
        }
    } else if prefix[0] == PACKET_TYPE_ACL {
        if prefix.len() < 5 {
            5
        } else {
            (5 + le16(prefix[3], prefix[4])) as nat
        }
    } else {
        1
    }
}

/// `bytes` hold all of the packet they begin.
pub open spec fn packet_complete(bytes: Seq<u8>) -> bool {
    bytes.len() >= packet_len(bytes)
}

/// `out` is what the packet `bytes` delivers: its event for an event
/// packet, its data for an ACL packet that a buffer can hold, and
/// nothing for anything else.
pub open spec fn packet_decoded(bytes: Seq<u8>, out: Option<PollResult>) -> bool {
    if bytes.len() > 0 && bytes[0] == PACKET_TYPE_EVENT {
        out matches Some(PollResult::Event(event)) && event_parsed(bytes, event)
    } else if acl_parse_error(bytes) is None {
        out matches Some(PollResult::AsyncData(packet)) && acl_parsed(bytes, packet)
    } else {
        out is None
    }
}

/// Classifies a packet by its first byte and reads it.
pub fn decode_packet(bytes: &[u8]) -> (out: Option<PollResult>)
    ensures
        packet_decoded(bytes@, out),
{
    if bytes.len() > 0 && bytes[0] == PACKET_TYPE_EVENT {
        Some(PollResult::Event(parse_event(bytes)))
    } else {
        match parse_acl_packet(bytes) {
            Ok(packet) => Some(PollResult::AsyncData(packet)),
            Err(_) => None,
        }
    }
}

/// What a poll means to a host that waits for the answer to the command
/// `opcode`: `None` where it is not that answer; the event where it is
/// and reports success; the status where it reports a failure. The
/// status is the first byte of the answer, and an answer without one
/// counts as success.
pub open spec fn command_outcome(opcode: u16, polled: Option<PollResult>) -> Option<
    Result<EventType, Error>,
> {
    match polled {
        Some(PollResult::Event(EventType::CommandComplete { num_packets, opcode: code, data })) => {
            if code != opcode {
                None
            } else if data.len > 0 && data.data@[0] != 0 {
                Some(Err(Error::Failed(data.data@[0])))
            } else {
                Some(Ok(EventType::CommandComplete { num_packets, opcode: code, data }))
            }
        },
        _ => None,
    }
}

/// Decides whether `polled` answers the command `opcode`, and how.
pub fn command_completion(opcode: u16, polled: &Option<PollResult>) -> (out: Option<
    Result<EventType, Error>,
>)
    ensures
        out == command_outcome(opcode, *polled),
{
    match polled {
        Some(PollResult::Event(event)) => match event {
            EventType::CommandComplete { num_packets: _, opcode: code, data } => {
                if *code == opcode {
                    if data.len > 0 && data.data[0] != 0 {
                        Some(Err(Error::Failed(data.data[0])))
                    } else {
                        Some(Ok(*event))
                    }
                } else {
                    None
                }
            },
            _ => None,
        },
        _ => None,
    }
}

/// More than [`TIMEOUT_MILLIS`] lie between `started` and `now`.
pub open spec fn deadline_passed(started: u64, now: u64) -> bool {
    now - started > TIMEOUT_MILLIS
}

/// Whether a wait that began at `started` is over at `now`.
pub fn timed_out(started: u64, now: u64) -> (out: bool)
    ensures
        out == deadline_passed(started, now),
{
    now > started && now - started > TIMEOUT_MILLIS
}

/// The host side of the controller interface.
///
/// It owns the transport. Beside it, it keeps the bytes of a packet that
/// has begun to arrive, and a ghost record of what it has done: every
/// byte it has written to the transport, every byte it has read from it,
/// how often a read has delivered nothing, every reading of the clock,
/// and the result of every poll.
pub struct Ble<'a> {
    connector: &'a dyn HciConnection,
    pending: Vec<u8>,
    sent: Ghost<Seq<u8>>,
    received: Ghost<Seq<u8>>,
    dry_reads: Ghost<nat>,
    clock: Ghost<Seq<u64>>,
    polls: Ghost<Seq<Option<PollResult>>>,
}

impl<'a> Ble<'a> {
    #[verifier::type_invariant]
    spec fn inv(self) -> bool {
        !packet_complete(self.pending@)
    }

    /// Every byte written to the transport so far.
    pub closed spec fn sent(&self) -> Seq<u8> {
        self.sent@
    }

    /// Every byte read from the transport so far.
    pub closed spec fn received(&self) -> Seq<u8> {
        self.received@
    }

    /// How often the transport had no byte when it was read.
    pub closed spec fn dry_reads(&self) -> nat {
        self.dry_reads@
    }

    /// Every reading of the transport's clock so far.
    pub closed spec fn clock(&self) -> Seq<u64> {
        self.clock@
    }

    /// What every poll so far has returned.
    pub closed spec fn polls(&self) -> Seq<Option<PollResult>> {
        self.polls@
    }

    /// The bytes read of a packet that is not complete yet.
    pub closed spec fn pending(&self) -> Seq<u8> {
        self.pending@
    }

    /// `self` and `other` have taken in the same: the same bytes, the
    /// same dry reads, the same readings of the clock and the same
    /// polls, and they hold back the same bytes.
    pub open spec fn same_intake(self, other: Self) -> bool {
        &&& self.received() == other.received()
        &&& self.dry_reads() == other.dry_reads()
        &&& self.clock() == other.clock()
        &&& self.polls() == other.polls()
        &&& self.pending() == other.pending()
    }

    /// A host on the transport `connector` that has done nothing yet.
    pub fn new(connector: &'a dyn HciConnection) -> (out: Ble<'a>)
        ensures
            out.sent() == Seq::<u8>::empty(),
            out.received() == Seq::<u8>::empty(),
            out.dry_reads() == 0,
            out.clock() == Seq::<u64>::empty(),
            out.polls() == Seq::<Option<PollResult>>::empty(),
            out.pending() == Seq::<u8>::empty(),
    {
        Ble {
            connector,
            pending: Vec::new(),
            sent: Ghost(Seq::empty()),
            received: Ghost(Seq::empty()),
            dry_reads: Ghost(0),
            clock: Ghost(Seq::empty()),
            polls: Ghost(Seq::empty()),
        }
    }

    /// A poll that takes the host from `self` to `after` returns `out`.
    ///
    /// The bytes held back before the poll and the bytes it read make
    /// one stream. Either every read delivered a byte and the last one
    /// made the stream a whole packet: then nothing is held back after
    /// the poll, and `out` is what the packet delivers. Or the last read
    /// delivered nothing while the stream was no whole packet yet: then
    /// all of it is held back, and `out` is nothing.
    pub open spec fn polled(self, after: Self, out: Option<PollResult>) -> bool {
        let stream = self.pending() + after.received().skip(self.received().len() as int);
        &&& after.polls() == self.polls().push(out)
        &&& after.clock() == self.clock()
        &&& self.received().is_prefix_of(after.received())
        &&& if after.dry_reads() == self.dry_reads() {
            &&& stream.len() == packet_len(stream)
            &&& after.pending() == Seq::<u8>::empty()
            &&& packet_decoded(stream, out)
        } else {
            &&& after.dry_reads() == self.dry_reads() + 1
            &&& !packet_complete(stream)
            &&& after.pending() == stream
            &&& out is None
        }
    }

    /// Reads a packet if the transport has one, and never waits.
    ///
    /// The transport is read until the packet that the bytes continue or
    /// begin is complete, or until a read delivers nothing. In the first
    /// case the packet is decoded and returned (see [`packet_decoded`]);
    /// in the second the bytes are kept for the next call and nothing is
    /// returned.
    pub fn poll(&mut self) -> (out: Option<PollResult>)
        ensures
            final(self).sent() == old(self).sent(),
            old(self).polled(*final(self), out),
    {
        proof {
            use_type_invariant(&*self);
        }
        let ghost before = self.received@;
        let ghost held = self.pending@;
        let mut raw: Vec<u8> = Vec::new();
        core::mem::swap(&mut raw, &mut self.pending);
        loop
            invariant
                self.pending@ == Seq::<u8>::empty(),
                self.sent@ == old(self).sent@,
                self.clock@ == old(self).clock@,
                self.polls@ == old(self).polls@,
                self.dry_reads@ == old(self).dry_reads@,
                before.is_prefix_of(self.received@),
                raw@ == held + self.received@.skip(before.len() as int),
                !packet_complete(raw@),
                before == old(self).received@,
                held == old(self).pending@,
            decreases MAX_PACKET_LEN - raw@.len(),
        {
            match self.connector.read() {
                None => {
                    proof {
                        self.dry_reads@ = self.dry_reads@ + 1;
                        self.polls@ = self.polls@.push(None);
                    }
                    core::mem::swap(&mut raw, &mut self.pending);
                    return None;
                },
                Some(byte) => {
                    let ghost read_before = self.received@;
                    raw.push(byte);
                    proof {
                        self.received@ = read_before.push(byte);
                        assert(raw@ =~= held + self.received@.skip(before.len() as int));
                    }
                    if raw.len() >= expected_len(raw.as_slice()) {
                        let out = decode_packet(raw.as_slice());
                        proof {
                            lemma_first_complete(raw@.drop_last(), byte);
                            self.polls@ = self.polls@.push(out);
                        }
                        return out;
                    }
                },
            }
        }
    }

    /// Writes `bytes` to the transport, first to last.
    pub fn write_bytes(&mut self, bytes: &[u8])
        ensures
            final(self).sent() == old(self).sent() + bytes@,
            final(self).same_intake(*old(self)),
    {
        let mut i: usize = 0;
        while i < bytes.len()
            invariant
                i <= bytes@.len(),
                self.sent@ == old(self).sent@ + bytes@.subrange(0, i as int),
                self.received@ == old(self).received@,
                self.dry_reads@ == old(self).dry_reads@,
                self.clock@ == old(self).clock@,
                self.polls@ == old(self).polls@,
                self.pending@ == old(self).pending@,
            decreases bytes@.len() - i,
        {
            self.connector.write(bytes[i]);
            proof {
                use_type_invariant(&*self);
                self.sent@ = self.sent@.push(bytes@[i as int]);
                assert(bytes@.subrange(0, i + 1) =~= bytes@.subrange(0, i as int).push(
                    bytes@[i as int],
                ));
            }
            i += 1;
        }
        assert(bytes@.subrange(0, i as int) =~= bytes@);
    }

    /// Resets the controller.
    pub fn init(&mut self) -> (out: Result<EventType, Error>)
        ensures
            final(self).sent() == old(self).sent() + command_bytes(Command::Reset),
            old(self).waited(*final(self), command_opcode(Command::Reset), out),
    {
        self.cmd_reset()
    }

    /// Sends the reset command and waits for its answer.
    pub fn cmd_reset(&mut self) -> (out: Result<EventType, Error>)
        ensures
            final(self).sent() == old(self).sent() + command_bytes(Command::Reset),
            old(self).waited(*final(self), command_opcode(Command::Reset), out),
    {
        self.execute(Command::Reset)
    }

    /// Sets the advertising parameters and waits for the answer.
    pub fn cmd_set_le_advertising_parameters(&mut self) -> (out: Result<EventType, Error>)
        ensures
            final(self).sent() == old(self).sent() + command_bytes(
                Command::LeSetAdvertisingParameters,
            ),
            old(self).waited(*final(self), command_opcode(Command::LeSetAdvertisingParameters), out),
    {
        self.execute(Command::LeSetAdvertisingParameters)
    }

    /// Sets the advertising data and waits for the answer.
    pub fn cmd_set_le_advertising_data(&mut self, data: Data) -> (out: Result<EventType, Error>)
        requires
            data.len + 4 <= CAPACITY,
        ensures
            final(self).sent() == old(self).sent() + command_bytes(
                (Command::LeSetAdvertisingData { data }),
            ),
            old(self).waited(*final(self), command_opcode((Command::LeSetAdvertisingData { data })), out),
    {
        self.execute(Command::LeSetAdvertisingData { data })
    }

    /// Switches advertising on or off and waits for the answer.
    pub fn cmd_set_le_advertise_enable(&mut self, enable: bool) -> (out: Result<EventType, Error>)
        ensures
            final(self).sent() == old(self).sent() + command_bytes(
                Command::LeSetAdvertiseEnable(enable),
            ),
            old(self).waited(*final(self), command_opcode(Command::LeSetAdvertiseEnable(enable)), out),
    {
        self.execute(Command::LeSetAdvertiseEnable(enable))
    }

    /// Sends `command` and waits for its answer.
    pub fn execute(&mut self, command: Command) -> (out: Result<EventType, Error>)
        requires
            command_fits(command),
        ensures
            final(self).sent() == old(self).sent() + command_bytes(command),
            old(self).waited(*final(self), command_opcode(command), out),
    {
        let packet = create_command_data(command);
        self.write_bytes(packet.to_slice());
        self.wait_for_command_complete(opcode(&command))
    }

    /// A wait for the answer to the command `opcode` that takes the host
    /// from `self` to `after` ends with `out`.
    ///
    /// The clock is read once before the first poll and once after every
    /// poll that does not bring the answer. The host polls until a poll
    /// brings the answer, until a reading lies more than
    /// [`TIMEOUT_MILLIS`] behind the first, or until it has polled
    /// [`COMMAND_POLL_LIMIT`] times. In the first case `out` is what
    /// [`command_outcome`] makes of the answer: the event, or the status
    /// that is not zero. In the other two it is the timeout.
    pub open spec fn waited(self, after: Self, opcode: u16, out: Result<EventType, Error>) -> bool {
        let polls = after.polls().skip(self.polls().len() as int);
        let clock = after.clock().skip(self.clock().len() as int);
        &&& self.polls().is_prefix_of(after.polls())
        &&& self.clock().is_prefix_of(after.clock())
        &&& 1 <= polls.len() <= COMMAND_POLL_LIMIT
        &&& forall|k: int|
            0 <= k < polls.len() - 1 ==> command_outcome(opcode, #[trigger] polls[k]) is None
        &&& forall|k: int| 1 <= k < polls.len() ==> !deadline_passed(clock[0], #[trigger] clock[k])
        &&& match command_outcome(opcode, polls.last()) {
            Some(result) => out == result && clock.len() == polls.len(),
            None => {
                &&& out == Err::<EventType, Error>(Error::Timeout)
                &&& clock.len() == polls.len() + 1
                &&& deadline_passed(clock[0], clock.last()) || polls.len() == COMMAND_POLL_LIMIT
            },
        }
    }

    /// Polls until the answer to the command `opcode` arrives or the wait
    /// is over.
    ///
    /// What each poll and each reading of the clock means is decided by
    /// [`command_completion`] and [`timed_out`].
    fn wait_for_command_complete(&mut self, opcode: u16) -> (out: Result<EventType, Error>)
        ensures
            final(self).sent() == old(self).sent(),
            old(self).waited(*final(self), opcode, out),
    {
        let ghost first_poll = self.polls().len() as int;
        let ghost first_reading = self.clock().len() as int;
        let started = self.read_clock();
        let mut polls_left: u64 = COMMAND_POLL_LIMIT;
        while polls_left > 0
            invariant
                self.sent() == old(self).sent(),
                first_poll == old(self).polls().len(),
                first_reading == old(self).clock().len(),
                old(self).polls() =~= self.polls().subrange(0, first_poll),
                old(self).clock() =~= self.clock().subrange(0, first_reading),
                self.polls().len() == first_poll + (COMMAND_POLL_LIMIT - polls_left),
                self.clock().len() == first_reading + 1 + (COMMAND_POLL_LIMIT - polls_left),
                self.clock()[first_reading] == started,
                forall|k: int|
                    first_poll <= k < self.polls().len() ==> command_outcome(
                        opcode,
                        #[trigger] self.polls()[k],
                    ) is None,
                forall|k: int|
                    first_reading < k < self.clock().len() ==> !deadline_passed(
                        started,
                        #[trigger] self.clock()[k],
                    ),
            decreases polls_left,
        {
            let polled = self.poll();
            let answer = command_completion(opcode, &polled);
            proof {
                assert(old(self).polls() =~= self.polls().subrange(0, first_poll));
            }
            match answer {
                Some(result) => {
                    proof {
                        self.lemma_waited(*old(self), opcode, started, result);
                    }
                    return result;
                },
                None => {},
            }
            let now = self.read_clock();
            proof {
                assert(old(self).clock() =~= self.clock().subrange(0, first_reading));
            }
            if timed_out(started, now) {
                proof {
                    self.lemma_waited(*old(self), opcode, started, Err(Error::Timeout));
                }
                return Err(Error::Timeout);
            }
            polls_left -= 1;
        }
        proof {
            self.lemma_waited(*old(self), opcode, started, Err(Error::Timeout));
        }
        Err(Error::Timeout)
    }

    /// The facts that a wait gathers while it runs make up [`Ble::waited`].
    proof fn lemma_waited(
        self,
        before: Self,
        opcode: u16,
        started: u64,
        out: Result<EventType, Error>,
    )
        requires
            before.polls() =~= self.polls().subrange(0, before.polls().len() as int),
            before.clock() =~= self.clock().subrange(0, before.clock().len() as int),
            before.polls().len() < self.polls().len() <= before.polls().len()
                + COMMAND_POLL_LIMIT,
            before.clock().len() < self.clock().len(),
            self.clock()[before.clock().len() as int] == started,
            forall|k: int|
                before.polls().len() <= k < self.polls().len() - 1 ==> command_outcome(
                    opcode,
                    #[trigger] self.polls()[k],
                ) is None,
            forall|k: int|
                before.clock().len() < k < self.polls().len() - before.polls().len()
                    + before.clock().len() ==> !deadline_passed(started, #[trigger] self.clock()[k]),
            match command_outcome(opcode, self.polls().last()) {
                Some(result) => out == result && self.clock().len() - before.clock().len()
                    == self.polls().len() - before.polls().len(),
                None => {
                    &&& out == Err::<EventType, Error>(Error::Timeout)
                    &&& self.clock().len() - before.clock().len() == self.polls().len()
                        - before.polls().len() + 1
                    &&& deadline_passed(started, self.clock().last()) || self.polls().len()
                        - before.polls().len() == COMMAND_POLL_LIMIT
                },
            },
        ensures
            before.waited(self, opcode, out),
    {
        let polls = self.polls().skip(before.polls().len() as int);
        let clock = self.clock().skip(before.clock().len() as int);
        assert(polls.last() == self.polls().last());
        assert(clock[0] == started);
        assert forall|k: int| 0 <= k < polls.len() - 1 implies command_outcome(
            opcode,
            #[trigger] polls[k],
        ) is None by {
            assert(polls[k] == self.polls()[before.polls().len() + k]);
        }
        assert forall|k: int| 1 <= k < polls.len() implies !deadline_passed(
            clock[0],
            #[trigger] clock[k],
        ) by {
            assert(clock[k] == self.clock()[before.clock().len() + k]);
        }
        if command_outcome(opcode, polls.last()) is None {
            assert(clock.last() == self.clock().last());
        }
    }

    /// Reads the clock of the transport.
    fn read_clock(&mut self) -> (out: u64)
        ensures
            final(self).clock() == old(self).clock().push(out),
            final(self).sent() == old(self).sent(),
            final(self).received() == old(self).received(),
            final(self).dry_reads() == old(self).dry_reads(),
            final(self).polls() == old(self).polls(),
            final(self).pending() == old(self).pending(),
    {
        let now = self.connector.millis();
        proof {
            use_type_invariant(&*self);
            self.clock@ = self.clock@.push(now);
        }
        now
    }
}

/// A byte that completes a packet makes it exactly as long as it
/// declares.
pub proof fn lemma_first_complete(prefix: Seq<u8>, byte: u8)
    requires
        !packet_complete(prefix),
        packet_complete(prefix.push(byte)),
    ensures
        prefix.push(byte).len() == packet_len(prefix.push(byte)),
{
    let whole = prefix.push(byte);
    if prefix.len() > 0 {
        assert(whole[0] == prefix[0]);
        if prefix.len() >= 3 {
            assert(whole[2] == prefix[2]);
        }
        if prefix.len() >= 5 {
            assert(whole[3] == prefix[3] && whole[4] == prefix[4]);
        }
    }
}

/// The length of the packet that begins with `prefix`, as far as `prefix`
/// tells.
pub fn expected_len(prefix: &[u8]) -> (out: usize)
    ensures
        out == packet_len(prefix@),
        out <= MAX_PACKET_LEN,
{
    if prefix.len() == 0 {
        1
    } else if prefix[0] == PACKET_TYPE_EVENT {
        if prefix.len() < 3 {
            3
        } else {
            3 + prefix[2] as usize
        }
    } else if prefix[0] == PACKET_TYPE_ACL {
        if prefix.len() < 5 {
            5
        } else {
            5 + join_le16(prefix[3], prefix[4]) as usize
        }
    } else {
        1
    }
}

} // verus!
