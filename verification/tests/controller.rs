use std::cell::{Cell, RefCell};
use std::collections::VecDeque;

use ble_hci::{
    acl::{AclPacket, BoundaryFlag, ControllerBroadcastFlag},
    controller::{command_completion, decode_packet, expected_len, timed_out, TIMEOUT_MILLIS},
    event::{ErrorCode, EventType},
    Ble, Data, Error, HciConnection, PollResult,
};

/// A transport that hands out queued bytes, keeps what is written and
/// advances its clock by a fixed step at every reading.
struct Wire {
    inbound: RefCell<VecDeque<u8>>,
    outbound: RefCell<Vec<u8>>,
    now: Cell<u64>,
    step: u64,
    reads: Cell<usize>,
}

impl Wire {
    fn new(step: u64) -> Wire {
        Wire {
            inbound: RefCell::new(VecDeque::new()),
            outbound: RefCell::new(Vec::new()),
            now: Cell::new(0),
            step,
            reads: Cell::new(0),
        }
    }

    fn deliver(&self, bytes: &[u8]) {
        self.inbound.borrow_mut().extend(bytes.iter().copied());
    }

    fn left(&self) -> usize {
        self.inbound.borrow().len()
    }
}

impl HciConnection for Wire {
    fn read(&self) -> Option<u8> {
        self.reads.set(self.reads.get() + 1);
        self.inbound.borrow_mut().pop_front()
    }

    fn write(&self, data: u8) {
        self.outbound.borrow_mut().push(data);
    }

    fn millis(&self) -> u64 {
        let now = self.now.get();
        self.now.set(now + self.step);
        now
    }
}

fn command_complete(opcode: u16, answer: &[u8]) -> EventType {
    EventType::CommandComplete { num_packets: 1, opcode, data: Data::new(answer) }
}

#[test]
fn poll_returns_nothing_at_once_when_nothing_has_arrived() {
    let wire = Wire::new(1);
    let mut ble = Ble::new(&wire);
    assert!(ble.poll().is_none());
    assert_eq!(wire.reads.get(), 1);
    assert!(wire.outbound.borrow().is_empty());
}

#[test]
fn poll_takes_one_packet_at_a_time() {
    let wire = Wire::new(1);
    let mut ble = Ble::new(&wire);
    wire.deliver(&[0x04, 0x0e, 0x04, 0x05, 0x03, 0x0c, 0x00]);
    wire.deliver(&[0x02, 0x00, 0x20, 0x02, 0x00, 0xaa, 0xbb]);
    wire.deliver(&[0x04, 0x05, 0x04, 0x00, 0x40, 0x00, 0x13]);

    assert!(matches!(
        ble.poll(),
        Some(PollResult::Event(EventType::CommandComplete { num_packets: 5, opcode: 0x0c03, .. }))
    ));
    assert_eq!(wire.left(), 14);
    assert!(matches!(
        ble.poll(),
        Some(PollResult::AsyncData(AclPacket {
            handle: 0,
            boundary_flag: BoundaryFlag::FirstAutoFlushable,
            bc_flag: ControllerBroadcastFlag::PointToPoint,
            data,
        })) if data.to_slice() == &[0xaa, 0xbb]
    ));
    assert_eq!(wire.left(), 7);
    assert!(matches!(
        ble.poll(),
        Some(PollResult::Event(EventType::DisconnectComplete {
            handle: 0x0040,
            status: ErrorCode::Okay,
            reason: ErrorCode::RemoteUserTerminatedConnection,
        }))
    ));
    assert!(ble.poll().is_none());
}

#[test]
fn poll_keeps_a_packet_that_arrives_in_pieces() {
    let wire = Wire::new(1);
    let mut ble = Ble::new(&wire);

    wire.deliver(&[0x02]);
    assert!(ble.poll().is_none());
    wire.deliver(&[0x01, 0x20, 0x03]);
    assert!(ble.poll().is_none());
    assert!(ble.poll().is_none());
    wire.deliver(&[0x00, 0x11]);
    assert!(ble.poll().is_none());
    wire.deliver(&[0x22, 0x33, 0x04]);

    assert!(matches!(
        ble.poll(),
        Some(PollResult::AsyncData(AclPacket { handle: 1, data, .. }))
            if data.to_slice() == &[0x11, 0x22, 0x33]
    ));
    assert_eq!(wire.left(), 1);
}

#[test]
fn poll_reads_a_packet_without_parameters() {
    let wire = Wire::new(1);
    let mut ble = Ble::new(&wire);
    wire.deliver(&[0x04, 0x77, 0x00]);
    wire.deliver(&[0x02, 0x00, 0x00, 0x00, 0x00]);
    assert!(matches!(ble.poll(), Some(PollResult::Event(EventType::Unknown))));
    assert!(matches!(
        ble.poll(),
        Some(PollResult::AsyncData(AclPacket {
            handle: 0,
            boundary_flag: BoundaryFlag::FirstNonAutoFlushable,
            data,
            ..
        })) if data.len == 0
    ));
}

#[test]
fn poll_drops_a_byte_that_is_no_packet_type() {
    let wire = Wire::new(1);
    let mut ble = Ble::new(&wire);
    wire.deliver(&[0x07, 0x01, 0x04, 0x0e, 0x03, 0x01, 0x03, 0x0c]);
    assert!(ble.poll().is_none());
    assert_eq!(wire.left(), 7);
    assert!(ble.poll().is_none());
    assert_eq!(wire.left(), 6);
    assert!(matches!(
        ble.poll(),
        Some(PollResult::Event(EventType::CommandComplete { opcode: 0x0c03, .. }))
    ));
}

#[test]
fn poll_drops_data_too_long_for_a_buffer() {
    let wire = Wire::new(1);
    let mut ble = Ble::new(&wire);
    wire.deliver(&[0x02, 0x00, 0x20, 0x00, 0x01]);
    wire.deliver(&[0x33; 256]);
    wire.deliver(&[0x04, 0x77, 0x00]);
    assert!(ble.poll().is_none());
    assert_eq!(wire.left(), 3);
    assert!(matches!(ble.poll(), Some(PollResult::Event(EventType::Unknown))));
}

#[test]
fn packets_declare_their_length() {
    assert_eq!(expected_len(&vec![]), 1);
    assert_eq!(expected_len(&vec![0x04]), 3);
    assert_eq!(expected_len(&vec![0x04, 0x0e]), 3);
    assert_eq!(expected_len(&vec![0x04, 0x0e, 0x04]), 7);
    assert_eq!(expected_len(&vec![0x04, 0x0e, 0xff, 0x00]), 258);
    assert_eq!(expected_len(&vec![0x02]), 5);
    assert_eq!(expected_len(&vec![0x02, 0x00, 0x20, 0x0b]), 5);
    assert_eq!(expected_len(&vec![0x02, 0x00, 0x20, 0x0b, 0x00]), 16);
    assert_eq!(expected_len(&vec![0x02, 0x00, 0x20, 0xff, 0xff]), 65540);
    assert_eq!(expected_len(&vec![0x01]), 1);
    assert_eq!(expected_len(&vec![0x00, 0x04, 0x0e, 0x04]), 1);
}

#[test]
fn packets_are_classified_by_their_first_byte() {
    assert!(decode_packet(&[]).is_none());
    assert!(decode_packet(&[0x01, 0x03, 0x0c, 0x00]).is_none());
    assert!(matches!(
        decode_packet(&[0x04, 0x13, 0x05, 0x01, 0x02, 0x00, 0x01, 0x00]),
        Some(PollResult::Event(EventType::NumberOfCompletedPackets {
            number_of_connection_handles: 1,
            connection_handles: 2,
            completed_packets: 1,
        }))
    ));
    assert!(matches!(
        decode_packet(&[0x02, 0x05, 0x10, 0x01, 0x00, 0x09]),
        Some(PollResult::AsyncData(AclPacket {
            handle: 5,
            boundary_flag: BoundaryFlag::Continuing,
            bc_flag: ControllerBroadcastFlag::PointToPoint,
            data,
        })) if data.to_slice() == &[0x09]
    ));
    assert!(decode_packet(&[0x02, 0x05, 0x10, 0x02, 0x00, 0x09]).is_none());
}

#[test]
fn an_answer_is_told_by_its_opcode() {
    let answer = Some(PollResult::Event(command_complete(0x0c03, &[0x00])));
    assert!(matches!(
        command_completion(0x0c03, &answer),
        Some(Ok(EventType::CommandComplete { num_packets: 1, opcode: 0x0c03, data }))
            if data.to_slice() == &[0x00]
    ));
    assert!(command_completion(0x2006, &answer).is_none());
    assert!(command_completion(0x0c03, &None).is_none());
    assert!(command_completion(0x0c03, &Some(PollResult::Event(EventType::Unknown))).is_none());
    let data = Some(PollResult::AsyncData(AclPacket {
        handle: 0,
        boundary_flag: BoundaryFlag::FirstAutoFlushable,
        bc_flag: ControllerBroadcastFlag::PointToPoint,
        data: Data::new(&[0x0e, 0x03, 0x0c, 0x00]),
    }));
    assert!(command_completion(0x0c03, &data).is_none());
}

#[test]
fn an_answer_fails_by_its_status() {
    let failed = Some(PollResult::Event(command_complete(0x200a, &[0x0c, 0x00])));
    assert!(matches!(command_completion(0x200a, &failed), Some(Err(Error::Failed(0x0c)))));
    let later_byte = Some(PollResult::Event(command_complete(0x200a, &[0x00, 0x0c])));
    assert!(matches!(command_completion(0x200a, &later_byte), Some(Ok(_))));
    let without_status = Some(PollResult::Event(command_complete(0x200a, &[])));
    assert!(matches!(command_completion(0x200a, &without_status), Some(Ok(_))));
}

#[test]
fn the_wait_ends_behind_the_timeout() {
    assert_eq!(TIMEOUT_MILLIS, 1000);
    assert!(!timed_out(0, 0));
    assert!(!timed_out(0, 1000));
    assert!(timed_out(0, 1001));
    assert!(!timed_out(500, 1500));
    assert!(timed_out(500, 1501));
    assert!(!timed_out(2000, 100));
    assert!(!timed_out(u64::MAX, 0));
    assert!(timed_out(0, u64::MAX));
    assert!(!timed_out(u64::MAX - 1000, u64::MAX));
}

#[test]
fn a_command_skips_what_is_not_its_answer() {
    let wire = Wire::new(1);
    let mut ble = Ble::new(&wire);
    wire.deliver(&[0x04, 0x05, 0x04, 0x00, 0x40, 0x00, 0x13]);
    wire.deliver(&[0x04, 0x0e, 0x04, 0x01, 0x06, 0x20, 0x00]);
    wire.deliver(&[0x02, 0x00, 0x20, 0x01, 0x00, 0xaa]);
    wire.deliver(&[0x04, 0x0e, 0x04, 0x01, 0x0a, 0x20, 0x00]);
    wire.deliver(&[0x04, 0x05, 0x04, 0x00, 0x41, 0x00, 0x13]);

    let result = ble.cmd_set_le_advertise_enable(true);

    assert!(matches!(result, Ok(EventType::CommandComplete { opcode: 0x200a, .. })));
    assert_eq!(&wire.outbound.borrow()[..], &[0x01, 0x0a, 0x20, 0x01, 0x01]);
    assert_eq!(wire.left(), 7);
    assert!(matches!(
        ble.poll(),
        Some(PollResult::Event(EventType::DisconnectComplete { handle: 0x0041, .. }))
    ));
}

#[test]
fn a_command_gives_up_when_only_other_answers_come() {
    let wire = Wire::new(600);
    let mut ble = Ble::new(&wire);
    wire.deliver(&[0x04, 0x0e, 0x04, 0x01, 0x06, 0x20, 0x00]);
    wire.deliver(&[0x04, 0x0e, 0x04, 0x01, 0x08, 0x20, 0x00]);
    wire.deliver(&[0x04, 0x0e, 0x04, 0x01, 0x03, 0x0c, 0x00]);

    let result = ble.cmd_reset();

    assert!(matches!(result, Err(Error::Timeout)));
    assert_eq!(wire.left(), 7);
    assert_eq!(wire.now.get(), 1800);
}

#[test]
fn a_command_reports_the_status_of_the_controller() {
    let wire = Wire::new(1);
    let mut ble = Ble::new(&wire);
    wire.deliver(&[0x04, 0x0e, 0x04, 0x01, 0x08, 0x20, 0x12]);

    let result = ble.cmd_set_le_advertising_data(Data::new(&[0x02, 0x01, 0x06]));

    assert!(matches!(result, Err(Error::Failed(0x12))));
    assert_eq!(&wire.outbound.borrow()[..], &[0x01, 0x08, 0x20, 0x03, 0x02, 0x01, 0x06]);
}

/// A transport that has nothing for the first fifty reads, and whose
/// clock shows the number of reads so far.
struct Slow {
    polls: Cell<u32>,
    answer: RefCell<VecDeque<u8>>,
}

impl HciConnection for Slow {
    fn read(&self) -> Option<u8> {
        self.polls.set(self.polls.get() + 1);
        if self.polls.get() > 50 {
            self.answer.borrow_mut().pop_front()
        } else {
            None
        }
    }

    fn write(&self, _data: u8) {}

    fn millis(&self) -> u64 {
        self.polls.get() as u64
    }
}

#[test]
fn a_command_waits_for_an_answer_that_arrives_late() {
    let slow = Slow {
        polls: Cell::new(0),
        answer: RefCell::new(VecDeque::from(vec![0x04, 0x0e, 0x04, 0x01, 0x03, 0x0c, 0x00])),
    };
    let mut ble = Ble::new(&slow);
    assert!(matches!(ble.init(), Ok(EventType::CommandComplete { opcode: 0x0c03, .. })));
    assert_eq!(slow.polls.get(), 57);
}

/// A transport that never has a byte and whose clock stands still for a
/// number of readings, then jumps.
struct Stalled {
    readings: Cell<u32>,
}

impl HciConnection for Stalled {
    fn read(&self) -> Option<u8> {
        None
    }

    fn write(&self, _data: u8) {}

    fn millis(&self) -> u64 {
        self.readings.set(self.readings.get() + 1);
        if self.readings.get() > 1000 {
            5000
        } else {
            3999
        }
    }
}

#[test]
fn a_command_polls_while_the_clock_stands_still() {
    let stalled = Stalled { readings: Cell::new(0) };
    let mut ble = Ble::new(&stalled);
    assert!(matches!(ble.init(), Err(Error::Timeout)));
    assert_eq!(stalled.readings.get(), 1001);
}
