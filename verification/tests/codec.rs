use ble_hci::{
    acl::{
        encode_acl_packet, parse_acl_packet, AclPacket, AclParseError, BoundaryFlag,
        ControllerBroadcastFlag, HostBroadcastFlag,
    },
    att::{
        att_encode_error_response, att_encode_read_by_group_type_response,
        att_encode_read_by_type_response, att_encode_read_response, parse_att, Att, AttErrorCode,
        AttParseError, AttributeData, AttributePayloadData, Uuid,
    },
    command::{create_command_data, opcode, Command, CommandHeader},
    data::CAPACITY,
    event::{parse_event, ErrorCode, EventType},
    l2cap::{encode_l2cap, parse_l2cap, L2capParseError},
    wire::{join_le16, split_le16},
    Data,
};

const LONG_UUID: [u8; 16] = [
    0xC9, 0x15, 0x15, 0x96, 0x54, 0x56, 0x64, 0xB3, 0x38, 0x45, 0x26, 0x5D, 0xF1, 0x62, 0x6A, 0xA8,
];

const LONG_UUID_ON_WIRE: [u8; 16] = [
    0xA8, 0x6A, 0x62, 0xF1, 0x5D, 0x26, 0x45, 0x38, 0xB3, 0x64, 0x56, 0x54, 0x96, 0x15, 0x15, 0xC9,
];

fn packet_with(data: &[u8]) -> AclPacket {
    AclPacket {
        handle: 0,
        boundary_flag: BoundaryFlag::FirstAutoFlushable,
        bc_flag: ControllerBroadcastFlag::PointToPoint,
        data: Data::new(data),
    }
}

#[test]
fn data_starts_empty() {
    let data = Data::default();
    assert_eq!(data.len, 0);
    assert_eq!(data.to_slice(), &[] as &[u8]);
}

#[test]
fn data_appends_behind_what_is_there() {
    let mut data = Data::new(&[1, 2]);
    data.append(&[3, 4, 5]);
    data.push(6);
    data.append(&[]);
    assert_eq!(data.len, 6);
    assert_eq!(data.to_slice(), &[1, 2, 3, 4, 5, 6]);
}

#[test]
fn data_holds_its_full_capacity() {
    let bytes: Vec<u8> = (0..CAPACITY).map(|i| i as u8).collect();
    let mut data = Data::new(&bytes[..CAPACITY - 1]);
    data.push(bytes[CAPACITY - 1]);
    assert_eq!(CAPACITY, 128);
    assert_eq!(data.len, 128);
    assert_eq!(data.to_slice(), &bytes[..]);
}

#[test]
fn data_leaves_the_storage_behind_the_cursor_untouched() {
    let mut data = Data::new(&[9, 9, 9]);
    data.append(&[7]);
    assert!(data.data[4..].iter().all(|byte| *byte == 0));
}

#[test]
fn sixteen_bit_fields_are_little_endian() {
    assert_eq!(split_le16(0x1234), (0x34, 0x12));
    assert_eq!(join_le16(0x34, 0x12), 0x1234);
    assert_eq!(split_le16(0xffff), (0xff, 0xff));
    assert_eq!(join_le16(0x00, 0x00), 0);
    for value in [0u16, 1, 255, 256, 0x2800, 0xfffe] {
        let (lo, hi) = split_le16(value);
        assert_eq!(join_le16(lo, hi), value);
    }
}

#[test]
fn uuid16_round_trips() {
    let uuid = Uuid::Uuid16(0x2803);
    let wire = uuid.encode();
    assert_eq!(wire.to_slice(), &[0x03, 0x28]);
    assert_eq!(Uuid::parse(wire.to_slice()), Some(uuid));
    assert_eq!(Uuid::parse(&[0x03, 0x28]).unwrap().encode().to_slice(), &[0x03, 0x28]);
}

#[test]
fn uuid128_travels_least_significant_byte_first() {
    let uuid = Uuid::Uuid128(LONG_UUID);
    let wire = uuid.encode();
    assert_eq!(wire.to_slice(), &LONG_UUID_ON_WIRE);
    assert_eq!(Uuid::parse(&LONG_UUID_ON_WIRE), Some(uuid));
    assert_eq!(Uuid::parse(&LONG_UUID_ON_WIRE).unwrap().encode().to_slice(), &LONG_UUID_ON_WIRE);
}

#[test]
fn uuid_has_two_or_sixteen_bytes() {
    assert_eq!(Uuid::parse(&[]), None);
    assert_eq!(Uuid::parse(&[1]), None);
    assert_eq!(Uuid::parse(&[1, 2, 3]), None);
    assert_eq!(Uuid::parse(&[0; 15]), None);
    assert_eq!(Uuid::parse(&[0; 17]), None);
}

#[test]
fn uuid_variants_never_compare_equal() {
    let mut padded = [0u8; 16];
    padded[15] = 0x28;
    assert!(Uuid::Uuid16(0x2800).is_uuid16(0x2800));
    assert!(!Uuid::Uuid16(0x2801).is_uuid16(0x2800));
    assert!(!Uuid::Uuid128(padded).is_uuid16(0x2800));
    assert_ne!(Uuid::Uuid16(0x0028), Uuid::Uuid128(padded));
}

#[test]
fn att_parses_a_range_request_with_a_long_uuid() {
    let mut payload = vec![0x10, 0x05, 0x00, 0x09, 0x01];
    payload.extend_from_slice(&LONG_UUID_ON_WIRE);
    let parsed = parse_att(Data::new(&payload));
    assert!(matches!(
        parsed,
        Ok(Att::ReadByGroupTypeReq { start: 0x0005, end: 0x0109, group_type: Uuid::Uuid128(uuid) })
            if uuid == LONG_UUID
    ));
}

#[test]
fn att_parses_a_write_request_without_a_value() {
    let parsed = parse_att(Data::new(&[0x12, 0x34, 0x12]));
    assert!(matches!(
        parsed,
        Ok(Att::WriteReq { handle: 0x1234, data }) if data.to_slice().is_empty()
    ));
}

#[test]
fn att_rejects_an_empty_payload() {
    assert!(matches!(parse_att(Data::default()), Err(AttParseError::Truncated)));
}

#[test]
fn att_rejects_an_unsupported_opcode() {
    assert!(matches!(
        parse_att(Data::new(&[0x0c, 0x01, 0x00, 0x00, 0x00])),
        Err(AttParseError::UnsupportedOpcode(0x0c))
    ));
    assert!(matches!(parse_att(Data::new(&[0x11])), Err(AttParseError::UnsupportedOpcode(0x11))));
    assert!(matches!(parse_att(Data::new(&[0x00])), Err(AttParseError::UnsupportedOpcode(0x00))));
}

#[test]
fn att_rejects_a_truncated_request() {
    assert!(matches!(parse_att(Data::new(&[0x10])), Err(AttParseError::Truncated)));
    assert!(matches!(
        parse_att(Data::new(&[0x10, 0x01, 0x00, 0xff, 0xff, 0x00])),
        Err(AttParseError::Truncated)
    ));
    assert!(matches!(
        parse_att(Data::new(&[0x08, 0x01, 0x00, 0xff, 0xff])),
        Err(AttParseError::Truncated)
    ));
    assert!(matches!(parse_att(Data::new(&[0x0a, 0x03])), Err(AttParseError::Truncated)));
    assert!(matches!(parse_att(Data::new(&[0x12, 0x03])), Err(AttParseError::Truncated)));
}

#[test]
fn att_rejects_a_request_of_the_wrong_length() {
    assert!(matches!(
        parse_att(Data::new(&[0x10, 0x01, 0x00, 0xff, 0xff, 0x00, 0x28, 0x00])),
        Err(AttParseError::BadLength)
    ));
    assert!(matches!(
        parse_att(Data::new(&[0x08, 0x01, 0x00, 0xff, 0xff, 0, 0, 0, 0, 0, 0, 0, 0, 0, 0, 0, 0, 0, 0, 0, 0, 0])),
        Err(AttParseError::BadLength)
    ));
    assert!(matches!(
        parse_att(Data::new(&[0x0a, 0x03, 0x00, 0x00])),
        Err(AttParseError::BadLength)
    ));
}

#[test]
fn att_error_codes_have_their_bytes() {
    assert_eq!(AttErrorCode::InvalidHandle.to_u8(), 0x01);
    assert_eq!(AttErrorCode::AttributeNotFound.to_u8(), 0x0a);
    assert_eq!(AttErrorCode::InsufficientResources.to_u8(), 0x11);
    let response = att_encode_error_response(0x0a, 0xfffe, AttErrorCode::ReadNotPermitted);
    assert_eq!(response.to_slice(), &[0x01, 0x0a, 0xfe, 0xff, 0x02]);
}

#[test]
fn group_type_response_counts_a_long_uuid() {
    let list = [AttributeData::new(0x0001, 0x0003, Uuid::Uuid128(LONG_UUID))];
    let response = att_encode_read_by_group_type_response(&list);
    let mut expected = vec![0x11, 20, 0x01, 0x00, 0x03, 0x00];
    expected.extend_from_slice(&LONG_UUID_ON_WIRE);
    assert_eq!(response.to_slice(), &expected[..]);
}

#[test]
fn responses_without_entries_declare_no_length() {
    assert_eq!(att_encode_read_by_group_type_response(&[]).to_slice(), &[0x11, 0x00]);
    assert_eq!(att_encode_read_by_type_response(&[]).to_slice(), &[0x09, 0x00]);
}

#[test]
fn type_response_lists_every_entry() {
    let list = [
        AttributePayloadData::new(0x0002, Data::new(&[0xaa])),
        AttributePayloadData::new(0x0105, Data::new(&[0xbb])),
    ];
    let response = att_encode_read_by_type_response(&list);
    assert_eq!(response.to_slice(), &[0x09, 0x03, 0x02, 0x00, 0xaa, 0x05, 0x01, 0xbb]);
}

#[test]
fn read_response_may_be_empty() {
    assert_eq!(att_encode_read_response(&Data::default()).to_slice(), &[0x0b]);
}

#[test]
fn l2cap_round_trips() {
    let payload = [0x0a, 0x03, 0x00];
    let frame = encode_l2cap(Data::new(&payload));
    assert_eq!(frame.to_slice(), &[0x03, 0x00, 0x04, 0x00, 0x0a, 0x03, 0x00]);
    let parsed = parse_l2cap(packet_with(frame.to_slice())).unwrap();
    assert_eq!(parsed.to_slice(), &payload);
    assert_eq!(encode_l2cap(parsed).to_slice(), frame.to_slice());
}

#[test]
fn l2cap_round_trips_an_empty_payload() {
    let frame = encode_l2cap(Data::default());
    assert_eq!(frame.to_slice(), &[0x00, 0x00, 0x04, 0x00]);
    assert!(parse_l2cap(packet_with(frame.to_slice())).unwrap().to_slice().is_empty());
}

#[test]
fn l2cap_rejects_a_length_that_disagrees() {
    assert_eq!(parse_l2cap(packet_with(&[])).err(), Some(L2capParseError::LengthMismatch));
    assert_eq!(
        parse_l2cap(packet_with(&[0x00, 0x00, 0x04])).err(),
        Some(L2capParseError::LengthMismatch)
    );
    assert_eq!(
        parse_l2cap(packet_with(&[0x02, 0x00, 0x04, 0x00, 0x13])).err(),
        Some(L2capParseError::LengthMismatch)
    );
    assert_eq!(
        parse_l2cap(packet_with(&[0x00, 0x00, 0x04, 0x00, 0x13])).err(),
        Some(L2capParseError::LengthMismatch)
    );
    assert_eq!(
        parse_l2cap(packet_with(&[0x01, 0x01, 0x04, 0x00, 0x13])).err(),
        Some(L2capParseError::LengthMismatch)
    );
}

#[test]
fn l2cap_rejects_another_channel() {
    assert_eq!(
        parse_l2cap(packet_with(&[0x01, 0x00, 0x05, 0x00, 0x13])).err(),
        Some(L2capParseError::WrongChannel)
    );
    assert_eq!(
        parse_l2cap(packet_with(&[0x01, 0x00, 0x04, 0x01, 0x13])).err(),
        Some(L2capParseError::WrongChannel)
    );
}

#[test]
fn acl_round_trips() {
    let payload = [0x03, 0x00, 0x04, 0x00, 0x0a, 0x03, 0x00];
    let packet = encode_acl_packet(
        0x0abc,
        BoundaryFlag::Continuing,
        HostBroadcastFlag::ParkedSlaveBroadcast,
        Data::new(&payload),
    );
    assert_eq!(
        packet.to_slice(),
        &[0x02, 0xbc, 0x9a, 0x07, 0x00, 0x03, 0x00, 0x04, 0x00, 0x0a, 0x03, 0x00]
    );
    let parsed = parse_acl_packet(packet.to_slice()).unwrap();
    assert_eq!(parsed.handle, 0x0abc);
    assert_eq!(parsed.boundary_flag, BoundaryFlag::Continuing);
    assert_eq!(parsed.bc_flag, ControllerBroadcastFlag::ParkedState);
    assert_eq!(parsed.data.to_slice(), &payload);
}

#[test]
fn acl_packs_every_flag() {
    let flags = [
        (BoundaryFlag::FirstNonAutoFlushable, 0x00),
        (BoundaryFlag::Continuing, 0x10),
        (BoundaryFlag::FirstAutoFlushable, 0x20),
        (BoundaryFlag::Reserved, 0x30),
    ];
    for (flag, bits) in flags {
        let packet = encode_acl_packet(0, flag, HostBroadcastFlag::NoBroadcast, Data::default());
        assert_eq!(packet.to_slice(), &[0x02, 0x00, bits, 0x00, 0x00]);
        assert_eq!(parse_acl_packet(packet.to_slice()).unwrap().boundary_flag, flag);
    }
    let broadcasts = [
        (HostBroadcastFlag::NoBroadcast, ControllerBroadcastFlag::PointToPoint, 0x00),
        (HostBroadcastFlag::ActiveSlaveBroadcast, ControllerBroadcastFlag::NotParkedState, 0x40),
        (HostBroadcastFlag::ParkedSlaveBroadcast, ControllerBroadcastFlag::ParkedState, 0x80),
        (HostBroadcastFlag::Reserved, ControllerBroadcastFlag::Reserved, 0xc0),
    ];
    for (sent, seen, bits) in broadcasts {
        let packet =
            encode_acl_packet(0, BoundaryFlag::FirstNonAutoFlushable, sent, Data::default());
        assert_eq!(packet.to_slice(), &[0x02, 0x00, bits, 0x00, 0x00]);
        assert_eq!(parse_acl_packet(packet.to_slice()).unwrap().bc_flag, seen);
    }
}

#[test]
fn acl_sends_twelve_bits_of_the_handle() {
    let packet = encode_acl_packet(
        0xffff,
        BoundaryFlag::FirstNonAutoFlushable,
        HostBroadcastFlag::NoBroadcast,
        Data::default(),
    );
    assert_eq!(packet.to_slice(), &[0x02, 0xff, 0x0f, 0x00, 0x00]);
    assert_eq!(parse_acl_packet(packet.to_slice()).unwrap().handle, 0x0fff);
}

#[test]
fn acl_rejects_another_packet_type() {
    assert_eq!(parse_acl_packet(&[]).err(), Some(AclParseError::WrongPacketType));
    assert_eq!(
        parse_acl_packet(&[0x04, 0x00, 0x20, 0x00, 0x00]).err(),
        Some(AclParseError::WrongPacketType)
    );
}

#[test]
fn acl_rejects_a_length_that_disagrees() {
    assert_eq!(parse_acl_packet(&[0x02]).err(), Some(AclParseError::LengthMismatch));
    assert_eq!(
        parse_acl_packet(&[0x02, 0x00, 0x20, 0x00]).err(),
        Some(AclParseError::LengthMismatch)
    );
    assert_eq!(
        parse_acl_packet(&[0x02, 0x00, 0x20, 0x01, 0x00]).err(),
        Some(AclParseError::LengthMismatch)
    );
    assert_eq!(
        parse_acl_packet(&[0x02, 0x00, 0x20, 0x00, 0x00, 0x07]).err(),
        Some(AclParseError::LengthMismatch)
    );
}

#[test]
fn acl_rejects_a_payload_longer_than_a_buffer() {
    let mut fits = vec![0x02, 0x00, 0x20, 128, 0x00];
    fits.extend_from_slice(&[0x55; 128]);
    assert_eq!(parse_acl_packet(&fits).unwrap().data.len, 128);

    let mut too_long = vec![0x02, 0x00, 0x20, 129, 0x00];
    too_long.extend_from_slice(&[0x55; 129]);
    assert_eq!(parse_acl_packet(&too_long).err(), Some(AclParseError::TooLong));
}

#[test]
fn event_of_another_kind_is_unknown() {
    assert!(matches!(parse_event(&[0x04, 0x3e, 0x01, 0x00]), EventType::Unknown));
    assert!(matches!(parse_event(&[0x04, 0xff, 0x00]), EventType::Unknown));
}

#[test]
fn event_that_is_cut_short_is_unknown() {
    assert!(matches!(parse_event(&[]), EventType::Unknown));
    assert!(matches!(parse_event(&[0x04, 0x0e]), EventType::Unknown));
    assert!(matches!(parse_event(&[0x04, 0x0e, 0x02, 0x05, 0x03]), EventType::Unknown));
    assert!(matches!(parse_event(&[0x04, 0x05, 0x03, 0x00, 0x00, 0x00]), EventType::Unknown));
    assert!(matches!(parse_event(&[0x04, 0x13, 0x01, 0x00]), EventType::Unknown));
}

#[test]
fn event_with_a_wrong_length_byte_is_unknown() {
    assert!(matches!(
        parse_event(&[0x04, 0x0e, 0x05, 0x05, 0x03, 0x0c, 0x00]),
        EventType::Unknown
    ));
    assert!(matches!(
        parse_event(&[0x04, 0x0e, 0x03, 0x05, 0x03, 0x0c, 0x00]),
        EventType::Unknown
    ));
    assert!(matches!(
        parse_event(&[0x02, 0x0e, 0x04, 0x05, 0x03, 0x0c, 0x00]),
        EventType::Unknown
    ));
}

#[test]
fn command_complete_may_carry_no_answer() {
    assert!(matches!(
        parse_event(&[0x04, 0x0e, 0x03, 0x01, 0x03, 0x0c]),
        EventType::CommandComplete { num_packets: 1, opcode: 0x0c03, data } if data.len == 0
    ));
}

#[test]
fn command_complete_with_an_answer_too_long_for_a_buffer_is_unknown() {
    let mut fits = vec![0x04, 0x0e, 131, 0x01, 0x03, 0x0c];
    fits.extend_from_slice(&[0x00; 128]);
    assert!(matches!(
        parse_event(&fits),
        EventType::CommandComplete { data, .. } if data.len == 128
    ));

    let mut too_long = vec![0x04, 0x0e, 132, 0x01, 0x03, 0x0c];
    too_long.extend_from_slice(&[0x00; 129]);
    assert!(matches!(parse_event(&too_long), EventType::Unknown));
}

#[test]
fn error_codes_pass_through() {
    assert_eq!(ErrorCode::from_u8(0x00), ErrorCode::Okay);
    assert_eq!(ErrorCode::from_u8(0x13), ErrorCode::RemoteUserTerminatedConnection);
    assert_eq!(ErrorCode::from_u8(0x08), ErrorCode::Unknown(0x08));
    assert!(matches!(
        parse_event(&[0x04, 0x05, 0x04, 0x3e, 0x40, 0x00, 0x16]),
        EventType::DisconnectComplete {
            handle: 0x0040,
            status: ErrorCode::Unknown(0x3e),
            reason: ErrorCode::Unknown(0x16),
        }
    ));
}

#[test]
fn completed_packets_surface_the_first_pair() {
    assert!(matches!(
        parse_event(&[0x04, 0x13, 0x09, 0x02, 0x40, 0x00, 0x03, 0x00, 0x41, 0x00, 0x07, 0x00]),
        EventType::NumberOfCompletedPackets {
            number_of_connection_handles: 2,
            connection_handles: 0x0040,
            completed_packets: 0x0003,
        }
    ));
}

#[test]
fn command_header_masks_its_fields() {
    let header = CommandHeader::from_ogf_ocf(0xff, 0xffff, 0x01);
    assert_eq!(header.opcode, 0xffff);
    assert_eq!(header.ogf(), 0x3f);
    assert_eq!(header.ocf(), 0x03ff);

    let header = CommandHeader::from_ogf_ocf(0x40, 0x0400, 0x00);
    assert_eq!(header.opcode, 0x0000);
}

#[test]
fn command_header_round_trips() {
    let header = CommandHeader::from_ogf_ocf(0x08, 0x000a, 0x01);
    let wire = header.encode();
    assert_eq!(wire.to_slice(), &[0x0a, 0x20, 0x01]);
    assert_eq!(CommandHeader::from_bytes(wire.to_slice()), header);
    assert_eq!(
        CommandHeader::from_bytes(&[0x34, 0x12, 0x56, 0x78]),
        CommandHeader { opcode: 0x1234, len: 0x56 }
    );
    assert_eq!(CommandHeader::from_bytes(&[0x34, 0x12, 0x56]).encode().to_slice(), &[0x34, 0x12, 0x56]);
}

#[test]
fn commands_have_their_opcodes() {
    assert_eq!(opcode(&Command::Reset), 0x0c03);
    assert_eq!(opcode(&Command::LeSetAdvertisingParameters), 0x2006);
    assert_eq!(opcode(&Command::LeSetAdvertisingData { data: Data::default() }), 0x2008);
    assert_eq!(opcode(&Command::LeSetAdvertiseEnable(true)), 0x200a);
}

#[test]
fn advertising_can_be_switched_off() {
    let data = create_command_data(Command::LeSetAdvertiseEnable(false));
    assert_eq!(data.to_slice(), &[0x01, 0x0a, 0x20, 0x01, 0x00]);
}

#[test]
fn advertising_data_may_be_empty_or_fill_the_buffer() {
    let data = create_command_data(Command::LeSetAdvertisingData { data: Data::default() });
    assert_eq!(data.to_slice(), &[0x01, 0x08, 0x20, 0x00]);

    let payload = [0x5a; 124];
    let data = create_command_data(Command::LeSetAdvertisingData { data: Data::new(&payload) });
    assert_eq!(data.len, 128);
    assert_eq!(data.to_slice()[..4], [0x01, 0x08, 0x20, 124]);
    assert_eq!(data.to_slice()[4..], payload);
}
