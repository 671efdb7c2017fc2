//! Packet transport and APDU protocol behaviour.

use icboc::apdu::{ApduFrame, StatusKind, check_response_length, parse_response, status_kind};
use icboc::constants::{BTCHIP_CLA, DEFAULT_CHANNEL, INS_GET_RANDOM, PACKET_SIZE, SW_DONGLE_LOCKED,
    TAG_APDU};
use icboc::error::Error;
use icboc::transport::{PacketAssembler, assemble_response, encode_packets};

fn payload(n: usize) -> Vec<u8> {
    (0..n).map(|i| (i % 251) as u8).collect()
}

#[test]
fn encode_single_packet_layout() {
    let data = payload(10);
    let packets = encode_packets(DEFAULT_CHANNEL, &data);
    assert_eq!(packets.len(), 1);
    let p = &packets[0];
    assert_eq!(p.len(), PACKET_SIZE);
    assert_eq!(p[0], 0x01);
    assert_eq!(p[1], 0x01);
    assert_eq!(p[2], TAG_APDU);
    assert_eq!(p[3], 0);
    assert_eq!(p[4], 0);
    assert_eq!(p[5], 0);
    assert_eq!(p[6], 10);
    assert_eq!(&p[7..17], &data[..]);
    assert!(p[17..].iter().all(|&b| b == 0));
}

#[test]
fn transport_round_trip_multi_packet() {
    for n in [0usize, 1, 56, 57, 58, 57 + 59, 57 + 59 + 1, 500] {
        let data = payload(n);
        let packets = encode_packets(DEFAULT_CHANNEL, &data);
        let expected = if n <= 57 { 1 } else { 1 + (n - 57 + 58) / 59 };
        assert_eq!(packets.len(), expected, "packet count for {}", n);
        let got = assemble_response(DEFAULT_CHANNEL, &packets).unwrap();
        assert_eq!(got, data);
    }
}

#[test]
fn receive_rejects_foreign_channel() {
    let packets = encode_packets(0x0101, &payload(100));
    let r = assemble_response(0x0202, &packets);
    assert_eq!(
        r,
        Err(Error::ApduWrongChannel { expected: 0x0202, found: 0x0101 })
    );
    match r {
        Err(e) => assert!(e.is_framing()),
        Ok(_) => unreachable!(),
    }
}

#[test]
fn receive_rejects_out_of_order_packets() {
    let mut packets = encode_packets(DEFAULT_CHANNEL, &payload(200));
    assert!(packets.len() >= 3);
    packets.swap(1, 2);
    let r = assemble_response(DEFAULT_CHANNEL, &packets);
    assert_eq!(
        r,
        Err(Error::ApduWrongSequence { expected: 1, found: 2 })
    );
}

#[test]
fn receive_rejects_wrong_tag() {
    let mut packets = encode_packets(DEFAULT_CHANNEL, &payload(30));
    packets[0][2] = 0x06;
    let r = assemble_response(DEFAULT_CHANNEL, &packets);
    assert_eq!(r, Err(Error::ApduWrongTag { expected: TAG_APDU, found: 0x06 }));
}

#[test]
fn receive_rejects_truncated_stream() {
    let mut packets = encode_packets(DEFAULT_CHANNEL, &payload(200));
    packets.pop();
    let r = assemble_response(DEFAULT_CHANNEL, &packets);
    assert_eq!(r, Err(Error::UnexpectedEof));
}

#[test]
fn assembler_reports_completion() {
    let data = payload(70);
    let packets = encode_packets(DEFAULT_CHANNEL, &data);
    let mut asmr = PacketAssembler::new(DEFAULT_CHANNEL);
    assert!(!asmr.is_done());
    assert_eq!(asmr.push_packet(&packets[0]), Ok(false));
    assert_eq!(asmr.push_packet(&packets[1]), Ok(true));
    assert!(asmr.is_done());
    assert_eq!(asmr.finish(), data);
}

#[test]
fn frame_serialization_layout() {
    let frame = ApduFrame {
        class: BTCHIP_CLA,
        instruction: INS_GET_RANDOM,
        param1: 1,
        param2: 2,
        data: vec![0xaa, 0xbb],
    };
    assert_eq!(frame.serialize(), vec![0xe0, 0xc0, 1, 2, 2, 0xaa, 0xbb]);
}

#[test]
fn command_round_trip_through_transport() {
    let frame = ApduFrame {
        class: BTCHIP_CLA,
        instruction: INS_GET_RANDOM,
        param1: 0,
        param2: 0,
        data: vec![7, 8, 9],
    };
    let packets = frame.encode_command(DEFAULT_CHANNEL);
    let raw = assemble_response(DEFAULT_CHANNEL, &packets).unwrap();
    assert_eq!(raw, frame.serialize());
}

#[test]
fn response_status_ok_strips_status_word() {
    let raw = vec![1, 2, 3, 0x90, 0x00];
    assert_eq!(parse_response(INS_GET_RANDOM, &raw), Ok(vec![1, 2, 3]));
}

#[test]
fn response_too_short_is_eof() {
    assert_eq!(parse_response(INS_GET_RANDOM, &vec![0x90]), Err(Error::UnexpectedEof));
}

#[test]
fn locked_dongle_surfaces_as_locked_condition() {
    // status word 0x6982 from any instruction
    for ins in [0x40u8, 0x4e, 0xc0, 0xc4] {
        let raw = vec![0x69, 0x82];
        let e = parse_response(ins, &raw).unwrap_err();
        assert_eq!(e, Error::ResponseBadStatus { instruction: ins, status: SW_DONGLE_LOCKED });
        assert!(e.is_dongle_locked());
        match e {
            Error::ResponseBadStatus { status, .. } => {
                assert_eq!(status_kind(status), StatusKind::DongleLocked);
            }
            _ => unreachable!(),
        }
    }
    let other = parse_response(0x40, &vec![0x6d, 0x00]).unwrap_err();
    assert!(!other.is_dongle_locked());
}

#[test]
fn status_words_classify() {
    assert_eq!(status_kind(0x9000), StatusKind::Success);
    assert_eq!(status_kind(0x6700), StatusKind::BadLength);
    assert_eq!(status_kind(0x6A80), StatusKind::BadData);
    assert_eq!(status_kind(0x6B00), StatusKind::BadParams);
    assert_eq!(status_kind(0x6D00), StatusKind::InsNotSupported);
    assert_eq!(status_kind(0x6982), StatusKind::DongleLocked);
    assert_eq!(status_kind(0x6F02), StatusKind::InvalidParameter);
    assert_eq!(status_kind(0x6FAA), StatusKind::Halted);
    assert_eq!(status_kind(0x1234), StatusKind::Other);
}

#[test]
fn response_length_check() {
    let data = vec![0u8; 5];
    assert_eq!(check_response_length(INS_GET_RANDOM, &data, 5, 8), Ok(()));
    assert_eq!(
        check_response_length(INS_GET_RANDOM, &data, 6, 8),
        Err(Error::ResponseWrongLength {
            instruction: INS_GET_RANDOM,
            min_expected: 6,
            max_expected: 8,
            found: 5,
        })
    );
}
