//! Varints, fields, control messages, commands and advertisements.

use ble_medium::advertisement::{
    ble_advertisement_header, build_endpoint_info, decimal_ascii, device_token, endpoint_id_from,
    endpoint_info_with_salt, fits_fast_mode, gen_device_token, gen_endpoint_id,
    inner_advertisement, inner_advertisement_with_hash, outer_advertisement,
    outer_advertisement_with_hash,
};
use ble_medium::bytes::{
    low_be16, low_be32, low_byte, u16_be_bytes, u16_from_be, u32_be_bytes, u32_from_be,
};
use ble_medium::command::{handle_command_frame, parse_l2cap_command, L2capCommand};
use ble_medium::control::{
    build_packet_ack, build_packet_ack_of, control_frame_type_name, handle_control_frame,
    parse_hash_and_optional_varint, parse_socket_control_frame, ParsedSocketControlFrame,
};
use ble_medium::digest::{advertisement_hash, first2, first3, first4};
use ble_medium::fields::{encode_bytes_field, encode_tag, encode_varint_field};
use ble_medium::framing::{frame, unwrap_ble_data_payload, wrap_inbound_frame_as_ble_data};
use ble_medium::varint::{decode_varint, encode_varint};

fn varint(value: u64) -> Vec<u8> {
    let mut out = Vec::new();
    encode_varint(value, &mut out);
    out
}

#[test]
fn big_endian_numbers() {
    assert_eq!(u16_be_bytes(0x1234), [0x12, 0x34]);
    assert_eq!(u32_be_bytes(0x1234_5678), [0x12, 0x34, 0x56, 0x78]);
    assert_eq!(u16_from_be(0x12, 0x34), 0x1234);
    assert_eq!(u32_from_be(&[0x12, 0x34, 0x56, 0x78, 0x9A]), 0x1234_5678);
    assert_eq!(u32_from_be(&u32_be_bytes(u32::MAX)), u32::MAX);
}

#[test]
fn length_fields_wrap() {
    assert_eq!(low_byte(300), 44);
    assert_eq!(low_be16(65_537), [0, 1]);
    assert_eq!(low_be32(0x0102_0304), [1, 2, 3, 4]);
}

#[test]
fn varint_exact_bytes() {
    assert_eq!(varint(0), vec![0x00]);
    assert_eq!(varint(127), vec![0x7F]);
    assert_eq!(varint(128), vec![0x80, 0x01]);
    assert_eq!(varint(300), vec![0xAC, 0x02]);
    assert_eq!(
        varint(u64::MAX),
        vec![0xFF, 0xFF, 0xFF, 0xFF, 0xFF, 0xFF, 0xFF, 0xFF, 0xFF, 0x01]
    );
}

#[test]
fn varint_appends() {
    let mut out = vec![9];
    encode_varint(1, &mut out);
    assert_eq!(out, vec![9, 1]);
}

#[test]
fn varint_round_trip_with_tail() {
    for value in [0u64, 1, 127, 128, 16_383, 16_384, u64::MAX / 2, u64::MAX] {
        let mut buf = varint(value);
        let len = buf.len();
        buf.extend_from_slice(&[0xFF, 0x00]);
        let mut pos = 0usize;
        assert_eq!(decode_varint(&buf, &mut pos), Some(value));
        assert_eq!(pos, len);
    }
}

#[test]
fn varint_from_the_middle() {
    let mut pos = 2usize;
    assert_eq!(decode_varint(&[1, 2, 0xAC, 0x02, 7], &mut pos), Some(300));
    assert_eq!(pos, 4);
}

#[test]
fn varint_truncated() {
    let mut pos = 0usize;
    assert_eq!(decode_varint(&[0x80, 0x80], &mut pos), None);
    assert_eq!(pos, 2);
    assert_eq!(decode_varint(&[0x80, 0x80], &mut pos), None);
    assert_eq!(pos, 2);
    let mut past = usize::MAX;
    assert_eq!(decode_varint(&[0x01], &mut past), None);
    assert_eq!(past, usize::MAX);
}

#[test]
fn varint_too_long() {
    let mut pos = 0usize;
    assert_eq!(decode_varint(&[0x80; 12], &mut pos), None);
    assert_eq!(pos, 10);
}

#[test]
fn varint_keeps_the_low_64_bits() {
    let mut bytes = vec![0x80; 9];
    bytes.push(0x7F);
    let mut pos = 0usize;
    assert_eq!(decode_varint(&bytes, &mut pos), Some(1u64 << 63));
    assert_eq!(pos, 10);
    // More bytes than needed are fine.
    let mut pos = 0usize;
    assert_eq!(decode_varint(&[0x81, 0x00], &mut pos), Some(1));
    assert_eq!(pos, 2);
}

#[test]
fn tags_and_fields() {
    let mut out = Vec::new();
    encode_tag(4, 2, &mut out);
    assert_eq!(out, vec![0x22]);
    encode_varint_field(1, 300, &mut out);
    assert_eq!(out, vec![0x22, 0x08, 0xAC, 0x02]);
    let mut out = Vec::new();
    encode_bytes_field(1, &[7, 8], &mut out);
    assert_eq!(out, vec![0x0A, 0x02, 7, 8]);
    // A wire type over three bits runs into the field number.
    let mut out = Vec::new();
    encode_tag(1, 8, &mut out);
    assert_eq!(out, vec![0x08]);
    let mut out = Vec::new();
    encode_tag(u32::MAX, 0, &mut out);
    assert_eq!(out, varint(0x7_FFFF_FFF8));
}

#[test]
fn body_takes_the_last_of_each() {
    let mut body = Vec::new();
    encode_bytes_field(1, &[1], &mut body);
    encode_varint_field(2, 5, &mut body);
    encode_bytes_field(1, &[2, 3], &mut body);
    encode_varint_field(2, 6, &mut body);
    assert_eq!(
        parse_hash_and_optional_varint(&body),
        (Some(vec![2, 3]), Some(6))
    );
    assert_eq!(parse_hash_and_optional_varint(&[]), (None, None));
}

#[test]
fn body_stops_at_a_length_beyond_the_end() {
    // A hash of two bytes, then one that claims five with one left.
    let body = [0x0A, 0x02, 1, 2, 0x0A, 0x05, 9];
    assert_eq!(
        parse_hash_and_optional_varint(&body),
        (Some(vec![1, 2]), None)
    );
    let mut huge = vec![0x0A];
    huge.extend_from_slice(&varint(u64::MAX));
    assert_eq!(parse_hash_and_optional_varint(&huge), (None, None));
}

#[test]
fn body_stops_at_other_wire_types() {
    let body = [0x10, 0x07, 0x0D, 0, 0, 0, 0, 0x10, 0x08];
    assert_eq!(parse_hash_and_optional_varint(&body), (None, Some(7)));
}

#[test]
fn empty_control_frame() {
    assert_eq!(
        parse_socket_control_frame(&[]),
        ParsedSocketControlFrame::default()
    );
    let frame = ParsedSocketControlFrame::default();
    assert_eq!(frame.frame_type, None);
    assert_eq!(frame.service_id_hash, None);
    assert_eq!(frame.socket_version, None);
    assert_eq!(frame.received_size, None);
}

#[test]
fn unknown_fields_are_skipped() {
    let mut bytes = Vec::new();
    encode_bytes_field(9, &[1, 2, 3], &mut bytes);
    encode_varint_field(7, 99, &mut bytes);
    encode_varint_field(1, 2, &mut bytes);
    let parsed = parse_socket_control_frame(&bytes);
    assert_eq!(parsed.frame_type, Some(2));
    assert_eq!(parsed.service_id_hash, None);
}

#[test]
fn trailing_garbage_is_ignored() {
    let mut bytes = vec![0x08, 0x01, 0x12, 0x05, 0x0A, 0x03, 1, 2, 3];
    let clean = parse_socket_control_frame(&bytes);
    bytes.extend_from_slice(&[0x0D, 1, 2]);
    assert_eq!(parse_socket_control_frame(&bytes), clean);
    assert_eq!(clean.service_id_hash, Some(vec![1, 2, 3]));
    assert_eq!(clean.socket_version, None);
}

#[test]
fn disconnection_gives_the_hash_only() {
    let mut body = Vec::new();
    encode_bytes_field(1, &[4, 5, 6], &mut body);
    encode_varint_field(2, 77, &mut body);
    let mut bytes = Vec::new();
    encode_varint_field(1, 2, &mut bytes);
    encode_bytes_field(3, &body, &mut bytes);
    let parsed = parse_socket_control_frame(&bytes);
    assert_eq!(parsed.frame_type, Some(2));
    assert_eq!(parsed.service_id_hash, Some(vec![4, 5, 6]));
    assert_eq!(parsed.socket_version, None);
    assert_eq!(parsed.received_size, None);
    assert!(handle_control_frame(&bytes));
}

#[test]
fn a_later_body_without_hash_clears_it() {
    let bytes = [0x12, 0x05, 0x0A, 0x03, 1, 2, 3, 0x22, 0x02, 0x10, 0x09];
    let parsed = parse_socket_control_frame(&bytes);
    assert_eq!(parsed.service_id_hash, None);
    assert_eq!(parsed.received_size, Some(9));
}

#[test]
fn only_a_disconnection_closes() {
    assert!(handle_control_frame(&[0x08, 0x02]));
    assert!(!handle_control_frame(&[0x08, 0x01]));
    assert!(!handle_control_frame(&[0x08, 0x03]));
    assert!(!handle_control_frame(&[]));
}

#[test]
fn control_frame_type_names() {
    assert_eq!(control_frame_type_name(Some(1)), "INTRODUCTION");
    assert_eq!(control_frame_type_name(Some(2)), "DISCONNECTION");
    assert_eq!(control_frame_type_name(Some(3)), "PACKET_ACKNOWLEDGEMENT");
    assert_eq!(control_frame_type_name(Some(4)), "UNKNOWN");
    assert_eq!(control_frame_type_name(None), "MISSING");
}

#[test]
fn packet_ack_exact_bytes() {
    assert_eq!(
        build_packet_ack([0xFC, 0x9F, 0x5E], 300),
        vec![
            0x00, 0x00, 0x00, 0x08, 0x03, 0x22, 0x08, 0x0A, 0x03, 0xFC, 0x9F, 0x5E, 0x10, 0xAC,
            0x02
        ]
    );
}

#[test]
fn packet_ack_sign_extends_a_negative_size() {
    let ack = build_packet_ack([1, 2, 3], -1);
    assert_eq!(ack[6], 16);
    assert_eq!(
        parse_socket_control_frame(&ack[3..]).received_size,
        Some(u64::MAX)
    );
    let ack = build_packet_ack([1, 2, 3], i32::MIN);
    assert_eq!(
        parse_socket_control_frame(&ack[3..]).received_size,
        Some(i32::MIN as u64)
    );
}

#[test]
fn packet_ack_of_unsigned_sizes() {
    assert_eq!(build_packet_ack_of([1, 2, 3], 300), build_packet_ack([1, 2, 3], 300));
    let ack = build_packet_ack_of([1, 2, 3], 4_294_967_295);
    assert_eq!(
        ack,
        vec![
            0x00, 0x00, 0x00, 0x08, 0x03, 0x22, 0x0B, 0x0A, 0x03, 1, 2, 3, 0x10, 0xFF, 0xFF, 0xFF,
            0xFF, 0x0F
        ]
    );
}

#[test]
fn commands_without_operands() {
    assert_eq!(
        parse_l2cap_command(&[0x02]),
        Some(L2capCommand::RequestAdvertisementFinish)
    );
    assert_eq!(
        parse_l2cap_command(&[0x16, 1]),
        Some(L2capCommand::ResponseServiceIdNotFound)
    );
    assert_eq!(
        parse_l2cap_command(&[0x17]),
        Some(L2capCommand::ResponseDataConnectionReady)
    );
    assert_eq!(
        parse_l2cap_command(&[0x18]),
        Some(L2capCommand::ResponseDataConnectionFailure)
    );
}

#[test]
fn truncated_commands() {
    assert_eq!(parse_l2cap_command(&[0x01, 0, 3, 1, 2]), None);
    assert_eq!(parse_l2cap_command(&[0x15, 0]), None);
    assert_eq!(parse_l2cap_command(&[0x15, 0, 2, 1]), None);
    assert_eq!(
        parse_l2cap_command(&[0x15, 0, 1, 7, 8]),
        Some(L2capCommand::ResponseAdvertisement {
            advertisement: vec![7]
        })
    );
}

#[test]
fn request_for_the_advertisement_is_answered_with_it() {
    let reply = handle_command_frame(&[0x01, 0, 3, 9, 9, 9], &[0xAA, 0xBB]).unwrap();
    assert_eq!(reply, vec![0, 0, 0, 5, 0x15, 0, 2, 0xAA, 0xBB]);
    assert_eq!(
        parse_l2cap_command(&reply[4..]),
        Some(L2capCommand::ResponseAdvertisement {
            advertisement: vec![0xAA, 0xBB]
        })
    );
    assert_eq!(handle_command_frame(&reply[4..], &[1]), None);
}

#[test]
fn request_for_a_data_connection_is_answered_ready() {
    let reply = handle_command_frame(&[0x03], &[0xAA]).unwrap();
    assert_eq!(reply, vec![0, 0, 0, 1, 0x17]);
    assert_eq!(handle_command_frame(&reply[4..], &[1]), None);
}

#[test]
fn other_commands_are_not_answered() {
    assert_eq!(handle_command_frame(&[], &[1]), None);
    assert_eq!(handle_command_frame(&[0x02], &[1]), None);
    assert_eq!(handle_command_frame(&[0x7F], &[1]), None);
    assert_eq!(handle_command_frame(&[0x01, 0, 3], &[1]), None);
}

#[test]
fn advertisement_length_in_a_response_wraps() {
    let long = vec![7u8; 65_537];
    let reply = handle_command_frame(&[0x01, 0, 3, 9, 9, 9], &long).unwrap();
    assert_eq!(&reply[4..7], &[0x15, 0, 1]);
    assert_eq!(reply.len(), 4 + 3 + 65_537);
}

#[test]
fn framing_round_trip() {
    let wire = frame(&[1, 2, 3]);
    assert_eq!(u32_from_be(&wire), 3);
    assert_eq!(&wire[4..], &[1, 2, 3]);
    let wire = wrap_inbound_frame_as_ble_data([1, 2, 3], &[]);
    assert_eq!(wire, vec![0, 0, 0, 3, 1, 2, 3]);
    assert_eq!(
        unwrap_ble_data_payload(&wire[4..], [1, 2, 3]),
        Some([].as_slice())
    );
    assert_eq!(unwrap_ble_data_payload(&wire[4..], [1, 2, 4]), None);
}

#[test]
fn digests_known_values() {
    assert_eq!(advertisement_hash(b"abc"), [0xBA, 0x78, 0x16, 0xBF]);
    assert_eq!(advertisement_hash(b""), [0xE3, 0xB0, 0xC4, 0x42]);
    let mut digest = [0u8; 32];
    for (i, b) in digest.iter_mut().enumerate() {
        *b = i as u8 + 1;
    }
    assert_eq!(first2(digest), [1, 2]);
    assert_eq!(first3(digest), [1, 2, 3]);
    assert_eq!(first4(digest), [1, 2, 3, 4]);
}

#[test]
fn device_tokens_known_values() {
    assert_eq!(decimal_ascii(0), b"0".to_vec());
    assert_eq!(decimal_ascii(1_205), b"1205".to_vec());
    assert_eq!(decimal_ascii(u32::MAX), b"4294967295".to_vec());
    assert_eq!(device_token(0), [0x5F, 0xEC]);
    assert_eq!(device_token(123), [0xA6, 0x65]);
}

#[test]
fn device_tokens_vary() {
    let first = gen_device_token();
    assert!((0..64).any(|_| gen_device_token() != first));
}

#[test]
fn endpoint_ids() {
    assert_eq!(endpoint_id_from([0, 25, 26, 35]), *b"AZ09");
    let first = gen_endpoint_id();
    assert!((0..64).any(|_| gen_endpoint_id() != first));
}

#[test]
fn endpoint_info_layout() {
    let salt = [7u8; 16];
    let info = endpoint_info_with_salt(3, salt, "Lab");
    assert_eq!(info[0], 6);
    assert_eq!(&info[1..17], &salt);
    assert_eq!(info[17], 3);
    assert_eq!(&info[18..], b"Lab");
    assert!(!fits_fast_mode(&info));
    // The top bit of the device type is lost; a long name's length wraps.
    let name = "n".repeat(257);
    let info = endpoint_info_with_salt(0x81, salt, &name);
    assert_eq!(info[0], 2);
    assert_eq!(info[17], 1);
    assert_eq!(info.len(), 18 + 257);
}

#[test]
fn endpoint_info_salt_varies() {
    let first = build_endpoint_info(3, "x");
    assert_eq!(first.len(), 19);
    assert_eq!((first[0], first[17], first[18]), (6, 1, b'x'));
    assert!((0..64).any(|_| build_endpoint_info(3, "x") != first));
}

#[test]
fn empty_name_still_forces_regular_mode() {
    let info = build_endpoint_info(0, "");
    assert_eq!(info.len(), 18);
    assert!(!fits_fast_mode(&info));
    assert!(fits_fast_mode(&info[1..]));
}

#[test]
fn advertisements_around_a_given_hash() {
    let inner = inner_advertisement_with_hash([1, 2, 3], *b"ABCD", &[9], false);
    assert_eq!(
        inner,
        vec![0x23, 1, 2, 3, 65, 66, 67, 68, 1, 9, 0, 0, 0, 0, 0, 0, 0, 0]
    );
    let outer = outer_advertisement_with_hash([1, 2, 3], &inner[..2], false, [5, 6]);
    assert_eq!(outer, vec![0x48, 1, 2, 3, 0, 0, 0, 2, 0x23, 1, 5, 6]);
    let outer = outer_advertisement_with_hash([1, 2, 3], &inner[..2], true, [5, 6]);
    assert_eq!(outer, vec![0x4A, 2, 0x23, 1, 5, 6]);
}

#[test]
fn one_byte_lengths_wrap() {
    let info = vec![0u8; 256];
    let inner = inner_advertisement(*b"ABCD", &info, true);
    assert_eq!(inner[5], 0);
    assert_eq!(inner.len(), 262);
    let outer = outer_advertisement(&inner, true, [0, 0]);
    assert_eq!(outer[1], 6);
}

#[test]
fn header_exact_bytes() {
    assert_eq!(
        ble_advertisement_header([1, 2, 3, 4], 0x0102),
        [
            0x41, 0xFF, 0xFF, 0xFF, 0xFF, 0xFF, 0xFF, 0xFF, 0xFF, 0xFF, 0xFF, 1, 2, 3, 4, 1, 2
        ]
    );
}
