//! Byte layouts of the advertisements and the L2CAP protocol, against worked
//! examples and captured vectors.

use ble_medium::advertisement::{
    ble_advertisement_header, build_endpoint_info, gen_endpoint_id, inner_advertisement,
    outer_advertisement, FAST_MAX_ADVERTISEMENT_LEN, FAST_MAX_ENDPOINT_INFO_LEN,
};
use ble_medium::command::{parse_l2cap_command, L2capCommand, OPCODE_RESPONSE_ADVERTISEMENT};
use ble_medium::control::{
    build_packet_ack, control_frame_type_name, parse_socket_control_frame,
    CONTROL_TYPE_PACKET_ACKNOWLEDGEMENT,
};
use ble_medium::digest::{advertisement_hash, service_id_hash};
use ble_medium::framing::{frame, unwrap_ble_data_payload, wrap_inbound_frame_as_ble_data};
use ble_medium::server::{DEVICE_NAME, DEVICE_TYPE_LAPTOP};
use ble_medium::varint::{decode_varint, encode_varint};

#[test]
fn service_id_hash_matches_reference() {
    assert_eq!(service_id_hash(), [0xFC, 0x9F, 0x5E]);
}

#[test]
fn inner_fast_matches_worked_example() {
    // id="ABCD", 17-byte info -> `23 41 42 43 44 11 <17 info bytes>` (23 bytes).
    let endpoint_id = *b"ABCD";
    let info: Vec<u8> = (0..17).collect();

    let inner = inner_advertisement(endpoint_id, &info, true);

    assert_eq!(inner.len(), 23);
    assert_eq!(&inner[0..6], &[0x23, 0x41, 0x42, 0x43, 0x44, 0x11]);
    assert_eq!(&inner[6..23], info.as_slice());
}

#[test]
fn outer_fast_matches_worked_example() {
    // Wrapping the 23B fast inner from the example above:
    // `4A 17 <23 inner bytes> <2 token bytes>` (27 bytes = kMaxFastAdvertisementLength).
    let endpoint_id = *b"ABCD";
    let info: Vec<u8> = (0..17).collect();
    let inner = inner_advertisement(endpoint_id, &info, true);
    assert_eq!(inner.len(), 23);

    let token = [0xAA, 0xBB];
    let outer = outer_advertisement(&inner, true, token);

    assert_eq!(outer.len(), 27);
    assert_eq!(outer.len(), FAST_MAX_ADVERTISEMENT_LEN);
    assert_eq!(&outer[0..2], &[0x4A, 0x17]);
    assert_eq!(&outer[2..25], inner.as_slice());
    assert_eq!(&outer[25..27], &token);
}

#[test]
fn inner_regular_adds_hash_mac_uwb_extra() {
    let endpoint_id = *b"WXYZ";
    let info = vec![0u8; 27];

    let inner = inner_advertisement(endpoint_id, &info, false);

    // byte0(1) + hash(3) + id(4) + len(1) + info(27) + mac(6) + uwb(1) + extra(1) = 44
    assert_eq!(inner.len(), 44);
    assert_eq!(inner[0], 0x23);
    assert_eq!(&inner[1..4], &[0xFC, 0x9F, 0x5E]);
    assert_eq!(&inner[4..8], b"WXYZ");
    assert_eq!(inner[8], 27);
    assert_eq!(&inner[9..36], info.as_slice());
    assert_eq!(&inner[36..42], &[0u8; 6]); // bluetooth_mac
    assert_eq!(inner[42], 0); // uwb len
    assert_eq!(inner[43], 0); // extra
}

#[test]
fn outer_regular_byte0_and_size_field() {
    let inner = vec![0u8; 44];
    let token = [0x01, 0x02];

    let outer = outer_advertisement(&inner, false, token);

    // byte0(1) + hash(3) + size(4 BE) + inner(44) + token(2) = 54
    assert_eq!(outer.len(), 54);
    assert_eq!(outer[0], 0x48);
    assert_eq!(&outer[1..4], &[0xFC, 0x9F, 0x5E]);
    assert_eq!(&outer[4..8], &44u32.to_be_bytes());
    assert_eq!(&outer[8..52], inner.as_slice());
    assert_eq!(&outer[52..54], &token);
}

#[test]
fn ble_advertisement_header_is_17_bytes_with_version_byte() {
    let hash = advertisement_hash(b"some full outer advertisement bytes");
    let psm: u16 = 0x0085;

    let header = ble_advertisement_header(hash, psm);

    assert_eq!(header.len(), 17);
    assert_eq!(header[0], 0x41);
    assert_eq!(&header[1..11], &[0xFFu8; 10]);
    assert_eq!(&header[11..15], &hash);
    assert_eq!(&header[15..17], &psm.to_be_bytes());
}

#[test]
fn real_endpoint_info_forces_regular_mode() {
    // With a real, visible device name the endpoint_info is always well over
    // the 17-byte fast cap (16 random salt + 1 header + 1 len byte already
    // exceeds it before any name bytes at all).
    let info = build_endpoint_info(DEVICE_TYPE_LAPTOP, DEVICE_NAME);
    assert!(info.len() > FAST_MAX_ENDPOINT_INFO_LEN);
}

#[test]
fn gen_endpoint_id_is_ascii_alnum() {
    let id = gen_endpoint_id();
    assert!(id.iter().all(|b| b.is_ascii_alphanumeric()));
}

// -----------------------------------------------------------------
// Framed L2CAP protocol tests, against captured/worked vectors.
// -----------------------------------------------------------------

#[test]
fn frame_prepends_4byte_be_length() {
    assert_eq!(frame(&[0x17]), vec![0, 0, 0, 1, 0x17]);
    assert_eq!(frame(&[]), vec![0, 0, 0, 0]);
}

#[test]
fn parse_l2cap_command_captured_request_advertisement() {
    // Captured vector: `01 00 03 16 d9 ae` -> RequestAdvertisement(hash=16d9ae).
    let payload = [0x01, 0x00, 0x03, 0x16, 0xd9, 0xae];
    assert_eq!(
        parse_l2cap_command(&payload),
        Some(L2capCommand::RequestAdvertisement {
            hash: [0x16, 0xd9, 0xae]
        })
    );
}

#[test]
fn parse_l2cap_command_captured_request_data_connection() {
    // Captured vector: `03` -> RequestDataConnection.
    let payload = [0x03];
    assert_eq!(
        parse_l2cap_command(&payload),
        Some(L2capCommand::RequestDataConnection)
    );
}

#[test]
fn parse_l2cap_command_response_advertisement_roundtrip() {
    let advertisement = vec![0xAA, 0xBB, 0xCC, 0xDD];
    let mut payload = vec![OPCODE_RESPONSE_ADVERTISEMENT];
    payload.extend_from_slice(&(advertisement.len() as u16).to_be_bytes());
    payload.extend_from_slice(&advertisement);

    assert_eq!(
        parse_l2cap_command(&payload),
        Some(L2capCommand::ResponseAdvertisement { advertisement })
    );
}

#[test]
fn parse_l2cap_command_unknown_opcode_is_logged_not_errored() {
    assert_eq!(
        parse_l2cap_command(&[0x7F]),
        Some(L2capCommand::Unknown { opcode: 0x7F })
    );
}

#[test]
fn parse_l2cap_command_empty_payload_is_none() {
    assert_eq!(parse_l2cap_command(&[]), None);
}

#[test]
fn varint_roundtrips_small_and_multibyte_values() {
    for value in [0u64, 1, 127, 128, 300, 16384, u32::MAX as u64] {
        let mut buf = Vec::new();
        encode_varint(value, &mut buf);
        let mut pos = 0usize;
        assert_eq!(decode_varint(&buf, &mut pos), Some(value));
        assert_eq!(pos, buf.len());
    }
}

#[test]
fn parse_socket_control_frame_introduction_worked_example() {
    // `08 01 12 07 0A 03 fc 9f 5e 10 02`: type=1 (INTRODUCTION),
    // introduction{ service_id_hash=fc9f5e, socket_version=2 (V2) }.
    let bytes = [0x08, 0x01, 0x12, 0x07, 0x0A, 0x03, 0xfc, 0x9f, 0x5e, 0x10, 0x02];

    let parsed = parse_socket_control_frame(&bytes);

    assert_eq!(parsed.frame_type, Some(1));
    assert_eq!(
        parsed.service_id_hash.as_deref(),
        Some([0xfc, 0x9f, 0x5e].as_slice())
    );
    assert_eq!(parsed.socket_version, Some(2));
    assert_eq!(control_frame_type_name(parsed.frame_type), "INTRODUCTION");
}

#[test]
fn build_packet_ack_encodes_expected_prefix_and_roundtrips_size() {
    let hash = [0xfc, 0x9f, 0x5e];
    let received_size = 42i32;

    let ack = build_packet_ack(hash, received_size);

    // `[00 00 00]` BlePacket-control prefix, then `08 03 22 <L> ...`.
    assert_eq!(&ack[0..3], &[0x00, 0x00, 0x00]);
    assert_eq!(&ack[3..6], &[0x08, 0x03, 0x22]);

    let parsed = parse_socket_control_frame(&ack[3..]);
    assert_eq!(parsed.frame_type, Some(CONTROL_TYPE_PACKET_ACKNOWLEDGEMENT));
    assert_eq!(parsed.service_id_hash.as_deref(), Some(hash.as_slice()));
    assert_eq!(parsed.received_size, Some(received_size as u64));
}

#[test]
fn build_packet_ack_roundtrips_large_received_size() {
    let hash = [0x01, 0x02, 0x03];
    let received_size = 987_654i32;

    let ack = build_packet_ack(hash, received_size);
    let parsed = parse_socket_control_frame(&ack[3..]);

    assert_eq!(parsed.received_size, Some(received_size as u64));
}

// -----------------------------------------------------------------
// Bridge framing (inbound <-> L2CAP data tier) round-trips.
// -----------------------------------------------------------------

#[test]
fn wrap_inbound_frame_prepends_hash_and_outer_length() {
    // What the inbound transfer writes: [4B len=3][frame aa bb cc].
    let inbound_framed = [0x00, 0x00, 0x00, 0x03, 0xAA, 0xBB, 0xCC];

    let wire = wrap_inbound_frame_as_ble_data([0xfc, 0x9f, 0x5e], &inbound_framed);

    assert_eq!(
        wire,
        vec![
            0x00, 0x00, 0x00, 0x0A, // outer BE length = 10
            0xfc, 0x9f, 0x5e, // service_id_hash
            0x00, 0x00, 0x00, 0x03, // inner BE length = 3
            0xAA, 0xBB, 0xCC, // OfflineFrame bytes
        ]
    );
}

#[test]
fn unwrap_ble_data_payload_strips_hash() {
    let payload = [0xfc, 0x9f, 0x5e, 0x00, 0x00, 0x00, 0x03, 0xAA, 0xBB, 0xCC];

    let inner = unwrap_ble_data_payload(&payload, [0xfc, 0x9f, 0x5e]);

    assert_eq!(
        inner,
        Some([0x00, 0x00, 0x00, 0x03, 0xAA, 0xBB, 0xCC].as_slice())
    );
}

#[test]
fn unwrap_ble_data_payload_rejects_foreign_hash() {
    let payload = [0x01, 0x00, 0x03, 0x16, 0xd9, 0xae];
    assert_eq!(unwrap_ble_data_payload(&payload, [0xfc, 0x9f, 0x5e]), None);
    assert_eq!(unwrap_ble_data_payload(&[0x01], [0xfc, 0x9f, 0x5e]), None);
}

#[test]
fn wrap_then_unwrap_round_trips_the_inbound_frame() {
    let inbound_framed = [0x00, 0x00, 0x00, 0x02, 0x12, 0x34];
    let hash = [0xfc, 0x9f, 0x5e];

    let wire = wrap_inbound_frame_as_ble_data(hash, &inbound_framed);
    let payload = &wire[4..];
    let unwrapped = unwrap_ble_data_payload(payload, hash).unwrap();

    assert_eq!(unwrapped, &inbound_framed);
}
