//! The bridge, the listener and the server.

use ble_medium::bridge::{
    accept_length, after_hand_on, dispatch_payload, forward_data_frame_to_inbound, next_driver_step,
    step_inbound_reader, step_l2cap_reader, tears_down, BridgeAction, BridgeEnd, CloseReason,
    DriverStep, ReadEvent, ReadPhase, TransferStage, TurnOutcome,
};
use ble_medium::control::{
    build_packet_ack, build_packet_ack_of, parse_socket_control_frame,
};
use ble_medium::digest::{advertisement_hash, service_id_hash};
use ble_medium::framing::{frame, wrap_inbound_frame_as_ble_data, MAX_FRAME_LEN};
use ble_medium::psm::{first_attempt, next_listen_step, BindAttempt, BindOutcome, ListenStep};
use ble_medium::server::{
    accept_step, advert_from, announce, characteristic_uuid, first_setup_stage, header_of,
    next_setup_stage, service_data, slot0_uuid, uuid_from_u16, AcceptEvent, AcceptStep, BleServer,
    SetupError, SetupStage, DEVICE_NAME,
    LEGACY_FE2C_SERVICE_DATA,
};

const HASH: [u8; 3] = [0xFC, 0x9F, 0x5E];
const ADVERT: [u8; 2] = [0xAA, 0xBB];

fn received(bytes: &[u8]) -> ReadEvent<'_> {
    ReadEvent::Received { bytes }
}

/// Runs the L2CAP reader over a stream.
fn read_stream(stream: &[u8]) -> (ReadPhase, Vec<BridgeAction>) {
    let mut phase = ReadPhase::Length;
    let mut actions = Vec::new();
    let mut pos = 0usize;
    loop {
        if let ReadPhase::Closed { .. } = phase {
            return (phase, actions);
        }
        let end = pos + phase.bytes_wanted() as usize;
        let event = if end <= stream.len() {
            received(&stream[pos..end])
        } else {
            ReadEvent::ReadFailed
        };
        let was_payload = matches!(phase, ReadPhase::Payload { .. });
        let (next, action) = step_l2cap_reader(phase, event, HASH, &ADVERT);
        if was_payload && end <= stream.len() {
            actions.push(action);
        }
        phase = next;
        pos = end;
    }
}

fn closed(reason: CloseReason) -> ReadPhase {
    ReadPhase::Closed { reason }
}

#[test]
fn reader_asks_for_prefix_and_payload() {
    assert_eq!(ReadPhase::Length.bytes_wanted(), 4);
    assert_eq!(ReadPhase::Payload { len: 9 }.bytes_wanted(), 9);
    assert_eq!(closed(CloseReason::ReadEnded).bytes_wanted(), 0);
    assert_eq!(
        step_l2cap_reader(ReadPhase::Length, received(&[0, 0, 1, 0]), HASH, &ADVERT),
        (ReadPhase::Payload { len: 256 }, BridgeAction::Nothing)
    );
}

#[test]
fn length_limit() {
    assert_eq!(MAX_FRAME_LEN, 512 * 1024);
    assert_eq!(
        accept_length(MAX_FRAME_LEN),
        ReadPhase::Payload { len: MAX_FRAME_LEN }
    );
    let too_long = closed(CloseReason::FrameTooLong {
        len: MAX_FRAME_LEN + 1,
    });
    assert_eq!(accept_length(MAX_FRAME_LEN + 1), too_long);
    let prefix = (MAX_FRAME_LEN + 1).to_be_bytes();
    assert_eq!(
        step_l2cap_reader(ReadPhase::Length, received(&prefix), HASH, &ADVERT).0,
        too_long
    );
    assert_eq!(
        step_inbound_reader(ReadPhase::Length, received(&prefix), HASH),
        (too_long, None)
    );
}

#[test]
fn failures_close() {
    for phase in [ReadPhase::Length, ReadPhase::Payload { len: 2 }] {
        for (event, reason) in [
            (ReadEvent::ReadFailed, CloseReason::ReadEnded),
            (received(&[1]), CloseReason::ReadEnded),
        ] {
            assert_eq!(
                step_l2cap_reader(phase, event, HASH, &ADVERT),
                (closed(reason), BridgeAction::Nothing)
            );
            assert_eq!(
                step_inbound_reader(phase, event, HASH),
                (closed(reason), None)
            );
        }
    }
}

#[test]
fn a_lost_reply_does_not_close_the_reader() {
    for phase in [ReadPhase::Length, ReadPhase::Payload { len: 2 }] {
        assert_eq!(
            step_l2cap_reader(phase, ReadEvent::QueueFailed, HASH, &ADVERT),
            (phase, BridgeAction::Nothing)
        );
        assert_eq!(
            step_inbound_reader(phase, ReadEvent::QueueFailed, HASH),
            (closed(CloseReason::SinkFailed), None)
        );
    }
}

#[test]
fn no_acknowledgement_without_delivery() {
    assert_eq!(
        after_hand_on(true, vec![1, 2]),
        (
            ReadPhase::Length,
            BridgeAction::Send { frame: vec![1, 2] }
        )
    );
    assert_eq!(
        after_hand_on(false, vec![1, 2]),
        (closed(CloseReason::SinkFailed), BridgeAction::Nothing)
    );
}

#[test]
fn inbound_frames_go_out_in_order() {
    let frames = [vec![1u8, 2, 3], vec![], vec![9]];
    let mut queued = Vec::new();
    let mut phase = ReadPhase::Length;
    for body in &frames {
        let inbound = frame(body);
        for bytes in [&inbound[..4], &inbound[4..]] {
            let (next, wire) = step_inbound_reader(phase, received(bytes), HASH);
            phase = next;
            queued.extend(wire);
        }
    }
    assert_eq!(phase, ReadPhase::Length);
    let expected: Vec<Vec<u8>> = frames
        .iter()
        .map(|body| wrap_inbound_frame_as_ble_data(HASH, &frame(body)))
        .collect();
    assert_eq!(queued, expected);
}

#[test]
fn closed_stays_closed() {
    let phase = closed(CloseReason::Disconnected);
    assert_eq!(
        step_l2cap_reader(phase, received(&[0x03]), HASH, &ADVERT),
        (phase, BridgeAction::Nothing)
    );
    assert_eq!(
        step_inbound_reader(phase, received(&[0, 0, 0, 0]), HASH),
        (phase, None)
    );
}

#[test]
fn control_frames_are_not_answered() {
    assert_eq!(
        dispatch_payload(&[0, 0, 0, 0x08, 0x01], HASH, &ADVERT),
        (ReadPhase::Length, BridgeAction::Nothing)
    );
    assert_eq!(
        dispatch_payload(&[0, 0, 0], HASH, &ADVERT),
        (ReadPhase::Length, BridgeAction::Nothing)
    );
    assert_eq!(
        dispatch_payload(&[0, 0, 0, 0x08, 0x02], HASH, &ADVERT),
        (closed(CloseReason::Disconnected), BridgeAction::Nothing)
    );
}

#[test]
fn control_prefix_comes_before_the_hash() {
    assert_eq!(
        dispatch_payload(&[0, 0, 0, 0, 0, 0, 1, 5], [0, 0, 0], &ADVERT),
        (ReadPhase::Length, BridgeAction::Nothing)
    );
}

#[test]
fn acknowledgements_are_absorbed() {
    let ack = build_packet_ack(HASH, 42);
    assert_eq!(
        dispatch_payload(&ack, HASH, &ADVERT),
        (ReadPhase::Length, BridgeAction::Nothing)
    );
}

#[test]
fn data_is_forwarded_and_acknowledged() {
    let payload = [0xFC, 0x9F, 0x5E, 0, 0, 0, 2, 0x12, 0x34];
    assert_eq!(
        dispatch_payload(&payload, HASH, &ADVERT),
        (
            ReadPhase::Length,
            BridgeAction::Forward {
                inner: vec![0, 0, 0, 2, 0x12, 0x34],
                ack: frame(&build_packet_ack(HASH, 2)),
            }
        )
    );
}

#[test]
fn acknowledged_size_is_the_announced_one() {
    assert_eq!(
        forward_data_frame_to_inbound(&[0, 0, 1, 0], HASH),
        BridgeAction::Forward {
            inner: vec![0, 0, 1, 0],
            ack: frame(&build_packet_ack(HASH, 256)),
        }
    );
    for announced in [0u32, 42, 0x7FFF_FFFF, 0x8000_0000, 0xFFFF_FFFE, u32::MAX] {
        let data = announced.to_be_bytes();
        match forward_data_frame_to_inbound(&data, HASH) {
            BridgeAction::Forward { inner, ack } => {
                assert_eq!(inner, data.to_vec());
                assert_eq!(ack, frame(&build_packet_ack_of(HASH, announced as u64)));
                let parsed = parse_socket_control_frame(&ack[7..]);
                assert_eq!(parsed.frame_type, Some(3));
                assert_eq!(parsed.service_id_hash, Some(HASH.to_vec()));
                assert_eq!(parsed.received_size, Some(announced as u64));
            }
            other => panic!("not forwarded: {other:?}"),
        }
    }
}

#[test]
fn data_without_a_length_is_dropped() {
    assert_eq!(
        forward_data_frame_to_inbound(&[0, 0, 1], HASH),
        BridgeAction::Nothing
    );
    assert_eq!(
        dispatch_payload(&HASH, HASH, &ADVERT),
        (ReadPhase::Length, BridgeAction::Nothing)
    );
}

#[test]
fn commands_are_answered() {
    assert_eq!(
        dispatch_payload(&[0x03], HASH, &ADVERT),
        (
            ReadPhase::Length,
            BridgeAction::Send {
                frame: vec![0, 0, 0, 1, 0x17]
            }
        )
    );
    assert_eq!(
        dispatch_payload(&[0x01, 0, 3, 1, 2, 3], HASH, &ADVERT),
        (
            ReadPhase::Length,
            BridgeAction::Send {
                frame: vec![0, 0, 0, 5, 0x15, 0, 2, 0xAA, 0xBB]
            }
        )
    );
    assert_eq!(
        dispatch_payload(&[], HASH, &ADVERT),
        (ReadPhase::Length, BridgeAction::Nothing)
    );
}

#[test]
fn reader_follows_the_frames() {
    let mut stream = Vec::new();
    for payload in [
        vec![0x03],
        vec![],
        vec![0xFC, 0x9F, 0x5E, 0, 0, 0, 1, 9],
        vec![0, 0, 0, 0x08, 0x02],
        vec![0x03],
    ] {
        stream.extend_from_slice(&frame(&payload));
    }
    let (phase, actions) = read_stream(&stream);
    assert_eq!(phase, closed(CloseReason::Disconnected));
    assert_eq!(
        actions,
        vec![
            BridgeAction::Send {
                frame: vec![0, 0, 0, 1, 0x17]
            },
            BridgeAction::Nothing,
            BridgeAction::Forward {
                inner: vec![0, 0, 0, 1, 9],
                ack: frame(&build_packet_ack(HASH, 1)),
            },
            BridgeAction::Nothing,
        ]
    );
    let (phase, actions) = read_stream(&stream[..3]);
    assert_eq!(phase, closed(CloseReason::ReadEnded));
    assert_eq!(actions, vec![]);
}

#[test]
fn bridge_delivers_frames() {
    let inbound = frame(&[0x12, 0x34]);
    let (phase, wire) = step_inbound_reader(ReadPhase::Length, received(&inbound[..4]), HASH);
    assert_eq!((phase, wire), (ReadPhase::Payload { len: 2 }, None));
    let (phase, wire) = step_inbound_reader(phase, received(&inbound[4..]), HASH);
    assert_eq!(phase, ReadPhase::Length);
    let wire = wire.unwrap();
    assert_eq!(
        wire,
        vec![0, 0, 0, 9, 0xFC, 0x9F, 0x5E, 0, 0, 0, 2, 0x12, 0x34]
    );
    let (_, actions) = read_stream(&wire);
    assert_eq!(
        actions,
        vec![BridgeAction::Forward {
            inner: inbound,
            ack: frame(&build_packet_ack(HASH, 2)),
        }]
    );
}

#[test]
fn a_wrapped_frame_can_outgrow_the_limit() {
    let phase = ReadPhase::Payload { len: MAX_FRAME_LEN };
    let body = vec![0u8; MAX_FRAME_LEN as usize];
    let wire = step_inbound_reader(phase, received(&body), HASH).1.unwrap();
    let (phase, actions) = read_stream(&wire);
    assert_eq!(
        phase,
        closed(CloseReason::FrameTooLong {
            len: MAX_FRAME_LEN + 7
        })
    );
    assert_eq!(actions, vec![]);
}

#[test]
fn which_end_tears_the_bridge_down() {
    assert!(tears_down(BridgeEnd::L2capReaderClosed));
    assert!(tears_down(BridgeEnd::TransferEnded));
    assert!(tears_down(BridgeEnd::Cancelled));
    assert!(!tears_down(BridgeEnd::InboundReaderClosed));
    assert!(!tears_down(BridgeEnd::WriterStopped));
}

#[test]
fn driver_steps() {
    let stages = [
        TransferStage::Initial,
        TransferStage::Underway,
        TransferStage::Finished,
    ];
    for stage in stages {
        assert_eq!(
            next_driver_step(TurnOutcome::Handled, stage),
            DriverStep::TakeTurn
        );
        assert_eq!(
            next_driver_step(TurnOutcome::EndedCleanly, stage),
            DriverStep::Stop
        );
    }
    assert_eq!(
        next_driver_step(TurnOutcome::Failed, TransferStage::Initial),
        DriverStep::Stop
    );
    assert_eq!(
        next_driver_step(TurnOutcome::Failed, TransferStage::Underway),
        DriverStep::StopAndReportDisconnected
    );
    assert_eq!(
        next_driver_step(TurnOutcome::Failed, TransferStage::Finished),
        DriverStep::StopWithError
    );
}

#[test]
fn kernel_assigned_psm_is_taken() {
    assert_eq!(first_attempt(), BindAttempt::KernelAssigned);
    assert_eq!(first_attempt().psm(), 0);
    assert_eq!(
        next_listen_step(first_attempt(), BindOutcome::Bound { reported_psm: 0x91 }),
        ListenStep::Listen { psm: 0x91 }
    );
}

#[test]
fn psm_zero_starts_the_scan() {
    let scan = ListenStep::Try {
        attempt: BindAttempt::Explicit { psm: 0x80 },
    };
    assert_eq!(
        next_listen_step(first_attempt(), BindOutcome::Bound { reported_psm: 0 }),
        scan
    );
    assert_eq!(next_listen_step(first_attempt(), BindOutcome::Failed), scan);
}

#[test]
fn scan_covers_the_dynamic_range() {
    let mut tried = Vec::new();
    let mut attempt = first_attempt();
    loop {
        tried.push(attempt.psm());
        match next_listen_step(attempt, BindOutcome::Failed) {
            ListenStep::Try { attempt: next } => attempt = next,
            ListenStep::Listen { .. } => panic!("no bind succeeded"),
            ListenStep::Exhausted => break,
        }
    }
    let mut expected: Vec<u16> = vec![0];
    expected.extend(0x80..=0xFF);
    assert_eq!(tried, expected);
}

#[test]
fn explicit_psm_is_the_one_asked_for() {
    assert_eq!(
        next_listen_step(
            BindAttempt::Explicit { psm: 0x85 },
            BindOutcome::Bound { reported_psm: 0 }
        ),
        ListenStep::Listen { psm: 0x85 }
    );
}

#[test]
fn uuids() {
    assert_eq!(slot0_uuid(), Ok(0x0000_0000_0000_3000_8000_0000_0000_0000));
    assert_eq!(
        characteristic_uuid("67e55044-10b1-426f-9247-bb680e5fe0c8"),
        Ok(0x67e5_5044_10b1_426f_9247_bb68_0e5f_e0c8)
    );
    assert_eq!(
        characteristic_uuid("not a uuid"),
        Err(SetupError::InvalidUuid)
    );
    assert_eq!(
        uuid_from_u16(0xFEF3),
        0x0000_FEF3_0000_1000_8000_0080_5F9B_34FB
    );
}

#[test]
fn advert_modes() {
    let fast = advert_from(HASH, *b"ABCD", &[0u8; 17], [1, 2]);
    assert!(fast.fast);
    assert_eq!((fast.inner.len(), fast.outer.len()), (23, 27));
    let regular = advert_from(HASH, *b"ABCD", &[0u8; 18], [1, 2]);
    assert!(!regular.fast);
    assert_eq!((regular.inner.len(), regular.outer.len()), (35, 45));
    assert_eq!(&regular.outer[8..43], regular.inner.as_slice());
}

#[test]
fn server_advertisement() {
    let server = BleServer::new(*b"WXYZ");
    assert_eq!(server.endpoint_id(), *b"WXYZ");
    let advert = server.advertisement();
    assert!(!advert.fast);
    assert_eq!((advert.inner.len(), advert.outer.len()), (44, 54));
    assert_eq!(advert.outer[0], 0x48);
    assert_eq!(&advert.outer[12..16], b"WXYZ");
    assert_eq!(&advert.inner[1..4], &service_id_hash());
    assert_eq!(&advert.inner[4..8], b"WXYZ");
    assert_eq!(advert.inner[8] as usize, 18 + DEVICE_NAME.len());
    assert_eq!(advert.inner[9], 6);
    assert_eq!(advert.inner[26] as usize, DEVICE_NAME.len());
    assert_eq!(&advert.inner[27..36], DEVICE_NAME.as_bytes());
    assert_eq!(&advert.outer[8..advert.outer.len() - 2], advert.inner.as_slice());
}

#[test]
fn service_data_entries() {
    let outer = [1u8, 2, 3];
    let entries = service_data(&outer, 0x0085);
    assert_eq!(entries.len(), 2);
    assert_eq!(entries[0].uuid, uuid_from_u16(0xFEF3));
    assert_eq!(entries[0].data, header_of(&outer, 0x0085));
    assert_eq!(&entries[0].data[11..15], &advertisement_hash(&outer));
    assert_eq!(&entries[0].data[15..], &[0x00, 0x85]);
    assert_eq!(entries[1].uuid, uuid_from_u16(0xFE2C));
    assert_eq!(entries[1].data, LEGACY_FE2C_SERVICE_DATA.to_vec());
}

#[test]
fn announcement_serves_what_it_hashes() {
    let advert = BleServer::new(*b"WXYZ").advertisement();
    let outer = advert.outer.clone();
    let announcement = announce(advert, 0x0091);
    assert_eq!(announcement.outer, outer);
    assert_eq!(announcement.service_data, service_data(&outer, 0x0091));
    let header = &announcement.service_data[0].data;
    assert_eq!(&header[11..15], &advertisement_hash(&announcement.outer));
    assert_eq!(&header[15..], &[0x00, 0x91]);
}

#[test]
fn setup_order() {
    let mut stages = vec![first_setup_stage()];
    while let Some(next) = next_setup_stage(stages[stages.len() - 1], true) {
        stages.push(next);
    }
    assert_eq!(
        stages,
        vec![
            SetupStage::Adapter,
            SetupStage::Listener,
            SetupStage::GattServer,
            SetupStage::Advertising,
            SetupStage::Accepting,
        ]
    );
    for stage in stages {
        assert_eq!(next_setup_stage(stage, false), None);
    }
}

#[test]
fn accept_loop() {
    assert_eq!(accept_step(AcceptEvent::Cancelled), AcceptStep::Stop);
    assert_eq!(accept_step(AcceptEvent::Accepted), AcceptStep::Serve);
    assert_eq!(
        accept_step(AcceptEvent::Failed),
        AcceptStep::RetryAfter { millis: 500 }
    );
}
