//! The bridge between an L2CAP channel and an inbound transfer: what is read
//! next, what is sent back, what is handed on, and when the bridge closes.

use crate::bytes::{
    append, be32, be32_value, law_be32_reencodes, law_be32_value_reads_four_bytes, len32,
    u32_be_bytes, u32_from_be,
};
use crate::command::{
    advertisement_response, handle_command_frame, law_data_connection_requests_are_answered,
    law_nothing_else_is_answered, reply_to,
};
use crate::control::{
    build_packet_ack_of, control_frame, control_message, control_prefix, handle_control_frame,
    hash_and_number, is_disconnection, is_last_type, law_disconnection_is_type_two,
    law_only_type_two_closes, law_packet_ack_is_no_disconnection, law_packet_ack_of_round_trip,
    optional_bytes, packet_ack_of, CONTROL_TYPE_PACKET_ACKNOWLEDGEMENT,
};
use crate::fields::fields;
use crate::framing::{
    behind_hash, ble_data, frame, framed, law_frame_round_trip, law_wrap_then_unwrap, starts_with3,
    unwrap_ble_data_payload, wrap_inbound_frame_as_ble_data, LEN_PREFIX, MAX_FRAME_LEN,
};
use vstd::prelude::*;
use vstd::slice::{slice_subrange, slice_to_vec};

verus! {

/// Why a direction of the bridge closed.
#[derive(Debug, Clone, Copy, PartialEq, Eq)]
pub enum CloseReason {
    /// The stream ended or failed before the bytes asked for came.
    ReadEnded,
    /// A length prefix announced more than `MAX_FRAME_LEN` bytes.
    FrameTooLong { len: u32 },
    /// The peer sent a disconnection.
    Disconnected,
    /// What was read could not be passed to the other side.
    SinkFailed,
}

/// What a direction of the bridge reads next.
#[derive(Debug, Clone, Copy, PartialEq, Eq)]
pub enum ReadPhase {
    /// The length prefix of a frame.
    Length,
    /// The payload that the length prefix announced.
    Payload { len: u32 },
    /// Nothing any more.
    Closed { reason: CloseReason },
}

/// What came of the last read, or of queueing the frame that it led to.
#[derive(Debug, Clone, Copy)]
pub enum ReadEvent<'a> {
    /// The stream gave these bytes.
    Received { bytes: &'a [u8] },
    /// The stream ended or failed.
    ReadFailed,
    /// The last frame could not be queued for the peer.
    QueueFailed,
}

/// The contents of a `ReadEvent`.
pub enum Event {
    Received { bytes: Seq<u8> },
    ReadFailed,
    QueueFailed,
}

impl<'a> View for ReadEvent<'a> {
    type V = Event;

    open spec fn view(&self) -> Event {
        match *self {
            ReadEvent::Received { bytes } => Event::Received { bytes: bytes@ },
            ReadEvent::ReadFailed => Event::ReadFailed,
            ReadEvent::QueueFailed => Event::QueueFailed,
        }
    }
}

/// What to do with a payload from the L2CAP channel.
#[derive(Debug, Clone, PartialEq, Eq)]
pub enum BridgeAction {
    Nothing,
    /// Queue this frame for the peer.
    Send { frame: Vec<u8> },
    /// Hand `inner` to the inbound transfer; `after_hand_on` says what becomes of
    /// `ack`.
    Forward { inner: Vec<u8>, ack: Vec<u8> },
}

/// The contents of a `BridgeAction`.
pub enum Action {
    Nothing,
    Send { frame: Seq<u8> },
    Forward { inner: Seq<u8>, ack: Seq<u8> },
}

impl View for BridgeAction {
    type V = Action;

    open spec fn view(&self) -> Action {
        match *self {
            BridgeAction::Nothing => Action::Nothing,
            BridgeAction::Send { frame } => Action::Send { frame: frame@ },
            BridgeAction::Forward { inner, ack } => Action::Forward { inner: inner@, ack: ack@ },
        }
    }
}

impl ReadPhase {
    /// The number of bytes to read.
    pub open spec fn wanted(self) -> nat {
        match self {
            ReadPhase::Length => LEN_PREFIX as nat,
            ReadPhase::Payload { len } => len as nat,
            ReadPhase::Closed { .. } => 0,
        }
    }

    /// How many bytes to read next. Once closed there is nothing to read.
    pub fn bytes_wanted(self) -> (n: u32)
        ensures
            n == self.wanted(),
    {
        match self {
            ReadPhase::Length => 4,
            ReadPhase::Payload { len } => len,
            ReadPhase::Closed { reason: _ } => 0,
        }
    }
}

/// What a data payload, given behind its service id hash, leads to: it is handed
/// on as it is, and acknowledged with the length that its own prefix announces. A
/// payload too short for a length prefix is dropped.
pub open spec fn data_action(after_hash: Seq<u8>, hash: Seq<u8>) -> Action {
    if after_hash.len() < LEN_PREFIX {
        Action::Nothing
    } else {
        Action::Forward {
            inner: after_hash,
            ack: framed(packet_ack_of(hash, be32_value(after_hash) as u64)),
        }
    }
}

/// What a payload from the L2CAP channel leads to. Behind the control prefix it
/// is a control frame, never answered, which closes the bridge if it is a
/// disconnection; behind our service id hash it is data; else it is a command.
pub open spec fn on_payload(payload: Seq<u8>, hash: Seq<u8>, advertisement: Seq<u8>) -> (
    ReadPhase,
    Action,
) {
    if let Some(control) = behind_hash(payload, control_prefix()) {
        if is_disconnection(control) {
            (ReadPhase::Closed { reason: CloseReason::Disconnected }, Action::Nothing)
        } else {
            (ReadPhase::Length, Action::Nothing)
        }
    } else if let Some(after_hash) = behind_hash(payload, hash) {
        (ReadPhase::Length, data_action(after_hash, hash))
    } else {
        match reply_to(payload, advertisement) {
            Some(frame) => (ReadPhase::Length, Action::Send { frame }),
            None => (ReadPhase::Length, Action::Nothing),
        }
    }
}

/// What follows a length prefix.
pub open spec fn on_length(len: u32) -> ReadPhase {
    if len > MAX_FRAME_LEN {
        ReadPhase::Closed { reason: CloseReason::FrameTooLong { len } }
    } else {
        ReadPhase::Payload { len }
    }
}

/// One step of reading from the L2CAP channel. A reply or an acknowledgement that
/// could not be queued changes nothing; where the bytes asked for do not come, the
/// bridge closes.
pub open spec fn l2cap_step(
    phase: ReadPhase,
    event: Event,
    hash: Seq<u8>,
    advertisement: Seq<u8>,
) -> (ReadPhase, Action) {
    match (phase, event) {
        (ReadPhase::Closed { .. }, _) => (phase, Action::Nothing),
        (ReadPhase::Length, Event::Received { bytes }) if bytes.len() == LEN_PREFIX => (
            on_length(be32_value(bytes)),
            Action::Nothing,
        ),
        (ReadPhase::Payload { len }, Event::Received { bytes }) if bytes.len() == len => on_payload(
            bytes,
            hash,
            advertisement,
        ),
        (_, Event::QueueFailed) => (phase, Action::Nothing),
        _ => (ReadPhase::Closed { reason: CloseReason::ReadEnded }, Action::Nothing),
    }
}

/// One step of reading from the inbound transfer: each of its frames, length
/// prefix and all, becomes a data frame for the L2CAP channel. Where one could not
/// be queued, or the bytes asked for do not come, this direction closes.
pub open spec fn inbound_step(phase: ReadPhase, event: Event, hash: Seq<u8>) -> (
    ReadPhase,
    Option<Seq<u8>>,
) {
    match (phase, event) {
        (ReadPhase::Closed { .. }, _) => (phase, None),
        (ReadPhase::Length, Event::Received { bytes }) if bytes.len() == LEN_PREFIX => (
            on_length(be32_value(bytes)),
            None,
        ),
        (ReadPhase::Payload { len }, Event::Received { bytes }) if bytes.len() == len => (
            ReadPhase::Length,
            Some(ble_data(hash, be32(len) + bytes)),
        ),
        (_, Event::QueueFailed) => (ReadPhase::Closed { reason: CloseReason::SinkFailed }, None),
        _ => (ReadPhase::Closed { reason: CloseReason::ReadEnded }, None),
    }
}

/// Decides what to do with a data payload, given behind its service id hash.
pub fn forward_data_frame_to_inbound(
    bytes_after_hash: &[u8],
    our_service_id_hash: [u8; 3],
) -> (action: BridgeAction)
    ensures
        action@ == data_action(bytes_after_hash@, our_service_id_hash@),
{
    if bytes_after_hash.len() < LEN_PREFIX {
        return BridgeAction::Nothing;
    }
    let inner_len: u32 = u32_from_be(bytes_after_hash);
    let ack: Vec<u8> = build_packet_ack_of(our_service_id_hash, inner_len as u64);
    BridgeAction::Forward { inner: slice_to_vec(bytes_after_hash), ack: frame(ack.as_slice()) }
}

/// Decides what to do with a payload from the L2CAP channel.
pub fn dispatch_payload(
    payload: &[u8],
    our_service_id_hash: [u8; 3],
    our_advertisement: &[u8],
) -> (next: (ReadPhase, BridgeAction))
    ensures
        next.0 == on_payload(payload@, our_service_id_hash@, our_advertisement@).0,
        next.1@ == on_payload(payload@, our_service_id_hash@, our_advertisement@).1,
{
    let prefix: [u8; 3] = [0, 0, 0];
    assert(prefix@ =~= control_prefix());
    if starts_with3(payload, prefix) {
        let control: &[u8] = slice_subrange(payload, 3, payload.len());
        assert(control@ =~= payload@.skip(3));
        if handle_control_frame(control) {
            return (
                ReadPhase::Closed { reason: CloseReason::Disconnected },
                BridgeAction::Nothing,
            );
        }
        return (ReadPhase::Length, BridgeAction::Nothing);
    }
    match unwrap_ble_data_payload(payload, our_service_id_hash) {
        Some(after_hash) => (
            ReadPhase::Length,
            forward_data_frame_to_inbound(after_hash, our_service_id_hash),
        ),
        None => match handle_command_frame(payload, our_advertisement) {
            Some(frame) => (ReadPhase::Length, BridgeAction::Send { frame }),
            None => (ReadPhase::Length, BridgeAction::Nothing),
        },
    }
}

/// Decides what follows a length prefix.
pub fn accept_length(len: u32) -> (phase: ReadPhase)
    ensures
        phase == on_length(len),
{
    if len > MAX_FRAME_LEN {
        ReadPhase::Closed { reason: CloseReason::FrameTooLong { len } }
    } else {
        ReadPhase::Payload { len }
    }
}

/// Takes one step of reading from the L2CAP channel: what to read next, and what
/// to do before.
pub fn step_l2cap_reader(
    phase: ReadPhase,
    event: ReadEvent<'_>,
    our_service_id_hash: [u8; 3],
    our_advertisement: &[u8],
) -> (next: (ReadPhase, BridgeAction))
    ensures
        next.0 == l2cap_step(phase, event@, our_service_id_hash@, our_advertisement@).0,
        next.1@ == l2cap_step(phase, event@, our_service_id_hash@, our_advertisement@).1,
{
    match phase {
        ReadPhase::Closed { reason: _ } => (phase, BridgeAction::Nothing),
        ReadPhase::Length => match event {
            ReadEvent::Received { bytes } => if bytes.len() == LEN_PREFIX {
                (accept_length(u32_from_be(bytes)), BridgeAction::Nothing)
            } else {
                (ReadPhase::Closed { reason: CloseReason::ReadEnded }, BridgeAction::Nothing)
            },
            ReadEvent::QueueFailed => (phase, BridgeAction::Nothing),
            ReadEvent::ReadFailed => (ReadPhase::Closed { reason: CloseReason::ReadEnded }, BridgeAction::Nothing),
        },
        ReadPhase::Payload { len } => match event {
            ReadEvent::Received { bytes } => if bytes.len() as u64 == len as u64 {
                dispatch_payload(bytes, our_service_id_hash, our_advertisement)
            } else {
                (ReadPhase::Closed { reason: CloseReason::ReadEnded }, BridgeAction::Nothing)
            },
            ReadEvent::QueueFailed => (phase, BridgeAction::Nothing),
            ReadEvent::ReadFailed => (ReadPhase::Closed { reason: CloseReason::ReadEnded }, BridgeAction::Nothing),
        },
    }
}

/// What becomes of an acknowledgement once its data were handed on, or could not
/// be: it is sent only where they were; else the bridge closes.
pub open spec fn hand_on_result(delivered: bool, ack: Seq<u8>) -> (ReadPhase, Action) {
    if delivered {
        (ReadPhase::Length, Action::Send { frame: ack })
    } else {
        (ReadPhase::Closed { reason: CloseReason::SinkFailed }, Action::Nothing)
    }
}

/// Takes the step after handing data to the inbound transfer.
pub fn after_hand_on(delivered: bool, ack: Vec<u8>) -> (next: (ReadPhase, BridgeAction))
    ensures
        next.0 == hand_on_result(delivered, ack@).0,
        next.1@ == hand_on_result(delivered, ack@).1,
{
    if delivered {
        (ReadPhase::Length, BridgeAction::Send { frame: ack })
    } else {
        (ReadPhase::Closed { reason: CloseReason::SinkFailed }, BridgeAction::Nothing)
    }
}

/// Takes one step of reading from the inbound transfer: what to read next, and
/// the frame to queue for the L2CAP channel.
pub fn step_inbound_reader(
    phase: ReadPhase,
    event: ReadEvent<'_>,
    our_service_id_hash: [u8; 3],
) -> (next: (ReadPhase, Option<Vec<u8>>))
    ensures
        next.0 == inbound_step(phase, event@, our_service_id_hash@).0,
        optional_bytes(next.1) == inbound_step(phase, event@, our_service_id_hash@).1,
{
    match phase {
        ReadPhase::Closed { reason: _ } => (phase, None),
        ReadPhase::Length => match event {
            ReadEvent::Received { bytes } => if bytes.len() == LEN_PREFIX {
                (accept_length(u32_from_be(bytes)), None)
            } else {
                (ReadPhase::Closed { reason: CloseReason::ReadEnded }, None)
            },
            ReadEvent::QueueFailed => (
                ReadPhase::Closed { reason: CloseReason::SinkFailed },
                None,
            ),
            ReadEvent::ReadFailed => (ReadPhase::Closed { reason: CloseReason::ReadEnded }, None),
        },
        ReadPhase::Payload { len } => match event {
            ReadEvent::Received { bytes } => if bytes.len() as u64 == len as u64 {
                let prefix: [u8; 4] = u32_be_bytes(len);
                let mut inbound_framed: Vec<u8> = Vec::new();
                append(&mut inbound_framed, prefix.as_slice());
                append(&mut inbound_framed, bytes);
                assert(inbound_framed@ =~= be32(len) + bytes@);
                let wire: Vec<u8> = wrap_inbound_frame_as_ble_data(
                    our_service_id_hash,
                    inbound_framed.as_slice(),
                );
                (ReadPhase::Length, Some(wire))
            } else {
                (ReadPhase::Closed { reason: CloseReason::ReadEnded }, None)
            },
            ReadEvent::QueueFailed => (
                ReadPhase::Closed { reason: CloseReason::SinkFailed },
                None,
            ),
            ReadEvent::ReadFailed => (ReadPhase::Closed { reason: CloseReason::ReadEnded }, None),
        },
    }
}

/// How a turn of the inbound transfer went.
#[derive(Debug, Clone, Copy, PartialEq, Eq)]
pub enum TurnOutcome {
    Handled,
    /// It ended in the way that is no error.
    EndedCleanly,
    Failed,
}

/// How far the inbound transfer has come.
#[derive(Debug, Clone, Copy, PartialEq, Eq)]
pub enum TransferStage {
    Initial,
    Underway,
    Finished,
}

/// What the driver of the inbound transfer does after a turn.
#[derive(Debug, Clone, Copy, PartialEq, Eq)]
pub enum DriverStep {
    TakeTurn,
    /// Stop without a word.
    Stop,
    /// Stop, and log the error.
    StopWithError,
    /// Stop, log the error, and tell the front end that the peer is gone.
    StopAndReportDisconnected,
}

/// The driver goes on while turns are handled. A transfer that fails before it
/// has begun is dropped without a word; one that fails underway is reported as
/// disconnected; one that fails after it has finished is not.
pub open spec fn driver_step(outcome: TurnOutcome, stage: TransferStage) -> DriverStep {
    match outcome {
        TurnOutcome::Handled => DriverStep::TakeTurn,
        TurnOutcome::EndedCleanly => DriverStep::Stop,
        TurnOutcome::Failed => match stage {
            TransferStage::Initial => DriverStep::Stop,
            TransferStage::Underway => DriverStep::StopAndReportDisconnected,
            TransferStage::Finished => DriverStep::StopWithError,
        },
    }
}

/// Decides what the driver of the inbound transfer does after a turn.
pub fn next_driver_step(outcome: TurnOutcome, stage: TransferStage) -> (step: DriverStep)
    ensures
        step == driver_step(outcome, stage),
{
    match outcome {
        TurnOutcome::Handled => DriverStep::TakeTurn,
        TurnOutcome::EndedCleanly => DriverStep::Stop,
        TurnOutcome::Failed => match stage {
            TransferStage::Initial => DriverStep::Stop,
            TransferStage::Underway => DriverStep::StopAndReportDisconnected,
            TransferStage::Finished => DriverStep::StopWithError,
        },
    }
}

/// A part of a bridged connection that came to its end.
#[derive(Debug, Clone, Copy, PartialEq, Eq)]
pub enum BridgeEnd {
    /// The L2CAP reader closed: the peer is gone, disconnected or out of step.
    L2capReaderClosed,
    /// The driver of the inbound transfer stopped.
    TransferEnded,
    /// The server was told to stop.
    Cancelled,
    /// The reader of the inbound transfer closed.
    InboundReaderClosed,
    /// The writer of the L2CAP channel stopped.
    WriterStopped,
}

/// The end of this part ends the whole connection.
pub open spec fn ends_connection(end: BridgeEnd) -> bool {
    !(end is InboundReaderClosed || end is WriterStopped)
}

/// Whether the end of one part ends the whole connection. The L2CAP reader is the
/// life of the connection, and cancelling ends every connection. The transfer's end
/// counts as well: nothing is left then that would take what the peer sends. The
/// other two parts may end while the connection goes on.
pub fn tears_down(end: BridgeEnd) -> (yes: bool)
    ensures
        yes == !(end is InboundReaderClosed || end is WriterStopped),
        yes == ends_connection(end),
{
    match end {
        BridgeEnd::L2capReaderClosed | BridgeEnd::TransferEnded | BridgeEnd::Cancelled => true,
        BridgeEnd::InboundReaderClosed | BridgeEnd::WriterStopped => false,
    }
}

/// A frame of a permitted length is read as its payload: first the prefix asks
/// for the payload's length, then the payload is dispatched.
pub proof fn law_reader_takes_a_frame(payload: Seq<u8>, hash: [u8; 3], advertisement: Seq<u8>)
    requires
        payload.len() <= MAX_FRAME_LEN,
    ensures
        ({
            let wire = framed(payload);
            let prefix = Event::Received { bytes: wire.take(LEN_PREFIX as int) };
            let body = Event::Received { bytes: wire.skip(LEN_PREFIX as int) };
            let (phase, action) = l2cap_step(ReadPhase::Length, prefix, hash@, advertisement);
            &&& phase == (ReadPhase::Payload { len: payload.len() as u32 })
            &&& action == Action::Nothing
            &&& l2cap_step(phase, body, hash@, advertisement) == on_payload(
                payload,
                hash@,
                advertisement,
            )
        }),
{
    law_frame_round_trip(payload);
}

/// Frames written one after the other.
pub open spec fn wire_of(payloads: Seq<Seq<u8>>) -> Seq<u8>
    decreases payloads.len(),
{
    if payloads.len() == 0 {
        Seq::empty()
    } else {
        framed(payloads[0]) + wire_of(payloads.drop_first())
    }
}

/// What payloads lead to, one after the other, until one closes the bridge.
pub open spec fn payload_actions(
    payloads: Seq<Seq<u8>>,
    hash: Seq<u8>,
    advertisement: Seq<u8>,
) -> Seq<Action>
    decreases payloads.len(),
{
    if payloads.len() == 0 {
        Seq::empty()
    } else {
        let (phase, action) = on_payload(payloads[0], hash, advertisement);
        if phase is Closed {
            seq![action]
        } else {
            seq![action] + payload_actions(payloads.drop_first(), hash, advertisement)
        }
    }
}

/// What reading a stream of bytes leads to, until the stream ends or the bridge
/// closes.
pub open spec fn stream_actions(stream: Seq<u8>, hash: Seq<u8>, advertisement: Seq<u8>) -> Seq<
    Action,
>
    decreases stream.len(),
{
    let head = LEN_PREFIX as int;
    if stream.len() < head {
        Seq::empty()
    } else {
        let prefix = Event::Received { bytes: stream.take(head) };
        let reading = l2cap_step(ReadPhase::Length, prefix, hash, advertisement).0;
        let end = head + reading.wanted();
        if reading is Closed || stream.len() < end {
            Seq::empty()
        } else {
            let body = Event::Received { bytes: stream.subrange(head, end) };
            let (phase, action) = l2cap_step(reading, body, hash, advertisement);
            if phase is Closed {
                seq![action]
            } else {
                seq![action] + stream_actions(stream.skip(end), hash, advertisement)
            }
        }
    }
}

/// Frames of permitted lengths, written one after the other, are read as their
/// payloads one after the other: where one frame ends, the next begins.
pub proof fn law_reader_follows_the_frames(
    payloads: Seq<Seq<u8>>,
    hash: [u8; 3],
    advertisement: Seq<u8>,
)
    requires
        forall|i: int| 0 <= i < payloads.len() ==> (#[trigger] payloads[i]).len() <= MAX_FRAME_LEN,
    ensures
        stream_actions(wire_of(payloads), hash@, advertisement) == payload_actions(
            payloads,
            hash@,
            advertisement,
        ),
    decreases payloads.len(),
{
    if payloads.len() > 0 {
        let first = payloads[0];
        let others = payloads.drop_first();
        let stream = wire_of(payloads);
        let end = LEN_PREFIX + first.len();
        law_reader_takes_a_frame(first, hash, advertisement);
        law_frame_round_trip(first);
        assert forall|i: int| 0 <= i < others.len() implies (#[trigger] others[i]).len()
            <= MAX_FRAME_LEN by {
            assert(others[i] == payloads[i + 1]);
        }
        law_reader_follows_the_frames(others, hash, advertisement);
        assert(stream.take(4) =~= framed(first).take(4));
        assert(stream.subrange(4, end as int) =~= framed(first).skip(4));
        assert(stream.skip(end as int) =~= wire_of(others));
    }
}

/// The frames that reading a stream of bytes from the inbound transfer queues,
/// until the stream ends or a length prefix is refused.
pub open spec fn stream_frames(stream: Seq<u8>, hash: Seq<u8>) -> Seq<Seq<u8>>
    decreases stream.len(),
{
    let head = LEN_PREFIX as int;
    if stream.len() < head {
        Seq::empty()
    } else {
        let prefix = Event::Received { bytes: stream.take(head) };
        let reading = inbound_step(ReadPhase::Length, prefix, hash).0;
        let end = head + reading.wanted();
        if reading is Closed || stream.len() < end {
            Seq::empty()
        } else {
            let body = Event::Received { bytes: stream.subrange(head, end) };
            match inbound_step(reading, body, hash) {
                (ReadPhase::Length, Some(frame)) => seq![frame] + stream_frames(
                    stream.skip(end),
                    hash,
                ),
                _ => Seq::empty(),
            }
        }
    }
}

/// Each frame that the inbound transfer writes goes out as a data frame of its
/// own, once and in order.
pub proof fn law_inbound_frames_go_out_in_order(frames: Seq<Seq<u8>>, hash: [u8; 3])
    requires
        forall|i: int| 0 <= i < frames.len() ==> (#[trigger] frames[i]).len() <= MAX_FRAME_LEN,
    ensures
        stream_frames(wire_of(frames), hash@) == Seq::new(
            frames.len(),
            |i: int| ble_data(hash@, framed(frames[i])),
        ),
    decreases frames.len(),
{
    let out = Seq::new(frames.len(), |i: int| ble_data(hash@, framed(frames[i])));
    if frames.len() == 0 {
        assert(out =~= stream_frames(wire_of(frames), hash@));
    } else {
        let first = frames[0];
        let others = frames.drop_first();
        let stream = wire_of(frames);
        let end = LEN_PREFIX + first.len();
        lemma_inbound_wraps(first, hash);
        law_frame_round_trip(first);
        assert forall|i: int| 0 <= i < others.len() implies (#[trigger] others[i]).len()
            <= MAX_FRAME_LEN by {
            assert(others[i] == frames[i + 1]);
        }
        law_inbound_frames_go_out_in_order(others, hash);
        assert(stream.take(4) =~= framed(first).take(4));
        assert(stream.subrange(4, end as int) =~= framed(first).skip(4));
        assert(stream.skip(end as int) =~= wire_of(others));
        assert(stream_frames(stream, hash@) =~= seq![ble_data(hash@, framed(first))]
            + stream_frames(wire_of(others), hash@));
        assert(out =~= stream_frames(stream, hash@));
    }
}

/// A length prefix over the limit closes either direction before any byte of the
/// payload is asked for; one within it asks for at most the limit.
pub proof fn law_length_limit(prefix: Seq<u8>, hash: [u8; 3], advertisement: Seq<u8>)
    requires
        prefix.len() == LEN_PREFIX,
    ensures
        ({
            let event = Event::Received { bytes: prefix };
            let phase = l2cap_step(ReadPhase::Length, event, hash@, advertisement).0;
            &&& phase == inbound_step(ReadPhase::Length, event, hash@).0
            &&& phase is Closed <==> be32_value(prefix) > MAX_FRAME_LEN
            &&& phase.wanted() <= MAX_FRAME_LEN
        }),
{
}

/// What is closed stays closed and does nothing.
pub proof fn law_closed_is_final(
    reason: CloseReason,
    event: Event,
    hash: [u8; 3],
    advertisement: Seq<u8>,
)
    ensures
        ({
            let closed = ReadPhase::Closed { reason };
            &&& l2cap_step(closed, event, hash@, advertisement) == (closed, Action::Nothing)
            &&& inbound_step(closed, event, hash@) == (closed, None::<Seq<u8>>)
        }),
{
}

/// Whatever is queued for the peer, a reply, an acknowledgement or a frame of the
/// inbound transfer, is one whole frame: written one after the other, queued frames
/// are a sequence of frames.
pub proof fn law_queued_bytes_are_whole_frames(
    phase: ReadPhase,
    event: Event,
    delivered: bool,
    hash: [u8; 3],
    advertisement: Seq<u8>,
)
    ensures
        l2cap_step(phase, event, hash@, advertisement).1 matches Action::Send { frame }
            ==> exists|payload: Seq<u8>| frame == #[trigger] framed(payload),
        l2cap_step(phase, event, hash@, advertisement).1 matches Action::Forward { ack, .. } ==> (
        hand_on_result(delivered, ack).1 matches Action::Send { frame } ==> exists|
            payload: Seq<u8>,
        |
            frame == #[trigger] framed(payload)),
        inbound_step(phase, event, hash@).1 matches Some(frame) ==> exists|payload: Seq<u8>|
            frame == #[trigger] framed(payload),
{
}

/// Data that could not be handed on are not acknowledged, and nothing more is read;
/// data that were are acknowledged, and reading goes on.
pub proof fn law_no_acknowledgement_without_delivery(delivered: bool, ack: Seq<u8>)
    ensures
        ({
            let (phase, action) = hand_on_result(delivered, ack);
            &&& action == (Action::Send { frame: ack }) <==> delivered
            &&& action == Action::Nothing <==> !delivered
            &&& phase is Closed <==> !delivered
        }),
{
}

/// A frame that could not be queued ends the direction from the inbound transfer,
/// and leaves the other as it was.
pub proof fn law_queue_failure(phase: ReadPhase, hash: [u8; 3], advertisement: Seq<u8>)
    ensures
        l2cap_step(phase, Event::QueueFailed, hash@, advertisement) == (phase, Action::Nothing),
        inbound_step(phase, Event::QueueFailed, hash@).0 is Closed,
        inbound_step(phase, Event::QueueFailed, hash@).1 is None,
{
}

/// A control frame is never answered and never handed on, and it closes the
/// bridge just when it is a disconnection.
pub proof fn law_control_frames_are_not_answered(
    control: Seq<u8>,
    hash: [u8; 3],
    advertisement: Seq<u8>,
)
    ensures
        ({
            let (phase, action) = on_payload(control_prefix() + control, hash@, advertisement);
            &&& action == Action::Nothing
            &&& phase == (if is_disconnection(control) {
                ReadPhase::Closed { reason: CloseReason::Disconnected }
            } else {
                ReadPhase::Length
            })
        }),
{
    let payload = control_prefix() + control;
    assert(payload.take(3) =~= control_prefix());
    assert(payload.skip(3) =~= control);
}

/// A frame of the inbound transfer, read as its prefix and its body, is wrapped
/// whole.
#[verifier::spinoff_prover]
proof fn lemma_inbound_wraps(offline_frame: Seq<u8>, hash: [u8; 3])
    requires
        offline_frame.len() <= MAX_FRAME_LEN,
    ensures
        ({
            let inbound = framed(offline_frame);
            let prefix = Event::Received { bytes: inbound.take(LEN_PREFIX as int) };
            let body = Event::Received { bytes: inbound.skip(LEN_PREFIX as int) };
            let phase = inbound_step(ReadPhase::Length, prefix, hash@).0;
            &&& phase == (ReadPhase::Payload { len: offline_frame.len() as u32 })
            &&& inbound_step(phase, body, hash@) == (
                ReadPhase::Length,
                Some(ble_data(hash@, inbound)),
            )
        }),
{
    let inbound = framed(offline_frame);
    let n = offline_frame.len() as u32;
    law_frame_round_trip(offline_frame);
    assert(len32(offline_frame.len()) == n);
    assert(inbound == be32(n) + offline_frame);
    let prefix = Event::Received { bytes: inbound.take(4) };
    assert(inbound_step(ReadPhase::Length, prefix, hash@).0 == on_length(n));
}

/// The payload of a wrapped frame is handed on unchanged.
proof fn lemma_data_is_forwarded(inbound: Seq<u8>, hash: [u8; 3], advertisement: Seq<u8>)
    requires
        hash@ != control_prefix(),
        inbound.len() >= LEN_PREFIX,
    ensures
        on_payload(ble_data(hash@, inbound).skip(LEN_PREFIX as int), hash@, advertisement) == (
            ReadPhase::Length,
            Action::Forward {
                inner: inbound,
                ack: framed(packet_ack_of(hash@, be32_value(inbound) as u64)),
            },
        ),
{
    let payload = ble_data(hash@, inbound).skip(LEN_PREFIX as int);
    law_wrap_then_unwrap(hash, inbound);
    assert(payload =~= hash@ + inbound);
    assert(payload.take(3) =~= hash@);
}

/// A frame of the inbound transfer goes out as a data frame that the bridge at
/// the other end hands on unchanged, and acknowledges with the frame's length.
/// The hash must not be the control prefix, and the frame, with its own length
/// prefix and the hash, must stay within the limit: then the other end accepts the
/// outer length prefix too.
pub proof fn law_bridge_delivers_frames(
    offline_frame: Seq<u8>,
    hash: [u8; 3],
    advertisement: Seq<u8>,
)
    requires
        hash@ != control_prefix(),
        hash@.len() + LEN_PREFIX + offline_frame.len() <= MAX_FRAME_LEN,
    ensures
        ({
            let inbound = framed(offline_frame);
            let len = offline_frame.len();
            let prefix = Event::Received { bytes: inbound.take(LEN_PREFIX as int) };
            let body = Event::Received { bytes: inbound.skip(LEN_PREFIX as int) };
            let phase = inbound_step(ReadPhase::Length, prefix, hash@).0;
            let wire = ble_data(hash@, inbound);
            &&& phase == (ReadPhase::Payload { len: len as u32 })
            &&& inbound_step(phase, body, hash@) == (ReadPhase::Length, Some(wire))
            &&& wire.len() == LEN_PREFIX + hash@.len() + inbound.len()
            &&& l2cap_step(
                ReadPhase::Length,
                Event::Received { bytes: wire.take(LEN_PREFIX as int) },
                hash@,
                advertisement,
            ) == (
                ReadPhase::Payload { len: (wire.len() - LEN_PREFIX) as u32 },
                Action::Nothing,
            )
            &&& l2cap_step(
                ReadPhase::Payload { len: (wire.len() - LEN_PREFIX) as u32 },
                Event::Received { bytes: wire.skip(LEN_PREFIX as int) },
                hash@,
                advertisement,
            ) == (
                ReadPhase::Length,
                Action::Forward { inner: inbound, ack: framed(packet_ack_of(hash@, len as u64)) },
            )
        }),
{
    let inbound = framed(offline_frame);
    law_frame_round_trip(offline_frame);
    law_frame_round_trip(hash@ + inbound);
    lemma_inbound_wraps(offline_frame, hash);
    lemma_data_is_forwarded(inbound, hash, advertisement);
    assert(be32_value(inbound) == be32_value(inbound.take(4)));
}

/// An acknowledgement that one bridge sends is taken in by the other without
/// effect.
pub proof fn law_acknowledgements_are_absorbed(
    ack_hash: [u8; 3],
    size: u64,
    hash: [u8; 3],
    advertisement: Seq<u8>,
)
    ensures
        on_payload(packet_ack_of(ack_hash@, size), hash@, advertisement) == (
            ReadPhase::Length,
            Action::Nothing,
        ),
{
    let ack = packet_ack_of(ack_hash@, size);
    law_packet_ack_is_no_disconnection(ack_hash, size);
    assert(ack.take(3) =~= control_prefix());
}

/// The acknowledgement of a data payload is read by the peer as one for our
/// service id hash and for the very length that the payload announced, however
/// large.
pub proof fn law_acknowledged_size_is_the_announced_one(after_hash: Seq<u8>, hash: [u8; 3])
    requires
        after_hash.len() >= LEN_PREFIX,
    ensures
        data_action(after_hash, hash@) matches Action::Forward { inner, ack } && {
            let control = control_frame(ack.skip(LEN_PREFIX as int).skip(3));
            &&& inner == after_hash
            &&& control.frame_type == Some(CONTROL_TYPE_PACKET_ACKNOWLEDGEMENT)
            &&& control.service_id_hash == Some(hash@)
            &&& control.received_size == Some(be32_value(after_hash) as u64)
        },
{
    let size = be32_value(after_hash) as u64;
    let ack = packet_ack_of(hash@, size);
    law_packet_ack_of_round_trip(hash, size);
    assert(framed(ack).skip(4) =~= ack);
}

/// The bytes of a length prefix are put back in front of the payload as they were
/// read.
pub proof fn law_inbound_prefix_is_kept(prefix: Seq<u8>, body: Seq<u8>, hash: [u8; 3])
    requires
        prefix.len() == LEN_PREFIX,
        be32_value(prefix) <= MAX_FRAME_LEN,
        body.len() == be32_value(prefix),
    ensures
        ({
            let phase = inbound_step(
                ReadPhase::Length,
                Event::Received { bytes: prefix },
                hash@,
            ).0;
            inbound_step(phase, Event::Received { bytes: body }, hash@).1 == Some(
                ble_data(hash@, prefix + body),
            )
        }),
{
    law_be32_reencodes(prefix);
}

/// What was handed on, whatever bytes its acknowledgement holds, is acknowledged
/// with those very bytes, and the next thing read is the length prefix of the next
/// frame; what could not be handed on closes the bridge.
pub proof fn law_reading_goes_on_after_delivery(delivered: bool, ack: Seq<u8>)
    ensures
        delivered ==> hand_on_result(delivered, ack) == (
            ReadPhase::Length,
            Action::Send { frame: ack },
        ),
        !delivered ==> hand_on_result(delivered, ack) == (
            ReadPhase::Closed { reason: CloseReason::SinkFailed },
            Action::Nothing,
        ),
{
}

/// A payload that starts with three zero bytes is neither answered nor handed on.
/// It closes the bridge just when the last varint field 1 behind those bytes holds
/// 2; else reading goes on with the next length prefix.
pub proof fn law_only_a_disconnection_closes(
    payload: Seq<u8>,
    hash: [u8; 3],
    advertisement: Seq<u8>,
)
    ensures
        ({
            let (phase, action) = on_payload(payload, hash@, advertisement);
            let control = payload.len() >= 3 && payload[0] == 0 && payload[1] == 0 && payload[2]
                == 0;
            let type_two = exists|i: int| is_last_type(fields(payload.skip(3)), i, 2);
            &&& control ==> action == Action::Nothing
            &&& control && type_two ==> phase == (ReadPhase::Closed {
                reason: CloseReason::Disconnected,
            })
            &&& !(control && type_two) ==> phase == ReadPhase::Length
        }),
{
    law_disconnection_is_type_two(payload.skip(3));
    if payload.len() >= 3 && payload[0] == 0 && payload[1] == 0 && payload[2] == 0 {
        assert(payload.take(3) =~= control_prefix());
    } else if payload.len() >= 3 {
        assert(payload.take(3)[0] == payload[0]);
        assert(payload.take(3)[1] == payload[1]);
        assert(payload.take(3)[2] == payload[2]);
    }
}

/// A payload that does not start with three zero bytes leaves the bridge reading
/// the next length prefix, answered or not. Behind our service id hash, with at
/// least four bytes, it is handed on whole and acknowledged with the length that
/// those four bytes announce; with fewer it is dropped. Behind any other three bytes
/// it is answered just when there is a reply to it as a command.
pub proof fn law_payloads_by_prefix(payload: Seq<u8>, hash: [u8; 3], advertisement: Seq<u8>)
    requires
        payload.len() < 3 || payload[0] != 0 || payload[1] != 0 || payload[2] != 0,
    ensures
        ({
            let (phase, action) = on_payload(payload, hash@, advertisement);
            let ours = payload.len() >= 3 && payload[0] == hash[0] && payload[1] == hash[1]
                && payload[2] == hash[2];
            let announced = 0x100_0000 * payload[3] + 0x1_0000 * payload[4] + 0x100 * payload[5]
                + payload[6];
            &&& phase == ReadPhase::Length
            &&& ours && payload.len() < 7 ==> action == Action::Nothing
            &&& ours && payload.len() >= 7 ==> action == (Action::Forward {
                inner: payload.skip(3),
                ack: framed(packet_ack_of(hash@, announced as u64)),
            })
            &&& !ours ==> action == (match reply_to(payload, advertisement) {
                Some(frame) => Action::Send { frame },
                None => Action::Nothing,
            })
        }),
{
    if payload.len() >= 3 {
        assert(payload.take(3)[0] == payload[0]);
        assert(payload.take(3)[1] == payload[1]);
        assert(payload.take(3)[2] == payload[2]);
        if payload[0] == hash[0] && payload[1] == hash[1] && payload[2] == hash[2] {
            assert(payload.take(3) =~= hash@);
            if payload.len() >= 7 {
                law_be32_value_reads_four_bytes(payload.skip(3));
            }
        }
    }
}

/// An empty payload does nothing.
pub proof fn law_empty_payload(hash: [u8; 3], advertisement: Seq<u8>)
    ensures
        on_payload(Seq::empty(), hash@, advertisement) == (ReadPhase::Length, Action::Nothing),
{
    law_payloads_by_prefix(Seq::empty(), hash, advertisement);
    law_nothing_else_is_answered(Seq::empty(), advertisement);
}

/// An introduction, a packet acknowledgement or any other control message, whatever
/// hash and number are in it, leaves the bridge reading the next length prefix
/// unless its type is 2.
pub proof fn law_control_messages_close_by_type(
    frame_type: u64,
    body_field: u32,
    body_hash: Seq<u8>,
    number: u64,
    hash: [u8; 3],
    advertisement: Seq<u8>,
)
    requires
        hash_and_number(body_hash, number).len() <= usize::MAX,
    ensures
        on_payload(
            seq![0u8, 0u8, 0u8] + control_message(
                frame_type,
                body_field,
                hash_and_number(body_hash, number),
            ),
            hash@,
            advertisement,
        ) == (
            if frame_type == 2 {
                ReadPhase::Closed { reason: CloseReason::Disconnected }
            } else {
                ReadPhase::Length
            },
            Action::Nothing,
        ),
{
    let body = hash_and_number(body_hash, number);
    law_only_type_two_closes(frame_type, body_field, body);
    law_control_frames_are_not_answered(
        control_message(frame_type, body_field, body),
        hash,
        advertisement,
    );
}

/// A request for the advertisement, whatever hash it names, is answered, unless our
/// service id hash starts like it; so is one for a data connection. Reading goes on.
pub proof fn law_requests_are_answered(payload: Seq<u8>, hash: [u8; 3], advertisement: Seq<u8>)
    requires
        payload.len() >= 1,
        payload[0] != hash[0],
    ensures
        payload[0] == 0x01 && payload.len() >= 6 ==> on_payload(payload, hash@, advertisement) == (
            ReadPhase::Length,
            Action::Send { frame: framed(advertisement_response(advertisement)) },
        ),
        payload[0] == 0x03 ==> on_payload(payload, hash@, advertisement) == (
            ReadPhase::Length,
            Action::Send { frame: seq![0u8, 0u8, 0u8, 1u8, 0x17u8] },
        ),
        payload[0] != 0x01 && payload[0] != 0x03 && payload[0] != 0 ==> on_payload(
            payload,
            hash@,
            advertisement,
        ) == (ReadPhase::Length, Action::Nothing),
{
    if payload[0] != 0 {
        law_payloads_by_prefix(payload, hash, advertisement);
        law_nothing_else_is_answered(payload, advertisement);
        if payload[0] == 0x03 {
            law_data_connection_requests_are_answered(payload, advertisement);
        }
    }
}

/// How many bytes each phase reads.
pub proof fn law_wanted(len: u32, reason: CloseReason)
    ensures
        ReadPhase::Length.wanted() == 4,
        (ReadPhase::Payload { len }).wanted() == len,
        (ReadPhase::Closed { reason }).wanted() == 0,
{
}

/// A length prefix is read, highest byte first, as the number of bytes to read
/// next, in either direction; one that is over 512 KiB closes the direction and is
/// named in the reason.
pub proof fn law_length_prefix(
    a: u8,
    b: u8,
    c: u8,
    d: u8,
    hash: [u8; 3],
    advertisement: Seq<u8>,
)
    ensures
        ({
            let prefix = Event::Received { bytes: seq![a, b, c, d] };
            let len = (0x100_0000 * a + 0x1_0000 * b + 0x100 * c + d) as u32;
            let phase = if len <= 524288 {
                ReadPhase::Payload { len }
            } else {
                ReadPhase::Closed { reason: CloseReason::FrameTooLong { len } }
            };
            &&& l2cap_step(ReadPhase::Length, prefix, hash@, advertisement) == (
                phase,
                Action::Nothing,
            )
            &&& inbound_step(ReadPhase::Length, prefix, hash@) == (phase, None::<Seq<u8>>)
        }),
{
    law_be32_value_reads_four_bytes(seq![a, b, c, d]);
}

/// A payload of the announced length is dispatched in the one direction, and goes
/// out in the other behind the frame's length, the hash, and the prefix that it was
/// read with; then the next length prefix is read.
pub proof fn law_whole_payloads(
    len: u32,
    bytes: Seq<u8>,
    hash: [u8; 3],
    advertisement: Seq<u8>,
)
    requires
        bytes.len() == len,
    ensures
        ({
            let phase = ReadPhase::Payload { len };
            let body = Event::Received { bytes };
            &&& l2cap_step(phase, body, hash@, advertisement) == on_payload(
                bytes,
                hash@,
                advertisement,
            )
            &&& inbound_step(phase, body, hash@) == (
                ReadPhase::Length,
                Some(framed(hash@ + be32(len) + bytes)),
            )
        }),
{
    assert(hash@ + be32(len) + bytes =~= hash@ + (be32(len) + bytes));
}

/// Where the bytes asked for do not come, all of them and no more, either direction
/// closes.
pub proof fn law_missing_bytes_close(
    phase: ReadPhase,
    event: Event,
    hash: [u8; 3],
    advertisement: Seq<u8>,
)
    requires
        phase !is Closed,
        event is ReadFailed || (event is Received && phase is Length && event->bytes.len() != 4)
            || (event is Received && phase is Payload && event->bytes.len() != phase->len),
    ensures
        l2cap_step(phase, event, hash@, advertisement) == (
            ReadPhase::Closed { reason: CloseReason::ReadEnded },
            Action::Nothing,
        ),
        inbound_step(phase, event, hash@) == (
            ReadPhase::Closed { reason: CloseReason::ReadEnded },
            None::<Seq<u8>>,
        ),
{
}

/// A frame that could not be queued closes the direction from the inbound transfer
/// for that reason.
pub proof fn law_unqueued_frame_closes_inbound(phase: ReadPhase, hash: [u8; 3])
    requires
        phase !is Closed,
    ensures
        inbound_step(phase, Event::QueueFailed, hash@) == (
            ReadPhase::Closed { reason: CloseReason::SinkFailed },
            None::<Seq<u8>>,
        ),
{
}

/// The driver takes another turn just when the last was handled, and reports a
/// disconnection just when a transfer failed underway; it logs an error where it
/// failed once begun.
pub proof fn law_driver(outcome: TurnOutcome, stage: TransferStage)
    ensures
        driver_step(outcome, stage) == DriverStep::TakeTurn <==> outcome == TurnOutcome::Handled,
        driver_step(outcome, stage) == DriverStep::StopAndReportDisconnected <==> outcome
            == TurnOutcome::Failed && stage == TransferStage::Underway,
        driver_step(outcome, stage) == DriverStep::StopWithError <==> outcome
            == TurnOutcome::Failed && stage == TransferStage::Finished,
{
}

/// What an event or an action is taken to hold is what it holds.
pub proof fn law_bridge_views<'a>(event: ReadEvent<'a>, action: BridgeAction)
    ensures
        match event {
            ReadEvent::Received { bytes } => event@ == (Event::Received { bytes: bytes@ }),
            ReadEvent::ReadFailed => event@ == Event::ReadFailed,
            ReadEvent::QueueFailed => event@ == Event::QueueFailed,
        },
        match action {
            BridgeAction::Nothing => action@ == Action::Nothing,
            BridgeAction::Send { frame } => action@ == (Action::Send { frame: frame@ }),
            BridgeAction::Forward { inner, ack } => action@ == (Action::Forward {
                inner: inner@,
                ack: ack@,
            }),
        },
{
}

/// What a step leads to where everything is handed on: the phase after it, and
/// what was done.
pub open spec fn delivered(step: (ReadPhase, Action)) -> (ReadPhase, Seq<Action>) {
    match step.1 {
        Action::Nothing => (step.0, Seq::empty()),
        Action::Send { .. } => (step.0, seq![step.1]),
        Action::Forward { ack, .. } => {
            let after = hand_on_result(true, ack);
            (after.0, seq![step.1, after.1])
        },
    }
}

/// Up to `reads` reads of a stream in which everything is handed on: the phase
/// after them, what of the stream is left, and what was done.
pub open spec fn session(
    phase: ReadPhase,
    stream: Seq<u8>,
    reads: nat,
    hash: Seq<u8>,
    advertisement: Seq<u8>,
) -> (ReadPhase, Seq<u8>, Seq<Action>)
    decreases reads,
{
    let wanted = phase.wanted() as int;
    if reads == 0 || phase is Closed || stream.len() < wanted {
        (phase, stream, Seq::empty())
    } else {
        let read = Event::Received { bytes: stream.take(wanted) };
        let (next, done) = delivered(l2cap_step(phase, read, hash, advertisement));
        let (end, left, later) = session(
            next,
            stream.skip(wanted),
            (reads - 1) as nat,
            hash,
            advertisement,
        );
        (end, left, done + later)
    }
}

/// The payload is a control frame.
pub open spec fn is_control(payload: Seq<u8>) -> bool {
    payload.len() >= 3 && payload[0] == 0 && payload[1] == 0 && payload[2] == 0
}

/// What is to be done for a payload that does not ask to close: nothing for a
/// control frame; data are handed on and then acknowledged; a request is answered.
pub open spec fn done_for(payload: Seq<u8>, hash: Seq<u8>, advertisement: Seq<u8>) -> Seq<Action> {
    if is_control(payload) {
        Seq::empty()
    } else if payload.len() >= 3 && payload.take(3) == hash {
        if payload.len() < 7 {
            Seq::empty()
        } else {
            let ack = framed(packet_ack_of(hash, be32_value(payload.skip(3)) as u64));
            seq![Action::Forward { inner: payload.skip(3), ack }, Action::Send { frame: ack }]
        }
    } else {
        match reply_to(payload, advertisement) {
            Some(frame) => seq![Action::Send { frame }],
            None => Seq::empty(),
        }
    }
}

/// What is to be done for payloads, one after the other.
pub open spec fn done_for_all(
    payloads: Seq<Seq<u8>>,
    hash: Seq<u8>,
    advertisement: Seq<u8>,
) -> Seq<Action>
    decreases payloads.len(),
{
    if payloads.len() == 0 {
        Seq::empty()
    } else {
        done_for(payloads[0], hash, advertisement) + done_for_all(
            payloads.drop_first(),
            hash,
            advertisement,
        )
    }
}

/// The two reads of one frame.
proof fn lemma_session_of_a_frame(
    payload: Seq<u8>,
    rest: Seq<u8>,
    reads: nat,
    hash: [u8; 3],
    advertisement: Seq<u8>,
)
    requires
        payload.len() <= 524288,
        is_control(payload) ==> forall|i: int|
            !#[trigger] is_last_type(fields(payload.skip(3)), i, 2),
    ensures
        ({
            let (end, left, later) = session(ReadPhase::Length, rest, reads, hash@, advertisement);
            session(ReadPhase::Length, framed(payload) + rest, reads + 2, hash@, advertisement)
                == (end, left, done_for(payload, hash@, advertisement) + later)
        }),
{
    let stream = framed(payload) + rest;
    let len = payload.len() as u32;
    let body = payload + rest;
    law_reader_takes_a_frame(payload, hash, advertisement);
    law_frame_round_trip(payload);
    assert(stream.take(4) =~= framed(payload).take(4));
    assert(stream.skip(4) =~= body);
    assert(body.take(len as int) =~= payload);
    assert(body.skip(len as int) =~= rest);
    assert(framed(payload).skip(4) =~= payload);
    law_only_a_disconnection_closes(payload, hash, advertisement);
    if !is_control(payload) {
        law_payloads_by_prefix(payload, hash, advertisement);
        if payload.len() >= 3 {
            assert(payload.take(3)[0] == payload[0]);
            assert(payload.take(3)[1] == payload[1]);
            assert(payload.take(3)[2] == payload[2]);
            if payload[0] == hash[0] && payload[1] == hash[1] && payload[2] == hash[2] {
                assert(payload.take(3) =~= hash@);
                if payload.len() >= 7 {
                    law_be32_value_reads_four_bytes(payload.skip(3));
                }
            }
        }
    }
    let step = on_payload(payload, hash@, advertisement);
    assert(delivered(step) == (ReadPhase::Length, done_for(payload, hash@, advertisement)));
    let (end, left, later) = session(ReadPhase::Length, rest, reads, hash@, advertisement);
    let done = done_for(payload, hash@, advertisement);
    assert(session(ReadPhase::Payload { len }, body, reads + 1, hash@, advertisement) == (
        end,
        left,
        done + later,
    ));
    assert(Seq::<Action>::empty() + (done + later) =~= done + later);
    assert(session(ReadPhase::Length, stream, reads + 2, hash@, advertisement) == (
        end,
        left,
        done + later,
    ));
}

/// In a stream of frames, none of which asks to close, and with everything handed
/// on, two reads for each frame do for each what is to be done for it, in order, and
/// end at the end of the stream, ready for the next length prefix. As this holds of
/// every number of frames, the read after each frame is that of a length prefix.
pub proof fn law_session_follows_the_frames(
    payloads: Seq<Seq<u8>>,
    hash: [u8; 3],
    advertisement: Seq<u8>,
)
    requires
        forall|k: int| 0 <= k < payloads.len() ==> (#[trigger] payloads[k]).len() <= 524288,
        forall|k: int, i: int|
            0 <= k < payloads.len() && is_control(payloads[k]) ==> !#[trigger] is_last_type(
                fields(payloads[k].skip(3)),
                i,
                2,
            ),
    ensures
        session(
            ReadPhase::Length,
            wire_of(payloads),
            2 * payloads.len(),
            hash@,
            advertisement,
        ) == (
            ReadPhase::Length,
            Seq::<u8>::empty(),
            done_for_all(payloads, hash@, advertisement),
        ),
    decreases payloads.len(),
{
    if payloads.len() > 0 {
        let others = payloads.drop_first();
        assert forall|k: int| 0 <= k < others.len() implies (#[trigger] others[k]).len()
            <= 524288 by {
            assert(others[k] == payloads[k + 1]);
        }
        assert forall|k: int, i: int|
            0 <= k < others.len() && is_control(others[k]) implies !#[trigger] is_last_type(
            fields(others[k].skip(3)),
            i,
            2,
        ) by {
            assert(others[k] == payloads[k + 1]);
            assert(!is_last_type(fields(payloads[k + 1].skip(3)), i, 2));
        }
        law_session_follows_the_frames(others, hash, advertisement);
        let reads = 2 * others.len();
        lemma_session_of_a_frame(payloads[0], wire_of(others), reads, hash, advertisement);
        assert(2 * payloads.len() == reads + 2);
    }
}

/// A connection ends with its L2CAP reader, with its transfer and by cancelling; it
/// outlives the reader of the inbound transfer and the writer.
pub proof fn law_connection_ends(end: BridgeEnd)
    ensures
        ends_connection(end) <==> end == BridgeEnd::L2capReaderClosed || end
            == BridgeEnd::TransferEnded || end == BridgeEnd::Cancelled,
        ends_connection(end) <==> end != BridgeEnd::InboundReaderClosed && end
            != BridgeEnd::WriterStopped,
{
}

} // verus!
