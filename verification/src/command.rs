//! The command tier of the L2CAP channel, before the data connection.

use crate::bytes::{
    append, be16, be16_value, be32_value, law_be16_digits, law_be16_round_trip, len16, low_be16,
    u16_from_be,
};
use crate::framing::{frame, framed, law_frame_layout};
use vstd::prelude::*;
use vstd::slice::{slice_subrange, slice_to_vec};

verus! {

pub const OPCODE_REQUEST_ADVERTISEMENT: u8 = 0x01;

pub const OPCODE_REQUEST_ADVERTISEMENT_FINISH: u8 = 0x02;

pub const OPCODE_REQUEST_DATA_CONNECTION: u8 = 0x03;

pub const OPCODE_RESPONSE_ADVERTISEMENT: u8 = 0x15;

pub const OPCODE_RESPONSE_SERVICE_ID_NOT_FOUND: u8 = 0x16;

pub const OPCODE_RESPONSE_DATA_CONNECTION_READY: u8 = 0x17;

pub const OPCODE_RESPONSE_DATA_CONNECTION_FAILURE: u8 = 0x18;

/// A command. `Unknown` is any other opcode: to be passed over, no error.
#[derive(Debug, Clone, PartialEq, Eq)]
pub enum L2capCommand {
    RequestAdvertisement { hash: [u8; 3] },
    RequestAdvertisementFinish,
    RequestDataConnection,
    ResponseAdvertisement { advertisement: Vec<u8> },
    ResponseServiceIdNotFound,
    ResponseDataConnectionReady,
    ResponseDataConnectionFailure,
    Unknown { opcode: u8 },
}

/// The contents of an `L2capCommand`.
pub enum Command {
    RequestAdvertisement { hash: Seq<u8> },
    RequestAdvertisementFinish,
    RequestDataConnection,
    ResponseAdvertisement { advertisement: Seq<u8> },
    ResponseServiceIdNotFound,
    ResponseDataConnectionReady,
    ResponseDataConnectionFailure,
    Unknown { opcode: u8 },
}

impl View for L2capCommand {
    type V = Command;

    open spec fn view(&self) -> Command {
        match *self {
            L2capCommand::RequestAdvertisement { hash } => Command::RequestAdvertisement {
                hash: hash@,
            },
            L2capCommand::RequestAdvertisementFinish => Command::RequestAdvertisementFinish,
            L2capCommand::RequestDataConnection => Command::RequestDataConnection,
            L2capCommand::ResponseAdvertisement { advertisement } => {
                Command::ResponseAdvertisement { advertisement: advertisement@ }
            },
            L2capCommand::ResponseServiceIdNotFound => Command::ResponseServiceIdNotFound,
            L2capCommand::ResponseDataConnectionReady => Command::ResponseDataConnectionReady,
            L2capCommand::ResponseDataConnectionFailure => Command::ResponseDataConnectionFailure,
            L2capCommand::Unknown { opcode } => Command::Unknown { opcode },
        }
    }
}

/// The command that a payload holds. A request for the advertisement carries two
/// length bytes and the three bytes of a service id hash; an advertisement in
/// response, two length bytes and that many bytes. What follows is ignored. There
/// is no command in an empty payload, nor where these bytes are not all there.
pub open spec fn command_in(p: Seq<u8>) -> Option<Command> {
    if p.len() == 0 {
        None
    } else if p[0] == OPCODE_REQUEST_ADVERTISEMENT {
        if p.len() < 6 {
            None
        } else {
            Some(Command::RequestAdvertisement { hash: p.subrange(3, 6) })
        }
    } else if p[0] == OPCODE_REQUEST_ADVERTISEMENT_FINISH {
        Some(Command::RequestAdvertisementFinish)
    } else if p[0] == OPCODE_REQUEST_DATA_CONNECTION {
        Some(Command::RequestDataConnection)
    } else if p[0] == OPCODE_RESPONSE_ADVERTISEMENT {
        if p.len() < 3 || 3 + be16_value(p[1], p[2]) > p.len() {
            None
        } else {
            Some(
                Command::ResponseAdvertisement {
                    advertisement: p.subrange(3, 3 + be16_value(p[1], p[2])),
                },
            )
        }
    } else if p[0] == OPCODE_RESPONSE_SERVICE_ID_NOT_FOUND {
        Some(Command::ResponseServiceIdNotFound)
    } else if p[0] == OPCODE_RESPONSE_DATA_CONNECTION_READY {
        Some(Command::ResponseDataConnectionReady)
    } else if p[0] == OPCODE_RESPONSE_DATA_CONNECTION_FAILURE {
        Some(Command::ResponseDataConnectionFailure)
    } else {
        Some(Command::Unknown { opcode: p[0] })
    }
}

/// The payload that answers a request for the advertisement. The length field
/// holds the length modulo 2^16.
pub open spec fn advertisement_response(advertisement: Seq<u8>) -> Seq<u8> {
    seq![OPCODE_RESPONSE_ADVERTISEMENT] + be16(len16(advertisement.len())) + advertisement
}

/// The payload that answers a request for a data connection.
pub open spec fn data_connection_response() -> Seq<u8> {
    seq![OPCODE_RESPONSE_DATA_CONNECTION_READY]
}

/// The payload that answers a command: a request for the advertisement, whatever
/// hash it names, gets the advertisement; a request for a data connection gets
/// its readiness; nothing else is answered.
pub open spec fn response_to(command: Option<Command>, advertisement: Seq<u8>) -> Option<Seq<u8>> {
    match command {
        Some(Command::RequestAdvertisement { .. }) => Some(advertisement_response(advertisement)),
        Some(Command::RequestDataConnection) => Some(data_connection_response()),
        _ => None,
    }
}

/// The frame that answers a command payload.
pub open spec fn reply_to(payload: Seq<u8>, advertisement: Seq<u8>) -> Option<Seq<u8>> {
    match response_to(command_in(payload), advertisement) {
        Some(response) => Some(framed(response)),
        None => None,
    }
}

/// Parses a command payload.
pub fn parse_l2cap_command(payload: &[u8]) -> (command: Option<L2capCommand>)
    ensures
        match command_in(payload@) {
            Some(c) => command matches Some(found) && found@ == c,
            None => command is None,
        },
{
    if payload.len() == 0 {
        return None;
    }
    let opcode: u8 = payload[0];
    if opcode == OPCODE_REQUEST_ADVERTISEMENT {
        if payload.len() < 6 {
            return None;
        }
        let hash: [u8; 3] = [payload[3], payload[4], payload[5]];
        assert(hash@ =~= payload@.subrange(3, 6));
        Some(L2capCommand::RequestAdvertisement { hash })
    } else if opcode == OPCODE_REQUEST_ADVERTISEMENT_FINISH {
        Some(L2capCommand::RequestAdvertisementFinish)
    } else if opcode == OPCODE_REQUEST_DATA_CONNECTION {
        Some(L2capCommand::RequestDataConnection)
    } else if opcode == OPCODE_RESPONSE_ADVERTISEMENT {
        if payload.len() < 3 {
            return None;
        }
        let len: usize = u16_from_be(payload[1], payload[2]) as usize;
        if len > payload.len() - 3 {
            return None;
        }
        let advertisement: Vec<u8> = slice_to_vec(slice_subrange(payload, 3, 3 + len));
        Some(L2capCommand::ResponseAdvertisement { advertisement })
    } else if opcode == OPCODE_RESPONSE_SERVICE_ID_NOT_FOUND {
        Some(L2capCommand::ResponseServiceIdNotFound)
    } else if opcode == OPCODE_RESPONSE_DATA_CONNECTION_READY {
        Some(L2capCommand::ResponseDataConnectionReady)
    } else if opcode == OPCODE_RESPONSE_DATA_CONNECTION_FAILURE {
        Some(L2capCommand::ResponseDataConnectionFailure)
    } else {
        Some(L2capCommand::Unknown { opcode })
    }
}

/// Handles a command payload: the frame to send in answer, if any.
pub fn handle_command_frame(payload: &[u8], our_advertisement: &[u8]) -> (reply: Option<Vec<u8>>)
    ensures
        match reply_to(payload@, our_advertisement@) {
            Some(bytes) => reply matches Some(r) && r@ == bytes,
            None => reply is None,
        },
{
    match parse_l2cap_command(payload) {
        Some(L2capCommand::RequestAdvertisement { hash: _ }) => {
            let len: [u8; 2] = low_be16(our_advertisement.len());
            let mut response: Vec<u8> = Vec::new();
            response.push(OPCODE_RESPONSE_ADVERTISEMENT);
            append(&mut response, len.as_slice());
            append(&mut response, our_advertisement);
            assert(response@ =~= advertisement_response(our_advertisement@));
            Some(frame(response.as_slice()))
        },
        Some(L2capCommand::RequestDataConnection) => {
            let response: [u8; 1] = [OPCODE_RESPONSE_DATA_CONNECTION_READY];
            assert(response@ =~= data_connection_response());
            Some(frame(response.as_slice()))
        },
        _ => None,
    }
}

/// The answer to a request for the advertisement is read by the peer as exactly
/// that advertisement.
pub proof fn law_advertisement_response_round_trip(advertisement: Seq<u8>)
    requires
        advertisement.len() < 0x1_0000,
    ensures
        command_in(advertisement_response(advertisement)) == Some(
            Command::ResponseAdvertisement { advertisement },
        ),
{
    let p = advertisement_response(advertisement);
    law_be16_round_trip(len16(advertisement.len()));
    assert(p[1] == be16(len16(advertisement.len()))[0]);
    assert(p[2] == be16(len16(advertisement.len()))[1]);
    assert(p.subrange(3, 3 + advertisement.len() as int) =~= advertisement);
}

/// The answer to a request for a data connection is read by the peer as its
/// readiness.
pub proof fn law_data_connection_response_round_trip()
    ensures
        command_in(data_connection_response()) == Some(Command::ResponseDataConnectionReady),
{
}

/// An answer is never answered in turn.
pub proof fn law_no_reply_to_a_reply(payload: Seq<u8>, ours: Seq<u8>, theirs: Seq<u8>)
    requires
        response_to(command_in(payload), ours) is Some,
    ensures
        reply_to(response_to(command_in(payload), ours)->0, theirs) is None,
{
    assert(advertisement_response(ours)[0] == OPCODE_RESPONSE_ADVERTISEMENT);
}

/// How each payload reads as a command, by its first byte.
pub proof fn law_commands_by_opcode(p: Seq<u8>)
    ensures
        p.len() == 0 ==> command_in(p) is None,
        p.len() > 0 && p[0] == 0x01 && p.len() < 6 ==> command_in(p) is None,
        p.len() >= 6 && p[0] == 0x01 ==> command_in(p) == Some(
            Command::RequestAdvertisement { hash: seq![p[3], p[4], p[5]] },
        ),
        p.len() > 0 && p[0] == 0x02 ==> command_in(p) == Some(Command::RequestAdvertisementFinish),
        p.len() > 0 && p[0] == 0x03 ==> command_in(p) == Some(Command::RequestDataConnection),
        p.len() > 0 && p[0] == 0x16 ==> command_in(p) == Some(Command::ResponseServiceIdNotFound),
        p.len() > 0 && p[0] == 0x17 ==> command_in(p) == Some(Command::ResponseDataConnectionReady),
        p.len() > 0 && p[0] == 0x18 ==> command_in(p) == Some(
            Command::ResponseDataConnectionFailure,
        ),
        p.len() > 0 && (p[0] == 0 || 0x03 < p[0] < 0x15 || p[0] > 0x18) ==> command_in(p) == Some(
            Command::Unknown { opcode: p[0] },
        ),
{
    if p.len() >= 6 && p[0] == 0x01 {
        assert(p.subrange(3, 6) =~= seq![p[3], p[4], p[5]]);
    }
}

/// An advertisement in response is as long as its two length bytes say, the higher
/// first, whatever follows it; where fewer bytes are there, there is no command.
pub proof fn law_advertisement_in_response(hi: u8, lo: u8, advertisement: Seq<u8>, tail: Seq<u8>)
    ensures
        advertisement.len() == 256 * hi + lo ==> command_in(
            seq![0x15u8, hi, lo] + advertisement + tail,
        ) == Some(Command::ResponseAdvertisement { advertisement }),
        advertisement.len() < 256 * hi + lo ==> command_in(seq![0x15u8, hi, lo] + advertisement)
            is None,
        command_in(seq![0x15u8]) is None,
        command_in(seq![0x15u8, hi]) is None,
{
    if advertisement.len() == 256 * hi + lo {
        let p = seq![0x15u8, hi, lo] + advertisement + tail;
        assert(p[0] == 0x15 && p[1] == hi && p[2] == lo);
        assert(p.subrange(3, 3 + advertisement.len() as int) =~= advertisement);
    }
    let q = seq![0x15u8, hi, lo] + advertisement;
    assert(q[0] == 0x15 && q[1] == hi && q[2] == lo);
}

/// Every request for the advertisement, whatever hash it names and whatever follows
/// it, is answered with one frame: the opcode, the length of our advertisement in
/// two bytes, the higher first, and the advertisement.
pub proof fn law_advertisement_requests_are_answered(payload: Seq<u8>, advertisement: Seq<u8>)
    requires
        payload.len() >= 6,
        payload[0] == 0x01,
    ensures
        reply_to(payload, advertisement) matches Some(reply) && {
            &&& reply.len() == 7 + advertisement.len()
            &&& be32_value(reply) == (3 + advertisement.len()) % 0x1_0000_0000
            &&& reply[4] == 0x15
            &&& 256 * reply[5] + reply[6] == advertisement.len() % 0x1_0000
            &&& reply.skip(7) == advertisement
        },
{
    let response = advertisement_response(advertisement);
    law_frame_layout(response);
    law_be16_digits(len16(advertisement.len()));
    let reply = framed(response);
    let len = be16(len16(advertisement.len()));
    assert(reply.skip(4) =~= response);
    assert(reply[4] == response[0] && reply[5] == response[1] && reply[6] == response[2]) by {
        assert(reply.skip(4)[0] == reply[4]);
        assert(reply.skip(4)[1] == reply[5]);
        assert(reply.skip(4)[2] == reply[6]);
    }
    assert(response[1] == len[0] && response[2] == len[1]);
    assert(reply.skip(7) =~= advertisement);
}

/// Every request for a data connection, whatever follows it, is answered with the
/// frame of one byte that says ready.
pub proof fn law_data_connection_requests_are_answered(payload: Seq<u8>, advertisement: Seq<u8>)
    requires
        payload.len() >= 1,
        payload[0] == 0x03,
    ensures
        reply_to(payload, advertisement) == Some(seq![0u8, 0u8, 0u8, 1u8, 0x17u8]),
{
    assert(framed(data_connection_response()) =~= seq![0u8, 0u8, 0u8, 1u8, 0x17u8]);
}

/// Nothing but a whole request for the advertisement or for a data connection is
/// answered.
pub proof fn law_nothing_else_is_answered(payload: Seq<u8>, advertisement: Seq<u8>)
    ensures
        reply_to(payload, advertisement) is Some <==> payload.len() > 0 && (payload[0] == 0x03 || (
        payload[0] == 0x01 && payload.len() >= 6)),
{
}

/// What a command is taken to hold is what it holds.
pub proof fn law_command_view(command: L2capCommand)
    ensures
        match command {
            L2capCommand::RequestAdvertisement { hash } => command@ == (
            Command::RequestAdvertisement { hash: hash@ }),
            L2capCommand::RequestAdvertisementFinish => command@
                == Command::RequestAdvertisementFinish,
            L2capCommand::RequestDataConnection => command@ == Command::RequestDataConnection,
            L2capCommand::ResponseAdvertisement { advertisement } => command@ == (
            Command::ResponseAdvertisement { advertisement: advertisement@ }),
            L2capCommand::ResponseServiceIdNotFound => command@
                == Command::ResponseServiceIdNotFound,
            L2capCommand::ResponseDataConnectionReady => command@
                == Command::ResponseDataConnectionReady,
            L2capCommand::ResponseDataConnectionFailure => command@
                == Command::ResponseDataConnectionFailure,
            L2capCommand::Unknown { opcode } => command@ == (Command::Unknown { opcode }),
        },
{
}

} // verus!
