//! `SocketControlFrame` messages, carried behind the `00 00 00` prefix.

use crate::bytes::append;
use crate::fields::{
    bytes_field, encode_bytes_field, encode_varint_field, fields, is_bytes, is_varint, last_bytes,
    last_varint, law_bytes_field_round_trip, law_field_layout, law_last_bytes, law_last_varint,
    law_tag_value, law_varint_field_round_trip, leading_field, lemma_last_prepend, lemma_last_push,
    next_field, tag_value, varint_field, Field, WireField, WIRE_BYTES, WIRE_VARINT,
};
use crate::varint::{law_varint_length, varint_bytes};
use vstd::prelude::*;
use vstd::slice::{slice_subrange, slice_to_vec};

verus! {

/// `SocketControlFrame.type` of an introduction.
pub const CONTROL_TYPE_INTRODUCTION: u64 = 1;

/// `SocketControlFrame.type` of a disconnection.
pub const CONTROL_TYPE_DISCONNECTION: u64 = 2;

/// `SocketControlFrame.type` of a packet acknowledgement.
pub const CONTROL_TYPE_PACKET_ACKNOWLEDGEMENT: u64 = 3;

/// What is read out of a `SocketControlFrame`: its type, the service id hash of
/// its body, and the socket version of an introduction or the received size of
/// a packet acknowledgement.
#[derive(Debug, Clone, PartialEq, Eq)]
pub struct ParsedSocketControlFrame {
    pub frame_type: Option<u64>,
    pub service_id_hash: Option<Vec<u8>>,
    pub socket_version: Option<u64>,
    pub received_size: Option<u64>,
}

/// The contents of a `ParsedSocketControlFrame`.
pub struct ControlFrame {
    pub frame_type: Option<u64>,
    pub service_id_hash: Option<Seq<u8>>,
    pub socket_version: Option<u64>,
    pub received_size: Option<u64>,
}

/// The bytes of an optional vector.
pub open spec fn optional_bytes(v: Option<Vec<u8>>) -> Option<Seq<u8>> {
    match v {
        Some(v) => Some(v@),
        None => None,
    }
}

impl View for ParsedSocketControlFrame {
    type V = ControlFrame;

    open spec fn view(&self) -> ControlFrame {
        ControlFrame {
            frame_type: self.frame_type,
            service_id_hash: optional_bytes(self.service_id_hash),
            socket_version: self.socket_version,
            received_size: self.received_size,
        }
    }
}

impl Default for ParsedSocketControlFrame {
    fn default() -> (frame: Self)
        ensures
            frame@ == (ControlFrame {
                frame_type: None,
                service_id_hash: None,
                socket_version: None,
                received_size: None,
            }),
    {
        ParsedSocketControlFrame {
            frame_type: None,
            service_id_hash: None,
            socket_version: None,
            received_size: None,
        }
    }
}

/// The service id hash of a message body: its last field 1 with contents.
pub open spec fn body_hash(body: Seq<u8>) -> Option<Seq<u8>> {
    last_bytes(fields(body), 1, 1)
}

/// The number in a message body: its last varint field 2.
pub open spec fn body_number(body: Seq<u8>) -> Option<u64> {
    last_varint(fields(body), 2)
}

/// What a sequence of top-level fields says: the type is the last varint
/// field 1; field 2 is an introduction, field 3 a disconnection, field 4 a
/// packet acknowledgement, and the last of these three gives the service id
/// hash; the last of field 2 gives the socket version, the last of field 4 the
/// received size.
pub open spec fn control_frame_of(fs: Seq<Field>) -> ControlFrame {
    ControlFrame {
        frame_type: last_varint(fs, 1),
        service_id_hash: match last_bytes(fs, 2, 4) {
            Some(body) => body_hash(body),
            None => None,
        },
        socket_version: match last_bytes(fs, 2, 2) {
            Some(body) => body_number(body),
            None => None,
        },
        received_size: match last_bytes(fs, 4, 4) {
            Some(body) => body_number(body),
            None => None,
        },
    }
}

/// What the bytes of a `SocketControlFrame` say. Reading stops, keeping what was
/// found, at the first byte that starts no varint or length-delimited field.
pub open spec fn control_frame(s: Seq<u8>) -> ControlFrame {
    control_frame_of(fields(s))
}

/// A 32-bit size as a 64-bit varint carries it: sign-extended.
pub open spec fn sign_extended(size: i32) -> u64 {
    if size >= 0 {
        size as u64
    } else {
        (size + 0x1_0000_0000_0000_0000) as u64
    }
}

/// The body that introductions and packet acknowledgements share.
pub open spec fn hash_and_number(hash: Seq<u8>, number: u64) -> Seq<u8> {
    bytes_field(1, hash) + varint_field(2, number)
}

/// A `SocketControlFrame` with its type and one body.
pub open spec fn control_message(frame_type: u64, body_field: u32, body: Seq<u8>) -> Seq<u8> {
    varint_field(1, frame_type) + bytes_field(body_field, body)
}

/// The prefix of a control frame.
pub open spec fn control_prefix() -> Seq<u8> {
    seq![0u8, 0u8, 0u8]
}

/// A packet acknowledgement of `size` bytes, behind the control prefix.
pub open spec fn packet_ack_of(hash: Seq<u8>, size: u64) -> Seq<u8> {
    control_prefix() + control_message(
        CONTROL_TYPE_PACKET_ACKNOWLEDGEMENT,
        4,
        hash_and_number(hash, size),
    )
}

/// A packet acknowledgement of a signed size, behind the control prefix.
pub open spec fn packet_ack(hash: Seq<u8>, received_size: i32) -> Seq<u8> {
    packet_ack_of(hash, sign_extended(received_size))
}

/// Reinterprets a size the way a varint carries it.
fn sign_extend(size: i32) -> (n: u64)
    ensures
        n == sign_extended(size),
{
    if size >= 0 {
        size as u64
    } else {
        u64::MAX - (-(size + 1)) as u64
    }
}

/// Encodes a packet acknowledgement of `size` bytes, behind the control prefix but
/// without the outer length.
pub fn build_packet_ack_of(service_id_hash: [u8; 3], size: u64) -> (ack: Vec<u8>)
    ensures
        ack@ == packet_ack_of(service_id_hash@, size),
{
    let mut inner: Vec<u8> = Vec::new();
    encode_bytes_field(1, service_id_hash.as_slice(), &mut inner);
    encode_varint_field(2, size, &mut inner);
    assert(inner@ =~= hash_and_number(service_id_hash@, size));

    let mut scf: Vec<u8> = Vec::new();
    encode_varint_field(1, CONTROL_TYPE_PACKET_ACKNOWLEDGEMENT, &mut scf);
    encode_bytes_field(4, inner.as_slice(), &mut scf);
    assert(scf@ =~= control_message(CONTROL_TYPE_PACKET_ACKNOWLEDGEMENT, 4, inner@));

    let prefix: [u8; 3] = [0, 0, 0];
    let mut out: Vec<u8> = Vec::new();
    append(&mut out, prefix.as_slice());
    append(&mut out, scf.as_slice());
    assert(out@ =~= packet_ack_of(service_id_hash@, size));
    out
}

/// Encodes a packet acknowledgement of a signed size, behind the control prefix
/// but without the outer length.
pub fn build_packet_ack(service_id_hash: [u8; 3], received_size: i32) -> (ack: Vec<u8>)
    ensures
        ack@ == packet_ack(service_id_hash@, received_size),
{
    build_packet_ack_of(service_id_hash, sign_extend(received_size))
}

/// Reading one more field takes it off the front of what is left.
proof fn lemma_fields_step(s: Seq<u8>, pos: int)
    requires
        0 <= pos <= s.len(),
    ensures
        match leading_field(s.skip(pos)) {
            None => fields(s.skip(pos)) == Seq::<Field>::empty(),
            Some((f, n)) => fields(s.skip(pos)) == seq![f] + fields(s.skip(pos + n)),
        },
{
    if let Some((_, n)) = leading_field(s.skip(pos)) {
        assert(s.skip(pos).skip(n as int) =~= s.skip(pos + n));
    }
}

/// Reads the body of an introduction or a packet acknowledgement: the service id
/// hash and the number beside it.
pub fn parse_hash_and_optional_varint(sub: &[u8]) -> (found: (Option<Vec<u8>>, Option<u64>))
    ensures
        optional_bytes(found.0) == body_hash(sub@),
        found.1 == body_number(sub@),
{
    let mut hash: Option<Vec<u8>> = None;
    let mut second: Option<u64> = None;
    let mut pos: usize = 0;
    let ghost mut done = Seq::<Field>::empty();
    assert(sub@.skip(0) =~= sub@);
    assert(done + fields(sub@) =~= fields(sub@));
    while pos < sub.len()
        invariant_except_break
            pos <= sub@.len(),
            done + fields(sub@.skip(pos as int)) == fields(sub@),
            optional_bytes(hash) == last_bytes(done, 1, 1),
            second == last_varint(done, 2),
        ensures
            optional_bytes(hash) == body_hash(sub@),
            second == body_number(sub@),
        decreases sub@.len() - pos,
    {
        let ghost at = pos as int;
        proof {
            lemma_fields_step(sub@, at);
        }
        let field: WireField = match next_field(sub, &mut pos) {
            Some(field) => field,
            None => {
                assert(done + fields(sub@.skip(at)) =~= done);
                break;
            },
        };
        proof {
            let f = field.field(sub@);
            lemma_last_push(done, f);
            assert(done + fields(sub@.skip(at)) =~= done.push(f) + fields(sub@.skip(pos as int)));
            done = done.push(f);
        }
        match field {
            WireField::Varint { number, value } => {
                if number == 2 {
                    second = Some(value);
                }
            },
            WireField::Bytes { number, start, end } => {
                if number == 1 {
                    hash = Some(slice_to_vec(slice_subrange(sub, start, end)));
                }
            },
        }
        proof {
            if pos == sub@.len() {
                assert(sub@.skip(pos as int) =~= Seq::<u8>::empty());
                assert(done + fields(sub@.skip(pos as int)) =~= done);
            }
        }
    }
    (hash, second)
}

/// Reads a `SocketControlFrame`, the payload behind the control prefix.
pub fn parse_socket_control_frame(bytes: &[u8]) -> (out: ParsedSocketControlFrame)
    ensures
        out@ == control_frame(bytes@),
{
    let mut out: ParsedSocketControlFrame = ParsedSocketControlFrame::default();
    let mut pos: usize = 0;
    let ghost mut done = Seq::<Field>::empty();
    assert(bytes@.skip(0) =~= bytes@);
    assert(done + fields(bytes@) =~= fields(bytes@));
    while pos < bytes.len()
        invariant_except_break
            pos <= bytes@.len(),
            done + fields(bytes@.skip(pos as int)) == fields(bytes@),
            out@ == control_frame_of(done),
        ensures
            out@ == control_frame(bytes@),
        decreases bytes@.len() - pos,
    {
        let ghost at = pos as int;
        proof {
            lemma_fields_step(bytes@, at);
        }
        let field: WireField = match next_field(bytes, &mut pos) {
            Some(field) => field,
            None => {
                assert(done + fields(bytes@.skip(at)) =~= done);
                break;
            },
        };
        proof {
            let f = field.field(bytes@);
            lemma_last_push(done, f);
            assert(done + fields(bytes@.skip(at)) =~= done.push(f) + fields(
                bytes@.skip(pos as int),
            ));
            done = done.push(f);
        }
        match field {
            WireField::Varint { number, value } => {
                if number == 1 {
                    out.frame_type = Some(value);
                }
            },
            WireField::Bytes { number, start, end } => {
                let sub: &[u8] = slice_subrange(bytes, start, end);
                if number == 2 {
                    let (hash, version) = parse_hash_and_optional_varint(sub);
                    out.service_id_hash = hash;
                    out.socket_version = version;
                } else if number == 3 {
                    let (hash, _) = parse_hash_and_optional_varint(sub);
                    out.service_id_hash = hash;
                } else if number == 4 {
                    let (hash, size) = parse_hash_and_optional_varint(sub);
                    out.service_id_hash = hash;
                    out.received_size = size;
                }
            },
        }
        proof {
            if pos == bytes@.len() {
                assert(bytes@.skip(pos as int) =~= Seq::<u8>::empty());
                assert(done + fields(bytes@.skip(pos as int)) =~= done);
            }
        }
    }
    out
}

/// The name of a control frame type.
pub open spec fn frame_type_name(frame_type: Option<u64>) -> Seq<char> {
    match frame_type {
        Some(t) => if t == CONTROL_TYPE_INTRODUCTION {
            "INTRODUCTION"@
        } else if t == CONTROL_TYPE_DISCONNECTION {
            "DISCONNECTION"@
        } else if t == CONTROL_TYPE_PACKET_ACKNOWLEDGEMENT {
            "PACKET_ACKNOWLEDGEMENT"@
        } else {
            "UNKNOWN"@
        },
        None => "MISSING"@,
    }
}

/// Names a control frame type.
pub fn control_frame_type_name(frame_type: Option<u64>) -> (name: &'static str)
    ensures
        name@ == frame_type_name(frame_type),
{
    match frame_type {
        Some(t) => if t == CONTROL_TYPE_INTRODUCTION {
            "INTRODUCTION"
        } else if t == CONTROL_TYPE_DISCONNECTION {
            "DISCONNECTION"
        } else if t == CONTROL_TYPE_PACKET_ACKNOWLEDGEMENT {
            "PACKET_ACKNOWLEDGEMENT"
        } else {
            "UNKNOWN"
        },
        None => "MISSING",
    }
}

/// The control frame asks for the connection to be closed.
pub open spec fn is_disconnection(control: Seq<u8>) -> bool {
    control_frame(control).frame_type == Some(CONTROL_TYPE_DISCONNECTION)
}

/// Handles a control frame, given without its prefix: whether the peer asked to
/// close. A control frame is never answered.
pub fn handle_control_frame(control_bytes: &[u8]) -> (close: bool)
    ensures
        close == is_disconnection(control_bytes@),
{
    let parsed: ParsedSocketControlFrame = parse_socket_control_frame(control_bytes);
    match parsed.frame_type {
        Some(t) => t == CONTROL_TYPE_DISCONNECTION,
        None => false,
    }
}

/// The shared body is read back as the hash and the number it was built from.
pub proof fn law_body_round_trip(hash: Seq<u8>, number: u64)
    requires
        hash.len() <= usize::MAX,
    ensures
        body_hash(hash_and_number(hash, number)) == Some(hash),
        body_number(hash_and_number(hash, number)) == Some(number),
{
    let s = hash_and_number(hash, number);
    let f1 = Field::Bytes { number: 1, data: hash };
    let f2 = Field::Varint { number: 2, value: number };
    let none = Seq::<u8>::empty();
    law_bytes_field_round_trip(1, hash, varint_field(2, number));
    law_varint_field_round_trip(2, number, none);
    assert(varint_field(2, number) + none =~= varint_field(2, number));
    assert(fields(none) =~= Seq::<Field>::empty());
    assert(fields(s) =~= seq![].push(f1).push(f2));
    lemma_last_push(seq![].push(f1), f2);
    lemma_last_push(seq![], f1);
}

/// The two fields of a control message are read back as they were written.
proof fn lemma_control_message(frame_type: u64, body_field: u32, body: Seq<u8>)
    requires
        body.len() <= usize::MAX,
    ensures
        fields(control_message(frame_type, body_field, body)) == seq![].push(
            Field::Varint { number: 1, value: frame_type },
        ).push(Field::Bytes { number: body_field as u64, data: body }),
{
    let none = Seq::<u8>::empty();
    law_varint_field_round_trip(1, frame_type, bytes_field(body_field, body));
    law_bytes_field_round_trip(body_field, body, none);
    assert(bytes_field(body_field, body) + none =~= bytes_field(body_field, body));
    assert(fields(none) =~= Seq::<Field>::empty());
    assert(fields(control_message(frame_type, body_field, body)) =~= seq![].push(
        Field::Varint { number: 1, value: frame_type },
    ).push(Field::Bytes { number: body_field as u64, data: body }));
}

/// A control message with a shared body is read back as its type, its hash, and
/// its number: as the socket version in an introduction, as the received size in
/// a packet acknowledgement, as neither in a disconnection.
pub proof fn law_control_message_round_trip(
    frame_type: u64,
    body_field: u32,
    hash: Seq<u8>,
    number: u64,
)
    requires
        2 <= body_field <= 4,
        hash_and_number(hash, number).len() <= usize::MAX,
    ensures
        control_frame(control_message(frame_type, body_field, hash_and_number(hash, number))) == (
        ControlFrame {
            frame_type: Some(frame_type),
            service_id_hash: Some(hash),
            socket_version: if body_field == 2 {
                Some(number)
            } else {
                None
            },
            received_size: if body_field == 4 {
                Some(number)
            } else {
                None
            },
        }),
{
    let body = hash_and_number(hash, number);
    lemma_control_message(frame_type, body_field, body);
    law_body_round_trip(hash, number);
    let f1 = Field::Varint { number: 1, value: frame_type };
    let f2 = Field::Bytes { number: body_field as u64, data: body };
    lemma_last_push(seq![].push(f1), f2);
    lemma_last_push(seq![], f1);
}

/// A packet acknowledgement is read back as one, with the hash and the size that
/// it was built for.
pub proof fn law_packet_ack_of_round_trip(hash: [u8; 3], size: u64)
    ensures
        packet_ack_of(hash@, size).take(3) == control_prefix(),
        control_frame(packet_ack_of(hash@, size).skip(3)) == (ControlFrame {
            frame_type: Some(CONTROL_TYPE_PACKET_ACKNOWLEDGEMENT),
            service_id_hash: Some(hash@),
            socket_version: None,
            received_size: Some(size),
        }),
{
    let ack = packet_ack_of(hash@, size);
    let message = control_message(
        CONTROL_TYPE_PACKET_ACKNOWLEDGEMENT,
        4,
        hash_and_number(hash@, size),
    );
    assert(ack.take(3) =~= control_prefix());
    assert(ack.skip(3) =~= message);
    law_varint_length(size);
    law_varint_length(3);
    law_varint_length(tag_value(1, WIRE_BYTES));
    law_varint_length(tag_value(2, WIRE_VARINT));
    law_control_message_round_trip(CONTROL_TYPE_PACKET_ACKNOWLEDGEMENT, 4, hash@, size);
}

/// A packet acknowledgement of a signed size is read back as one, with the hash
/// and the size, sign-extended, that it was built for.
pub proof fn law_packet_ack_round_trip(hash: [u8; 3], received_size: i32)
    ensures
        packet_ack(hash@, received_size).take(3) == control_prefix(),
        control_frame(packet_ack(hash@, received_size).skip(3)) == (ControlFrame {
            frame_type: Some(CONTROL_TYPE_PACKET_ACKNOWLEDGEMENT),
            service_id_hash: Some(hash@),
            socket_version: None,
            received_size: Some(sign_extended(received_size)),
        }),
{
    law_packet_ack_of_round_trip(hash, sign_extended(received_size));
}

/// The bytes of a packet acknowledgement: the control prefix; the type, `08 03`;
/// the body, `22` and its length; in it the hash, `0A 03` and its three bytes, and
/// the received size, `10` and a varint.
pub proof fn law_packet_ack_wire_shape(hash: [u8; 3], size: u64)
    ensures
        ({
            let number = varint_bytes(size as nat);
            &&& number.len() <= 10
            &&& packet_ack_of(hash@, size) == control_prefix() + seq![0x08u8, 0x03u8] + seq![
                0x22u8,
                (6 + number.len()) as u8,
            ] + seq![0x0Au8, 0x03u8] + hash@ + seq![0x10u8] + number
        }),
{
    let number = varint_bytes(size as nat);
    law_varint_length(size);
    law_tag_value(1, WIRE_VARINT);
    law_tag_value(1, WIRE_BYTES);
    law_tag_value(2, WIRE_VARINT);
    law_tag_value(4, WIRE_BYTES);
    assert(varint_bytes(8) == seq![8u8]);
    assert(varint_bytes(3) == seq![3u8]);
    assert(varint_bytes(10) == seq![10u8]);
    assert(varint_bytes(16) == seq![16u8]);
    assert(varint_bytes(34) == seq![34u8]);
    let body = hash_and_number(hash@, size);
    assert(body =~= seq![0x0Au8, 0x03u8] + hash@ + seq![0x10u8] + number);
    assert(varint_bytes(body.len()) == seq![(6 + number.len()) as u8]);
    assert(packet_ack_of(hash@, size) =~= control_prefix() + seq![0x08u8, 0x03u8] + seq![
        0x22u8,
        (6 + number.len()) as u8,
    ] + seq![0x0Au8, 0x03u8] + hash@ + seq![0x10u8] + number);
}

/// A peer that sends an acknowledgement does not thereby ask to close.
pub proof fn law_packet_ack_is_no_disconnection(hash: [u8; 3], size: u64)
    ensures
        !is_disconnection(packet_ack_of(hash@, size).skip(3)),
{
    law_packet_ack_of_round_trip(hash, size);
}

/// Bytes after a control message that start no field are ignored: what was found
/// before them is kept.
pub proof fn law_trailing_garbage_is_ignored(
    frame_type: u64,
    body_field: u32,
    body: Seq<u8>,
    garbage: Seq<u8>,
)
    requires
        body.len() <= usize::MAX,
        leading_field(garbage) is None,
    ensures
        control_frame(control_message(frame_type, body_field, body) + garbage) == control_frame(
            control_message(frame_type, body_field, body),
        ),
{
    let b = bytes_field(body_field, body);
    let message = control_message(frame_type, body_field, body);
    lemma_control_message(frame_type, body_field, body);
    assert(message + garbage =~= varint_field(1, frame_type) + (b + garbage));
    law_varint_field_round_trip(1, frame_type, b + garbage);
    law_bytes_field_round_trip(body_field, body, garbage);
    assert(fields(garbage) =~= Seq::<Field>::empty());
    assert(fields(message + garbage) =~= fields(message));
}

/// A length-delimited field with a number that means nothing here is passed
/// over: what follows it is read as if it were not there.
pub proof fn law_unknown_bytes_field_skipped(field_number: u32, data: Seq<u8>, tail: Seq<u8>)
    requires
        !(2 <= field_number <= 4),
        data.len() <= usize::MAX,
    ensures
        control_frame(bytes_field(field_number, data) + tail) == control_frame(tail),
{
    let f = Field::Bytes { number: field_number as u64, data };
    law_bytes_field_round_trip(field_number, data, tail);
    lemma_last_prepend(f, fields(tail), 1, 2, 4);
    lemma_last_prepend(f, fields(tail), 1, 2, 2);
    lemma_last_prepend(f, fields(tail), 1, 4, 4);
}

/// A varint field with a number that means nothing here is passed over.
pub proof fn law_unknown_varint_field_skipped(field_number: u32, value: u64, tail: Seq<u8>)
    requires
        field_number != 1,
    ensures
        control_frame(varint_field(field_number, value) + tail) == control_frame(tail),
{
    let f = Field::Varint { number: field_number as u64, value };
    law_varint_field_round_trip(field_number, value, tail);
    lemma_last_prepend(f, fields(tail), 1, 2, 4);
    lemma_last_prepend(f, fields(tail), 1, 2, 2);
    lemma_last_prepend(f, fields(tail), 1, 4, 4);
}

/// `frame_type` is what the last varint field 1 of `fs` holds.
pub open spec fn is_last_type(fs: Seq<Field>, i: int, frame_type: u64) -> bool {
    &&& 0 <= i < fs.len()
    &&& is_varint(fs[i], 1)
    &&& fs[i]->value == frame_type
    &&& forall|j: int| i < j < fs.len() ==> !is_varint(#[trigger] fs[j], 1)
}

/// `body` is what the last length-delimited field of `fs` with a number in
/// `lo..=hi` holds.
pub open spec fn is_last_body(fs: Seq<Field>, i: int, lo: u64, hi: u64, body: Seq<u8>) -> bool {
    &&& 0 <= i < fs.len()
    &&& is_bytes(fs[i], lo, hi)
    &&& fs[i]->data == body
    &&& forall|j: int| i < j < fs.len() ==> !is_bytes(#[trigger] fs[j], lo, hi)
}

/// The position of the last varint field with a number, where there is one.
proof fn lemma_last_varint_exists(fs: Seq<Field>, wanted: u64)
    ensures
        last_varint(fs, wanted) matches Some(v) ==> exists|i: int|
            0 <= i < fs.len() && is_varint(#[trigger] fs[i], wanted) && fs[i]->value == v && (
            forall|j: int| i < j < fs.len() ==> !is_varint(#[trigger] fs[j], wanted)),
    decreases fs.len(),
{
    if fs.len() > 0 {
        let init = fs.drop_last();
        if is_varint(fs.last(), wanted) {
            assert(is_varint(fs[fs.len() - 1], wanted));
        } else {
            lemma_last_varint_exists(init, wanted);
            if last_varint(init, wanted) is Some {
                let v = last_varint(init, wanted)->0;
                let i = choose|i: int|
                    0 <= i < init.len() && is_varint(#[trigger] init[i], wanted) && init[i]->value
                        == v && (forall|j: int|
                        i < j < init.len() ==> !is_varint(#[trigger] init[j], wanted));
                assert(is_varint(fs[i], wanted) && fs[i]->value == v);
                assert forall|j: int| i < j < fs.len() implies !is_varint(
                    #[trigger] fs[j],
                    wanted,
                ) by {
                    if j < init.len() {
                        assert(fs[j] == init[j]);
                    }
                }
            }
        }
    }
}

/// The type of a control frame is what its last varint field 1 holds.
pub proof fn law_control_frame_type(s: Seq<u8>, i: int, frame_type: u64)
    ensures
        is_last_type(fields(s), i, frame_type) ==> control_frame(s).frame_type == Some(frame_type),
        (forall|j: int| 0 <= j < fields(s).len() ==> !is_varint(#[trigger] fields(s)[j], 1))
            ==> control_frame(s).frame_type is None,
{
    law_last_varint(fields(s), 1, i);
}

/// The service id hash comes out of the last body, be it of an introduction (2), a
/// disconnection (3) or a packet acknowledgement (4); the socket version out of the
/// last introduction; the received size out of the last packet acknowledgement.
/// Where there is no such body there is no such thing.
pub proof fn law_control_frame_bodies(s: Seq<u8>, i: int, body: Seq<u8>)
    ensures
        is_last_body(fields(s), i, 2, 4, body) ==> control_frame(s).service_id_hash == body_hash(
            body,
        ),
        is_last_body(fields(s), i, 2, 2, body) ==> control_frame(s).socket_version == body_number(
            body,
        ),
        is_last_body(fields(s), i, 4, 4, body) ==> control_frame(s).received_size == body_number(
            body,
        ),
        (forall|j: int| 0 <= j < fields(s).len() ==> !is_bytes(#[trigger] fields(s)[j], 2, 4))
            ==> control_frame(s).service_id_hash is None,
        (forall|j: int| 0 <= j < fields(s).len() ==> !is_bytes(#[trigger] fields(s)[j], 2, 2))
            ==> control_frame(s).socket_version is None,
        (forall|j: int| 0 <= j < fields(s).len() ==> !is_bytes(#[trigger] fields(s)[j], 4, 4))
            ==> control_frame(s).received_size is None,
{
    law_last_bytes(fields(s), 2, 4, i);
    law_last_bytes(fields(s), 2, 2, i);
    law_last_bytes(fields(s), 4, 4, i);
}

/// The hash of a body is what its last length-delimited field 1 holds, its number
/// what its last varint field 2 holds.
pub proof fn law_body_fields(body: Seq<u8>, i: int, hash: Seq<u8>)
    ensures
        is_last_body(fields(body), i, 1, 1, hash) ==> body_hash(body) == Some(hash),
        (forall|j: int| 0 <= j < fields(body).len() ==> !is_bytes(#[trigger] fields(body)[j], 1, 1))
            ==> body_hash(body) is None,
        0 <= i < fields(body).len() && is_varint(fields(body)[i], 2) && (forall|j: int|
            i < j < fields(body).len() ==> !is_varint(#[trigger] fields(body)[j], 2))
            ==> body_number(body) == Some(fields(body)[i]->value),
        (forall|j: int| 0 <= j < fields(body).len() ==> !is_varint(#[trigger] fields(body)[j], 2))
            ==> body_number(body) is None,
{
    law_last_bytes(fields(body), 1, 1, i);
    law_last_varint(fields(body), 2, i);
}

/// A control frame asks to close just when the last varint field 1 in it holds 2,
/// whatever else is in it.
pub proof fn law_disconnection_is_type_two(s: Seq<u8>)
    ensures
        is_disconnection(s) <==> exists|i: int| is_last_type(fields(s), i, 2),
{
    let fs = fields(s);
    if is_disconnection(s) {
        lemma_last_varint_exists(fs, 1);
        let i = choose|i: int|
            0 <= i < fs.len() && is_varint(#[trigger] fs[i], 1) && fs[i]->value == 2 && (forall|
                j: int,
            |
                i < j < fs.len() ==> !is_varint(#[trigger] fs[j], 1));
        assert(is_last_type(fs, i, 2));
    }
    if exists|i: int| is_last_type(fs, i, 2) {
        let i = choose|i: int| is_last_type(fs, i, 2);
        law_last_varint(fs, 1, i);
    }
}

/// A control message with any body asks to close if and only if its type is 2: an
/// introduction does not, whatever hash and version it carries.
pub proof fn law_only_type_two_closes(frame_type: u64, body_field: u32, body: Seq<u8>)
    requires
        body.len() <= usize::MAX,
    ensures
        control_frame(control_message(frame_type, body_field, body)).frame_type == Some(frame_type),
        is_disconnection(control_message(frame_type, body_field, body)) <==> frame_type == 2,
{
    lemma_control_message(frame_type, body_field, body);
    let f1 = Field::Varint { number: 1, value: frame_type };
    let f2 = Field::Bytes { number: body_field as u64, data: body };
    lemma_last_push(seq![].push(f1), f2);
    lemma_last_push(seq![], f1);
}

/// A size and its 64-bit form are the same modulo 2^64, and a size that is not
/// negative is its own form.
pub proof fn law_sign_extension(size: i32)
    ensures
        size >= 0 ==> sign_extended(size) == size,
        (sign_extended(size) - size) % 0x1_0000_0000_0000_0000 == 0,
{
}

/// The bytes of control messages and of the bodies in them.
pub proof fn law_control_message_layout(
    frame_type: u64,
    body_field: u32,
    body: Seq<u8>,
    hash: Seq<u8>,
    number: u64,
)
    ensures
        control_prefix() == seq![0u8, 0u8, 0u8],
        control_message(frame_type, body_field, body) == seq![0x08u8] + varint_bytes(
            frame_type as nat,
        ) + varint_bytes((8 * body_field + 2) as nat) + varint_bytes(body.len()) + body,
        hash_and_number(hash, number) == seq![0x0Au8] + varint_bytes(hash.len()) + hash
            + seq![0x10u8] + varint_bytes(number as nat),
{
    law_field_layout(1, hash, frame_type);
    law_field_layout(body_field, body, 0);
    law_field_layout(2, body, number);
    assert(varint_bytes(8) == seq![8u8]);
    assert(varint_bytes(10) == seq![10u8]);
    assert(varint_bytes(16) == seq![16u8]);
    assert(control_message(frame_type, body_field, body) =~= seq![0x08u8] + varint_bytes(
        frame_type as nat,
    ) + varint_bytes((8 * body_field + 2) as nat) + varint_bytes(body.len()) + body);
    assert(hash_and_number(hash, number) =~= seq![0x0Au8] + varint_bytes(hash.len()) + hash
        + seq![0x10u8] + varint_bytes(number as nat));
}

/// A signed acknowledgement is the one of the sign-extended size.
pub proof fn law_signed_acknowledgement(hash: [u8; 3], received_size: i32, size: u64)
    requires
        (size - received_size) % 0x1_0000_0000_0000_0000 == 0,
    ensures
        packet_ack(hash@, received_size) == packet_ack_of(hash@, size),
{
}

/// Types 1, 2 and 3 have names of their own; every other type is unknown, and no
/// type is missing.
pub proof fn law_type_names(frame_type: u64)
    ensures
        frame_type_name(None) == "MISSING"@,
        frame_type_name(Some(1)) == "INTRODUCTION"@,
        frame_type_name(Some(2)) == "DISCONNECTION"@,
        frame_type_name(Some(3)) == "PACKET_ACKNOWLEDGEMENT"@,
        frame_type == 0 || frame_type > 3 ==> frame_type_name(Some(frame_type)) == "UNKNOWN"@,
{
}

/// What a parsed frame is taken to hold is what its fields hold.
pub proof fn law_parsed_frame_view(frame: ParsedSocketControlFrame)
    ensures
        frame@.frame_type == frame.frame_type,
        frame@.socket_version == frame.socket_version,
        frame@.received_size == frame.received_size,
        frame.service_id_hash is None <==> frame@.service_id_hash is None,
        frame.service_id_hash matches Some(hash) ==> frame@.service_id_hash == Some(hash@),
{
}

} // verus!
