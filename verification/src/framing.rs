//! The length-prefixed frames of the L2CAP channel and the data frames in them.

use crate::bytes::{append, be32, be32_value, law_be32_round_trip, len32, low_be32};
use vstd::prelude::*;
use vstd::slice::slice_subrange;

verus! {

/// Longest payload that a length prefix may announce.
pub const MAX_FRAME_LEN: u32 = 524288;

/// Bytes in a length prefix.
pub const LEN_PREFIX: usize = 4;

/// A frame: the length of the payload in four bytes, then the payload. The length
/// field holds the length modulo 2^32.
pub open spec fn framed(payload: Seq<u8>) -> Seq<u8> {
    be32(len32(payload.len())) + payload
}

/// An inbound frame as an outbound data frame: behind the service id hash, and
/// framed once more.
pub open spec fn ble_data(hash: Seq<u8>, inbound_framed: Seq<u8>) -> Seq<u8> {
    framed(hash + inbound_framed)
}

/// What a payload carries behind the service id hash, where it starts with it.
pub open spec fn behind_hash(payload: Seq<u8>, hash: Seq<u8>) -> Option<Seq<u8>> {
    if payload.len() >= hash.len() && payload.take(hash.len() as int) == hash {
        Some(payload.skip(hash.len() as int))
    } else {
        None
    }
}

/// Puts the length prefix in front of a payload.
pub fn frame(payload: &[u8]) -> (out: Vec<u8>)
    ensures
        out@ == framed(payload@),
{
    let prefix: [u8; 4] = low_be32(payload.len());
    let mut out: Vec<u8> = Vec::new();
    append(&mut out, prefix.as_slice());
    append(&mut out, payload);
    assert(out@ =~= framed(payload@));
    out
}

/// Wraps an inbound frame, length prefix and all, as a data frame for the L2CAP
/// channel.
pub fn wrap_inbound_frame_as_ble_data(
    our_service_id_hash: [u8; 3],
    inbound_framed: &[u8],
) -> (wire: Vec<u8>)
    ensures
        wire@ == ble_data(our_service_id_hash@, inbound_framed@),
{
    let mut payload: Vec<u8> = Vec::new();
    append(&mut payload, our_service_id_hash.as_slice());
    append(&mut payload, inbound_framed);
    assert(payload@ =~= our_service_id_hash@ + inbound_framed@);
    frame(payload.as_slice())
}

/// Takes the service id hash off a data payload. A payload that does not start
/// with it is no data payload.
pub fn unwrap_ble_data_payload(payload: &[u8], our_service_id_hash: [u8; 3]) -> (inner: Option<
    &[u8],
>)
    ensures
        match behind_hash(payload@, our_service_id_hash@) {
            Some(s) => inner matches Some(i) && i@ == s,
            None => inner is None,
        },
{
    if starts_with3(payload, our_service_id_hash) {
        let inner: &[u8] = slice_subrange(payload, 3, payload.len());
        assert(inner@ =~= payload@.skip(3));
        Some(inner)
    } else {
        None
    }
}

/// Whether `payload` starts with the three bytes `prefix`.
pub fn starts_with3(payload: &[u8], prefix: [u8; 3]) -> (yes: bool)
    ensures
        yes == (payload@.len() >= 3 && payload@.take(3) == prefix@),
{
    if payload.len() < 3 {
        return false;
    }
    let yes: bool = payload[0] == prefix[0] && payload[1] == prefix[1] && payload[2] == prefix[2];
    proof {
        let head = payload@.take(3);
        if yes {
            assert(head =~= prefix@);
        } else {
            assert(head[0] == payload@[0] && head[1] == payload@[1] && head[2] == payload@[2]);
        }
    }
    yes
}

/// The length prefix of a frame is the length of its payload, and the payload
/// follows it.
pub proof fn law_frame_round_trip(payload: Seq<u8>)
    requires
        payload.len() < 0x1_0000_0000,
    ensures
        framed(payload).len() == LEN_PREFIX + payload.len(),
        be32_value(framed(payload).take(LEN_PREFIX as int)) == payload.len(),
        framed(payload).skip(LEN_PREFIX as int) == payload,
{
    let n = len32(payload.len());
    law_be32_round_trip(n);
    assert(framed(payload).take(4) =~= be32(n));
    assert(framed(payload).skip(4) =~= payload);
}

/// Unwrapping the payload of a wrapped frame gives the frame back.
pub proof fn law_wrap_then_unwrap(hash: [u8; 3], inbound_framed: Seq<u8>)
    ensures
        behind_hash(ble_data(hash@, inbound_framed).skip(LEN_PREFIX as int), hash@) == Some(
            inbound_framed,
        ),
{
    let wire = ble_data(hash@, inbound_framed);
    assert(wire.skip(4) =~= hash@ + inbound_framed);
    assert(wire.skip(4).take(3) =~= hash@);
    assert(wire.skip(4).skip(3) =~= inbound_framed);
}

/// A payload is unwrapped for one service id hash at most.
pub proof fn law_unwrap_rejects_foreign_hash(payload: Seq<u8>, ours: [u8; 3], other: [u8; 3])
    requires
        ours@ != other@,
        behind_hash(payload, ours@) is Some,
    ensures
        behind_hash(payload, other@) is None,
{
}

/// A frame is its payload behind four bytes, which hold the payload's length modulo
/// 2^32.
pub proof fn law_frame_layout(payload: Seq<u8>)
    ensures
        framed(payload).len() == 4 + payload.len(),
        be32_value(framed(payload)) == payload.len() % 0x1_0000_0000,
        framed(payload).skip(4) == payload,
{
    let n = len32(payload.len());
    law_be32_round_trip(n);
    assert(framed(payload).take(4) =~= be32(n));
    assert(be32_value(framed(payload)) == be32_value(framed(payload).take(4)));
    assert(framed(payload).skip(4) =~= payload);
}

/// A data frame is four bytes of length, which count the hash, then the hash, then
/// the inbound frame as it is.
pub proof fn law_data_frame_layout(hash: [u8; 3], inbound_framed: Seq<u8>)
    ensures
        ({
            let wire = ble_data(hash@, inbound_framed);
            &&& wire.len() == 7 + inbound_framed.len()
            &&& be32_value(wire) == (3 + inbound_framed.len()) % 0x1_0000_0000
            &&& wire[4] == hash@[0]
            &&& wire[5] == hash@[1]
            &&& wire[6] == hash@[2]
            &&& wire.skip(7) == inbound_framed
        }),
{
    law_frame_layout(hash@ + inbound_framed);
    let wire = ble_data(hash@, inbound_framed);
    assert(wire.skip(4) =~= hash@ + inbound_framed);
    assert(wire[4] == wire.skip(4)[0] && wire[5] == wire.skip(4)[1] && wire[6] == wire.skip(4)[2]);
    assert(wire.skip(7) =~= inbound_framed);
}

/// A prefix is taken off just what starts with it, and nothing else with it.
pub proof fn law_behind_hash(prefix: Seq<u8>, after: Seq<u8>, payload: Seq<u8>)
    ensures
        behind_hash(prefix + after, prefix) == Some(after),
        behind_hash(payload, prefix) matches Some(found) ==> payload == prefix + found,
{
    assert((prefix + after).take(prefix.len() as int) =~= prefix);
    assert((prefix + after).skip(prefix.len() as int) =~= after);
    if let Some(found) = behind_hash(payload, prefix) {
        assert(payload =~= prefix + found);
    }
}

} // verus!
