//! Advertisements: the inner endpoint advertisement, the outer medium
//! advertisement around it, and the header that announces them.

use crate::bytes::{
    append, be16, be16_value, be32, be32_value, law_be16_digits, law_be16_round_trip,
    law_be32_round_trip, len32, len8, low_be32, low_byte, u16_be_bytes,
};
use crate::digest::{first2, service_hash, service_id_hash, sha256, sha256_digest};
use crate::random::{random_below, random_salt, random_u32};
use vstd::prelude::*;
use vstd::utf8::encode_utf8;

verus! {

/// Longest endpoint info that a fast advertisement carries.
pub const FAST_MAX_ENDPOINT_INFO_LEN: usize = 17;

/// Longest outer advertisement in fast mode.
pub const FAST_MAX_ADVERTISEMENT_LEN: usize = 27;

/// Bytes in an advertisement header.
pub const BLE_ADVERTISEMENT_HEADER_LEN: usize = 17;

/// First byte of an advertisement header: version 2 in the top three bits, no
/// extended advertisement, one GATT slot.
pub const HEADER_BYTE0: u8 = 0x41;

/// First byte of an inner advertisement: version 1 in the top three bits, the
/// point-to-point topology, 3, in the low five.
pub const INNER_BYTE0: u8 = 0x23;

/// First byte of a fast outer advertisement: version 2 in the top three bits,
/// socket version 2 in the next three, then the fast bit.
pub const OUTER_FAST_BYTE0: u8 = 0x4A;

/// First byte of a regular outer advertisement: as of a fast one, without the
/// fast bit.
pub const OUTER_REGULAR_BYTE0: u8 = 0x48;

/// Number of characters that an endpoint id is made of.
pub const ENDPOINT_ID_CHARS: usize = 36;

/// The inner advertisement.
///
/// Fast: first byte, endpoint id, info length, info. Regular: first byte, service
/// id hash, endpoint id, info length, info, six zero bytes for an unset Bluetooth
/// address, a zero UWB length, a zero extra byte. The length field holds the
/// length modulo 2^8.
pub open spec fn inner_advert(
    hash: Seq<u8>,
    endpoint_id: Seq<u8>,
    endpoint_info: Seq<u8>,
    fast: bool,
) -> Seq<u8> {
    if fast {
        seq![INNER_BYTE0] + endpoint_id + seq![len8(endpoint_info.len())] + endpoint_info
    } else {
        seq![INNER_BYTE0] + hash + endpoint_id + seq![len8(endpoint_info.len())] + endpoint_info
            + seq![0u8, 0u8, 0u8, 0u8, 0u8, 0u8] + seq![0u8] + seq![0u8]
    }
}

/// The outer advertisement.
///
/// Fast: first byte, one length byte, data, device token. Regular: first byte,
/// service id hash, four length bytes, data, device token. The length fields hold
/// the length modulo 2^8 and 2^32.
pub open spec fn outer_advert(
    hash: Seq<u8>,
    inner: Seq<u8>,
    fast: bool,
    device_token: Seq<u8>,
) -> Seq<u8> {
    if fast {
        seq![OUTER_FAST_BYTE0, len8(inner.len())] + inner + device_token
    } else {
        seq![OUTER_REGULAR_BYTE0] + hash + be32(len32(inner.len())) + inner + device_token
    }
}

/// The advertisement header: first byte, ten bytes of bloom filter with every bit
/// set, the advertisement hash, the PSM.
pub open spec fn advert_header(advertisement_hash: Seq<u8>, psm: u16) -> Seq<u8> {
    seq![HEADER_BYTE0] + Seq::new(10, |i: int| 0xFFu8) + advertisement_hash + be16(psm)
}

/// The decimal digits of `n` in ASCII.
pub open spec fn decimal(n: nat) -> Seq<u8>
    decreases n,
{
    if n < 10 {
        seq![(48 + n) as u8]
    } else {
        decimal(n / 10).push((48 + n % 10) as u8)
    }
}

/// The device token for a number: the first two bytes of the digest of its
/// decimal digits.
pub open spec fn token_for(n: u32) -> Seq<u8> {
    sha256(decimal(n as nat)).take(2)
}

/// The `i`-th character of an endpoint id: `A` to `Z`, then `0` to `9`.
pub open spec fn endpoint_char(i: int) -> u8 {
    if i < 26 {
        (65 + i) as u8
    } else {
        (48 + (i - 26)) as u8
    }
}

/// An ASCII capital letter or digit.
pub open spec fn is_endpoint_char(c: u8) -> bool {
    65 <= c <= 90 || 48 <= c <= 57
}

/// The endpoint info: the device type in the bits above the lowest, the salt, the
/// name's length modulo 2^8, the name.
pub open spec fn endpoint_info(device_type: u8, salt: Seq<u8>, name: Seq<u8>) -> Seq<u8> {
    seq![(device_type * 2 % 0x100) as u8] + salt + seq![len8(name.len())] + name
}

/// Encodes the inner advertisement around a given service id hash.
pub fn inner_advertisement_with_hash(
    hash: [u8; 3],
    endpoint_id: [u8; 4],
    endpoint_info: &[u8],
    fast: bool,
) -> (out: Vec<u8>)
    ensures
        out@ == inner_advert(hash@, endpoint_id@, endpoint_info@, fast),
{
    let byte0: u8 = ((1u8 << 5) & 0xE0) | (3u8 & 0x1F);
    assert(((1u8 << 5) & 0xE0) | (3u8 & 0x1F) == 0x23u8) by (bit_vector);
    let mut out: Vec<u8> = Vec::new();
    out.push(byte0);
    if !fast {
        append(&mut out, hash.as_slice());
    }
    append(&mut out, endpoint_id.as_slice());
    out.push(low_byte(endpoint_info.len()));
    append(&mut out, endpoint_info);
    if !fast {
        let mac: [u8; 6] = [0, 0, 0, 0, 0, 0];
        append(&mut out, mac.as_slice());
        out.push(0);
        out.push(0);
    }
    assert(out@ =~= inner_advert(hash@, endpoint_id@, endpoint_info@, fast));
    out
}

/// Encodes the inner advertisement.
pub fn inner_advertisement(endpoint_id: [u8; 4], endpoint_info: &[u8], fast: bool) -> (out: Vec<
    u8,
>)
    ensures
        out@ == inner_advert(service_hash(), endpoint_id@, endpoint_info@, fast),
{
    inner_advertisement_with_hash(service_id_hash(), endpoint_id, endpoint_info, fast)
}

/// Encodes the outer advertisement around a given service id hash.
pub fn outer_advertisement_with_hash(
    hash: [u8; 3],
    inner: &[u8],
    fast: bool,
    device_token: [u8; 2],
) -> (out: Vec<u8>)
    ensures
        out@ == outer_advert(hash@, inner@, fast, device_token@),
{
    let fast_bit: u8 = if fast {
        1
    } else {
        0
    };
    let byte0: u8 = ((2u8 << 5) & 0xE0) | ((2u8 << 2) & 0x1C) | ((fast_bit << 1) & 0x02);
    assert(((2u8 << 5) & 0xE0) | ((2u8 << 2) & 0x1C) | ((1u8 << 1) & 0x02) == 0x4Au8)
        by (bit_vector);
    assert(((2u8 << 5) & 0xE0) | ((2u8 << 2) & 0x1C) | ((0u8 << 1) & 0x02) == 0x48u8)
        by (bit_vector);
    let mut out: Vec<u8> = Vec::new();
    out.push(byte0);
    if fast {
        out.push(low_byte(inner.len()));
    } else {
        let len: [u8; 4] = low_be32(inner.len());
        append(&mut out, hash.as_slice());
        append(&mut out, len.as_slice());
    }
    append(&mut out, inner);
    append(&mut out, device_token.as_slice());
    assert(out@ =~= outer_advert(hash@, inner@, fast, device_token@));
    out
}

/// Encodes the outer advertisement.
pub fn outer_advertisement(inner: &[u8], fast: bool, device_token: [u8; 2]) -> (out: Vec<u8>)
    ensures
        out@ == outer_advert(service_hash(), inner@, fast, device_token@),
{
    outer_advertisement_with_hash(service_id_hash(), inner, fast, device_token)
}

/// Encodes the advertisement header.
pub fn ble_advertisement_header(advertisement_hash: [u8; 4], psm: u16) -> (header: [u8;
    BLE_ADVERTISEMENT_HEADER_LEN])
    ensures
        header@ == advert_header(advertisement_hash@, psm),
{
    let p: [u8; 2] = u16_be_bytes(psm);
    let h: [u8; 4] = advertisement_hash;
    let header: [u8; BLE_ADVERTISEMENT_HEADER_LEN] = [
        HEADER_BYTE0,
        0xFF,
        0xFF,
        0xFF,
        0xFF,
        0xFF,
        0xFF,
        0xFF,
        0xFF,
        0xFF,
        0xFF,
        h[0],
        h[1],
        h[2],
        h[3],
        p[0],
        p[1],
    ];
    assert(header@ =~= advert_header(advertisement_hash@, psm));
    header
}

/// Writes `n` in decimal.
pub fn decimal_ascii(n: u32) -> (digits: Vec<u8>)
    ensures
        digits@ == decimal(n as nat),
    decreases n,
{
    let mut digits: Vec<u8> = Vec::new();
    if n >= 10 {
        digits = decimal_ascii(n / 10);
    }
    digits.push(48 + (n % 10) as u8);
    assert(digits@ =~= decimal(n as nat));
    digits
}

/// The device token for a number.
pub fn device_token(n: u32) -> (token: [u8; 2])
    ensures
        token@ == token_for(n),
{
    first2(sha256_digest(decimal_ascii(n).as_slice()))
}

/// A device token for a random number.
pub fn gen_device_token() -> (token: [u8; 2])
    ensures
        exists|n: u32| token@ == #[trigger] token_for(n),
{
    let n: u32 = random_u32();
    device_token(n)
}

/// The endpoint id whose characters have the given positions.
pub fn endpoint_id_from(picks: [usize; 4]) -> (id: [u8; 4])
    requires
        forall|i: int| 0 <= i < 4 ==> picks@[i] < ENDPOINT_ID_CHARS,
    ensures
        forall|i: int| 0 <= i < 4 ==> id@[i] == endpoint_char(picks@[i] as int),
{
    assert(picks@[0] < 36 && picks@[1] < 36 && picks@[2] < 36 && picks@[3] < 36);
    [char_at(picks[0]), char_at(picks[1]), char_at(picks[2]), char_at(picks[3])]
}

/// The endpoint id character at a position.
fn char_at(i: usize) -> (c: u8)
    requires
        i < ENDPOINT_ID_CHARS,
    ensures
        c == endpoint_char(i as int),
{
    if i < 26 {
        65 + i as u8
    } else {
        48 + (i - 26) as u8
    }
}

/// A random endpoint id.
pub fn gen_endpoint_id() -> (id: [u8; 4])
    ensures
        forall|i: int| 0 <= i < 4 ==> is_endpoint_char(#[trigger] id@[i]),
{
    let picks: [usize; 4] = [
        random_below(ENDPOINT_ID_CHARS),
        random_below(ENDPOINT_ID_CHARS),
        random_below(ENDPOINT_ID_CHARS),
        random_below(ENDPOINT_ID_CHARS),
    ];
    endpoint_id_from(picks)
}

/// The endpoint info with a given salt.
pub fn endpoint_info_with_salt(device_type: u8, salt: [u8; 16], name: &str) -> (info: Vec<u8>)
    ensures
        info@ == endpoint_info(device_type, salt@, encode_utf8(name@)),
{
    assert(device_type << 1 == (device_type * 2) % 0x100) by (bit_vector);
    let name_bytes: &[u8] = name.as_bytes();
    let mut info: Vec<u8> = Vec::new();
    info.push(device_type << 1);
    append(&mut info, salt.as_slice());
    info.push(low_byte(name_bytes.len()));
    append(&mut info, name_bytes);
    assert(info@ =~= endpoint_info(device_type, salt@, encode_utf8(name@)));
    info
}

/// The endpoint info with a random salt.
pub fn build_endpoint_info(device_type: u8, name: &str) -> (info: Vec<u8>)
    ensures
        exists|salt: [u8; 16]|
            info@ == #[trigger] endpoint_info(device_type, salt@, encode_utf8(name@)),
{
    let salt: [u8; 16] = random_salt();
    endpoint_info_with_salt(device_type, salt, name)
}

/// Whether an endpoint info is short enough for fast mode.
pub fn fits_fast_mode(endpoint_info: &[u8]) -> (fast: bool)
    ensures
        fast == (endpoint_info@.len() <= FAST_MAX_ENDPOINT_INFO_LEN),
{
    endpoint_info.len() <= FAST_MAX_ENDPOINT_INFO_LEN
}

/// An endpoint info that fits fast mode makes an outer advertisement that does
/// too. Its length fields hold the lengths themselves, and it carries its parts
/// unchanged.
pub proof fn law_fast_advertisement_fits(
    hash: Seq<u8>,
    endpoint_id: [u8; 4],
    info: Seq<u8>,
    device_token: [u8; 2],
)
    requires
        info.len() <= FAST_MAX_ENDPOINT_INFO_LEN,
    ensures
        ({
            let inner = inner_advert(hash, endpoint_id@, info, true);
            let outer = outer_advert(hash, inner, true, device_token@);
            &&& inner.len() == 6 + info.len()
            &&& inner.subrange(1, 5) == endpoint_id@
            &&& inner[5] == info.len()
            &&& inner.skip(6) == info
            &&& outer.len() == 10 + info.len()
            &&& outer.len() <= FAST_MAX_ADVERTISEMENT_LEN
            &&& outer[1] == inner.len()
            &&& outer.subrange(2, 2 + inner.len() as int) == inner
            &&& outer.skip(2 + inner.len() as int) == device_token@
        }),
{
    let inner = inner_advert(hash, endpoint_id@, info, true);
    let outer = outer_advert(hash, inner, true, device_token@);
    assert(inner.subrange(1, 5) =~= endpoint_id@);
    assert(inner.skip(6) =~= info);
    assert(outer.subrange(2, 2 + inner.len() as int) =~= inner);
    assert(outer.skip(2 + inner.len() as int) =~= device_token@);
}

/// No endpoint info fits fast mode, whatever the salt and the name: the device
/// type, the salt and the length byte alone are too long.
pub proof fn law_endpoint_info_forces_regular_mode(
    device_type: u8,
    salt: [u8; 16],
    name: Seq<u8>,
)
    ensures
        endpoint_info(device_type, salt@, name).len() == 18 + name.len(),
        endpoint_info(device_type, salt@, name).len() > FAST_MAX_ENDPOINT_INFO_LEN,
{
}

/// An endpoint info carries the device type, the salt and the name unchanged.
pub proof fn law_endpoint_info_layout(device_type: u8, salt: [u8; 16], name: Seq<u8>)
    requires
        device_type < 0x80,
        name.len() < 0x100,
    ensures
        ({
            let info = endpoint_info(device_type, salt@, name);
            &&& info[0] == 2 * device_type
            &&& info.subrange(1, 17) == salt@
            &&& info[17] == name.len()
            &&& info.skip(18) == name
        }),
{
    let info = endpoint_info(device_type, salt@, name);
    assert(info.subrange(1, 17) =~= salt@);
    assert(info.skip(18) =~= name);
}

/// A regular advertisement carries its parts unchanged, at fixed places around
/// the endpoint info; the Bluetooth address, the UWB length and the extra byte
/// are zero.
pub proof fn law_regular_advertisement_layout(
    hash: [u8; 3],
    endpoint_id: [u8; 4],
    info: Seq<u8>,
    device_token: [u8; 2],
)
    ensures
        ({
            let inner = inner_advert(hash@, endpoint_id@, info, false);
            let outer = outer_advert(hash@, inner, false, device_token@);
            &&& inner.len() == 17 + info.len()
            &&& inner.subrange(1, 4) == hash@
            &&& inner.subrange(4, 8) == endpoint_id@
            &&& inner[8] == len8(info.len())
            &&& inner.subrange(9, 9 + info.len() as int) == info
            &&& forall|i: int| 9 + info.len() <= i < inner.len() ==> inner[i] == 0
            &&& outer.len() == 10 + inner.len()
            &&& outer.subrange(1, 4) == hash@
            &&& inner.len() < 0x1_0000_0000 ==> be32_value(outer.subrange(4, 8)) == inner.len()
            &&& outer.subrange(8, 8 + inner.len() as int) == inner
            &&& outer.skip(8 + inner.len() as int) == device_token@
        }),
{
    let inner = inner_advert(hash@, endpoint_id@, info, false);
    let outer = outer_advert(hash@, inner, false, device_token@);
    assert(inner.subrange(1, 4) =~= hash@);
    assert(inner.subrange(4, 8) =~= endpoint_id@);
    assert(inner.subrange(9, 9 + info.len() as int) =~= info);
    assert(outer.subrange(1, 4) =~= hash@);
    assert(outer.subrange(4, 8) =~= be32(len32(inner.len())));
    law_be32_round_trip(len32(inner.len()));
    assert(outer.subrange(8, 8 + inner.len() as int) =~= inner);
    assert(outer.skip(8 + inner.len() as int) =~= device_token@);
}

/// Every bit of the bloom filter in a header is set, so that no scanner passes
/// over the endpoint, and the hash and the PSM follow it.
pub proof fn law_header_layout(advertisement_hash: [u8; 4], psm: u16)
    ensures
        ({
            let header = advert_header(advertisement_hash@, psm);
            &&& header.len() == BLE_ADVERTISEMENT_HEADER_LEN
            &&& header[0] == HEADER_BYTE0
            &&& forall|i: int| 1 <= i < 11 ==> header[i] == 0xFF
            &&& header.subrange(11, 15) == advertisement_hash@
            &&& be16_value(header[15], header[16]) == psm
        }),
{
    let header = advert_header(advertisement_hash@, psm);
    assert(header.subrange(11, 15) =~= advertisement_hash@);
    law_be16_round_trip(psm);
}

/// The bytes of an inner advertisement, whatever its parts.
pub proof fn law_inner_layout(hash: [u8; 3], endpoint_id: [u8; 4], info: Seq<u8>)
    ensures
        ({
            let fast = inner_advert(hash@, endpoint_id@, info, true);
            let regular = inner_advert(hash@, endpoint_id@, info, false);
            &&& fast.len() == 6 + info.len()
            &&& fast[0] == 0x23
            &&& fast.subrange(1, 5) == endpoint_id@
            &&& fast[5] == info.len() % 256
            &&& fast.skip(6) == info
            &&& regular.len() == 17 + info.len()
            &&& regular[0] == 0x23
            &&& regular.subrange(1, 4) == hash@
            &&& regular.subrange(4, 8) == endpoint_id@
            &&& regular[8] == info.len() % 256
            &&& regular.subrange(9, 9 + info.len() as int) == info
            &&& forall|i: int| 9 + info.len() <= i < regular.len() ==> regular[i] == 0
        }),
{
    let fast = inner_advert(hash@, endpoint_id@, info, true);
    let regular = inner_advert(hash@, endpoint_id@, info, false);
    assert(fast.subrange(1, 5) =~= endpoint_id@);
    assert(fast.skip(6) =~= info);
    assert(regular.subrange(1, 4) =~= hash@);
    assert(regular.subrange(4, 8) =~= endpoint_id@);
    assert(regular.subrange(9, 9 + info.len() as int) =~= info);
}

/// The bytes of an outer advertisement, whatever its parts.
pub proof fn law_outer_layout(hash: [u8; 3], inner: Seq<u8>, device_token: [u8; 2])
    ensures
        ({
            let fast = outer_advert(hash@, inner, true, device_token@);
            let regular = outer_advert(hash@, inner, false, device_token@);
            &&& fast.len() == 4 + inner.len()
            &&& fast[0] == 0x4A
            &&& fast[1] == inner.len() % 256
            &&& fast.subrange(2, 2 + inner.len() as int) == inner
            &&& fast.skip(2 + inner.len() as int) == device_token@
            &&& regular.len() == 10 + inner.len()
            &&& regular[0] == 0x48
            &&& regular.subrange(1, 4) == hash@
            &&& be32_value(regular.subrange(4, 8)) == inner.len() % 0x1_0000_0000
            &&& regular.subrange(8, 8 + inner.len() as int) == inner
            &&& regular.skip(8 + inner.len() as int) == device_token@
        }),
{
    let fast = outer_advert(hash@, inner, true, device_token@);
    let regular = outer_advert(hash@, inner, false, device_token@);
    assert(fast.subrange(2, 2 + inner.len() as int) =~= inner);
    assert(fast.skip(2 + inner.len() as int) =~= device_token@);
    assert(regular.subrange(1, 4) =~= hash@);
    assert(regular.subrange(4, 8) =~= be32(len32(inner.len())));
    law_be32_round_trip(len32(inner.len()));
    assert(regular.subrange(8, 8 + inner.len() as int) =~= inner);
    assert(regular.skip(8 + inner.len() as int) =~= device_token@);
}

/// The bytes of a header, whatever the hash and the PSM.
pub proof fn law_header_bytes(advertisement_hash: [u8; 4], psm: u16)
    ensures
        ({
            let header = advert_header(advertisement_hash@, psm);
            &&& header.len() == 17
            &&& header[0] == 0x41
            &&& forall|i: int| 1 <= i < 11 ==> header[i] == 0xFF
            &&& header.subrange(11, 15) == advertisement_hash@
            &&& psm == 256 * header[15] + header[16]
        }),
{
    law_header_layout(advertisement_hash, psm);
    law_be16_digits(psm);
    let header = advert_header(advertisement_hash@, psm);
    assert(header[15] == be16(psm)[0] && header[16] == be16(psm)[1]);
}

/// The bytes of an endpoint info, whatever the device type and the name.
pub proof fn law_endpoint_info_bytes(device_type: u8, salt: [u8; 16], name: Seq<u8>)
    ensures
        ({
            let info = endpoint_info(device_type, salt@, name);
            &&& info.len() == 18 + name.len()
            &&& info[0] == (2 * device_type) % 256
            &&& info.subrange(1, 17) == salt@
            &&& info[17] == name.len() % 256
            &&& info.skip(18) == name
        }),
{
    let info = endpoint_info(device_type, salt@, name);
    assert(info.subrange(1, 17) =~= salt@);
    assert(info.skip(18) =~= name);
}

/// The number that ASCII digits spell.
pub open spec fn spelled(digits: Seq<u8>) -> int
    decreases digits.len(),
{
    if digits.len() == 0 {
        0
    } else {
        10 * spelled(digits.drop_last()) + (digits.last() - 48)
    }
}

/// A number is written in ASCII digits, without a leading zero but for 0 itself,
/// and they spell the number.
pub proof fn law_decimal_spells_the_number(n: nat)
    ensures
        decimal(n).len() >= 1,
        forall|i: int| 0 <= i < decimal(n).len() ==> 48 <= #[trigger] decimal(n)[i] <= 57,
        n > 0 ==> decimal(n)[0] != 48,
        n == 0 ==> decimal(n).len() == 1,
        spelled(decimal(n)) == n,
    decreases n,
{
    let d = decimal(n);
    if n < 10 {
        assert(d.drop_last() =~= Seq::<u8>::empty());
        assert(spelled(d.drop_last()) == 0);
    } else {
        law_decimal_spells_the_number(n / 10);
        assert(d.drop_last() =~= decimal(n / 10));
    }
}

/// The device token for a number is the first two bytes of the digest of its
/// decimal digits.
pub proof fn law_token(n: u32)
    ensures
        sha256(decimal(n as nat)).len() == 32 ==> token_for(n) == seq![
            sha256(decimal(n as nat))[0],
            sha256(decimal(n as nat))[1],
        ],
{
    if sha256(decimal(n as nat)).len() == 32 {
        assert(token_for(n) =~= seq![
            sha256(decimal(n as nat))[0],
            sha256(decimal(n as nat))[1],
        ]);
    }
}

/// The characters of an endpoint id run from `A` to `Z` and then from `0` to `9`,
/// each one once, and they are all the capital letters and digits there are.
pub proof fn law_endpoint_chars(i: int, j: int, c: u8)
    requires
        0 <= i < 36,
        0 <= j < 36,
    ensures
        ENDPOINT_ID_CHARS == 36,
        endpoint_char(0) == 65,
        endpoint_char(26) == 48,
        i != 25 && i != 35 ==> endpoint_char(i + 1) == endpoint_char(i) + 1,
        endpoint_char(i) == endpoint_char(j) ==> i == j,
        is_endpoint_char(endpoint_char(i)),
        is_endpoint_char(c) <==> 65 <= c <= 90 || 48 <= c <= 57,
{
}

} // verus!
