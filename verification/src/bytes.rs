//! Big-endian integers and byte appending.

use vstd::prelude::*;

verus! {

/// The two bytes of `n`, most significant first.
pub open spec fn be16(n: u16) -> Seq<u8> {
    seq![(n / 0x100) as u8, (n % 0x100) as u8]
}

/// The four bytes of `n`, most significant first.
pub open spec fn be32(n: u32) -> Seq<u8> {
    seq![
        (n / 0x100_0000) as u8,
        (n / 0x1_0000 % 0x100) as u8,
        (n / 0x100 % 0x100) as u8,
        (n % 0x100) as u8,
    ]
}

/// The number that two bytes hold, most significant first.
pub open spec fn be16_value(hi: u8, lo: u8) -> u16 {
    (hi * 0x100 + lo) as u16
}

/// The number that the first four bytes of `s` hold, most significant first.
pub open spec fn be32_value(s: Seq<u8>) -> u32
    recommends
        s.len() >= 4,
{
    (s[0] * 0x100_0000 + s[1] * 0x1_0000 + s[2] * 0x100 + s[3]) as u32
}

/// A length as an 8-bit length field carries it: modulo 2^8.
pub open spec fn len8(n: nat) -> u8 {
    (n % 0x100) as u8
}

/// A length as a 16-bit length field carries it: modulo 2^16.
pub open spec fn len16(n: nat) -> u16 {
    (n % 0x1_0000) as u16
}

/// A length as a 32-bit length field carries it: modulo 2^32.
pub open spec fn len32(n: nat) -> u32 {
    (n % 0x1_0000_0000) as u32
}

/// Encoding a 32-bit number and reading it back gives the number.
pub proof fn law_be32_round_trip(n: u32)
    ensures
        be32(n).len() == 4,
        be32_value(be32(n)) == n,
{
}

/// Reading a 32-bit number and encoding it gives the bytes that were read.
pub proof fn law_be32_reencodes(s: Seq<u8>)
    requires
        s.len() == 4,
    ensures
        be32(be32_value(s)) == s,
{
    let n = be32_value(s);
    let (a, b, c, d) = (s[0], s[1], s[2], s[3]);
    assert(n == a * 0x100_0000 + b * 0x1_0000 + c * 0x100 + d);
    assert(n / 0x100_0000 == a && n / 0x1_0000 % 0x100 == b && n / 0x100 % 0x100 == c && n % 0x100
        == d) by (bit_vector)
        requires
            n == a * 0x100_0000 + b * 0x1_0000 + c * 0x100 + d,
    ;
    assert(be32(n) =~= s);
}

/// Encoding a 16-bit number and reading it back gives the number.
pub proof fn law_be16_round_trip(n: u16)
    ensures
        be16(n).len() == 2,
        be16_value(be16(n)[0], be16(n)[1]) == n,
{
}

/// The low byte of `n`.
pub fn low_byte(n: usize) -> (b: u8)
    ensures
        b == len8(n as nat),
{
    assert(n as u8 == n % 0x100) by (bit_vector);
    n as u8
}

/// The low 16 bits of `n`, most significant byte first.
pub fn low_be16(n: usize) -> (bytes: [u8; 2])
    ensures
        bytes@ == be16(len16(n as nat)),
{
    assert(n as u16 == n % 0x1_0000) by (bit_vector);
    u16_be_bytes(n as u16)
}

/// The low 32 bits of `n`, most significant byte first.
pub fn low_be32(n: usize) -> (bytes: [u8; 4])
    ensures
        bytes@ == be32(len32(n as nat)),
{
    assert(n as u32 == (n as u64) % 0x1_0000_0000) by (bit_vector);
    u32_be_bytes(n as u32)
}

/// The bytes of `n`, most significant first.
pub fn u16_be_bytes(n: u16) -> (bytes: [u8; 2])
    ensures
        bytes@ == be16(n),
{
    let bytes: [u8; 2] = [(n / 0x100) as u8, (n % 0x100) as u8];
    assert(bytes@ =~= be16(n));
    bytes
}

/// The bytes of `n`, most significant first.
pub fn u32_be_bytes(n: u32) -> (bytes: [u8; 4])
    ensures
        bytes@ == be32(n),
{
    let bytes: [u8; 4] = [
        (n / 0x100_0000) as u8,
        (n / 0x1_0000 % 0x100) as u8,
        (n / 0x100 % 0x100) as u8,
        (n % 0x100) as u8,
    ];
    assert(bytes@ =~= be32(n));
    bytes
}

/// The number whose bytes, most significant first, are `hi` and `lo`.
pub fn u16_from_be(hi: u8, lo: u8) -> (n: u16)
    ensures
        n == be16_value(hi, lo),
{
    hi as u16 * 0x100 + lo as u16
}

/// The number in the first four bytes of `s`, most significant first.
pub fn u32_from_be(s: &[u8]) -> (n: u32)
    requires
        s@.len() >= 4,
    ensures
        n == be32_value(s@),
{
    s[0] as u32 * 0x100_0000 + s[1] as u32 * 0x1_0000 + s[2] as u32 * 0x100 + s[3] as u32
}

/// Appends `bytes` to `out`.
pub fn append(out: &mut Vec<u8>, bytes: &[u8])
    ensures
        final(out)@ == old(out)@ + bytes@,
{
    out.extend_from_slice(bytes);
    assert(out@ =~= old(out)@ + bytes@);
}

/// The two bytes of a number are its base-256 digits, the higher first.
pub proof fn law_be16_digits(n: u16)
    ensures
        be16(n).len() == 2,
        n == 256 * be16(n)[0] + be16(n)[1],
{
}

/// The four bytes of a number are its base-256 digits, the highest first.
pub proof fn law_be32_digits(n: u32)
    ensures
        be32(n).len() == 4,
        n == 16777216 * be32(n)[0] + 65536 * be32(n)[1] + 256 * be32(n)[2] + be32(n)[3],
{
}

/// Reading two bytes and encoding the number gives the bytes that were read.
pub proof fn law_be16_reencodes(hi: u8, lo: u8)
    ensures
        be16(be16_value(hi, lo)) == seq![hi, lo],
{
    assert(be16(be16_value(hi, lo)) =~= seq![hi, lo]);
}

/// Only the first four bytes count towards a 32-bit number.
pub proof fn law_be32_value_reads_four_bytes(s: Seq<u8>)
    requires
        s.len() >= 4,
    ensures
        be32(be32_value(s)) == s.take(4),
        be32_value(s) == be32_value(s.take(4)),
{
    assert(be32_value(s) == be32_value(s.take(4)));
    law_be32_reencodes(s.take(4));
}

/// A length that fits its field is held as it is, and lengths that differ by the
/// range of the field are held alike.
pub proof fn law_length_fields(n: nat)
    ensures
        n < 0x100 ==> len8(n) == n,
        len8(n + 0x100) == len8(n),
        n < 0x1_0000 ==> len16(n) == n,
        len16(n + 0x1_0000) == len16(n),
        n < 0x1_0000_0000 ==> len32(n) == n,
        len32(n + 0x1_0000_0000) == len32(n),
{
}

} // verus!
