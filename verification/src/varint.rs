//! Protobuf varints: little-endian base-128 groups with a continuation bit.

use vstd::arithmetic::power2::*;
use vstd::prelude::*;

verus! {

/// A varint that takes more than this many bytes is malformed.
pub const MAX_VARINT_LEN: usize = 10;

/// The varint encoding of `v`: its base-128 digits, least significant first,
/// every byte but the last with its top bit set.
pub open spec fn varint_bytes(v: nat) -> Seq<u8>
    decreases v,
{
    if v < 128 {
        seq![v as u8]
    } else {
        seq![(v % 128 + 128) as u8] + varint_bytes(v / 128)
    }
}

/// The number of bytes with a set top bit that `s` starts with.
pub open spec fn continuation_run(s: Seq<u8>) -> nat
    decreases s.len(),
{
    if s.len() == 0 || s[0] < 128 {
        0
    } else {
        1 + continuation_run(s.drop_first())
    }
}

/// The number whose base-128 digits, least significant first, are the low
/// seven bits of each byte of `s`.
pub open spec fn groups_value(s: Seq<u8>) -> nat
    decreases s.len(),
{
    if s.len() == 0 {
        0
    } else {
        s[0] as nat % 128 + 128 * groups_value(s.drop_first())
    }
}

/// The varint that `s` starts with and the number of bytes it takes, if one
/// ends within the bytes of `s` and within `MAX_VARINT_LEN` bytes. The value
/// is kept modulo 2^64.
pub open spec fn leading_varint(s: Seq<u8>) -> Option<(u64, nat)> {
    let run = continuation_run(s);
    if run < s.len() && run < MAX_VARINT_LEN {
        Some(((groups_value(s.take(run as int + 1)) % 0x1_0000_0000_0000_0000) as u64, run + 1))
    } else {
        None
    }
}

/// The bytes of `data` from `pos` on: none where `pos` lies past the end.
pub open spec fn rest(data: Seq<u8>, pos: int) -> Seq<u8> {
    if 0 <= pos <= data.len() {
        data.skip(pos)
    } else {
        Seq::empty()
    }
}

/// The number of bytes that reading a varint from `s` looks at: the varint's
/// own, or, where there is none, as many as a varint may take.
pub open spec fn varint_bytes_read(s: Seq<u8>) -> nat {
    match leading_varint(s) {
        Some((_, n)) => n,
        None => if s.len() < MAX_VARINT_LEN {
            s.len()
        } else {
            MAX_VARINT_LEN as nat
        },
    }
}

/// Encodes `value` as a varint, appended to `out`.
pub fn encode_varint(value: u64, out: &mut Vec<u8>)
    ensures
        final(out)@ == old(out)@ + varint_bytes(value as nat),
{
    let mut left: u64 = value;
    loop
        invariant_except_break
            out@ + varint_bytes(left as nat) == old(out)@ + varint_bytes(value as nat),
        ensures
            out@ == old(out)@ + varint_bytes(value as nat),
        decreases left,
    {
        let ghost before = out@;
        let byte: u8 = (left & 0x7F) as u8;
        assert(left & 0x7F == left % 128) by (bit_vector);
        assert(left >> 7 == left / 128) by (bit_vector);
        assert(byte < 128 ==> byte | 0x80 == byte + 128) by (bit_vector);
        let next: u64 = left >> 7;
        if next != 0 {
            out.push(byte | 0x80);
            assert(out@ + varint_bytes(next as nat) =~= before + varint_bytes(left as nat));
            left = next;
        } else {
            out.push(byte);
            assert(out@ =~= before + varint_bytes(left as nat));
            break;
        }
    }
}

/// The run of continuation bytes, characterised by its end.
proof fn lemma_run(s: Seq<u8>, n: nat)
    requires
        n <= s.len(),
        forall|i: int| 0 <= i < n ==> s[i] >= 128,
    ensures
        continuation_run(s) >= n,
        n == s.len() || s[n as int] < 128 ==> continuation_run(s) == n,
    decreases n,
{
    if n > 0 {
        let t = s.drop_first();
        assert forall|i: int| 0 <= i < n - 1 implies t[i] >= 128 by {
            assert(t[i] == s[i + 1]);
        }
        lemma_run(t, (n - 1) as nat);
    }
}

/// Appending a byte adds a digit at the top.
proof fn lemma_groups_push(s: Seq<u8>, b: u8)
    ensures
        groups_value(s.push(b)) == groups_value(s) + (b as nat % 128) * pow2(7 * s.len()),
    decreases s.len(),
{
    lemma2_to64();
    if s.len() == 0 {
        assert(s.push(b).drop_first() =~= Seq::<u8>::empty());
        assert(groups_value(s.push(b).drop_first()) == 0);
        assert(pow2(7 * s.len()) == 1);
    } else {
        let t = s.drop_first();
        assert(s.push(b).drop_first() =~= t.push(b));
        lemma_groups_push(t, b);
        let d = b as nat % 128;
        let p = pow2(7 * t.len());
        lemma_pow2_adds(7, 7 * t.len());
        assert(pow2(7) == 128);
        assert(7 + 7 * t.len() == 7 * s.len());
        assert(128 * (groups_value(t) + d * p) == 128 * groups_value(t) + d * (128 * p))
            by (nonlinear_arith);
    }
}

/// `n` digits stay below `128^n`.
proof fn lemma_groups_bound(s: Seq<u8>)
    ensures
        groups_value(s) < pow2(7 * s.len()),
    decreases s.len(),
{
    lemma2_to64();
    if s.len() > 0 {
        let t = s.drop_first();
        lemma_groups_bound(t);
        lemma_pow2_adds(7, 7 * t.len());
        assert(pow2(7) == 128);
        assert(7 + 7 * t.len() == 7 * s.len());
    }
}

/// One more group, shifted into place, is one more digit.
proof fn lemma_shift_in(result: u64, byte: u8, n: nat, shift: u32)
    requires
        n < 10,
        shift == 7 * n,
        result < pow2(7 * n),
    ensures
        (result | (((byte & 0x7F) as u64) << shift)) == (result + (byte as nat % 128) * pow2(
            7 * n,
        )) % 0x1_0000_0000_0000_0000,
{
    let x: u64 = (byte & 0x7F) as u64;
    assert(byte & 0x7F == byte % 128) by (bit_vector);
    lemma2_to64();
    lemma2_to64_rest();
    let p = pow2(7 * n);
    if n < 9 {
        assert(p <= 0x100_0000_0000_0000) by {
            if 7 * n < 56 {
                lemma_pow2_strictly_increases(7 * n, 56);
            }
        }
        assert(x * p <= 127 * 0x100_0000_0000_0000) by (nonlinear_arith)
            requires
                x <= 127,
                p <= 0x100_0000_0000_0000,
        ;
        vstd::bits::lemma_u64_shl_is_mul(x, shift as u64);
        assert(x << shift == x << (shift as u64)) by (bit_vector);
        vstd::bits::lemma_u64_shl_is_mul(1, shift as u64);
        assert(1u64 << shift == 1u64 << (shift as u64)) by (bit_vector);
    } else {
        assert(1u64 << 63u32 == 0x8000_0000_0000_0000u64) by (bit_vector);
        assert(x << 63u32 == (x % 2) * 0x8000_0000_0000_0000) by (bit_vector);
        assert(p == 0x8000_0000_0000_0000);
    }
    assert(result < 1u64 << shift);
    assert((result | (x << shift)) == result + (x << shift)) by (bit_vector)
        requires
            shift <= 63,
            result < 1u64 << shift,
    ;
}

/// Decodes the varint that starts at `*pos`, advancing `*pos` past the bytes
/// that were looked at.
pub fn decode_varint(data: &[u8], pos: &mut usize) -> (value: Option<u64>)
    ensures
        *final(pos) == *old(pos) + varint_bytes_read(rest(data@, *old(pos) as int)),
        value == (match leading_varint(rest(data@, *old(pos) as int)) {
            Some((v, _)) => Some(v),
            None => None,
        }),
        *old(pos) <= data@.len() ==> *final(pos) <= data@.len(),
        value is Some ==> *final(pos) > *old(pos),
{
    let ghost s = rest(data@, *old(pos) as int);
    let mut result: u64 = 0;
    let mut shift: u32 = 0;
    let ghost mut n: nat = 0;
    proof {
        lemma2_to64();
        assert(s.take(0) =~= Seq::<u8>::empty());
    }
    loop
        invariant
            s == rest(data@, *old(pos) as int),
            n < 10,
            n <= s.len(),
            shift == 7 * n,
            *pos == *old(pos) + n,
            forall|i: int| 0 <= i < n ==> s[i] >= 128,
            result == groups_value(s.take(n as int)),
        decreases 10 - n,
    {
        if *pos >= data.len() {
            proof {
                lemma_run(s, n);
            }
            return None;
        }
        let byte: u8 = data[*pos];
        assert(byte == s[n as int]);
        *pos = *pos + 1;
        proof {
            lemma_groups_bound(s.take(n as int));
            lemma_shift_in(result, byte, n, shift);
            lemma_groups_push(s.take(n as int), byte);
            assert(s.take(n as int).push(byte) =~= s.take(n as int + 1));
            assert(byte & 0x80 == 0 <==> byte < 128) by (bit_vector);
        }
        result = result | (((byte & 0x7F) as u64) << shift);
        if byte & 0x80 == 0 {
            proof {
                lemma_run(s, n);
            }
            return Some(result);
        }
        shift = shift + 7;
        proof {
            n = n + 1;
        }
        if shift >= 64 {
            proof {
                lemma_run(s, n);
            }
            return None;
        }
        proof {
            lemma_groups_bound(s.take(n as int));
            lemma2_to64_rest();
            if 7 * n < 63 {
                lemma_pow2_strictly_increases(7 * n, 63);
            }
        }
    }
}

/// An encoded varint is a run of continuation bytes and one last byte, its
/// digits are those of the number, and it is as short as the number allows.
proof fn lemma_varint_bytes(v: nat, k: nat)
    requires
        v < pow2(7 * k),
        k >= 1,
    ensures
        1 <= varint_bytes(v).len() <= k,
        groups_value(varint_bytes(v)) == v,
        varint_bytes(v).last() < 128,
        forall|i: int| 0 <= i < varint_bytes(v).len() - 1 ==> varint_bytes(v)[i] >= 128,
    decreases v,
{
    lemma2_to64();
    let s = varint_bytes(v);
    if v < 128 {
        assert(s.drop_first() =~= Seq::<u8>::empty());
        assert(groups_value(s.drop_first()) == 0);
    } else {
        if k == 1 {
            assert(pow2(7 * k) == 128);
        }
        let j = (k - 1) as nat;
        lemma_pow2_adds(7, 7 * j);
        assert(7 + 7 * j == 7 * k);
        lemma_varint_bytes(v / 128, j);
        assert(s.drop_first() =~= varint_bytes(v / 128));
        assert forall|i: int| 0 <= i < s.len() - 1 implies s[i] >= 128 by {
            if i > 0 {
                assert(s[i] == varint_bytes(v / 128)[i - 1]);
            }
        }
    }
}

/// What decoding gives back of an encoded number is the number itself, whatever
/// follows it, and decoding takes exactly the bytes that encoding wrote.
pub proof fn law_varint_round_trip(value: u64, tail: Seq<u8>)
    ensures
        leading_varint(varint_bytes(value as nat) + tail) == Some(
            (value, varint_bytes(value as nat).len()),
        ),
{
    let e = varint_bytes(value as nat);
    let s = e + tail;
    lemma2_to64();
    lemma2_to64_rest();
    lemma_pow2_adds(64, 6);
    assert(pow2(70) == pow2(64) * pow2(6));
    lemma_varint_bytes(value as nat, 10);
    lemma_run(s, (e.len() - 1) as nat);
    assert(s.take(e.len() as int) =~= e);
}

/// An encoded number takes at least one byte and at most ten.
pub proof fn law_varint_length(value: u64)
    ensures
        1 <= varint_bytes(value as nat).len() <= MAX_VARINT_LEN,
{
    law_varint_round_trip(value, Seq::empty());
    assert(varint_bytes(value as nat) + Seq::<u8>::empty() =~= varint_bytes(value as nat));
}

/// Byte `i` of an encoded number holds its base-128 digit `i`.
pub proof fn law_varint_digits(v: nat, i: int)
    requires
        0 <= i < varint_bytes(v).len(),
    ensures
        varint_bytes(v)[i] % 128 == (v / pow2((7 * i) as nat)) % 128,
    decreases i,
{
    lemma2_to64();
    if i == 0 {
        assert(v / pow2(0) == v);
    } else {
        assert(v >= 128);
        let w = v / 128;
        assert(varint_bytes(v)[i] == varint_bytes(w)[i - 1]);
        law_varint_digits(w, i - 1);
        let p = pow2((7 * (i - 1)) as nat);
        lemma_pow2_adds(7, (7 * (i - 1)) as nat);
        lemma_pow2_pos((7 * (i - 1)) as nat);
        assert(pow2((7 * i) as nat) == 128 * p);
        vstd::arithmetic::div_mod::lemma_div_denominator(v as int, 128, p as int);
        assert((v as int / 128) / (p as int) == v as int / (128 * p as int));
    }
}

/// Every byte of an encoded number but the last has its top bit set, the last has
/// not, and no shorter encoding has room for the number.
pub proof fn law_varint_shape(v: nat)
    ensures
        varint_bytes(v).len() >= 1,
        varint_bytes(v).last() < 128,
        forall|i: int| 0 <= i < varint_bytes(v).len() - 1 ==> varint_bytes(v)[i] >= 128,
        v < pow2(7 * varint_bytes(v).len()),
        varint_bytes(v).len() > 1 ==> v >= pow2((7 * (varint_bytes(v).len() - 1)) as nat),
    decreases v,
{
    lemma2_to64();
    if v >= 128 {
        let w = v / 128;
        law_varint_shape(w);
        let n = varint_bytes(w).len();
        assert(varint_bytes(v).len() == n + 1);
        lemma_pow2_adds(7, 7 * n);
        assert(7 + 7 * n == 7 * (n + 1));
        if n > 1 {
            lemma_pow2_adds(7, (7 * (n - 1)) as nat);
            assert(7 + 7 * (n - 1) == 7 * n);
        }
        assert forall|i: int| 0 <= i < varint_bytes(v).len() - 1 implies varint_bytes(v)[i]
            >= 128 by {
            if i > 0 {
                assert(varint_bytes(v)[i] == varint_bytes(w)[i - 1]);
            }
        }
    }
}

/// What a varint means, byte by byte: there is none in no bytes; a byte with its top
/// bit clear is a varint of its own; one with its top bit set adds its low seven
/// bits below the varint that follows, modulo 2^64, unless that varint already takes
/// ten bytes or there is none.
pub proof fn law_varint_by_first_byte(b: u8, s: Seq<u8>)
    ensures
        leading_varint(Seq::empty()) is None,
        b < 128 ==> leading_varint(seq![b] + s) == Some((b as u64, 1nat)),
        b >= 128 ==> leading_varint(seq![b] + s) == (match leading_varint(s) {
            Some((v, m)) => if m < 10 {
                Some((((b - 128 + 128 * v) % 0x1_0000_0000_0000_0000) as u64, m + 1))
            } else {
                None
            },
            None => None,
        }),
{
    let t = seq![b] + s;
    assert(t.drop_first() =~= s);
    if b < 128 {
        assert(t.take(1).drop_first() =~= Seq::<u8>::empty());
        assert(groups_value(t.take(1).drop_first()) == 0);
        assert(groups_value(t.take(1)) == b);
    } else {
        let run = continuation_run(s);
        assert(continuation_run(t) == run + 1);
        if run < s.len() {
            let g = groups_value(s.take(run as int + 1));
            assert(t.take(run as int + 2).drop_first() =~= s.take(run as int + 1));
            assert(groups_value(t.take(run as int + 2)) == b as nat % 128 + 128 * g);
            let m = 0x1_0000_0000_0000_0000int;
            let q = g as int / m;
            assert(g == m * q + g as int % m);
            assert((b - 128 + 128 * g) - (b - 128 + 128 * (g as int % m)) == m * (128 * q));
            vstd::arithmetic::div_mod::lemma_mod_multiples_vanish(
                128 * q,
                b - 128 + 128 * (g as int % m),
                m,
            );
        }
    }
}

/// Reading a varint looks at the bytes it takes, which are at most ten; where there
/// is none, at all the bytes there are, or at ten.
pub proof fn law_varint_bytes_read(s: Seq<u8>)
    ensures
        leading_varint(s) matches Some((_, n)) ==> {
            &&& 1 <= n <= 10
            &&& n <= s.len()
            &&& varint_bytes_read(s) == n
        },
        leading_varint(s) is None && s.len() < 10 ==> varint_bytes_read(s) == s.len(),
        leading_varint(s) is None && s.len() >= 10 ==> varint_bytes_read(s) == 10,
{
}

/// The bytes from a position on are those behind it, and past the end there are
/// none.
pub proof fn law_rest(before: Seq<u8>, after: Seq<u8>, pos: int)
    ensures
        rest(before + after, before.len() as int) == after,
        pos >= before.len() ==> rest(before, pos).len() == 0,
{
    assert((before + after).skip(before.len() as int) =~= after);
}

} // verus!
