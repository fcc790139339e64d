//! Protobuf fields: tags, varint fields and length-delimited fields.

use crate::bytes::append;
use crate::varint::{
    decode_varint, encode_varint, law_varint_round_trip, leading_varint, rest, varint_bytes,
};
use vstd::prelude::*;

verus! {

/// Wire type of a varint field.
pub const WIRE_VARINT: u8 = 0;

/// Wire type of a length-delimited field.
pub const WIRE_BYTES: u8 = 2;

/// A field of a message.
pub enum Field {
    Varint { number: u64, value: u64 },
    Bytes { number: u64, data: Seq<u8> },
}

/// The number that a tag encodes: the wire type in the low three bits, the field
/// number above them.
pub open spec fn tag_value(field_number: u32, wire_type: u8) -> u64 {
    ((field_number as u64) << 3) | (wire_type as u64)
}

/// An encoded tag.
pub open spec fn tag_bytes(field_number: u32, wire_type: u8) -> Seq<u8> {
    varint_bytes(tag_value(field_number, wire_type) as nat)
}

/// An encoded length-delimited field.
pub open spec fn bytes_field(field_number: u32, data: Seq<u8>) -> Seq<u8> {
    tag_bytes(field_number, WIRE_BYTES) + varint_bytes(data.len()) + data
}

/// An encoded varint field.
pub open spec fn varint_field(field_number: u32, value: u64) -> Seq<u8> {
    tag_bytes(field_number, WIRE_VARINT) + varint_bytes(value as nat)
}

/// The field that `s` starts with and the number of bytes it takes. There is
/// none where a varint is malformed, the bytes run out, or the wire type is
/// neither varint nor length-delimited.
pub open spec fn leading_field(s: Seq<u8>) -> Option<(Field, nat)> {
    match leading_varint(s) {
        None => None,
        Some((tag, n)) => {
            let number = tag / 8;
            match leading_varint(s.skip(n as int)) {
                None => None,
                Some((v, m)) => if tag % 8 == WIRE_VARINT {
                    Some((Field::Varint { number, value: v }, n + m))
                } else if tag % 8 == WIRE_BYTES {
                    let len = (v as usize) as nat;
                    if n + m + len <= s.len() {
                        Some(
                            (
                                Field::Bytes {
                                    number,
                                    data: s.subrange((n + m) as int, (n + m + len) as int),
                                },
                                n + m + len,
                            ),
                        )
                    } else {
                        None
                    }
                } else {
                    None
                },
            }
        },
    }
}

/// The fields that `s` starts with, up to the first byte that starts none.
pub open spec fn fields(s: Seq<u8>) -> Seq<Field>
    decreases s.len(),
{
    match leading_field(s) {
        None => Seq::empty(),
        Some((f, n)) => seq![f] + fields(s.skip(n as int)),
    }
}

/// The value of the last varint field with the given number.
pub open spec fn last_varint(fs: Seq<Field>, wanted: u64) -> Option<u64>
    decreases fs.len(),
{
    if fs.len() == 0 {
        None
    } else {
        match fs.last() {
            Field::Varint { number, value } if number == wanted => Some(value),
            _ => last_varint(fs.drop_last(), wanted),
        }
    }
}

/// The contents of the last length-delimited field whose number lies in
/// `lo..=hi`.
pub open spec fn last_bytes(fs: Seq<Field>, lo: u64, hi: u64) -> Option<Seq<u8>>
    decreases fs.len(),
{
    if fs.len() == 0 {
        None
    } else {
        match fs.last() {
            Field::Bytes { number, data } if lo <= number <= hi => Some(data),
            _ => last_bytes(fs.drop_last(), lo, hi),
        }
    }
}

/// A field as the bytes of a message hold it: a length-delimited one is given by
/// where its contents start and end.
pub enum WireField {
    Varint { number: u64, value: u64 },
    Bytes { number: u64, start: usize, end: usize },
}

impl WireField {
    /// The field that this one is in the message `data`.
    pub open spec fn field(self, data: Seq<u8>) -> Field {
        match self {
            WireField::Varint { number, value } => Field::Varint { number, value },
            WireField::Bytes { number, start, end } => Field::Bytes {
                number,
                data: data.subrange(start as int, end as int),
            },
        }
    }

    /// The contents lie within the message `data`.
    pub open spec fn within(self, data: Seq<u8>) -> bool {
        self matches WireField::Bytes { start, end, .. } ==> start <= end <= data.len()
    }
}

/// Below eight, the wire type and the field number can be told apart.
pub proof fn law_tag_value(field_number: u32, wire_type: u8)
    requires
        wire_type < 8,
    ensures
        tag_value(field_number, wire_type) == 8 * field_number + wire_type,
        tag_value(field_number, wire_type) / 8 == field_number,
        tag_value(field_number, wire_type) % 8 == wire_type,
{
    let f = field_number as u64;
    assert((f << 3) | (wire_type as u64) == 8 * f + wire_type) by (bit_vector)
        requires
            wire_type < 8,
            f <= 0xFFFF_FFFF,
    ;
}

/// Encodes a tag, appended to `out`.
pub fn encode_tag(field_number: u32, wire_type: u8, out: &mut Vec<u8>)
    ensures
        final(out)@ == old(out)@ + tag_bytes(field_number, wire_type),
{
    encode_varint(((field_number as u64) << 3) | (wire_type as u64), out);
}

/// Encodes a length-delimited field, appended to `out`.
pub fn encode_bytes_field(field_number: u32, data: &[u8], out: &mut Vec<u8>)
    ensures
        final(out)@ == old(out)@ + bytes_field(field_number, data@),
{
    encode_tag(field_number, WIRE_BYTES, out);
    encode_varint(data.len() as u64, out);
    append(out, data);
    assert(out@ =~= old(out)@ + bytes_field(field_number, data@));
}

/// Encodes a varint field, appended to `out`.
pub fn encode_varint_field(field_number: u32, value: u64, out: &mut Vec<u8>)
    ensures
        final(out)@ == old(out)@ + varint_field(field_number, value),
{
    encode_tag(field_number, WIRE_VARINT, out);
    encode_varint(value, out);
    assert(out@ =~= old(out)@ + varint_field(field_number, value));
}

/// Reads the field that starts at `*pos`, advancing `*pos` past it.
pub fn next_field(data: &[u8], pos: &mut usize) -> (field: Option<WireField>)
    requires
        *old(pos) <= data@.len(),
    ensures
        match leading_field(data@.skip(*old(pos) as int)) {
            None => field is None,
            Some((f, n)) => {
                &&& field matches Some(w)
                &&& w.within(data@)
                &&& w.field(data@) == f
                &&& *final(pos) == *old(pos) + n
                &&& *old(pos) < *final(pos) <= data@.len()
            },
        },
{
    let ghost s = data@.skip(*pos as int);
    let ghost start = *pos;
    assert(rest(data@, *pos as int) == s);
    let tag: u64 = match decode_varint(data, pos) {
        Some(tag) => tag,
        None => {
            return None;
        },
    };
    let number: u64 = tag >> 3;
    let wire_type: u64 = tag & 0x7;
    assert(tag >> 3 == tag / 8) by (bit_vector);
    assert(tag & 0x7 == tag % 8) by (bit_vector);
    assert(rest(data@, *pos as int) =~= s.skip(*pos - start));
    if wire_type == WIRE_VARINT as u64 {
        match decode_varint(data, pos) {
            Some(value) => Some(WireField::Varint { number, value }),
            None => None,
        }
    } else if wire_type == WIRE_BYTES as u64 {
        let len: u64 = match decode_varint(data, pos) {
            Some(len) => len,
            None => {
                return None;
            },
        };
        let len: usize = len as usize;
        // The peer chooses `len`: compare without adding.
        if len > data.len() - *pos {
            return None;
        }
        let from: usize = *pos;
        *pos = from + len;
        assert(s.subrange(from - start, from - start + len) =~= data@.subrange(
            from as int,
            from + len,
        ));
        Some(WireField::Bytes { number, start: from, end: from + len })
    } else {
        None
    }
}

/// Adding a field at the end either makes it the one that counts or changes
/// nothing.
pub proof fn lemma_last_push(fs: Seq<Field>, f: Field)
    ensures
        forall|wanted: u64| #[trigger]
            last_varint(fs.push(f), wanted) == (match f {
                Field::Varint { number, value } if number == wanted => Some(value),
                _ => last_varint(fs, wanted),
            }),
        forall|lo: u64, hi: u64| #[trigger]
            last_bytes(fs.push(f), lo, hi) == (match f {
                Field::Bytes { number, data } if lo <= number <= hi => Some(data),
                _ => last_bytes(fs, lo, hi),
            }),
{
    assert(fs.push(f).drop_last() =~= fs);
}

/// A field at the front counts only where no later one does.
pub proof fn lemma_last_prepend(f: Field, fs: Seq<Field>, wanted: u64, lo: u64, hi: u64)
    ensures
        last_varint(seq![f] + fs, wanted) == (match last_varint(fs, wanted) {
            Some(v) => Some(v),
            None => match f {
                Field::Varint { number, value } if number == wanted => Some(value),
                _ => None,
            },
        }),
        last_bytes(seq![f] + fs, lo, hi) == (match last_bytes(fs, lo, hi) {
            Some(d) => Some(d),
            None => match f {
                Field::Bytes { number, data } if lo <= number <= hi => Some(data),
                _ => None,
            },
        }),
    decreases fs.len(),
{
    if fs.len() == 0 {
        assert((seq![f] + fs).drop_last() =~= Seq::<Field>::empty());
        assert((seq![f] + fs).last() == f);
        assert(last_varint(Seq::<Field>::empty(), wanted) is None);
        assert(last_bytes(Seq::<Field>::empty(), lo, hi) is None);
    } else {
        lemma_last_prepend(f, fs.drop_last(), wanted, lo, hi);
        assert((seq![f] + fs).drop_last() =~= seq![f] + fs.drop_last());
        assert((seq![f] + fs).last() == fs.last());
    }
}

/// An encoded varint field is read back as that field, whatever follows it.
pub proof fn law_varint_field_round_trip(field_number: u32, value: u64, tail: Seq<u8>)
    ensures
        fields(varint_field(field_number, value) + tail) == seq![
            Field::Varint { number: field_number as u64, value },
        ] + fields(tail),
{
    let t = tag_bytes(field_number, WIRE_VARINT);
    let v = varint_bytes(value as nat);
    let s = varint_field(field_number, value) + tail;
    law_tag_value(field_number, WIRE_VARINT);
    law_varint_round_trip(tag_value(field_number, WIRE_VARINT), v + tail);
    assert(s =~= t + (v + tail));
    assert(s.skip(t.len() as int) =~= v + tail);
    law_varint_round_trip(value, tail);
    assert(s.skip((t.len() + v.len()) as int) =~= tail);
}

/// An encoded length-delimited field is read back as that field, whatever
/// follows it.
pub proof fn law_bytes_field_round_trip(field_number: u32, data: Seq<u8>, tail: Seq<u8>)
    requires
        data.len() <= usize::MAX,
    ensures
        fields(bytes_field(field_number, data) + tail) == seq![
            Field::Bytes { number: field_number as u64, data },
        ] + fields(tail),
{
    let t = tag_bytes(field_number, WIRE_BYTES);
    let l = varint_bytes(data.len());
    let s = bytes_field(field_number, data) + tail;
    law_tag_value(field_number, WIRE_BYTES);
    law_varint_round_trip(tag_value(field_number, WIRE_BYTES), l + data + tail);
    assert(s =~= t + (l + data + tail));
    assert(s.skip(t.len() as int) =~= l + (data + tail));
    law_varint_round_trip(data.len() as u64, data + tail);
    let from = t.len() + l.len();
    assert(s.subrange(from as int, (from + data.len()) as int) =~= data);
    assert(s.skip((from + data.len()) as int) =~= tail);
}

/// The low three bits of a tag are those of the wire type; what the wire type has
/// above them runs into the field number.
pub proof fn law_tag_bits(field_number: u32, wire_type: u8)
    ensures
        tag_value(field_number, wire_type) % 8 == wire_type % 8,
        tag_value(field_number, wire_type) / 8 == (field_number as u64) | ((wire_type / 8) as u64),
{
    let f = field_number as u64;
    let w = wire_type;
    assert(((f << 3) | (w as u64)) % 8 == w % 8) by (bit_vector);
    assert(((f << 3) | (w as u64)) / 8 == f | ((w / 8) as u64)) by (bit_vector)
        requires
            f <= 0xFFFF_FFFF,
    ;
}

/// A length-delimited field is the varint of eight times its number and two, the
/// varint of the length, and the contents; a varint field is the varint of eight
/// times its number, and the varint of the value.
pub proof fn law_field_layout(field_number: u32, data: Seq<u8>, value: u64)
    ensures
        bytes_field(field_number, data) == varint_bytes((8 * field_number + 2) as nat)
            + varint_bytes(data.len()) + data,
        varint_field(field_number, value) == varint_bytes((8 * field_number) as nat)
            + varint_bytes(value as nat),
{
    law_tag_value(field_number, 2);
    law_tag_value(field_number, 0);
}

/// A field starts with a varint, the tag, and goes on with another. With 0 in the
/// tag's low three bits the second is the value; with 2 it is the length of the
/// contents, which must all be there; with anything else there is no field.
pub proof fn law_leading_field(s: Seq<u8>)
    ensures
        leading_varint(s) is None ==> leading_field(s) is None,
        leading_varint(s) matches Some((tag, n)) ==> {
            let after = s.skip(n as int);
            &&& tag % 8 != 0 && tag % 8 != 2 ==> leading_field(s) is None
            &&& leading_varint(after) is None ==> leading_field(s) is None
            &&& leading_varint(after) matches Some((v, m)) ==> {
                let contents = after.skip(m as int);
                let len = (v as usize) as int;
                &&& tag % 8 == 0 ==> leading_field(s) == Some(
                    (Field::Varint { number: tag / 8, value: v }, n + m),
                )
                &&& tag % 8 == 2 && len <= contents.len() ==> leading_field(s) == Some(
                    (
                        Field::Bytes { number: tag / 8, data: contents.take(len) },
                        (n + m + len) as nat,
                    ),
                )
                &&& tag % 8 == 2 && len > contents.len() ==> leading_field(s) is None
            }
        },
{
    if let Some((tag, n)) = leading_varint(s) {
        let after = s.skip(n as int);
        if let Some((v, m)) = leading_varint(after) {
            let contents = after.skip(m as int);
            let len = (v as usize) as int;
            assert(contents.len() == s.len() - n - m);
            if len <= contents.len() {
                assert(contents.take(len) =~= s.subrange((n + m) as int, n + m + len));
            }
        }
    }
}

/// Fields are read one behind the other, until there is none.
pub proof fn law_fields_follow_each_other(s: Seq<u8>)
    ensures
        leading_field(s) is None ==> fields(s).len() == 0,
        leading_field(s) matches Some((f, n)) ==> {
            &&& 0 < n <= s.len()
            &&& fields(s).len() == fields(s.skip(n as int)).len() + 1
            &&& fields(s)[0] == f
            &&& fields(s).skip(1) == fields(s.skip(n as int))
        },
{
    if let Some((f, n)) = leading_field(s) {
        assert(fields(s).skip(1) =~= fields(s.skip(n as int)));
    }
}

/// `f` is a varint field with the given number.
pub open spec fn is_varint(f: Field, number: u64) -> bool {
    f is Varint && f->Varint_number == number
}

/// `f` is a length-delimited field whose number lies in `lo..=hi`.
pub open spec fn is_bytes(f: Field, lo: u64, hi: u64) -> bool {
    f is Bytes && lo <= f->Bytes_number <= hi
}

/// The last varint field with a number is the one that no other follows.
pub proof fn law_last_varint(fs: Seq<Field>, wanted: u64, i: int)
    ensures
        0 <= i < fs.len() && is_varint(fs[i], wanted) && (forall|j: int|
            i < j < fs.len() ==> !is_varint(#[trigger] fs[j], wanted)) ==> last_varint(fs, wanted)
            == Some(fs[i]->value),
        (forall|j: int| 0 <= j < fs.len() ==> !is_varint(#[trigger] fs[j], wanted))
            ==> last_varint(fs, wanted) is None,
    decreases fs.len(),
{
    if fs.len() > 0 {
        let init = fs.drop_last();
        law_last_varint(init, wanted, i);
        assert forall|j: int| 0 <= j < init.len() implies init[j] == fs[j] by {}
        if is_varint(fs.last(), wanted) {
            assert(is_varint(fs[fs.len() - 1], wanted));
        }
    }
}

/// The last length-delimited field of a range is the one that no other follows.
pub proof fn law_last_bytes(fs: Seq<Field>, lo: u64, hi: u64, i: int)
    ensures
        0 <= i < fs.len() && is_bytes(fs[i], lo, hi) && (forall|j: int|
            i < j < fs.len() ==> !is_bytes(#[trigger] fs[j], lo, hi)) ==> last_bytes(fs, lo, hi)
            == Some(fs[i]->data),
        (forall|j: int| 0 <= j < fs.len() ==> !is_bytes(#[trigger] fs[j], lo, hi))
            ==> last_bytes(fs, lo, hi) is None,
    decreases fs.len(),
{
    if fs.len() > 0 {
        let init = fs.drop_last();
        law_last_bytes(init, lo, hi, i);
        assert forall|j: int| 0 <= j < init.len() implies init[j] == fs[j] by {}
        if is_bytes(fs.last(), lo, hi) {
            assert(is_bytes(fs[fs.len() - 1], lo, hi));
        }
    }
}

} // verus!
