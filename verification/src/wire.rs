//! Byte-level encodings the codecs are built from, and the calls into the
//! `protobuf`, `bincode` and `byteorder` crates that produce and read them.
//!
//! The functions marked `external_body` are not verified: each states what the
//! outside function it calls does, and the rest of the crate is proved from
//! those statements.

use bincode::Options;
use vstd::prelude::*;
use vstd::utf8::{decode_utf8, valid_utf8};

verus! {

/// Wire type of a variable-length integer.
pub const WIRE_VARINT: u32 = 0;

/// Wire type of eight little-endian bytes.
pub const WIRE_FIXED64: u32 = 1;

/// Wire type of a length-prefixed run of bytes.
pub const WIRE_BYTES: u32 = 2;

/// Wire type of the tag that opens a group.
pub const WIRE_START_GROUP: u32 = 3;

/// Wire type of the tag that closes a group.
pub const WIRE_END_GROUP: u32 = 4;

/// Wire type of four little-endian bytes.
pub const WIRE_FIXED32: u32 = 5;

/// Largest field number a tag can carry.
pub const FIELD_NUMBER_MAX: u32 = 0x1fff_ffff;

/// Base-128 encoding of `v`, low group first, every byte but the last with
/// its high bit set.
pub open spec fn varint(v: nat) -> Seq<u8>
    decreases v,
{
    if v < 128 {
        seq![v as u8]
    } else {
        seq![(v % 128 + 128) as u8] + varint(v / 128)
    }
}

/// Length of the varint at the head of `bytes`, looking at no more than
/// `limit` bytes: the position after the first byte below 0x80.
pub open spec fn varint_len(bytes: Seq<u8>, limit: nat) -> Option<nat>
    decreases limit,
{
    if limit == 0 || bytes.len() == 0 {
        None
    } else if bytes[0] < 0x80 {
        Some(1)
    } else {
        match varint_len(bytes.skip(1), (limit - 1) as nat) {
            Some(n) => Some(n + 1),
            None => None,
        }
    }
}

/// Sum of the low seven bits of the first `n` bytes, each group weighted by
/// its position.
pub open spec fn varint_sum(bytes: Seq<u8>, n: nat) -> nat
    decreases n,
{
    if n == 0 || bytes.len() == 0 {
        0
    } else {
        (bytes[0] % 128) as nat + 128 * varint_sum(bytes.skip(1), (n - 1) as nat)
    }
}

/// The varint at the head of `bytes` as a 64-bit value, with its length. A
/// varint is at most ten bytes long; bits beyond the 64th are dropped.
pub open spec fn read_varint(bytes: Seq<u8>) -> Option<(u64, nat)> {
    match varint_len(bytes, 10) {
        Some(n) => Some(((varint_sum(bytes, n) % 0x1_0000_0000_0000_0000) as u64, n)),
        None => None,
    }
}

/// Little-endian value of `bytes`.
pub open spec fn le_value(bytes: Seq<u8>) -> nat
    decreases bytes.len(),
{
    if bytes.len() == 0 {
        0
    } else {
        bytes[0] as nat + 256 * le_value(bytes.skip(1))
    }
}

/// The `n` little-endian bytes of `v`.
pub open spec fn le_bytes(v: nat, n: nat) -> Seq<u8>
    decreases n,
{
    if n == 0 {
        Seq::empty()
    } else {
        seq![(v % 256) as u8] + le_bytes(v / 256, (n - 1) as nat)
    }
}

/// Header of a field: the varint of the field number shifted left by three,
/// plus the wire type.
pub open spec fn tag_bytes(field: u32, wire_type: u32) -> Seq<u8> {
    varint((field * 8 + wire_type) as nat)
}

/// A varint field as it stands on the wire.
pub open spec fn uint32_field(field: u32, value: u32) -> Seq<u8> {
    tag_bytes(field, WIRE_VARINT) + varint(value as nat)
}

/// A length-prefixed field as it stands on the wire.
pub open spec fn bytes_field(field: u32, bytes: Seq<u8>) -> Seq<u8> {
    tag_bytes(field, WIRE_BYTES) + varint(bytes.len()) + bytes
}

/// The tag at the head of `bytes`: field number, wire type and length. The
/// varint is cut to 32 bits; a wire type above 5 or a field number of 0 is
/// no tag.
pub open spec fn read_tag(bytes: Seq<u8>) -> Option<(u32, u32, nat)> {
    match read_varint(bytes) {
        Some((v, n)) => {
            let t = (v % 0x1_0000_0000) as u32;
            if t % 8 <= 5 && t / 8 != 0 {
                Some((t / 8, t % 8, n))
            } else {
                None
            }
        },
        None => None,
    }
}

/// What a field holds, by wire type.
#[derive(Debug, Clone, PartialEq, Eq)]
pub enum FieldValue {
    Varint(u64),
    Fixed64(u64),
    Bytes(Vec<u8>),
    Fixed32(u32),
    /// A group, which is passed over.
    Group,
}

/// A [`FieldValue`] as a mathematical value.
pub ghost enum FieldValueView {
    Varint(u64),
    Fixed64(u64),
    Bytes(Seq<u8>),
    Fixed32(u32),
    Group,
}

impl View for FieldValue {
    type V = FieldValueView;

    open spec fn view(&self) -> FieldValueView {
        match *self {
            FieldValue::Varint(v) => FieldValueView::Varint(v),
            FieldValue::Fixed64(v) => FieldValueView::Fixed64(v),
            FieldValue::Bytes(b) => FieldValueView::Bytes(b@),
            FieldValue::Fixed32(v) => FieldValueView::Fixed32(v),
            FieldValue::Group => FieldValueView::Group,
        }
    }
}

/// The value of wire type `wire_type` at the head of `bytes`, with its
/// length. The two group wire types hold no value: a group is read by
/// [`group_len`].
pub open spec fn read_value(wire_type: u32, bytes: Seq<u8>) -> Option<(FieldValueView, nat)> {
    if wire_type == WIRE_VARINT {
        match read_varint(bytes) {
            Some((v, n)) => Some((FieldValueView::Varint(v), n)),
            None => None,
        }
    } else if wire_type == WIRE_FIXED64 {
        if bytes.len() >= 8 {
            Some((FieldValueView::Fixed64(le_value(bytes.take(8)) as u64), 8))
        } else {
            None
        }
    } else if wire_type == WIRE_FIXED32 {
        if bytes.len() >= 4 {
            Some((FieldValueView::Fixed32(le_value(bytes.take(4)) as u32), 4))
        } else {
            None
        }
    } else if wire_type == WIRE_BYTES {
        match read_varint(bytes) {
            Some((v, n)) => {
                let len = (v % 0x1_0000_0000) as nat;
                if n + len <= bytes.len() {
                    Some((FieldValueView::Bytes(bytes.subrange(n as int, (n + len) as int)), n + len))
                } else {
                    None
                }
            },
            None => None,
        }
    } else {
        None
    }
}

/// Length of what is left of a group after the tag that opened it: tags and
/// values up to the first closing tag, and that tag. A group within the
/// group makes it no group.
pub open spec fn group_len(bytes: Seq<u8>) -> Option<nat>
    decreases bytes.len(),
{
    match read_tag(bytes) {
        Some((_, wire_type, n)) => if wire_type == WIRE_END_GROUP {
            Some(n)
        } else {
            match read_value(wire_type, bytes.skip(n as int)) {
                Some((_, m)) => if 0 < n + m <= bytes.len() {
                    match group_len(bytes.skip((n + m) as int)) {
                        Some(k) => Some(n + m + k),
                        None => None,
                    }
                } else {
                    None
                },
                None => None,
            }
        },
        None => None,
    }
}

/// `protobuf::ProtobufError`, carried through as it comes.
#[verifier::external_type_specification]
#[verifier::external_body]
pub struct ExProtobufError(protobuf::ProtobufError);

/// `bincode::ErrorKind`, carried through as it comes.
#[verifier::external_type_specification]
#[verifier::external_body]
pub struct ExBincodeErrorKind(bincode::ErrorKind);

/// `protobuf::CodedOutputStream::write_uint32` on a stream that appends to
/// `out`: the field's tag and the value's varint are appended, and writing to
/// a vector does not fail.
#[verifier::external_body]
pub(crate) fn pb_write_uint32(out: &mut Vec<u8>, field: u32, value: u32) -> (res: Result<
    (),
    protobuf::ProtobufError,
>)
    requires
        1 <= field <= FIELD_NUMBER_MAX,
    ensures
        res is Ok,
        final(out)@ == old(out)@ + uint32_field(field, value),
{
    let mut os = protobuf::CodedOutputStream::vec(out);
    os.write_uint32(field, value)?;
    os.flush()
}

/// `protobuf::CodedOutputStream::write_bytes` on a stream that appends to
/// `out`: the field's tag, the length's varint and the bytes are appended,
/// and writing to a vector does not fail.
#[verifier::external_body]
pub(crate) fn pb_write_bytes(out: &mut Vec<u8>, field: u32, bytes: &[u8]) -> (res: Result<
    (),
    protobuf::ProtobufError,
>)
    requires
        1 <= field <= FIELD_NUMBER_MAX,
        bytes@.len() <= u32::MAX,
    ensures
        res is Ok,
        final(out)@ == old(out)@ + bytes_field(field, bytes@),
{
    let mut os = protobuf::CodedOutputStream::vec(out);
    os.write_bytes(field, bytes)?;
    os.flush()
}

/// `protobuf::CodedInputStream::read_tag_unpack` at the head of `bytes`:
/// field number, wire type as its number, and the bytes consumed. It fails
/// where the varint is cut short or overlong, or is no tag.
#[verifier::external_body]
pub(crate) fn pb_read_tag(bytes: &[u8]) -> (res: Result<(u32, u32, usize), protobuf::ProtobufError>)
    ensures
        res is Ok <==> read_tag(bytes@) is Some,
        res matches Ok(t) ==> read_tag(bytes@) == Some((t.0, t.1, t.2 as nat)),
{
    let mut is = protobuf::CodedInputStream::from_bytes(bytes);
    let (field, wire_type) = is.read_tag_unpack()?;
    Ok((field, wire_type as u32, is.pos() as usize))
}

/// `protobuf::CodedInputStream::read_unknown` at the head of `bytes`: the
/// value of the given wire type and the bytes consumed. It fails where the
/// bytes run out, and for the two group wire types.
#[verifier::external_body]
pub(crate) fn pb_read_unknown(wire_type: u32, bytes: &[u8]) -> (res: Result<
    (FieldValue, usize),
    protobuf::ProtobufError,
>)
    requires
        wire_type <= 5,
    ensures
        res is Ok <==> read_value(wire_type, bytes@) is Some,
        res matches Ok(t) ==> read_value(wire_type, bytes@) == Some((t.0@, t.1 as nat)),
{
    let mut is = protobuf::CodedInputStream::from_bytes(bytes);
    let wire_type = protobuf::wire_format::WireType::new(wire_type).unwrap();
    let value = match is.read_unknown(wire_type)? {
        protobuf::UnknownValue::Varint(v) => FieldValue::Varint(v),
        protobuf::UnknownValue::Fixed64(v) => FieldValue::Fixed64(v),
        protobuf::UnknownValue::LengthDelimited(b) => FieldValue::Bytes(b),
        protobuf::UnknownValue::Fixed32(v) => FieldValue::Fixed32(v),
    };
    Ok((value, is.pos() as usize))
}

/// `protobuf::rt::read_unknown_or_skip_group` for the field `field`, whose
/// tag opened a group, at the head of what follows that tag: the bytes
/// consumed up to and with the tag that closes the group. It fails where a
/// tag or a value within the group cannot be read, and where another group
/// opens within it.
#[verifier::external_body]
pub(crate) fn pb_skip_group(field: u32, bytes: &[u8]) -> (res: Result<
    usize,
    protobuf::ProtobufError,
>)
    ensures
        res is Ok <==> group_len(bytes@) is Some,
        res matches Ok(n) ==> group_len(bytes@) == Some(n as nat),
{
    let mut is = protobuf::CodedInputStream::from_bytes(bytes);
    let mut unknown = protobuf::UnknownFields::new();
    let group = protobuf::wire_format::WireType::WireTypeStartGroup;
    protobuf::rt::read_unknown_or_skip_group(field, group, &mut is, &mut unknown)?;
    Ok(is.pos() as usize)
}

/// `String::from_utf8`: the string the bytes spell, where they are valid
/// UTF-8.
#[verifier::external_body]
pub(crate) fn string_from_utf8(bytes: Vec<u8>) -> (res: Option<String>)
    ensures
        res is Some <==> valid_utf8(bytes@),
        res matches Some(s) ==> s@ == decode_utf8(bytes@),
{
    String::from_utf8(bytes).ok()
}

/// `byteorder::BigEndian::read_u16`: the first two bytes, high byte first.
#[verifier::external_body]
pub(crate) fn be_read_u16(buf: &[u8]) -> (res: u16)
    requires
        buf@.len() >= 2,
    ensures
        res == buf@[0] * 256 + buf@[1],
{
    <byteorder::BigEndian as byteorder::ByteOrder>::read_u16(buf)
}

/// `byteorder::BigEndian::write_u16` on the bytes of `buf` from `at` on: the
/// two bytes there become `n`, high byte first.
#[verifier::external_body]
pub(crate) fn be_write_u16(buf: &mut Vec<u8>, at: usize, n: u16)
    requires
        at + 2 <= old(buf)@.len(),
    ensures
        final(buf)@ == old(buf)@.update(at as int, (n / 256) as u8).update(
            at + 1,
            (n % 256) as u8,
        ),
{
    <byteorder::BigEndian as byteorder::ByteOrder>::write_u16(&mut buf[at..], n)
}

/// The 32 bits of `v` in two's complement, as a number.
pub open spec fn i32_bits(v: i32) -> nat {
    if v >= 0 {
        v as nat
    } else {
        (v + 0x1_0000_0000) as nat
    }
}

/// The signed value of 32 bits in two's complement.
pub open spec fn i32_from_bits(bits: nat) -> i32 {
    if bits < 0x8000_0000 {
        bits as i32
    } else {
        (bits - 0x1_0000_0000) as i32
    }
}

/// The 32 bits of `v` in two's complement.
pub fn i32_to_bits(v: i32) -> (res: u32)
    ensures
        res == i32_bits(v),
{
    if v >= 0 {
        v as u32
    } else {
        (v as i64 + 0x1_0000_0000) as u32
    }
}

/// The signed value of 32 bits in two's complement.
pub fn bits_to_i32(bits: u32) -> (res: i32)
    ensures
        res == i32_from_bits(bits as nat),
{
    if bits < 0x8000_0000 {
        bits as i32
    } else {
        (bits as i64 - 0x1_0000_0000) as i32
    }
}

/// `bincode::Options::serialize_into` of a `u64`, with fixed-width integers
/// and a vector as the writer: the eight bytes of the value are appended, low
/// byte first, and the write does not fail.
#[verifier::external_body]
pub(crate) fn fixint_put_u64(out: &mut Vec<u8>, value: u64) -> (res: Result<
    (),
    Box<bincode::ErrorKind>,
>)
    ensures
        res is Ok,
        final(out)@ == old(out)@ + le_bytes(value as nat, 8),
{
    bincode::DefaultOptions::new().with_fixint_encoding().serialize_into(out, &value)
}

/// `bincode::Options::serialize_into` of a `u32`, with fixed-width integers
/// and a vector as the writer: the four bytes of the value are appended, low
/// byte first, and the write does not fail.
#[verifier::external_body]
pub(crate) fn fixint_put_u32(out: &mut Vec<u8>, value: u32) -> (res: Result<
    (),
    Box<bincode::ErrorKind>,
>)
    ensures
        res is Ok,
        final(out)@ == old(out)@ + le_bytes(value as nat, 4),
{
    bincode::DefaultOptions::new().with_fixint_encoding().serialize_into(out, &value)
}

/// `bincode::Options::deserialize` of a `u64`, with fixed-width integers and
/// trailing bytes allowed: the little-endian value of the first eight bytes.
/// It fails where there are fewer.
#[verifier::external_body]
pub(crate) fn fixint_get_u64(bytes: &[u8]) -> (res: Result<u64, Box<bincode::ErrorKind>>)
    ensures
        res is Ok <==> bytes@.len() >= 8,
        res matches Ok(v) ==> v == le_value(bytes@.take(8)),
{
    bincode::DefaultOptions::new().with_fixint_encoding().allow_trailing_bytes().deserialize(bytes)
}

/// `bincode::Options::deserialize` of a `u32`, with fixed-width integers and
/// trailing bytes allowed: the little-endian value of the first four bytes.
/// It fails where there are fewer.
#[verifier::external_body]
pub(crate) fn fixint_get_u32(bytes: &[u8]) -> (res: Result<u32, Box<bincode::ErrorKind>>)
    ensures
        res is Ok <==> bytes@.len() >= 4,
        res matches Ok(v) ==> v == le_value(bytes@.take(4)),
{
    bincode::DefaultOptions::new().with_fixint_encoding().allow_trailing_bytes().deserialize(bytes)
}

/// A varint found within `limit` bytes is between 1 and `limit` bytes long
/// and lies within `bytes`.
pub proof fn lemma_varint_len_bounds(bytes: Seq<u8>, limit: nat)
    ensures
        varint_len(bytes, limit) matches Some(n) ==> 1 <= n <= limit && n <= bytes.len(),
    decreases limit,
{
    if limit != 0 && bytes.len() != 0 && bytes[0] >= 0x80 {
        lemma_varint_len_bounds(bytes.skip(1), (limit - 1) as nat);
    }
}

/// A tag is between 1 and 10 bytes long and lies within `bytes`; its wire
/// type is at most 5.
pub proof fn lemma_read_tag_bounds(bytes: Seq<u8>)
    ensures
        read_tag(bytes) matches Some((field, wire_type, n)) ==> 1 <= n <= 10 && n <= bytes.len()
            && wire_type <= 5 && 1 <= field <= FIELD_NUMBER_MAX,
{
    lemma_varint_len_bounds(bytes, 10);
}

/// A value lies within `bytes`.
pub proof fn lemma_read_value_bounds(wire_type: u32, bytes: Seq<u8>)
    ensures
        read_value(wire_type, bytes) matches Some((value, n)) ==> n <= bytes.len(),
{
    lemma_varint_len_bounds(bytes, 10);
}

/// What is left of a group is at least one byte long and lies within
/// `bytes`.
pub proof fn lemma_group_len_bounds(bytes: Seq<u8>)
    ensures
        group_len(bytes) matches Some(k) ==> 1 <= k <= bytes.len(),
    decreases bytes.len(),
{
    lemma_read_tag_bounds(bytes);
    if let Some((_, wire_type, n)) = read_tag(bytes) {
        if wire_type != WIRE_END_GROUP {
            if let Some((_, m)) = read_value(wire_type, bytes.skip(n as int)) {
                if 0 < n + m <= bytes.len() {
                    lemma_group_len_bounds(bytes.skip((n + m) as int));
                }
            }
        }
    }
}

/// The varint of a value below 2^(7k) is at most k bytes long, that of a
/// 64-bit value at most ten, and no varint is empty.
pub proof fn lemma_varint_size(v: nat)
    ensures
        1 <= varint(v).len(),
        v < 0x80 ==> varint(v).len() == 1,
        v < 0x4000 ==> varint(v).len() <= 2,
        v < 0x20_0000 ==> varint(v).len() <= 3,
        v < 0x1000_0000 ==> varint(v).len() <= 4,
        v < 0x8_0000_0000 ==> varint(v).len() <= 5,
        v < 0x400_0000_0000 ==> varint(v).len() <= 6,
        v < 0x2_0000_0000_0000 ==> varint(v).len() <= 7,
        v < 0x100_0000_0000_0000 ==> varint(v).len() <= 8,
        v < 0x8000_0000_0000_0000 ==> varint(v).len() <= 9,
        v < 0x1_0000_0000_0000_0000 ==> varint(v).len() <= 10,
    decreases v,
{
    if v >= 128 {
        lemma_varint_size(v / 128);
    }
}

/// Reading finds the varint that was written, whatever follows it.
pub proof fn lemma_varint_scan(v: nat, rest: Seq<u8>, limit: nat)
    requires
        varint(v).len() <= limit,
    ensures
        varint_len(varint(v) + rest, limit) == Some(varint(v).len()),
        varint_sum(varint(v) + rest, varint(v).len()) == v,
    decreases v,
{
    let all = varint(v) + rest;
    if v < 128 {
        assert(all[0] == v as u8);
        assert(varint_sum(all.skip(1), 0) == 0);
    } else {
        assert(all[0] == (v % 128 + 128) as u8);
        assert(all.skip(1) =~= varint(v / 128) + rest);
        lemma_varint_scan(v / 128, rest, (limit - 1) as nat);
    }
}

/// A 64-bit value is read back from its varint, whatever follows it.
pub proof fn lemma_read_varint(v: u64, rest: Seq<u8>)
    ensures
        read_varint(varint(v as nat) + rest) == Some((v, varint(v as nat).len())),
{
    lemma_varint_size(v as nat);
    lemma_varint_scan(v as nat, rest, 10);
}

/// A tag is read back from its bytes, whatever follows them.
pub proof fn lemma_read_tag(field: u32, wire_type: u32, rest: Seq<u8>)
    requires
        1 <= field <= FIELD_NUMBER_MAX,
        wire_type <= 5,
    ensures
        read_tag(tag_bytes(field, wire_type) + rest) == Some(
            (field, wire_type, tag_bytes(field, wire_type).len()),
        ),
{
    let t: u64 = (field * 8 + wire_type) as u64;
    lemma_read_varint(t, rest);
}

/// A varint field is read back as its tag and its value, whatever follows.
pub proof fn lemma_read_uint32_field(field: u32, value: u32, rest: Seq<u8>)
    requires
        1 <= field <= FIELD_NUMBER_MAX,
    ensures
        read_tag(uint32_field(field, value) + rest) == Some(
            (field, WIRE_VARINT, tag_bytes(field, WIRE_VARINT).len()),
        ),
        read_value(
            WIRE_VARINT,
            (uint32_field(field, value) + rest).skip(tag_bytes(field, WIRE_VARINT).len() as int),
        ) == Some((FieldValueView::Varint(value as u64), varint(value as nat).len())),
{
    let tag = tag_bytes(field, WIRE_VARINT);
    let body = varint(value as nat) + rest;
    assert(uint32_field(field, value) + rest =~= tag + body);
    lemma_read_tag(field, WIRE_VARINT, body);
    assert((tag + body).skip(tag.len() as int) =~= body);
    lemma_read_varint(value as u64, rest);
}

/// A bytes field is read back as its tag and its bytes, whatever follows.
pub proof fn lemma_read_bytes_field(field: u32, bytes: Seq<u8>, rest: Seq<u8>)
    requires
        1 <= field <= FIELD_NUMBER_MAX,
        bytes.len() <= u32::MAX,
    ensures
        read_tag(bytes_field(field, bytes) + rest) == Some(
            (field, WIRE_BYTES, tag_bytes(field, WIRE_BYTES).len()),
        ),
        read_value(
            WIRE_BYTES,
            (bytes_field(field, bytes) + rest).skip(tag_bytes(field, WIRE_BYTES).len() as int),
        ) == Some((FieldValueView::Bytes(bytes), varint(bytes.len()).len() + bytes.len())),
{
    let tag = tag_bytes(field, WIRE_BYTES);
    let len = varint(bytes.len());
    let body = len + (bytes + rest);
    assert(bytes_field(field, bytes) + rest =~= tag + body);
    lemma_read_tag(field, WIRE_BYTES, body);
    assert((tag + body).skip(tag.len() as int) =~= body);
    lemma_read_varint(bytes.len() as u64, bytes + rest);
    assert(body.subrange(len.len() as int, (len.len() + bytes.len()) as int) =~= bytes);
}

/// How many values `n` bytes can tell apart.
pub open spec fn le_limit(n: nat) -> nat
    decreases n,
{
    if n == 0 {
        1
    } else {
        256 * le_limit((n - 1) as nat)
    }
}

/// A value that fits in `n` bytes is read back from its `n` little-endian
/// bytes, of which there are `n`.
pub proof fn lemma_le_value_of_bytes(v: nat, n: nat)
    requires
        v < le_limit(n),
    ensures
        le_bytes(v, n).len() == n,
        le_value(le_bytes(v, n)) == v,
    decreases n,
{
    if n != 0 {
        lemma_le_value_of_bytes(v / 256, (n - 1) as nat);
        assert(le_bytes(v, n).skip(1) =~= le_bytes(v / 256, (n - 1) as nat));
    }
}

/// Four bytes tell 2^32 values apart, eight bytes 2^64.
pub proof fn lemma_le_limits()
    ensures
        le_limit(4) == 0x1_0000_0000,
        le_limit(8) == 0x1_0000_0000_0000_0000,
{
    reveal_with_fuel(le_limit, 9);
}

} // verus!
