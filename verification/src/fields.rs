//! A payload as a list of numbered fields: splitting the bytes into fields,
//! and looking a field up by its number.

use crate::base::KCPError;
use crate::wire::{
    bytes_field, group_len, lemma_group_len_bounds, lemma_read_bytes_field, lemma_read_tag_bounds,
    lemma_read_uint32_field, lemma_read_value_bounds, pb_read_tag, pb_read_unknown, pb_skip_group,
    read_tag, read_value, string_from_utf8, uint32_field, FieldValue, FieldValueView,
    FIELD_NUMBER_MAX, WIRE_START_GROUP,
};
use vstd::prelude::*;
use vstd::slice::{slice_subrange, slice_to_vec};
use vstd::utf8::{
    decode_utf8, encode_utf8, encode_utf8_decode_utf8, encode_utf8_valid_utf8, valid_utf8,
};

verus! {

/// One field of a payload.
#[derive(Debug, Clone, PartialEq, Eq)]
pub struct Field {
    pub number: u32,
    pub value: FieldValue,
}

/// A [`Field`] as a mathematical value.
pub ghost struct FieldView {
    pub number: u32,
    pub value: FieldValueView,
}

impl View for Field {
    type V = FieldView;

    open spec fn view(&self) -> FieldView {
        FieldView { number: self.number, value: self.value@ }
    }
}

/// The views of a run of fields.
pub open spec fn fields_view(fields: Seq<Field>) -> Seq<FieldView> {
    fields.map_values(|f: Field| f@)
}

/// The field at the head of `bytes`, tag and value, with its length. A field
/// whose tag opens a group reaches to the tag that closes the group.
pub open spec fn read_field(bytes: Seq<u8>) -> Option<(FieldView, nat)> {
    match read_tag(bytes) {
        Some((number, wire_type, n)) => if wire_type == WIRE_START_GROUP {
            match group_len(bytes.skip(n as int)) {
                Some(k) => Some((FieldView { number, value: FieldValueView::Group }, n + k)),
                None => None,
            }
        } else {
            match read_value(wire_type, bytes.skip(n as int)) {
                Some((value, m)) => Some((FieldView { number, value }, n + m)),
                None => None,
            }
        },
        None => None,
    }
}

/// The fields that `bytes` consist of, in order, where the bytes are fields
/// from end to end.
pub open spec fn scan_fields(bytes: Seq<u8>) -> Option<Seq<FieldView>>
    decreases bytes.len(),
{
    if bytes.len() == 0 {
        Some(Seq::empty())
    } else {
        match read_field(bytes) {
            Some((field, n)) => if 0 < n <= bytes.len() {
                match scan_fields(bytes.skip(n as int)) {
                    Some(rest) => Some(seq![field] + rest),
                    None => None,
                }
            } else {
                None
            },
            None => None,
        }
    }
}

/// Splits a payload into its fields.
pub fn scan(bytes: &[u8]) -> (res: Result<Vec<Field>, KCPError>)
    ensures
        res is Ok <==> scan_fields(bytes@) is Some,
        res matches Ok(fields) ==> scan_fields(bytes@) == Some(fields_view(fields@)),
        res matches Err(e) ==> e == KCPError::Protobuf,
{
    let mut fields: Vec<Field> = Vec::new();
    let mut pos: usize = 0;
    proof {
        assert(bytes@.skip(0) == bytes@);
        assert forall|rest: Seq<FieldView>| #[trigger] (fields_view(fields@) + rest) == rest by {
            assert(fields_view(fields@) + rest =~= rest);
        }
    }
    while pos < bytes.len()
        invariant
            pos <= bytes.len(),
            scan_fields(bytes@) == match scan_fields(bytes@.skip(pos as int)) {
                Some(rest) => Some(fields_view(fields@) + rest),
                None => None,
            },
        decreases bytes.len() - pos,
    {
        let ghost tail = bytes@.skip(pos as int);
        let rest = slice_subrange(bytes, pos, bytes.len());
        assert(rest@ == tail);
        let (number, wire_type, n) = match pb_read_tag(rest) {
            Ok(t) => t,
            Err(_) => {
                return Err(KCPError::Protobuf);
            },
        };
        proof {
            lemma_read_tag_bounds(tail);
        }
        let body = slice_subrange(rest, n, rest.len());
        assert(body@ == tail.skip(n as int));
        let (value, m) = if wire_type == WIRE_START_GROUP {
            match pb_skip_group(number, body) {
                Ok(k) => (FieldValue::Group, k),
                Err(_) => {
                    return Err(KCPError::Protobuf);
                },
            }
        } else {
            match pb_read_unknown(wire_type, body) {
                Ok(t) => t,
                Err(_) => {
                    return Err(KCPError::Protobuf);
                },
            }
        };
        proof {
            lemma_read_value_bounds(wire_type, tail.skip(n as int));
            lemma_group_len_bounds(tail.skip(n as int));
            assert(tail.skip((n + m) as int) == bytes@.skip(pos + n + m));
            let ghost old_view = fields_view(fields@);
            let ghost field = FieldView { number, value: value@ };
            assert(fields_view(fields@.push(Field { number, value })) == old_view.push(field));
            assert forall|rest: Seq<FieldView>|
                old_view + (seq![field] + rest) == #[trigger] (old_view.push(field) + rest) by {
                assert(old_view + (seq![field] + rest) =~= old_view.push(field) + rest);
            }
        }
        fields.push(Field { number, value });
        pos = pos + n + m;
    }
    proof {
        assert(bytes@.skip(pos as int).len() == 0);
        assert(fields_view(fields@) + Seq::<FieldView>::empty() =~= fields_view(fields@));
    }
    Ok(fields)
}

/// The value of the varint field `number`: the low 32 bits of its last
/// occurrence that does not exceed `max`, or 0 where there is none. An
/// occurrence of another wire type is an error.
pub open spec fn last_uint32(fields: Seq<FieldView>, number: u32, max: u32) -> Option<u32>
    decreases fields.len(),
{
    if fields.len() == 0 {
        Some(0)
    } else {
        match last_uint32(fields.drop_last(), number, max) {
            Some(before) => if fields.last().number != number {
                Some(before)
            } else {
                match fields.last().value {
                    FieldValueView::Varint(v) => if v % 0x1_0000_0000 <= max {
                        Some((v % 0x1_0000_0000) as u32)
                    } else {
                        Some(before)
                    },
                    _ => None,
                }
            },
            None => None,
        }
    }
}

/// The value of the bytes field `number`: its last occurrence, or no bytes
/// where there is none. An occurrence of another wire type is an error.
pub open spec fn last_bytes(fields: Seq<FieldView>, number: u32) -> Option<Seq<u8>>
    decreases fields.len(),
{
    if fields.len() == 0 {
        Some(Seq::empty())
    } else {
        match last_bytes(fields.drop_last(), number) {
            Some(before) => if fields.last().number != number {
                Some(before)
            } else {
                match fields.last().value {
                    FieldValueView::Bytes(b) => Some(b),
                    _ => None,
                }
            },
            None => None,
        }
    }
}

/// The value of the string field `number`: its last occurrence, or the empty
/// string where there is none. An occurrence of another wire type, or one
/// that is not UTF-8, is an error.
pub open spec fn last_string(fields: Seq<FieldView>, number: u32) -> Option<Seq<char>>
    decreases fields.len(),
{
    if fields.len() == 0 {
        Some(Seq::empty())
    } else {
        match last_string(fields.drop_last(), number) {
            Some(before) => if fields.last().number != number {
                Some(before)
            } else {
                match fields.last().value {
                    FieldValueView::Bytes(b) => if valid_utf8(b) {
                        Some(decode_utf8(b))
                    } else {
                        None
                    },
                    _ => None,
                }
            },
            None => None,
        }
    }
}

/// Looks up a varint field.
pub fn find_uint32(fields: &Vec<Field>, number: u32, max: u32) -> (res: Option<u32>)
    ensures
        res == last_uint32(fields_view(fields@), number, max),
{
    let mut found: u32 = 0;
    let mut i: usize = 0;
    proof {
        assert(fields_view(fields@).take(0).len() == 0);
    }
    while i < fields.len()
        invariant
            i <= fields.len(),
            last_uint32(fields_view(fields@).take(i as int), number, max) == Some(found),
        decreases fields.len() - i,
    {
        proof {
            let ghost all = fields_view(fields@);
            assert(all.take(i + 1).drop_last() == all.take(i as int));
            assert(all.take(i + 1).last() == fields@[i as int]@);
        }
        if fields[i].number == number {
            match fields[i].value {
                FieldValue::Varint(v) => {
                    let low: u64 = v % 0x1_0000_0000;
                    if low <= max as u64 {
                        found = low as u32;
                    }
                },
                _ => {
                    proof {
                        lemma_last_uint32_error(fields_view(fields@), i + 1, number, max);
                    }
                    return None;
                },
            }
        }
        i = i + 1;
    }
    proof {
        assert(fields_view(fields@).take(i as int) == fields_view(fields@));
    }
    Some(found)
}

/// Looks up a bytes field.
pub fn find_bytes(fields: &Vec<Field>, number: u32) -> (res: Option<Vec<u8>>)
    ensures
        res is Some <==> last_bytes(fields_view(fields@), number) is Some,
        res matches Some(b) ==> last_bytes(fields_view(fields@), number) == Some(b@),
{
    let mut found: Vec<u8> = Vec::new();
    let mut i: usize = 0;
    proof {
        assert(fields_view(fields@).take(0).len() == 0);
    }
    while i < fields.len()
        invariant
            i <= fields.len(),
            last_bytes(fields_view(fields@).take(i as int), number) == Some(found@),
        decreases fields.len() - i,
    {
        proof {
            let ghost all = fields_view(fields@);
            assert(all.take(i + 1).drop_last() == all.take(i as int));
            assert(all.take(i + 1).last() == fields@[i as int]@);
        }
        if fields[i].number == number {
            match &fields[i].value {
                FieldValue::Bytes(b) => {
                    found = slice_to_vec(b.as_slice());
                },
                _ => {
                    proof {
                        lemma_last_bytes_error(fields_view(fields@), i + 1, number);
                    }
                    return None;
                },
            }
        }
        i = i + 1;
    }
    proof {
        assert(fields_view(fields@).take(i as int) == fields_view(fields@));
    }
    Some(found)
}

/// Looks up a string field.
pub fn find_string(fields: &Vec<Field>, number: u32) -> (res: Option<String>)
    ensures
        res is Some <==> last_string(fields_view(fields@), number) is Some,
        res matches Some(s) ==> last_string(fields_view(fields@), number) == Some(s@),
{
    let mut found: String = String::new();
    let mut i: usize = 0;
    proof {
        assert(fields_view(fields@).take(0).len() == 0);
    }
    while i < fields.len()
        invariant
            i <= fields.len(),
            last_string(fields_view(fields@).take(i as int), number) == Some(found@),
        decreases fields.len() - i,
    {
        proof {
            let ghost all = fields_view(fields@);
            assert(all.take(i + 1).drop_last() == all.take(i as int));
            assert(all.take(i + 1).last() == fields@[i as int]@);
        }
        if fields[i].number == number {
            match &fields[i].value {
                FieldValue::Bytes(b) => {
                    match string_from_utf8(slice_to_vec(b.as_slice())) {
                        Some(s) => {
                            found = s;
                        },
                        None => {
                            proof {
                                lemma_last_string_error(fields_view(fields@), i + 1, number);
                            }
                            return None;
                        },
                    }
                },
                _ => {
                    proof {
                        lemma_last_string_error(fields_view(fields@), i + 1, number);
                    }
                    return None;
                },
            }
        }
        i = i + 1;
    }
    proof {
        assert(fields_view(fields@).take(i as int) == fields_view(fields@));
    }
    Some(found)
}

/// A lookup that fails on a prefix fails on the whole.
pub proof fn lemma_last_uint32_error(fields: Seq<FieldView>, i: int, number: u32, max: u32)
    requires
        0 <= i <= fields.len(),
        last_uint32(fields.take(i), number, max) is None,
    ensures
        last_uint32(fields, number, max) is None,
    decreases fields.len() - i,
{
    if i < fields.len() {
        assert(fields.take(i + 1).drop_last() == fields.take(i));
        lemma_last_uint32_error(fields, i + 1, number, max);
    } else {
        assert(fields.take(i) == fields);
    }
}

/// A lookup that fails on a prefix fails on the whole.
pub proof fn lemma_last_bytes_error(fields: Seq<FieldView>, i: int, number: u32)
    requires
        0 <= i <= fields.len(),
        last_bytes(fields.take(i), number) is None,
    ensures
        last_bytes(fields, number) is None,
    decreases fields.len() - i,
{
    if i < fields.len() {
        assert(fields.take(i + 1).drop_last() == fields.take(i));
        lemma_last_bytes_error(fields, i + 1, number);
    } else {
        assert(fields.take(i) == fields);
    }
}

/// A lookup that fails on a prefix fails on the whole.
pub proof fn lemma_last_string_error(fields: Seq<FieldView>, i: int, number: u32)
    requires
        0 <= i <= fields.len(),
        last_string(fields.take(i), number) is None,
    ensures
        last_string(fields, number) is None,
    decreases fields.len() - i,
{
    if i < fields.len() {
        assert(fields.take(i + 1).drop_last() == fields.take(i));
        lemma_last_string_error(fields, i + 1, number);
    } else {
        assert(fields.take(i) == fields);
    }
}

/// A varint field, left out where the value is 0.
pub open spec fn opt_uint32_field(field: u32, value: u32) -> Seq<u8> {
    if value == 0 {
        Seq::empty()
    } else {
        uint32_field(field, value)
    }
}

/// A bytes field, left out where there are no bytes.
pub open spec fn opt_bytes_field(field: u32, bytes: Seq<u8>) -> Seq<u8> {
    if bytes.len() == 0 {
        Seq::empty()
    } else {
        bytes_field(field, bytes)
    }
}

/// A string field, left out where the string is empty.
pub open spec fn opt_string_field(field: u32, chars: Seq<char>) -> Seq<u8> {
    if chars.len() == 0 {
        Seq::empty()
    } else {
        bytes_field(field, encode_utf8(chars))
    }
}

/// The fields that an optional varint field is read as.
pub open spec fn uint32_tokens(field: u32, value: u32) -> Seq<FieldView> {
    if value == 0 {
        Seq::empty()
    } else {
        seq![FieldView { number: field, value: FieldValueView::Varint(value as u64) }]
    }
}

/// The fields that an optional bytes field is read as.
pub open spec fn bytes_tokens(field: u32, bytes: Seq<u8>) -> Seq<FieldView> {
    if bytes.len() == 0 {
        Seq::empty()
    } else {
        seq![FieldView { number: field, value: FieldValueView::Bytes(bytes) }]
    }
}

/// The fields that an optional string field is read as.
pub open spec fn string_tokens(field: u32, chars: Seq<char>) -> Seq<FieldView> {
    if chars.len() == 0 {
        Seq::empty()
    } else {
        seq![FieldView { number: field, value: FieldValueView::Bytes(encode_utf8(chars)) }]
    }
}

/// No field of `fields` has the number `number`.
pub open spec fn no_field(fields: Seq<FieldView>, number: u32) -> bool {
    forall|i: int| 0 <= i < fields.len() ==> (#[trigger] fields[i]).number != number
}

/// Bytes that begin with a field are scanned as that field and what the
/// rest is scanned as.
pub proof fn lemma_scan_field(bytes: Seq<u8>)
    requires
        read_field(bytes) is Some,
    ensures
        ({
            let (field, n) = read_field(bytes)->0;
            &&& 0 < n <= bytes.len()
            &&& scan_fields(bytes) == match scan_fields(bytes.skip(n as int)) {
                Some(rest) => Some(seq![field] + rest),
                None => None,
            }
        }),
{
    lemma_read_tag_bounds(bytes);
    let (number, wire_type, n) = read_tag(bytes)->0;
    lemma_read_value_bounds(wire_type, bytes.skip(n as int));
    lemma_group_len_bounds(bytes.skip(n as int));
}

/// An optional varint field is scanned back, whatever fields follow it.
pub proof fn lemma_scan_uint32(field: u32, value: u32, rest: Seq<u8>)
    requires
        1 <= field <= FIELD_NUMBER_MAX,
    ensures
        scan_fields(opt_uint32_field(field, value) + rest) == match scan_fields(rest) {
            Some(fields) => Some(uint32_tokens(field, value) + fields),
            None => None,
        },
{
    let bytes = opt_uint32_field(field, value) + rest;
    if value == 0 {
        assert(bytes =~= rest);
        if let Some(fields) = scan_fields(rest) {
            assert(uint32_tokens(field, value) + fields =~= fields);
        }
    } else {
        lemma_read_uint32_field(field, value, rest);
        lemma_scan_field(bytes);
        assert(bytes.skip(uint32_field(field, value).len() as int) =~= rest);
    }
}

/// An optional bytes field is scanned back, whatever fields follow it.
pub proof fn lemma_scan_bytes(field: u32, content: Seq<u8>, rest: Seq<u8>)
    requires
        1 <= field <= FIELD_NUMBER_MAX,
        content.len() <= u32::MAX,
    ensures
        scan_fields(opt_bytes_field(field, content) + rest) == match scan_fields(rest) {
            Some(fields) => Some(bytes_tokens(field, content) + fields),
            None => None,
        },
{
    let bytes = opt_bytes_field(field, content) + rest;
    if content.len() == 0 {
        assert(bytes =~= rest);
        if let Some(fields) = scan_fields(rest) {
            assert(bytes_tokens(field, content) + fields =~= fields);
        }
    } else {
        lemma_read_bytes_field(field, content, rest);
        lemma_scan_field(bytes);
        assert(bytes.skip(bytes_field(field, content).len() as int) =~= rest);
    }
}

/// An optional string field is scanned back, whatever fields follow it.
pub proof fn lemma_scan_string(field: u32, chars: Seq<char>, rest: Seq<u8>)
    requires
        1 <= field <= FIELD_NUMBER_MAX,
        encode_utf8(chars).len() <= u32::MAX,
    ensures
        scan_fields(opt_string_field(field, chars) + rest) == match scan_fields(rest) {
            Some(fields) => Some(string_tokens(field, chars) + fields),
            None => None,
        },
{
    let bytes = opt_string_field(field, chars) + rest;
    if chars.len() == 0 {
        assert(bytes =~= rest);
        if let Some(fields) = scan_fields(rest) {
            assert(string_tokens(field, chars) + fields =~= fields);
        }
    } else {
        let content = encode_utf8(chars);
        lemma_read_bytes_field(field, content, rest);
        lemma_scan_field(bytes);
        assert(bytes.skip(bytes_field(field, content).len() as int) =~= rest);
    }
}

/// Fields of other numbers at the end do not change what a varint lookup
/// finds.
pub proof fn lemma_last_uint32_other(
    head: Seq<FieldView>,
    tail: Seq<FieldView>,
    number: u32,
    max: u32,
)
    requires
        no_field(tail, number),
    ensures
        last_uint32(head + tail, number, max) == last_uint32(head, number, max),
    decreases tail.len(),
{
    if tail.len() == 0 {
        assert(head + tail =~= head);
    } else {
        assert((head + tail).drop_last() =~= head + tail.drop_last());
        assert((head + tail).last() == tail[tail.len() - 1]);
        assert forall|i: int| 0 <= i < tail.drop_last().len() implies (
        #[trigger] tail.drop_last()[i]).number != number by {
            assert(tail.drop_last()[i] == tail[i]);
        }
        lemma_last_uint32_other(head, tail.drop_last(), number, max);
    }
}

/// Fields of other numbers at the end do not change what a bytes lookup
/// finds.
pub proof fn lemma_last_bytes_other(head: Seq<FieldView>, tail: Seq<FieldView>, number: u32)
    requires
        no_field(tail, number),
    ensures
        last_bytes(head + tail, number) == last_bytes(head, number),
    decreases tail.len(),
{
    if tail.len() == 0 {
        assert(head + tail =~= head);
    } else {
        assert((head + tail).drop_last() =~= head + tail.drop_last());
        assert((head + tail).last() == tail[tail.len() - 1]);
        assert forall|i: int| 0 <= i < tail.drop_last().len() implies (
        #[trigger] tail.drop_last()[i]).number != number by {
            assert(tail.drop_last()[i] == tail[i]);
        }
        lemma_last_bytes_other(head, tail.drop_last(), number);
    }
}

/// Fields of other numbers at the end do not change what a string lookup
/// finds.
pub proof fn lemma_last_string_other(head: Seq<FieldView>, tail: Seq<FieldView>, number: u32)
    requires
        no_field(tail, number),
    ensures
        last_string(head + tail, number) == last_string(head, number),
    decreases tail.len(),
{
    if tail.len() == 0 {
        assert(head + tail =~= head);
    } else {
        assert((head + tail).drop_last() =~= head + tail.drop_last());
        assert((head + tail).last() == tail[tail.len() - 1]);
        assert forall|i: int| 0 <= i < tail.drop_last().len() implies (
        #[trigger] tail.drop_last()[i]).number != number by {
            assert(tail.drop_last()[i] == tail[i]);
        }
        lemma_last_string_other(head, tail.drop_last(), number);
    }
}

/// An optional varint field among fields of other numbers is found with
/// its value.
pub proof fn lemma_find_uint32(
    head: Seq<FieldView>,
    field: u32,
    value: u32,
    max: u32,
    tail: Seq<FieldView>,
)
    requires
        no_field(head, field),
        no_field(tail, field),
        value <= max,
    ensures
        last_uint32(head + uint32_tokens(field, value) + tail, field, max) == Some(value),
{
    let own = uint32_tokens(field, value);
    lemma_last_uint32_other(head + own, tail, field, max);
    lemma_last_uint32_other(Seq::empty(), head, field, max);
    assert(Seq::<FieldView>::empty() + head =~= head);
    if value == 0 {
        assert(head + own =~= head);
    } else {
        assert((head + own).drop_last() =~= head);
        assert((head + own).last() == own[0]);
        assert((value as u64) % 0x1_0000_0000 == value);
    }
}

/// A varint field whose value is over the bound, among fields of other
/// numbers, is passed over: the lookup finds the default.
pub proof fn lemma_find_uint32_over(
    head: Seq<FieldView>,
    field: u32,
    value: u32,
    max: u32,
    tail: Seq<FieldView>,
)
    requires
        no_field(head, field),
        no_field(tail, field),
        value > max,
    ensures
        last_uint32(head + uint32_tokens(field, value) + tail, field, max) == Some(0u32),
{
    let own = uint32_tokens(field, value);
    lemma_last_uint32_other(head + own, tail, field, max);
    lemma_last_uint32_other(Seq::empty(), head, field, max);
    assert(Seq::<FieldView>::empty() + head =~= head);
    assert((head + own).drop_last() =~= head);
    assert((head + own).last() == own[0]);
    assert((value as u64) % 0x1_0000_0000 == value);
}

/// An optional bytes field among fields of other numbers is found with its
/// bytes.
pub proof fn lemma_find_bytes(
    head: Seq<FieldView>,
    field: u32,
    content: Seq<u8>,
    tail: Seq<FieldView>,
)
    requires
        no_field(head, field),
        no_field(tail, field),
    ensures
        last_bytes(head + bytes_tokens(field, content) + tail, field) == Some(content),
{
    let own = bytes_tokens(field, content);
    lemma_last_bytes_other(head + own, tail, field);
    lemma_last_bytes_other(Seq::empty(), head, field);
    assert(Seq::<FieldView>::empty() + head =~= head);
    if content.len() == 0 {
        assert(head + own =~= head);
        assert(content =~= Seq::<u8>::empty());
    } else {
        assert((head + own).drop_last() =~= head);
        assert((head + own).last() == own[0]);
    }
}

/// An optional string field among fields of other numbers is found with
/// its characters.
pub proof fn lemma_find_string(
    head: Seq<FieldView>,
    field: u32,
    chars: Seq<char>,
    tail: Seq<FieldView>,
)
    requires
        no_field(head, field),
        no_field(tail, field),
    ensures
        last_string(head + string_tokens(field, chars) + tail, field) == Some(chars),
{
    let own = string_tokens(field, chars);
    lemma_last_string_other(head + own, tail, field);
    lemma_last_string_other(Seq::empty(), head, field);
    assert(Seq::<FieldView>::empty() + head =~= head);
    if chars.len() == 0 {
        assert(head + own =~= head);
        assert(chars =~= Seq::<char>::empty());
    } else {
        assert((head + own).drop_last() =~= head);
        assert((head + own).last() == own[0]);
        encode_utf8_valid_utf8(chars);
        encode_utf8_decode_utf8(chars);
    }
}

} // verus!
