use lockstep_client::base::KCPError;
use lockstep_client::fields::{find_bytes, find_string, find_uint32, scan, Field};
use lockstep_client::wire::{bits_to_i32, i32_to_bits, FieldValue};

fn field(number: u32, value: FieldValue) -> Field {
    Field { number, value }
}

#[test]
fn scan_reads_every_wire_type() {
    let mut bytes = Vec::new();
    bytes.extend_from_slice(&[0x48, 0x96, 0x01]);
    bytes.extend_from_slice(&[0x11, 1, 2, 3, 4, 5, 6, 7, 8]);
    bytes.extend_from_slice(&[0x1a, 3, b'a', b'b', b'c']);
    bytes.extend_from_slice(&[0x25, 1, 2, 3, 4]);
    bytes.extend_from_slice(&[0x2a, 0]);
    let fields = scan(&bytes).unwrap();
    assert_eq!(
        fields,
        vec![
            field(9, FieldValue::Varint(150)),
            field(2, FieldValue::Fixed64(0x0807_0605_0403_0201)),
            field(3, FieldValue::Bytes(vec![b'a', b'b', b'c'])),
            field(4, FieldValue::Fixed32(0x0403_0201)),
            field(5, FieldValue::Bytes(vec![])),
        ]
    );
    assert_eq!(scan(&[]), Ok(vec![]));
}

#[test]
fn scan_passes_over_a_group() {
    assert_eq!(scan(&[0x0b, 0x0c]), Ok(vec![field(1, FieldValue::Group)]));
    let mut bytes = vec![0x08, 0x01];
    bytes.extend_from_slice(&[0x3b, 0x08, 0x96, 0x01, 0x12, 1, 0xff, 0x19]);
    bytes.extend_from_slice(&[1, 2, 3, 4, 5, 6, 7, 8, 0x25, 1, 2, 3, 4, 0x3c]);
    bytes.extend_from_slice(&[0x10, 0x02]);
    assert_eq!(
        scan(&bytes),
        Ok(vec![
            field(1, FieldValue::Varint(1)),
            field(7, FieldValue::Group),
            field(2, FieldValue::Varint(2)),
        ])
    );
    // closed by a tag of another number
    assert_eq!(scan(&[0x0b, 0x14]), Ok(vec![field(1, FieldValue::Group)]));
    // not closed, cut within, or with a group inside
    let broken: Vec<Vec<u8>> = vec![
        vec![0x0b],
        vec![0x0b, 0x08],
        vec![0x0b, 0x08, 0x01],
        vec![0x0b, 0x12, 3, 1, 0x0c],
        vec![0x0b, 0x13, 0x14, 0x0c],
        vec![0x0b, 0x00, 0x0c],
    ];
    for bytes in broken {
        assert_eq!(scan(&bytes), Err(KCPError::Protobuf));
    }
}

#[test]
fn lookups_fail_on_a_group() {
    let fields = vec![field(1, FieldValue::Group), field(2, FieldValue::Varint(3))];
    assert_eq!(find_uint32(&fields, 1, u32::MAX), None);
    assert_eq!(find_bytes(&fields, 1), None);
    assert_eq!(find_string(&fields, 1), None);
    assert_eq!(find_uint32(&fields, 2, u32::MAX), Some(3));
}

#[test]
fn scan_reads_field_numbers_and_values_of_every_length() {
    // the largest field number with the largest value
    let mut bytes = vec![0xf8, 0xff, 0xff, 0xff, 0x0f];
    bytes.extend_from_slice(&[0xff; 9]);
    bytes.push(0x01);
    assert_eq!(
        scan(&bytes),
        Ok(vec![field(0x1fff_ffff, FieldValue::Varint(u64::MAX))])
    );
    // a tag of more than 32 bits is cut to 32 bits
    assert_eq!(
        scan(&[0x88, 0x80, 0x80, 0x80, 0x10, 0x07]),
        Ok(vec![field(1, FieldValue::Varint(7))])
    );
    // bits beyond the 64th are dropped
    let mut bytes = vec![0x08];
    bytes.extend_from_slice(&[0x80; 9]);
    bytes.push(0x7e);
    assert_eq!(scan(&bytes), Ok(vec![field(1, FieldValue::Varint(0))]));
    // a value may be written longer than it needs
    assert_eq!(
        scan(&[0x08, 0x81, 0x80, 0x00]),
        Ok(vec![field(1, FieldValue::Varint(1))])
    );
}

#[test]
fn scan_fails_where_the_bytes_are_no_fields() {
    let broken: Vec<Vec<u8>> = vec![
        vec![0x08],
        vec![0x80],
        vec![0x00, 0x00],
        vec![0x0e, 0x00],
        vec![0x0f, 0x00],
        vec![0x0b],
        vec![0x0c],
        vec![0x09, 1, 2, 3, 4, 5, 6, 7],
        vec![0x0d, 1, 2, 3],
        vec![0x0a, 2, 1],
        vec![0x0a, 0xff, 0xff, 0xff, 0xff, 0x0f, 1],
        vec![0x0a],
        vec![0x08, 0x01, 0x08],
    ];
    for bytes in broken {
        assert_eq!(scan(&bytes), Err(KCPError::Protobuf));
    }
    // eleven bytes of tag
    let mut bytes = vec![0x80; 10];
    bytes.push(0x01);
    bytes.push(0x00);
    assert_eq!(scan(&bytes), Err(KCPError::Protobuf));
}

#[test]
fn lookups_take_the_last_occurrence() {
    let fields = vec![
        field(1, FieldValue::Varint(5)),
        field(2, FieldValue::Bytes(vec![1])),
        field(3, FieldValue::Bytes(vec![b'x'])),
        field(1, FieldValue::Varint(0x1_0000_0006)),
        field(2, FieldValue::Bytes(vec![2, 3])),
        field(3, FieldValue::Bytes(vec![0xc3, 0xa4])),
        field(7, FieldValue::Fixed32(1)),
    ];
    assert_eq!(find_uint32(&fields, 1, u32::MAX), Some(6));
    assert_eq!(find_bytes(&fields, 2), Some(vec![2, 3]));
    assert_eq!(find_string(&fields, 3), Some("\u{e4}".to_string()));
    // what is absent has its default
    assert_eq!(find_uint32(&fields, 4, u32::MAX), Some(0));
    assert_eq!(find_bytes(&fields, 4), Some(vec![]));
    assert_eq!(find_string(&fields, 4), Some(String::new()));
    // a value over the bound is passed over
    assert_eq!(find_uint32(&fields, 1, 5), Some(5));
    assert_eq!(find_uint32(&fields, 1, 4), Some(0));
}

#[test]
fn lookups_fail_on_another_wire_type() {
    let fields = vec![
        field(1, FieldValue::Varint(5)),
        field(2, FieldValue::Bytes(vec![1])),
        field(3, FieldValue::Fixed64(1)),
        field(4, FieldValue::Bytes(vec![0xff])),
        field(4, FieldValue::Bytes(vec![b'a'])),
    ];
    assert_eq!(find_uint32(&fields, 2, u32::MAX), None);
    assert_eq!(find_uint32(&fields, 3, u32::MAX), None);
    assert_eq!(find_bytes(&fields, 1), None);
    assert_eq!(find_bytes(&fields, 3), None);
    assert_eq!(find_string(&fields, 1), None);
    assert_eq!(find_string(&fields, 3), None);
    // every occurrence of a string must be UTF-8
    assert_eq!(find_string(&fields, 4), None);
    assert_eq!(find_bytes(&fields, 4), Some(vec![b'a']));
}

#[test]
fn strings_must_be_utf8() {
    let valid: Vec<(Vec<u8>, &str)> = vec![
        (vec![], ""),
        (vec![0x41], "A"),
        (vec![0xc3, 0xa4], "\u{e4}"),
        (vec![0xe2, 0x82, 0xac], "\u{20ac}"),
        (vec![0xf0, 0x9f, 0x98, 0x80], "\u{1F600}"),
        (vec![0xf4, 0x8f, 0xbf, 0xbf], "\u{10FFFF}"),
        (vec![0xed, 0x9f, 0xbf], "\u{D7FF}"),
    ];
    for (bytes, chars) in valid {
        let fields = vec![field(1, FieldValue::Bytes(bytes))];
        assert_eq!(find_string(&fields, 1), Some(chars.to_string()));
    }
    let invalid: Vec<Vec<u8>> = vec![
        vec![0x80],
        vec![0xc3],
        vec![0xc0, 0x80],
        vec![0xe0, 0x80, 0x80],
        vec![0xed, 0xa0, 0x80],
        vec![0xf4, 0x90, 0x80, 0x80],
        vec![0xf8, 0x88, 0x80, 0x80, 0x80],
        vec![0x41, 0xff],
    ];
    for bytes in invalid {
        let fields = vec![field(1, FieldValue::Bytes(bytes))];
        assert_eq!(find_string(&fields, 1), None);
    }
}

#[test]
fn signed_values_are_two_s_complement() {
    assert_eq!(i32_to_bits(0), 0);
    assert_eq!(i32_to_bits(1), 1);
    assert_eq!(i32_to_bits(i32::MAX), 0x7fff_ffff);
    assert_eq!(i32_to_bits(-1), 0xffff_ffff);
    assert_eq!(i32_to_bits(i32::MIN), 0x8000_0000);
    for v in [0, 1, -1, 77, -77, i32::MAX, i32::MIN, i32::MIN + 1] {
        assert_eq!(i32_to_bits(v), v as u32);
        assert_eq!(bits_to_i32(v as u32), v);
        assert_eq!(bits_to_i32(i32_to_bits(v)), v);
    }
}
