//! Compact-integer layout, fixed-width integer encoding, and their
//! agreement with the reference SCALE implementation.
use parity_scale_codec::{Compact, Decode, Encode};
use substrate_codec::compact::{compact_decode, compact_encode};
use substrate_codec::decode::decode_values;
use substrate_codec::encode::encode_values;
use substrate_codec::errors::CodecError;
use substrate_codec::values::{Hint, Tag, Value};

fn compact_bytes_of(v: u64) -> Vec<u8> {
    let mut out = Vec::new();
    compact_encode(v, &mut out);
    out
}

#[test]
fn compact_zero_is_one_zero_byte() {
    assert_eq!(compact_bytes_of(0), vec![0x00]);
}

#[test]
fn compact_single_byte_boundary() {
    assert_eq!(compact_bytes_of(63), vec![0xFC]);
    assert_eq!(compact_bytes_of(1).len(), 1);
    assert_eq!(compact_bytes_of(42), vec![42 << 2]);
}

#[test]
fn compact_two_byte_boundaries() {
    assert_eq!(compact_bytes_of(64), vec![0x01, 0x01]);
    assert_eq!(compact_bytes_of(16383), vec![0xFD, 0xFF]);
    assert_eq!(compact_bytes_of(64).len(), 2);
    assert_eq!(compact_bytes_of(16383).len(), 2);
}

#[test]
fn compact_four_byte_boundaries() {
    assert_eq!(compact_bytes_of(16384), vec![0x02, 0x00, 0x01, 0x00]);
    assert_eq!(compact_bytes_of(1073741823), vec![0xFE, 0xFF, 0xFF, 0xFF]);
}

#[test]
fn compact_big_forms() {
    assert_eq!(compact_bytes_of(1073741824), vec![0x03, 0x00, 0x00, 0x00, 0x40]);
    assert_eq!(compact_bytes_of(u64::MAX).len(), 9);
    assert_eq!(
        compact_bytes_of(u64::MAX),
        vec![0x13, 0xFF, 0xFF, 0xFF, 0xFF, 0xFF, 0xFF, 0xFF, 0xFF]
    );
}

#[test]
fn compact_matches_reference_codec() {
    let samples: [u64; 12] = [
        0,
        1,
        63,
        64,
        255,
        16383,
        16384,
        65536,
        1073741823,
        1073741824,
        4294967296,
        u64::MAX,
    ];
    for &v in samples.iter() {
        let ours = compact_bytes_of(v);
        let theirs = Compact(v).encode();
        assert_eq!(ours, theirs);
        let back = Compact::<u64>::decode(&mut &ours[..]).unwrap();
        assert_eq!(back.0, v);
        let (dv, dn) = compact_decode(&ours, 0).unwrap();
        assert_eq!(dv, v);
        assert_eq!(dn, ours.len());
    }
}

#[test]
fn compact_decode_rejects_non_canonical() {
    // 64 written in the two-byte form's place for a value under 64.
    let bad = vec![0x01, 0x00];
    assert_eq!(compact_decode(&bad, 0), Err(CodecError::NonCanonical));
    // A byte-count prefix naming more than eight bytes.
    let bad2 = vec![0x17, 0, 0, 0, 0, 0, 0, 0, 0, 0];
    assert_eq!(compact_decode(&bad2, 0), Err(CodecError::NonCanonical));
}

#[test]
fn compact_decode_underrun() {
    let bad = vec![0x01];
    assert_eq!(compact_decode(&bad, 0), Err(CodecError::Underrun));
    let empty: Vec<u8> = Vec::new();
    assert_eq!(compact_decode(&empty, 0), Err(CodecError::Underrun));
}

#[test]
fn int_1000_u16_is_little_endian() {
    let values = vec![Value::Int(1000)];
    let hints = vec![Hint::U16];
    let bytes = encode_values(&values, &hints).unwrap();
    assert_eq!(bytes, vec![0xE8, 0x03]);
    let out = decode_values(&bytes, &vec![Tag::Int], &vec![Hint::U16], 42).unwrap();
    assert_eq!(out, vec![Value::Int(1000)]);
}

#[test]
fn fixed_widths_match_reference_codec() {
    let bytes = encode_values(
        &vec![
            Value::Int(300),
            Value::Int(-2),
            Value::Int(123456789),
            Value::Int(-123456789),
            Value::Int(i64::MIN),
        ],
        &vec![Hint::U16, Hint::I8, Hint::U64, Hint::I32, Hint::I64],
    )
    .unwrap();
    let mut reference = Vec::new();
    300u16.encode_to(&mut reference);
    (-2i8).encode_to(&mut reference);
    123456789u64.encode_to(&mut reference);
    (-123456789i32).encode_to(&mut reference);
    i64::MIN.encode_to(&mut reference);
    assert_eq!(bytes, reference);
}

#[test]
fn wide_ints_match_reference_codec() {
    let bytes = encode_values(
        &vec![Value::Int(7), Value::Int(-7)],
        &vec![Hint::U128, Hint::I128],
    )
    .unwrap();
    let mut reference = Vec::new();
    7u128.encode_to(&mut reference);
    (-7i128).encode_to(&mut reference);
    assert_eq!(bytes, reference);
    let out = decode_values(
        &bytes,
        &vec![Tag::Int, Tag::Int],
        &vec![Hint::U128, Hint::I128],
        42,
    )
    .unwrap();
    assert_eq!(out, vec![Value::Int(7), Value::Int(-7)]);
}

#[test]
fn int_round_trips_all_hints() {
    let cases: [(i64, Hint); 14] = [
        (255, Hint::U8),
        (0, Hint::U8),
        (65535, Hint::U16),
        (4294967295, Hint::U32),
        (i64::MAX, Hint::U64),
        (i64::MAX, Hint::U128),
        (-128, Hint::I8),
        (127, Hint::I8),
        (-32768, Hint::I16),
        (-2147483648, Hint::I32),
        (i64::MIN, Hint::I64),
        (i64::MIN, Hint::I128),
        (1073741824, Hint::Compact),
        (0, Hint::Compact),
    ];
    for &(v, h) in cases.iter() {
        let bytes = encode_values(&vec![Value::Int(v)], &vec![h]).unwrap();
        let out = decode_values(&bytes, &vec![Tag::Int], &vec![h], 42).unwrap();
        assert_eq!(out, vec![Value::Int(v)]);
    }
}

#[test]
fn int_out_of_range_is_rejected() {
    assert_eq!(
        encode_values(&vec![Value::Int(256)], &vec![Hint::U8]),
        Err(CodecError::OutOfRange)
    );
    assert_eq!(
        encode_values(&vec![Value::Int(-1)], &vec![Hint::U32]),
        Err(CodecError::OutOfRange)
    );
    assert_eq!(
        encode_values(&vec![Value::Int(-1)], &vec![Hint::Compact]),
        Err(CodecError::OutOfRange)
    );
    assert_eq!(
        encode_values(&vec![Value::Int(128)], &vec![Hint::I8]),
        Err(CodecError::OutOfRange)
    );
}

#[test]
fn int_without_hint_is_rejected() {
    assert_eq!(
        encode_values(&vec![Value::Int(5)], &vec![Hint::Plain]),
        Err(CodecError::UnknownHint)
    );
    assert_eq!(
        encode_values(&vec![Value::Int(5)], &vec![Hint::Account]),
        Err(CodecError::UnknownHint)
    );
}

#[test]
fn cursor_advances_by_exact_field_widths() {
    let values = vec![Value::Int(300), Value::Int(70000), Value::Bool(false)];
    let hints = vec![Hint::Compact, Hint::Compact, Hint::Plain];
    let bytes = encode_values(&values, &hints).unwrap();
    // Two bytes for 300, four for 70000, one for the boolean.
    assert_eq!(bytes.len(), 2 + 4 + 1);
    let out = decode_values(
        &bytes,
        &vec![Tag::Int, Tag::Int, Tag::Bool],
        &hints,
        42,
    )
    .unwrap();
    assert_eq!(out, values);
}

#[test]
fn decode_widening_fails_past_i64() {
    // 2^63 as a u64 field cannot be represented in the signed result.
    let bytes = (1u64 << 63).encode();
    assert_eq!(
        decode_values(&bytes, &vec![Tag::Int], &vec![Hint::U64], 42),
        Err(CodecError::OutOfRange)
    );
    let bytes = (1u128 << 63).encode();
    assert_eq!(
        decode_values(&bytes, &vec![Tag::Int], &vec![Hint::U128], 42),
        Err(CodecError::OutOfRange)
    );
    let bytes = (i128::from(i64::MIN) - 1).encode();
    assert_eq!(
        decode_values(&bytes, &vec![Tag::Int], &vec![Hint::I128], 42),
        Err(CodecError::OutOfRange)
    );
}
