//! Storage-key derivation and the general codec surface: values,
//! strings, byte buffers, hint parsing and arity checks.
use parity_scale_codec::Encode;
use substrate_codec::decode::decode_values;
use substrate_codec::encode::encode_values;
use substrate_codec::errors::CodecError;
use substrate_codec::hexstr::hex_decode;
use substrate_codec::registerShards;
use substrate_codec::storage::{derive_key, derive_map_key};
use substrate_codec::values::{parse_hint, tag_from_code, Hint, Tag, Value};

fn two_paths() -> Vec<String> {
    vec![String::from("System"), String::from("Account")]
}

#[test]
fn storage_key_known_vector() {
    let key = derive_key(&two_paths()).unwrap();
    assert_eq!(
        hex::encode(&key),
        "26aa394eea5630e07c48ae0c9558cef7b99d880ec681799c0cf30e8886371da9"
    );
}

#[test]
fn storage_key_is_deterministic() {
    let a = derive_key(&two_paths()).unwrap();
    let b = derive_key(&two_paths()).unwrap();
    assert_eq!(a, b);
    assert_eq!(a.len(), 32);
    let other = derive_key(&vec![String::from("System"), String::from("Events")]).unwrap();
    assert_ne!(a, other);
}

#[test]
fn storage_key_needs_exactly_two_paths() {
    assert_eq!(
        derive_key(&vec![String::from("System")]),
        Err(CodecError::ArityMismatch)
    );
    assert_eq!(
        derive_key(&vec![
            String::from("a"),
            String::from("b"),
            String::from("c")
        ]),
        Err(CodecError::ArityMismatch)
    );
}

#[test]
fn map_key_lengths_hashed_and_prehashed() {
    let segs = vec![
        String::from("System"),
        String::from("Account"),
        String::from("0xdead"),
        String::from("beef"),
    ];
    // Two path hashes, then for each segment a 16-byte hash before the
    // two raw bytes.
    let hashed = derive_map_key(&segs, false).unwrap();
    assert_eq!(hashed.len(), 16 + 16 + 16 + 2 + 16 + 2);
    let pre = derive_map_key(&segs, true).unwrap();
    assert_eq!(pre.len(), 16 + 16 + 2 + 2);
    // Both start with the plain storage key of the two path segments.
    let base = derive_key(&two_paths()).unwrap();
    assert_eq!(&hashed[..32], &base[..]);
    assert_eq!(&pre[..32], &base[..]);
    // Pre-hashed appends the raw bytes directly.
    assert_eq!(&pre[32..], &[0xDE, 0xAD, 0xBE, 0xEF]);
    // The hashed form carries the same raw bytes after each hash.
    assert_eq!(&hashed[48..50], &[0xDE, 0xAD]);
    assert_eq!(&hashed[66..68], &[0xBE, 0xEF]);
}

#[test]
fn map_key_single_segment() {
    let segs = vec![
        String::from("System"),
        String::from("Account"),
        String::from("0X0102"),
    ];
    let out = derive_map_key(&segs, true).unwrap();
    assert_eq!(out.len(), 34);
    assert_eq!(&out[32..], &[0x01, 0x02]);
}

#[test]
fn map_key_arity_enforced() {
    let short = vec![String::from("a"), String::from("b")];
    assert_eq!(derive_map_key(&short, false), Err(CodecError::ArityMismatch));
    let long = vec![
        String::from("a"),
        String::from("b"),
        String::from("00"),
        String::from("00"),
        String::from("00"),
    ];
    assert_eq!(derive_map_key(&long, false), Err(CodecError::ArityMismatch));
}

#[test]
fn map_key_invalid_hex_rejected() {
    let segs = vec![String::from("a"), String::from("b"), String::from("0xZZ")];
    assert_eq!(derive_map_key(&segs, false), Err(CodecError::InvalidHex));
    let odd = vec![String::from("a"), String::from("b"), String::from("abc")];
    assert_eq!(derive_map_key(&odd, false), Err(CodecError::InvalidHex));
}

#[test]
fn hex_decode_matches_reference() {
    assert_eq!(
        hex_decode("deadBEEF").unwrap(),
        hex::decode("deadBEEF").unwrap()
    );
    assert_eq!(hex_decode("0x00ff").unwrap(), vec![0x00, 0xFF]);
    assert_eq!(hex_decode("").unwrap(), Vec::<u8>::new());
    assert!(hex_decode("0x1").is_err());
}

#[test]
fn nil_bool_bytes_encode() {
    let values = vec![
        Value::Nil,
        Value::Bool(true),
        Value::Bool(false),
        Value::Bytes(vec![1, 2, 3]),
    ];
    let hints = vec![Hint::Plain; 4];
    let bytes = encode_values(&values, &hints).unwrap();
    let mut reference: Vec<u8> = vec![0x00];
    true.encode_to(&mut reference);
    false.encode_to(&mut reference);
    vec![1u8, 2, 3].encode_to(&mut reference);
    assert_eq!(bytes, reference);
}

#[test]
fn mixed_sequence_round_trip() {
    let values = vec![
        Value::Nil,
        Value::Bool(true),
        Value::Int(-40000),
        Value::Bytes(vec![9, 8, 7, 6]),
        Value::Text(String::from("hello, wörld")),
    ];
    let hints = vec![
        Hint::Plain,
        Hint::Plain,
        Hint::I32,
        Hint::Plain,
        Hint::Plain,
    ];
    let tags = vec![Tag::Nil, Tag::Bool, Tag::Int, Tag::Bytes, Tag::Text];
    let bytes = encode_values(&values, &hints).unwrap();
    let out = decode_values(&bytes, &tags, &hints, 42).unwrap();
    assert_eq!(out, values);
}

#[test]
fn string_encoding_matches_reference() {
    let values = vec![Value::Text(String::from("hello"))];
    let bytes = encode_values(&values, &vec![Hint::Plain]).unwrap();
    assert_eq!(bytes, String::from("hello").encode());
}

#[test]
fn encoder_arity_enforced() {
    let values = vec![Value::Nil, Value::Nil];
    let hints = vec![Hint::Plain];
    assert_eq!(
        encode_values(&values, &hints),
        Err(CodecError::ArityMismatch)
    );
}

#[test]
fn decoder_arity_enforced() {
    let bytes = vec![0u8];
    assert_eq!(
        decode_values(&bytes, &vec![Tag::Nil], &vec![], 42),
        Err(CodecError::ArityMismatch)
    );
}

#[test]
fn decoder_rejects_bad_bool() {
    let bytes = vec![2u8];
    assert_eq!(
        decode_values(&bytes, &vec![Tag::Bool], &vec![Hint::Plain], 42),
        Err(CodecError::InvalidBool)
    );
}

#[test]
fn decoder_rejects_underrun() {
    let empty: Vec<u8> = vec![];
    assert_eq!(
        decode_values(&empty, &vec![Tag::Nil], &vec![Hint::Plain], 42),
        Err(CodecError::Underrun)
    );
    // A length prefix promising more bytes than remain.
    let bytes = vec![0x28, 1, 2, 3];
    assert_eq!(
        decode_values(&bytes, &vec![Tag::Bytes], &vec![Hint::Plain], 42),
        Err(CodecError::Underrun)
    );
}

#[test]
fn decoder_rejects_invalid_utf8() {
    let bytes = vec![0x08, 0xFF, 0xFE];
    assert_eq!(
        decode_values(&bytes, &vec![Tag::Text], &vec![Hint::Plain], 42),
        Err(CodecError::InvalidUtf8)
    );
}

#[test]
fn decoder_ignores_trailing_bytes() {
    let bytes = vec![0x01, 0x00, 0x00];
    let out = decode_values(&bytes, &vec![Tag::Bool], &vec![Hint::Plain], 42).unwrap();
    assert_eq!(out, vec![Value::Bool(true)]);
}

#[test]
fn hint_parsing() {
    assert_eq!(parse_hint(None), Ok(Hint::Plain));
    assert_eq!(parse_hint(Some("u8")), Ok(Hint::U8));
    assert_eq!(parse_hint(Some("i128")), Ok(Hint::I128));
    assert_eq!(parse_hint(Some("c")), Ok(Hint::Compact));
    assert_eq!(parse_hint(Some("a")), Ok(Hint::Account));
    assert_eq!(parse_hint(Some("x9")), Err(CodecError::UnknownHint));
    assert_eq!(parse_hint(Some("")), Err(CodecError::UnknownHint));
}

#[test]
fn tag_codes() {
    assert_eq!(tag_from_code(0), Ok(Tag::Nil));
    assert_eq!(tag_from_code(2), Ok(Tag::Bool));
    assert_eq!(tag_from_code(3), Ok(Tag::Int));
    assert_eq!(tag_from_code(16), Ok(Tag::Bytes));
    assert_eq!(tag_from_code(17), Ok(Tag::Text));
    assert_eq!(tag_from_code(5), Err(CodecError::UnknownTag));
    assert_eq!(tag_from_code(-1), Err(CodecError::UnknownTag));
}

#[test]
fn register_names() {
    let names = registerShards();
    assert_eq!(names.len(), 5);
    assert_eq!(names[0], "Substrate.AccountId");
    assert_eq!(names[4], "Substrate.Decode");
}
