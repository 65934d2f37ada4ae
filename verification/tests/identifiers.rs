//! The identifier transcoder: known vectors, round trips, checksum
//! rejection, and the identifier cases of the codec.
use substrate_codec::decode::decode_values;
use substrate_codec::encode::encode_values;
use substrate_codec::errors::CodecError;
use substrate_codec::ss58::{ss58_decode, ss58_encode};
use substrate_codec::values::{Hint, Tag, Value};

const ALICE_KEY_HEX: &str = "d43593c715fdd31c61141abd04a99fd6822c8558854ccde39a5684e7a56da27d";
const ALICE_ID: &str = "5GrwvaEF5zXb26Fz9rcQpDWS57CtERHpNehXCPcNoHGKutQY";

fn alice_key() -> Vec<u8> {
    hex::decode(ALICE_KEY_HEX).unwrap()
}

#[test]
fn alice_known_vector_encodes() {
    let id = ss58_encode(&alice_key(), false, 42).unwrap();
    assert_eq!(id, ALICE_ID);
}

#[test]
fn alice_known_vector_decodes() {
    let (key, version) = ss58_decode(ALICE_ID).unwrap();
    assert_eq!(key, alice_key());
    assert_eq!(version, 42);
}

#[test]
fn identifier_round_trip_many_versions() {
    let keys: [Vec<u8>; 3] = [
        vec![0u8; 32],
        vec![0xFFu8; 32],
        (0u8..32).collect::<Vec<u8>>(),
    ];
    let versions: [u16; 8] = [0, 1, 2, 42, 63, 64, 255, 16383];
    for key in keys.iter() {
        for &v in versions.iter() {
            let id = ss58_encode(key, false, v).unwrap();
            let (back_key, back_v) = ss58_decode(&id).unwrap();
            assert_eq!(&back_key, key);
            assert_eq!(back_v, v);
        }
    }
}

#[test]
fn version_is_masked_to_fourteen_bits() {
    let id = ss58_encode(&alice_key(), false, 0x4005).unwrap();
    let (_, version) = ss58_decode(&id).unwrap();
    assert_eq!(version, 5);
}

#[test]
fn wrong_key_length_is_rejected() {
    assert_eq!(
        ss58_encode(&vec![0u8; 31], false, 42),
        Err(CodecError::BadKeyLength)
    );
    assert_eq!(
        ss58_encode(&vec![0u8; 32], true, 42),
        Err(CodecError::BadKeyLength)
    );
    assert!(ss58_encode(&vec![0u8; 33], true, 42).is_ok());
}

#[test]
fn bit_flips_are_rejected() {
    let id = ss58_encode(&alice_key(), false, 42).unwrap();
    let bytes = id.as_bytes();
    for i in 0..bytes.len() {
        for bit in 0..7 {
            let mut mutated = bytes.to_vec();
            mutated[i] ^= 1u8 << bit;
            if mutated == bytes {
                continue;
            }
            if let Ok(s) = String::from_utf8(mutated) {
                assert!(ss58_decode(&s).is_err(), "flip at {} bit {}", i, bit);
            }
        }
    }
}

#[test]
fn truncated_identifier_is_rejected() {
    let id = ss58_encode(&alice_key(), false, 42).unwrap();
    let shorter: String = id.chars().take(id.chars().count() - 1).collect();
    assert!(ss58_decode(&shorter).is_err());
}

#[test]
fn non_base58_text_is_rejected() {
    assert_eq!(ss58_decode("not base58 !!"), Err(CodecError::InvalidBase58));
    assert_eq!(ss58_decode("0OIl"), Err(CodecError::InvalidBase58));
}

#[test]
fn account_hint_encodes_raw_key() {
    let values = vec![Value::Text(String::from(ALICE_ID))];
    let hints = vec![Hint::Account];
    let bytes = encode_values(&values, &hints).unwrap();
    assert_eq!(bytes, alice_key());
}

#[test]
fn account_hint_decode_renders_identifier() {
    let bytes = alice_key();
    let out = decode_values(&bytes, &vec![Tag::Text], &vec![Hint::Account], 42).unwrap();
    assert_eq!(out, vec![Value::Text(String::from(ALICE_ID))]);
}

#[test]
fn account_codec_round_trip() {
    let values = vec![Value::Text(String::from(ALICE_ID))];
    let hints = vec![Hint::Account];
    let bytes = encode_values(&values, &hints).unwrap();
    let out = decode_values(&bytes, &vec![Tag::Text], &vec![hints[0]], 42).unwrap();
    assert_eq!(out, values);
}

#[test]
fn invalid_account_string_is_rejected() {
    let values = vec![Value::Text(String::from("5NotAnAccount"))];
    assert!(encode_values(&values, &vec![Hint::Account]).is_err());
}

#[test]
fn account_decode_needs_valid_version() {
    let bytes = alice_key();
    assert_eq!(
        decode_values(&bytes, &vec![Tag::Text], &vec![Hint::Account], 65536),
        Err(CodecError::BadVersion)
    );
    assert_eq!(
        decode_values(&bytes, &vec![Tag::Text], &vec![Hint::Account], -1),
        Err(CodecError::BadVersion)
    );
}

#[test]
fn account_map_storage_key_known_vector() {
    // The well-known System.Account entry address for this key:
    // twox128("System") ++ twox128("Account") ++ blake2_128(key) ++ key.
    let segs = vec![
        String::from("System"),
        String::from("Account"),
        String::from(ALICE_KEY_HEX),
    ];
    let out = substrate_codec::storage::derive_map_key(&segs, false).unwrap();
    let expected = String::from(
        "26aa394eea5630e07c48ae0c9558cef7b99d880ec681799c0cf30e8886371da9",
    ) + "de1e86a9a8c739864cf3cc5ec2bea59fd43593c715fdd31c61141abd04a99fd6822c8558854ccde39a5684e7a56da27d";
    assert_eq!(hex::encode(&out), expected);
}

#[test]
fn corrupted_checksum_is_rejected_as_checksum_error() {
    let id = ss58_encode(&alice_key(), false, 42).unwrap();
    let mut payload = bs58::decode(&id).into_vec().unwrap();
    let last = payload.len() - 1;
    payload[last] ^= 0x01;
    let bad = bs58::encode(&payload).into_string();
    assert_eq!(ss58_decode(&bad), Err(CodecError::BadChecksum));
}

#[test]
fn bad_prefix_byte_is_rejected_as_version_error() {
    let mut payload = vec![0x80u8];
    payload.extend(vec![0u8; 34]);
    let bad = bs58::encode(&payload).into_string();
    assert_eq!(ss58_decode(&bad), Err(CodecError::BadVersion));
}

#[test]
fn wrong_payload_length_is_rejected_as_length_error() {
    let id = ss58_encode(&alice_key(), false, 42).unwrap();
    let mut payload = bs58::decode(&id).into_vec().unwrap();
    payload.pop();
    let bad = bs58::encode(&payload).into_string();
    assert_eq!(ss58_decode(&bad), Err(CodecError::BadKeyLength));
}

#[test]
fn account_decode_underrun() {
    let bytes = vec![0u8; 31];
    assert_eq!(
        decode_values(&bytes, &vec![Tag::Text], &vec![Hint::Account], 42),
        Err(CodecError::Underrun)
    );
}
