//! A typed binary codec for the SCALE wire format, a deterministic
//! storage-key derivation scheme, and an SS58 identifier transcoder.
//!
//! The codec turns sequences of tagged primitive values (none, boolean,
//! 64-bit signed integer, byte buffer, UTF-8 string) into one contiguous
//! byte buffer and back, steered by per-value encoding hints. Key
//! derivation hashes human-readable path segments into fixed-width
//! storage addresses. The transcoder renders raw public keys as base-58
//! identifier strings with an embedded network version and checksum.
use vstd::prelude::*;

pub mod compact;
pub mod decode;
pub mod encode;
pub mod errors;
pub mod hashes;
pub mod hexstr;
pub mod le;
pub mod roundtrip;
pub mod ss58;
pub mod storage;
pub mod values;

verus! {

/// Names of the operations this library offers, in the order a plugin
/// host registers them.
#[allow(non_snake_case)]
pub fn registerShards() -> (names: Vec<String>)
    ensures
        names@.len() == 5,
        names@[0]@ == "Substrate.AccountId"@,
        names@[1]@ == "Substrate.StorageKey"@,
        names@[2]@ == "Substrate.StorageMap"@,
        names@[3]@ == "Substrate.Encode"@,
        names@[4]@ == "Substrate.Decode"@,
{
    let mut names: Vec<String> = Vec::new();
    names.push(String::from_str("Substrate.AccountId"));
    names.push(String::from_str("Substrate.StorageKey"));
    names.push(String::from_str("Substrate.StorageMap"));
    names.push(String::from_str("Substrate.Encode"));
    names.push(String::from_str("Substrate.Decode"));
    names
}

} // verus!
