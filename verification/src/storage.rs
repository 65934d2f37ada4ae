//! Deterministic storage addresses: two hashed path segments, and for
//! maps one or two further key segments, raw or hashed-and-concatenated.
use vstd::prelude::*;
use vstd::utf8::encode_utf8;
use crate::errors::CodecError;
use crate::hashes::{blake2b128, blake2b128_of, twox128, twox128_s};
use crate::hexstr::{hex_decode, hex_decode_s, strip_hex_prefix};
use crate::le::push_bytes;

verus! {

/// The single-key storage address: the 128-bit twox hash of each path
/// segment's UTF-8 bytes, concatenated in order.
pub open spec fn storage_key_s(p0: Seq<char>, p1: Seq<char>) -> Seq<u8> {
    twox128_s(encode_utf8(p0)) + twox128_s(encode_utf8(p1))
}

/// One map key segment's contribution: the raw bytes when they are
/// already hashed, else a 128-bit Blake2b hash of the bytes followed by
/// the bytes themselves.
pub open spec fn map_part_s(k: Seq<u8>, pre_hashed: bool) -> Seq<u8> {
    if pre_hashed {
        k
    } else {
        blake2b128_of(k) + k
    }
}

/// The raw bytes a hex key segment denotes, if it is well-formed.
pub open spec fn seg_bytes_s(s: Seq<char>) -> Option<Seq<u8>> {
    hex_decode_s(strip_hex_prefix(encode_utf8(s)))
}

/// The map storage address: the single-key address of the two path
/// segments followed by each key segment's contribution.
pub open spec fn storage_map_key_s(
    p0: Seq<char>,
    p1: Seq<char>,
    k1: Seq<u8>,
    k2: Option<Seq<u8>>,
    pre_hashed: bool,
) -> Seq<u8> {
    storage_key_s(p0, p1) + map_part_s(k1, pre_hashed) + (match k2 {
        Option::Some(k) => map_part_s(k, pre_hashed),
        Option::None => Seq::empty(),
    })
}

/// Derives the storage address of exactly two path segments.
pub fn derive_key(paths: &Vec<String>) -> (r: Result<Vec<u8>, CodecError>)
    ensures
        r is Ok <==> paths@.len() == 2,
        r matches Ok(v) ==> v@ == storage_key_s(paths@[0]@, paths@[1]@) && v@.len() == 32,
        r matches Err(e) ==> e == CodecError::ArityMismatch,
{
    if paths.len() != 2 {
        return Err(CodecError::ArityMismatch);
    }
    let h0 = twox128(&paths[0].as_str().as_bytes_vec());
    let h1 = twox128(&paths[1].as_str().as_bytes_vec());
    let mut out: Vec<u8> = Vec::new();
    push_bytes(&mut out, &h0);
    push_bytes(&mut out, &h1);
    proof {
        assert(out@ =~= storage_key_s(paths@[0]@, paths@[1]@));
    }
    Ok(out)
}

/// Appends one key segment's contribution to `out`.
fn push_map_part(out: &mut Vec<u8>, k: &Vec<u8>, pre_hashed: bool)
    ensures
        final(out)@ == old(out)@ + map_part_s(k@, pre_hashed),
        final(out)@.len() == old(out)@.len() + (if pre_hashed {
            0int
        } else {
            16int
        }) + k@.len(),
{
    if pre_hashed {
        push_bytes(out, k);
    } else {
        let h = blake2b128(k);
        push_bytes(out, &h);
        push_bytes(out, k);
        proof {
            assert(old(out)@ + h@ + k@ =~= old(out)@ + (h@ + k@));
        }
    }
}

/// Derives the storage address of a map entry: two path segments and
/// one or two hex-encoded key segments.
pub fn derive_map_key(segs: &Vec<String>, pre_hashed: bool) -> (r: Result<Vec<u8>, CodecError>)
    ensures
        r is Ok <==> (3 <= segs@.len() <= 4 && seg_bytes_s(segs@[2]@) is Some && (segs@.len() == 4
            ==> seg_bytes_s(segs@[3]@) is Some)),
        !(3 <= segs@.len() <= 4) ==> r == Err::<Vec<u8>, CodecError>(CodecError::ArityMismatch),
        r matches Err(e) ==> e == CodecError::ArityMismatch || e == CodecError::InvalidHex,
        r matches Ok(v) ==> {
            let k1 = seg_bytes_s(segs@[2]@)->Some_0;
            &&& segs@.len() == 3 ==> v@ == storage_map_key_s(
                segs@[0]@,
                segs@[1]@,
                k1,
                Option::None,
                pre_hashed,
            ) && v@.len() == 32 + (if pre_hashed {
                0int
            } else {
                16int
            }) + k1.len()
            &&& segs@.len() == 4 ==> {
                let k2 = seg_bytes_s(segs@[3]@)->Some_0;
                v@ == storage_map_key_s(
                    segs@[0]@,
                    segs@[1]@,
                    k1,
                    Option::Some(k2),
                    pre_hashed,
                ) && v@.len() == 32 + (if pre_hashed {
                    0int
                } else {
                    16int
                }) + k1.len() + (if pre_hashed {
                    0int
                } else {
                    16int
                }) + k2.len()
            }
        },
{
    if segs.len() < 3 || segs.len() > 4 {
        return Err(CodecError::ArityMismatch);
    }
    let h0 = twox128(&segs[0].as_str().as_bytes_vec());
    let h1 = twox128(&segs[1].as_str().as_bytes_vec());
    let k1 = match hex_decode(segs[2].as_str()) {
        Ok(k) => k,
        Err(e) => {
            return Err(e);
        },
    };
    let mut out: Vec<u8> = Vec::new();
    push_bytes(&mut out, &h0);
    push_bytes(&mut out, &h1);
    proof {
        assert(out@ =~= storage_key_s(segs@[0]@, segs@[1]@));
    }
    push_map_part(&mut out, &k1, pre_hashed);
    if segs.len() == 4 {
        let k2 = match hex_decode(segs[3].as_str()) {
            Ok(k) => k,
            Err(e) => {
                return Err(e);
            },
        };
        push_map_part(&mut out, &k2, pre_hashed);
        proof {
            assert(out@ =~= storage_map_key_s(
                segs@[0]@,
                segs@[1]@,
                k1@,
                Option::Some(k2@),
                pre_hashed,
            ));
        }
        Ok(out)
    } else {
        proof {
            assert(out@ + Seq::<u8>::empty() =~= out@);
            assert(out@ =~= storage_map_key_s(
                segs@[0]@,
                segs@[1]@,
                k1@,
                Option::None,
                pre_hashed,
            ));
        }
        Ok(out)
    }
}

} // verus!
