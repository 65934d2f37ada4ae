//! The identifier transcoder: a raw public key and a network version
//! rendered as base-58 text with an embedded checksum, and the inverse
//! parse.
//!
//! The payload behind the base-58 text is a one- or two-byte version
//! prefix, the raw key, and the first two bytes of a Blake2b-512 digest
//! of the prefixed key under a fixed context string.
use vstd::prelude::*;
use crate::errors::CodecError;
use crate::hashes::{blake2b512, blake2b512_of};
use crate::le::{push_bytes, push_range};

verus! {

/// What the base-58 rendering (Bitcoin alphabet) of a byte string is.
pub uninterp spec fn base58_of(data: Seq<u8>) -> Seq<char>;

/// Relies on bs58::encode with the default (Bitcoin) alphabet: the
/// base-58 rendering of `data`, a deterministic function of the bytes.
#[verifier::external_body]
pub(crate) fn base58_encode(data: &Vec<u8>) -> (r: String)
    ensures
        r@ == base58_of(data@),
{
    bs58::encode(data.as_slice()).into_string()
}

/// Relies on bs58::decode with the default alphabet: base-58 renders
/// byte strings and alphabet strings in bijection, so decoding succeeds
/// exactly on renderings and inverts the rendering.
#[verifier::external_body]
pub(crate) fn base58_decode(s: &str) -> (r: Option<Vec<u8>>)
    ensures
        r matches Some(d) ==> s@ == base58_of(d@),
        r matches Some(d) ==> forall|p: Seq<u8>| s@ == base58_of(p) ==> p == d@,
        r is None ==> forall|p: Seq<u8>| s@ != base58_of(p),
{
    bs58::decode(s).into_vec().ok()
}

/// The fixed seven-byte context string (the ASCII bytes of "SS58PRE")
/// the checksum digest is salted with.
pub open spec fn ss58_context() -> Seq<u8> {
    seq![0x53u8, 0x53u8, 0x35u8, 0x38u8, 0x50u8, 0x52u8, 0x45u8]
}

/// The one- or two-byte version prefix: versions up to 63 stand alone;
/// larger ones spread their fourteen bits over two bytes, the first
/// carrying the 0b01 marker.
pub open spec fn version_prefix_s(v: u16) -> Seq<u8> {
    if v < 64 {
        seq![v as u8]
    } else {
        seq![
            (((v & 0x00FC) >> 2) | 0x40) as u8,
            ((v >> 8) | ((v & 0x0003) << 6)) as u8,
        ]
    }
}

/// The version a two-byte prefix denotes.
pub open spec fn parse_two(b0: u8, b1: u8) -> u16 {
    ((((b0 << 2) | (b1 >> 6)) as u16) | (((b1 & 0x3F) as u16) << 8)) as u16
}

/// The two checksum bytes of a prefixed key.
pub open spec fn ss58_checksum(body: Seq<u8>) -> Seq<u8> {
    let h = blake2b512_of(ss58_context() + body);
    seq![h[0], h[1]]
}

/// The full byte payload behind the textual identifier.
pub open spec fn ss58_payload(key: Seq<u8>, v: u16) -> Seq<u8> {
    let body = version_prefix_s(v) + key;
    body + ss58_checksum(body)
}

/// The textual identifier of `key` under version `v`.
pub open spec fn ss58_render(key: Seq<u8>, v: u16) -> Seq<char> {
    base58_of(ss58_payload(key, v))
}

/// Whether `s` is the textual identifier of the 32-byte key `key` under
/// version `v`.
pub open spec fn is_identifier(s: Seq<char>, key: Seq<u8>, v: u16) -> bool {
    key.len() == 32 && v <= 0x3FFF && s == ss58_render(key, v)
}

pub proof fn lemma_prefix_two_encode(v: u16)
    requires
        64 <= v <= 0x3FFF,
    ensures
        64 <= ((((v & 0x00FC) >> 2) | 0x40) as u8) < 128,
        parse_two((((v & 0x00FC) >> 2) | 0x40) as u8, ((v >> 8) | ((v & 0x0003) << 6)) as u8)
            == v,
{
    let b0 = (((v & 0x00FC) >> 2) | 0x40) as u8;
    let b1 = ((v >> 8) | ((v & 0x0003) << 6)) as u8;
    assert(64 <= b0 < 128 && ((((b0 << 2) | (b1 >> 6)) as u16) | (((b1 & 0x3F) as u16) << 8))
        as u16 == v) by (bit_vector)
        requires
            64 <= v <= 0x3FFF,
            b0 == (((v & 0x00FC) >> 2) | 0x40) as u8,
            b1 == ((v >> 8) | ((v & 0x0003) << 6)) as u8,
    ;
}

pub proof fn lemma_prefix_two_decode(b0: u8, b1: u8)
    requires
        64 <= b0 < 128,
    ensures
        parse_two(b0, b1) <= 0x3FFF,
        parse_two(b0, b1) >= 64 ==> version_prefix_s(parse_two(b0, b1)) == seq![b0, b1],
{
    let v = parse_two(b0, b1);
    assert(v <= 0x3FFF && (((v & 0x00FC) >> 2) | 0x40) as u8 == b0 && ((v >> 8) | ((v & 0x0003)
        << 6)) as u8 == b1) by (bit_vector)
        requires
            64 <= b0 < 128,
            v == ((((b0 << 2) | (b1 >> 6)) as u16) | (((b1 & 0x3F) as u16) << 8)) as u16,
    ;
    if v >= 64 {
        assert(version_prefix_s(v) =~= seq![b0, b1]);
    }
}

/// The shape of a payload: where its prefix, key and checksum bytes
/// stand, and what its first byte tells about the version.
pub proof fn lemma_payload_parts(k: Seq<u8>, v: u16)
    requires
        k.len() == 32,
        v <= 0x3FFF,
    ensures
        ({
            let p = ss58_payload(k, v);
            let plen = version_prefix_s(v).len();
            &&& (v < 64 ==> plen == 1)
            &&& (v >= 64 ==> plen == 2)
            &&& p.len() == plen + 34
            &&& p.subrange(0, plen as int) == version_prefix_s(v)
            &&& p.subrange(plen as int, plen as int + 32) == k
            &&& p[plen as int + 32] == ss58_checksum(version_prefix_s(v) + k)[0]
            &&& p[plen as int + 33] == ss58_checksum(version_prefix_s(v) + k)[1]
            &&& (v < 64 ==> p[0] == v as u8)
            &&& (v >= 64 ==> 64 <= p[0] < 128 && parse_two(p[0], p[1]) == v)
        }),
{
    let p = ss58_payload(k, v);
    let pre = version_prefix_s(v);
    let plen = pre.len();
    assert(p.subrange(0, plen as int) =~= pre);
    assert(p.subrange(plen as int, plen as int + 32) =~= k);
    if v >= 64 {
        lemma_prefix_two_encode(v);
    }
}

/// Renders a raw public key as a textual identifier. The key is 32
/// bytes for the default key families and 33 for the ECDSA family; only
/// the low fourteen bits of the version are representable, so the rest
/// are masked away.
pub fn ss58_encode(key: &Vec<u8>, ecdsa: bool, version: u16) -> (r: Result<String, CodecError>)
    ensures
        r is Ok <==> key@.len() == (if ecdsa {
            33int
        } else {
            32int
        }),
        r matches Ok(s) ==> s@ == ss58_render(key@, (version & 0x3FFF) as u16),
        r matches Err(e) ==> e == CodecError::BadKeyLength,
{
    let expected: usize = if ecdsa {
        33
    } else {
        32
    };
    if key.len() != expected {
        return Err(CodecError::BadKeyLength);
    }
    let v: u16 = version & 0x3FFF;
    proof {
        assert(v <= 0x3FFF) by (bit_vector)
            requires
                v == version & 0x3FFF,
        ;
    }
    let mut body: Vec<u8> = Vec::new();
    if v < 64 {
        body.push(v as u8);
    } else {
        body.push((((v & 0x00FC) >> 2) | 0x40) as u8);
        body.push(((v >> 8) | ((v & 0x0003) << 6)) as u8);
    }
    proof {
        assert(body@ =~= version_prefix_s(v));
    }
    push_bytes(&mut body, key);
    proof {
        assert(body@ == version_prefix_s(v) + key@);
    }
    let mut data: Vec<u8> = Vec::new();
    data.push(0x53);
    data.push(0x53);
    data.push(0x35);
    data.push(0x38);
    data.push(0x50);
    data.push(0x52);
    data.push(0x45);
    proof {
        assert(data@ =~= ss58_context());
    }
    push_bytes(&mut data, &body);
    let h = blake2b512(&data);
    let ghost bodyv = body@;
    body.push(h[0]);
    body.push(h[1]);
    proof {
        assert(ss58_checksum(bodyv) == seq![h@[0], h@[1]]);
        assert(body@ =~= bodyv + ss58_checksum(bodyv));
        assert(body@ == ss58_payload(key@, v));
    }
    let s = base58_encode(&body);
    Ok(s)
}

/// Parses a textual identifier back to its raw 32-byte key and network
/// version, verifying the embedded checksum. Succeeds exactly on the
/// renderings that `ss58_encode` produces for 32-byte keys.
pub fn ss58_decode(s: &str) -> (r: Result<(Vec<u8>, u16), CodecError>)
    ensures
        r matches Ok(p) ==> is_identifier(s@, p.0@, p.1),
        r matches Ok(p) ==> forall|k: Seq<u8>, v: u16|
            is_identifier(s@, k, v) ==> k == p.0@ && v == p.1,
        r matches Err(_) ==> forall|k: Seq<u8>, v: u16| !is_identifier(s@, k, v),
        r matches Err(e) ==> (e == CodecError::InvalidBase58 || e == CodecError::BadKeyLength
            || e == CodecError::BadChecksum || e == CodecError::BadVersion),
{
    let d = match base58_decode(s) {
        Some(d) => d,
        None => {
            return Err(CodecError::InvalidBase58);
        },
    };
    let dlen = d.len();
    if dlen < 1 {
        proof {
            assert forall|k: Seq<u8>, v: u16| !is_identifier(s@, k, v) by {
                if is_identifier(s@, k, v) {
                    lemma_payload_parts(k, v);
                    assert(ss58_payload(k, v) == d@);
                }
            }
        }
        return Err(CodecError::BadKeyLength);
    }
    let b0 = d[0];
    let (ver, plen): (u16, usize) = if b0 < 64 {
        (b0 as u16, 1)
    } else if b0 < 128 {
        if dlen < 2 {
            proof {
                assert forall|k: Seq<u8>, v: u16| !is_identifier(s@, k, v) by {
                    if is_identifier(s@, k, v) {
                        lemma_payload_parts(k, v);
                        assert(ss58_payload(k, v) == d@);
                    }
                }
            }
            return Err(CodecError::BadKeyLength);
        }
        let b1 = d[1];
        let lower: u8 = (b0 << 2) | (b1 >> 6);
        let upper: u8 = b1 & 0x3F;
        let v2: u16 = (lower as u16) | ((upper as u16) << 8);
        proof {
            assert(v2 == parse_two(b0, b1));
        }
        if v2 < 64 {
            proof {
                assert forall|k: Seq<u8>, v: u16| !is_identifier(s@, k, v) by {
                    if is_identifier(s@, k, v) {
                        lemma_payload_parts(k, v);
                        assert(ss58_payload(k, v) == d@);
                        if v >= 64 {
                            assert(parse_two(d@[0], d@[1]) == v);
                        }
                    }
                }
            }
            return Err(CodecError::BadVersion);
        }
        (v2, 2)
    } else {
        proof {
            assert forall|k: Seq<u8>, v: u16| !is_identifier(s@, k, v) by {
                if is_identifier(s@, k, v) {
                    lemma_payload_parts(k, v);
                    assert(ss58_payload(k, v) == d@);
                }
            }
        }
        return Err(CodecError::BadVersion);
    };
    if dlen != plen + 34 {
        proof {
            assert forall|k: Seq<u8>, v: u16| !is_identifier(s@, k, v) by {
                if is_identifier(s@, k, v) {
                    lemma_payload_parts(k, v);
                    assert(ss58_payload(k, v) == d@);
                }
            }
        }
        return Err(CodecError::BadKeyLength);
    }
    let mut body: Vec<u8> = Vec::new();
    push_range(&mut body, &d, 0, plen + 32);
    let mut data: Vec<u8> = Vec::new();
    data.push(0x53);
    data.push(0x53);
    data.push(0x35);
    data.push(0x38);
    data.push(0x50);
    data.push(0x52);
    data.push(0x45);
    proof {
        assert(data@ =~= ss58_context());
    }
    push_bytes(&mut data, &body);
    let h = blake2b512(&data);
    if d[plen + 32] != h[0] || d[plen + 33] != h[1] {
        proof {
            assert forall|k: Seq<u8>, v: u16| !is_identifier(s@, k, v) by {
                if is_identifier(s@, k, v) {
                    lemma_payload_parts(k, v);
                    let p = ss58_payload(k, v);
                    assert(p == d@);
                    let pre = version_prefix_s(v);
                    assert(pre.len() == plen as nat);
                    assert(pre + k =~= d@.subrange(0, plen as int + 32));
                    assert(data@ == ss58_context() + (pre + k));
                    assert(d@[plen as int + 32] == h@[0]);
                    assert(d@[plen as int + 33] == h@[1]);
                }
            }
        }
        return Err(CodecError::BadChecksum);
    }
    let mut key: Vec<u8> = Vec::new();
    push_range(&mut key, &d, plen, plen + 32);
    proof {
        if plen == 2 {
            lemma_prefix_two_decode(d@[0], d@[1]);
        }
        assert(version_prefix_s(ver) =~= d@.subrange(0, plen as int));
        assert(version_prefix_s(ver) + key@ =~= d@.subrange(0, plen as int + 32));
        assert(data@ == ss58_context() + (version_prefix_s(ver) + key@));
        assert(ss58_checksum(version_prefix_s(ver) + key@) == seq![h@[0], h@[1]]);
        assert(ss58_payload(key@, ver) =~= d@);
        assert(is_identifier(s@, key@, ver));
        assert forall|k: Seq<u8>, v: u16| is_identifier(s@, k, v) implies k == key@ && v
            == ver by {
            lemma_payload_parts(k, v);
            let p = ss58_payload(k, v);
            assert(p == d@);
            if v < 64 {
                assert(k =~= d@.subrange(1, 33));
            } else {
                assert(parse_two(d@[0], d@[1]) == v);
                assert(k =~= d@.subrange(2, 34));
            }
        }
    }
    Ok((key, ver))
}

} // verus!
