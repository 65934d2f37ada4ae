//! Hexadecimal key segments: an optional `0x`/`0X` prefix followed by
//! pairs of hex digits, decoded to raw bytes.
use vstd::prelude::*;
use vstd::utf8::encode_utf8;
use crate::errors::CodecError;

verus! {

/// The value of one ASCII hex digit byte, or nothing for any other byte.
pub open spec fn hex_digit_val(b: u8) -> Option<u8> {
    if 0x30 <= b <= 0x39 {
        Option::Some((b - 0x30) as u8)
    } else if 0x61 <= b <= 0x66 {
        Option::Some((b - 0x61 + 10) as u8)
    } else if 0x41 <= b <= 0x46 {
        Option::Some((b - 0x41 + 10) as u8)
    } else {
        Option::None
    }
}

/// Strips one optional leading `0x` or `0X` from a byte string.
pub open spec fn strip_hex_prefix(s: Seq<u8>) -> Seq<u8> {
    if s.len() >= 2 && s[0] == 0x30 && (s[1] == 0x78 || s[1] == 0x58) {
        s.skip(2)
    } else {
        s
    }
}

/// Decodes pairs of hex digit bytes to raw bytes; nothing on odd length
/// or on any byte that is not a hex digit.
pub open spec fn hex_decode_s(s: Seq<u8>) -> Option<Seq<u8>>
    decreases s.len(),
{
    if s.len() == 0 {
        Option::Some(Seq::empty())
    } else if s.len() == 1 {
        Option::None
    } else {
        match (hex_digit_val(s[0]), hex_digit_val(s[1]), hex_decode_s(s.skip(2))) {
            (Option::Some(h), Option::Some(l), Option::Some(t)) => Option::Some(
                seq![(h * 16 + l) as u8] + t,
            ),
            _ => Option::None,
        }
    }
}

/// The value of one ASCII hex digit byte.
fn hex_digit(b: u8) -> (r: Option<u8>)
    ensures
        r == hex_digit_val(b),
{
    if 0x30 <= b && b <= 0x39 {
        Some(b - 0x30)
    } else if 0x61 <= b && b <= 0x66 {
        Some(b - 0x61 + 10)
    } else if 0x41 <= b && b <= 0x46 {
        Some(b - 0x41 + 10)
    } else {
        None
    }
}

/// Decodes a hex string (with an optional `0x`/`0X` prefix) to raw
/// bytes.
pub fn hex_decode(s: &str) -> (r: Result<Vec<u8>, CodecError>)
    ensures
        hex_decode_s(strip_hex_prefix(encode_utf8(s@))) is None ==> r == Err::<
            Vec<u8>,
            CodecError,
        >(CodecError::InvalidHex),
        hex_decode_s(strip_hex_prefix(encode_utf8(s@))) matches Option::Some(t) ==> (r matches Ok(
            v,
        ) && v@ == t),
{
    let b = s.as_bytes_vec();
    let len = b.len();
    let start: usize = if len >= 2 && b[0] == 0x30 && (b[1] == 0x78 || b[1] == 0x58) {
        2
    } else {
        0
    };
    let ghost t = strip_hex_prefix(encode_utf8(s@));
    proof {
        assert(t =~= b@.skip(start as int));
    }
    let mut out: Vec<u8> = Vec::new();
    let mut i: usize = start;
    proof {
        assert(t.skip(0) =~= t);
        match hex_decode_s(t) {
            Option::Some(u) => {
                assert(Seq::<u8>::empty() + u =~= u);
            },
            Option::None => {},
        }
    }
    while len - i >= 2
        invariant
            start <= i <= len,
            (i - start) % 2 == 0,
            len == b@.len(),
            t == b@.skip(start as int),
            t == strip_hex_prefix(encode_utf8(s@)),
            match hex_decode_s(t.skip(i - start)) {
                Option::Some(u) => hex_decode_s(t) == Option::Some(out@ + u),
                Option::None => hex_decode_s(t) is None,
            },
        decreases len - i,
    {
        let ghost rest = t.skip(i - start);
        proof {
            assert(rest.len() >= 2);
            assert(rest[0] == b@[i as int]);
            assert(rest[1] == b@[i as int + 1]);
            assert(rest.skip(2) =~= t.skip(i + 2 - start));
        }
        let h = hex_digit(b[i]);
        let l = hex_digit(b[i + 1]);
        match (h, l) {
            (Some(hv), Some(lv)) => {
                let ghost acc0 = out@;
                out.push(hv * 16 + lv);
                proof {
                    match hex_decode_s(t.skip(i + 2 - start)) {
                        Option::Some(u) => {
                            assert(hex_decode_s(rest) == Option::Some(
                                seq![(hv * 16 + lv) as u8] + u,
                            ));
                            assert(acc0 + (seq![(hv * 16 + lv) as u8] + u) =~= out@ + u);
                        },
                        Option::None => {},
                    }
                }
                i = i + 2;
            },
            _ => {
                proof {
                    assert(hex_decode_s(rest) is None);
                    assert(hex_decode_s(t) is None);
                }
                return Err(CodecError::InvalidHex);
            },
        }
    }
    if i < len {
        proof {
            assert(t.skip(i - start).len() == 1);
        }
        return Err(CodecError::InvalidHex);
    }
    proof {
        assert(t.skip(i - start) =~= Seq::<u8>::empty());
        assert(hex_decode_s(t) == Option::Some(out@ + Seq::<u8>::empty()));
        assert(out@ + Seq::<u8>::empty() =~= out@);
    }
    Ok(out)
}

} // verus!
