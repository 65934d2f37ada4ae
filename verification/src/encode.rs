//! The typed encoder: a sequence of tagged values and a parallel
//! sequence of hints become one contiguous byte buffer.
use vstd::prelude::*;
use vstd::utf8::encode_utf8;
use crate::compact::{compact_bytes, compact_encode};
use crate::errors::CodecError;
use crate::le::{
    le_bytes, lemma_pow256_16, lemma_pow256_even, lemma_pow256_mono, lemma_twos_from_twos, pow256,
    push_bytes, push_le, push_twos, twos,
};
use crate::ss58::{is_identifier, ss58_decode};
use crate::values::{Hint, Value, ValueSpec};

verus! {

/// The bytes a 64-bit signed integer encodes to under a hint: the
/// little-endian two's-complement pattern of the hinted width, the
/// compact form for the compact hint, and nothing when the hint is
/// absent, names no integer encoding, or the value does not fit.
pub open spec fn int_bytes_s(i: int, h: Hint) -> Option<Seq<u8>> {
    match h {
        Hint::U8 => if 0 <= i < 0x100 {
            Option::Some(le_bytes(i as nat, 1))
        } else {
            Option::None
        },
        Hint::U16 => if 0 <= i < 0x10000 {
            Option::Some(le_bytes(i as nat, 2))
        } else {
            Option::None
        },
        Hint::U32 => if 0 <= i < 0x100000000 {
            Option::Some(le_bytes(i as nat, 4))
        } else {
            Option::None
        },
        Hint::U64 => if 0 <= i < pow256(8) {
            Option::Some(le_bytes(i as nat, 8))
        } else {
            Option::None
        },
        Hint::U128 => if 0 <= i < pow256(16) {
            Option::Some(le_bytes(i as nat, 16))
        } else {
            Option::None
        },
        Hint::I8 => if -0x80 <= i < 0x80 {
            Option::Some(le_bytes(twos(i, 1), 1))
        } else {
            Option::None
        },
        Hint::I16 => if -0x8000 <= i < 0x8000 {
            Option::Some(le_bytes(twos(i, 2), 2))
        } else {
            Option::None
        },
        Hint::I32 => if -0x80000000 <= i < 0x80000000 {
            Option::Some(le_bytes(twos(i, 4), 4))
        } else {
            Option::None
        },
        Hint::I64 => if -0x8000000000000000 <= i < 0x8000000000000000 {
            Option::Some(le_bytes(twos(i, 8), 8))
        } else {
            Option::None
        },
        Hint::I128 => if -((pow256(16) / 2) as int) <= i < ((pow256(16) / 2) as int) {
            Option::Some(le_bytes(twos(i, 16), 16))
        } else {
            Option::None
        },
        Hint::Compact => if 0 <= i < pow256(8) {
            Option::Some(compact_bytes(i as nat))
        } else {
            Option::None
        },
        Hint::Plain => Option::None,
        Hint::Account => Option::None,
    }
}

/// The bytes one value encodes to under a hint, if the pair is
/// accepted: one zero byte for nothing, one 0/1 byte for a boolean, the
/// hinted integer pattern, a compact length prefix before raw bytes or
/// UTF-8 text, and for an identifier string the bare 32-byte key it
/// names.
pub open spec fn encode_value_s(v: ValueSpec, h: Hint) -> Option<Seq<u8>> {
    match v {
        ValueSpec::Nil => Option::Some(seq![0u8]),
        ValueSpec::Bool(b) => Option::Some(
            seq![
                if b {
                    1u8
                } else {
                    0u8
                },
            ],
        ),
        ValueSpec::Int(i) => int_bytes_s(i, h),
        ValueSpec::Bytes(b) => if b.len() < pow256(8) {
            Option::Some(compact_bytes(b.len()) + b)
        } else {
            Option::None
        },
        ValueSpec::Text(s) => if h == Hint::Account {
            if exists|k: Seq<u8>, ver: u16| is_identifier(s, k, ver) {
                Option::Some((choose|k: Seq<u8>, ver: u16| is_identifier(s, k, ver)).0)
            } else {
                Option::None
            }
        } else {
            if encode_utf8(s).len() < pow256(8) {
                Option::Some(compact_bytes(encode_utf8(s).len()) + encode_utf8(s))
            } else {
                Option::None
            }
        },
    }
}

/// Appends the hinted encoding of a 64-bit signed integer.
fn encode_int(i: i64, h: Hint, out: &mut Vec<u8>) -> (r: Result<(), CodecError>)
    ensures
        match int_bytes_s(i as int, h) {
            Option::Some(b) => r is Ok && final(out)@ == old(out)@ + b,
            Option::None => r is Err && final(out)@ == old(out)@,
        },
        r matches Err(e) ==> if h == Hint::Plain || h == Hint::Account {
            e == CodecError::UnknownHint
        } else {
            e == CodecError::OutOfRange
        },
{
    proof {
        lemma_pow256_16();
        lemma_pow256_even(16);
        if -0x8000000000000000 <= (i as int) && (i as int) < 0x8000000000000000 {
            lemma_twos_from_twos(i as int, 8);
        }
    }
    match h {
        Hint::Plain => Err(CodecError::UnknownHint),
        Hint::Account => Err(CodecError::UnknownHint),
        Hint::U8 => {
            if i < 0 || i > 0xFF {
                return Err(CodecError::OutOfRange);
            }
            push_le(out, i as u128, 1);
            Ok(())
        },
        Hint::U16 => {
            if i < 0 || i > 0xFFFF {
                return Err(CodecError::OutOfRange);
            }
            push_le(out, i as u128, 2);
            Ok(())
        },
        Hint::U32 => {
            if i < 0 || i > 0xFFFFFFFF {
                return Err(CodecError::OutOfRange);
            }
            push_le(out, i as u128, 4);
            Ok(())
        },
        Hint::U64 => {
            if i < 0 {
                return Err(CodecError::OutOfRange);
            }
            push_le(out, i as u128, 8);
            Ok(())
        },
        Hint::U128 => {
            if i < 0 {
                return Err(CodecError::OutOfRange);
            }
            proof {
                lemma_pow256_mono(8, 16);
            }
            push_le(out, i as u128, 16);
            Ok(())
        },
        Hint::I8 => {
            if i < -0x80 || i > 0x7F {
                return Err(CodecError::OutOfRange);
            }
            push_twos(out, i, 1);
            Ok(())
        },
        Hint::I16 => {
            if i < -0x8000 || i > 0x7FFF {
                return Err(CodecError::OutOfRange);
            }
            push_twos(out, i, 2);
            Ok(())
        },
        Hint::I32 => {
            if i < -0x80000000 || i > 0x7FFFFFFF {
                return Err(CodecError::OutOfRange);
            }
            push_twos(out, i, 4);
            Ok(())
        },
        Hint::I64 => {
            push_twos(out, i, 8);
            Ok(())
        },
        Hint::I128 => {
            proof {
                lemma_pow256_mono(8, 15);
                assert(pow256(16) / 2 >= pow256(15));
            }
            push_twos(out, i, 16);
            Ok(())
        },
        Hint::Compact => {
            if i < 0 {
                return Err(CodecError::OutOfRange);
            }
            compact_encode(i as u64, out);
            Ok(())
        },
    }
}

/// Encodes one value under its hint and appends the bytes to `out`; on
/// failure `out` is unchanged.
pub fn encode_value(v: &Value, h: Hint, out: &mut Vec<u8>) -> (r: Result<(), CodecError>)
    ensures
        match encode_value_s(v@, h) {
            Option::Some(b) => r is Ok && final(out)@ == old(out)@ + b,
            Option::None => r is Err && final(out)@ == old(out)@,
        },
        r matches Err(e) ==> (e == CodecError::UnknownHint || e == CodecError::OutOfRange
            || e == CodecError::InvalidBase58 || e == CodecError::BadKeyLength
            || e == CodecError::BadChecksum || e == CodecError::BadVersion),
{
    proof {
        lemma_pow256_16();
    }
    match v {
        Value::Nil => {
            out.push(0);
            proof {
                assert(out@ =~= old(out)@ + seq![0u8]);
            }
            Ok(())
        },
        Value::Bool(b) => {
            out.push(if *b {
                1
            } else {
                0
            });
            proof {
                assert(out@ =~= old(out)@ + (encode_value_s(v@, h)->Some_0));
            }
            Ok(())
        },
        Value::Int(i) => encode_int(*i, h, out),
        Value::Bytes(b) => {
            let l = b.len();
            proof {
                assert((l as nat) < pow256(8));
            }
            compact_encode(l as u64, out);
            push_bytes(out, b);
            proof {
                assert(old(out)@ + compact_bytes(b@.len()) + b@ =~= old(out)@ + (compact_bytes(
                    b@.len(),
                ) + b@));
            }
            Ok(())
        },
        Value::Text(s) => {
            if let Hint::Account = h {
                match ss58_decode(s.as_str()) {
                    Ok((key, ver)) => {
                        push_bytes(out, &key);
                        proof {
                            assert(is_identifier(s@, key@, ver));
                            let c = choose|k: Seq<u8>, v2: u16| is_identifier(s@, k, v2);
                            assert(is_identifier(s@, c.0, c.1));
                            assert(c.0 == key@);
                        }
                        Ok(())
                    },
                    Err(e) => Err(e),
                }
            } else {
                let b = s.as_str().as_bytes_vec();
                let l = b.len();
                proof {
                    assert((l as nat) < pow256(8));
                }
                compact_encode(l as u64, out);
                push_bytes(out, &b);
                proof {
                    assert(old(out)@ + compact_bytes(b@.len()) + b@ =~= old(out)@ + (compact_bytes(
                        b@.len(),
                    ) + b@));
                }
                Ok(())
            }
        },
    }
}

/// The views of a sequence of values.
pub open spec fn views_of(s: Seq<Value>) -> Seq<ValueSpec> {
    s.map_values(|x: Value| x@)
}

/// The concatenated encoding of parallel value and hint sequences, if
/// every pair is accepted.
pub open spec fn encode_values_s(vs: Seq<ValueSpec>, hs: Seq<Hint>) -> Option<Seq<u8>>
    decreases vs.len(),
{
    if vs.len() == 0 {
        Option::Some(Seq::empty())
    } else {
        match (encode_value_s(vs[0], hs[0]), encode_values_s(vs.drop_first(), hs.drop_first())) {
            (Option::Some(b), Option::Some(t)) => Option::Some(b + t),
            _ => Option::None,
        }
    }
}

/// Encodes a sequence of values under a parallel sequence of hints into
/// one byte buffer; the sequences must have equal length, and every
/// pair must be accepted.
pub fn encode_values(values: &Vec<Value>, hints: &Vec<Hint>) -> (r: Result<Vec<u8>, CodecError>)
    ensures
        values@.len() != hints@.len() ==> r == Err::<Vec<u8>, CodecError>(
            CodecError::ArityMismatch,
        ),
        values@.len() == hints@.len() ==> match encode_values_s(views_of(values@), hints@) {
            Option::Some(b) => r matches Ok(v) && v@ == b,
            Option::None => r is Err && !(r == Err::<Vec<u8>, CodecError>(
                CodecError::ArityMismatch,
            )),
        },
{
    if values.len() != hints.len() {
        return Err(CodecError::ArityMismatch);
    }
    let ghost vs = views_of(values@);
    let ghost hs = hints@;
    let mut out: Vec<u8> = Vec::new();
    let mut i: usize = 0;
    proof {
        assert(vs.skip(0) =~= vs);
        assert(hs.skip(0) =~= hs);
        match encode_values_s(vs, hs) {
            Option::Some(t) => {
                assert(Seq::<u8>::empty() + t =~= t);
            },
            Option::None => {},
        }
    }
    while i < values.len()
        invariant
            i <= values@.len(),
            values@.len() == hints@.len(),
            vs == views_of(values@),
            hs == hints@,
            match encode_values_s(vs.skip(i as int), hs.skip(i as int)) {
                Option::Some(t) => encode_values_s(vs, hs) == Option::Some(out@ + t),
                Option::None => encode_values_s(vs, hs) is None,
            },
        decreases values@.len() - i,
    {
        let ghost restv = vs.skip(i as int);
        let ghost resth = hs.skip(i as int);
        proof {
            assert(restv.len() > 0);
            assert(restv[0] == values@[i as int]@);
            assert(resth[0] == hints@[i as int]);
            assert(restv.drop_first() =~= vs.skip(i as int + 1));
            assert(resth.drop_first() =~= hs.skip(i as int + 1));
        }
        let ghost acc0 = out@;
        let rr = encode_value(&values[i], hints[i], &mut out);
        match rr {
            Ok(_) => {
                proof {
                    let b = encode_value_s(restv[0], resth[0])->Some_0;
                    match encode_values_s(vs.skip(i as int + 1), hs.skip(i as int + 1)) {
                        Option::Some(t) => {
                            assert(acc0 + (b + t) =~= out@ + t);
                        },
                        Option::None => {},
                    }
                }
                i = i + 1;
            },
            Err(e) => {
                proof {
                    assert(encode_value_s(restv[0], resth[0]) is None);
                }
                return Err(e);
            },
        }
    }
    proof {
        assert(vs.skip(values@.len() as int) =~= Seq::<ValueSpec>::empty());
        assert(hs.skip(values@.len() as int) =~= Seq::<Hint>::empty());
        assert(out@ + Seq::<u8>::empty() =~= out@);
    }
    Ok(out)
}

} // verus!
