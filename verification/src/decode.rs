//! The typed decoder: a byte buffer and parallel sequences of
//! target-type tags and hints become a sequence of decoded values,
//! read left to right behind a single cursor.
use vstd::prelude::*;
use vstd::utf8::{decode_utf8, valid_utf8};
use crate::compact::{compact_decode, compact_decode_s, lemma_pow256_mid};
use crate::encode::views_of;
use crate::errors::CodecError;
use crate::le::{
    from_twos, le_val, lemma_pow256_16, lemma_pow256_even, lemma_pow256_mono, pow256, pow256_exec,
    push_range, read_le,
};
use crate::ss58::{ss58_encode, ss58_render};
use crate::values::{Hint, Tag, Value, ValueSpec};

verus! {

/// Relies on String::from_utf8: yields the string whose UTF-8 encoding
/// is the given bytes, exactly when the bytes are valid UTF-8.
#[verifier::external_body]
fn string_from_utf8(b: Vec<u8>) -> (r: Option<String>)
    ensures
        r matches Some(s) ==> valid_utf8(b@) && s@ == decode_utf8(b@),
        r is None ==> !valid_utf8(b@),
{
    String::from_utf8(b).ok()
}

/// The byte width of a fixed-width integer hint; zero for the others.
pub open spec fn int_width(h: Hint) -> nat {
    match h {
        Hint::U8 => 1,
        Hint::I8 => 1,
        Hint::U16 => 2,
        Hint::I16 => 2,
        Hint::U32 => 4,
        Hint::I32 => 4,
        Hint::U64 => 8,
        Hint::I64 => 8,
        Hint::U128 => 16,
        Hint::I128 => 16,
        _ => 0,
    }
}

/// Whether a fixed-width integer hint is signed.
pub open spec fn int_signed(h: Hint) -> bool {
    match h {
        Hint::I8 => true,
        Hint::I16 => true,
        Hint::I32 => true,
        Hint::I64 => true,
        Hint::I128 => true,
        _ => false,
    }
}

/// The 64-bit signed value and byte count one integer field decodes
/// to under a hint: the hinted little-endian width (two's complement
/// when signed) or the compact form, widened to 64 bits; nothing when
/// the buffer is short, the hint names no integer encoding, or the
/// value cannot be represented in 64 signed bits.
pub open spec fn decode_int_s(h: Hint, rest: Seq<u8>) -> Option<(int, nat)> {
    if h == Hint::Compact {
        match compact_decode_s(rest) {
            Option::Some(p) => if p.0 < 0x8000000000000000 {
                Option::Some((p.0 as int, p.1))
            } else {
                Option::None
            },
            Option::None => Option::None,
        }
    } else if int_width(h) > 0 {
        let w = int_width(h);
        if rest.len() >= w {
            let u = le_val(rest.take(w as int));
            if int_signed(h) {
                let x = from_twos(u, w);
                if -0x8000000000000000 <= x < 0x8000000000000000 {
                    Option::Some((x, w))
                } else {
                    Option::None
                }
            } else {
                if u < 0x8000000000000000 {
                    Option::Some((u as int, w))
                } else {
                    Option::None
                }
            }
        } else {
            Option::None
        }
    } else {
        Option::None
    }
}

/// The value and byte count one field decodes to under a target-type
/// tag and hint, or nothing when the field is malformed or does not
/// fit the remaining buffer.
pub open spec fn decode_value_s(t: Tag, h: Hint, rest: Seq<u8>, ver: u16) -> Option<
    (ValueSpec, nat),
> {
    match t {
        Tag::Nil => if rest.len() >= 1 {
            Option::Some((ValueSpec::Nil, 1 as nat))
        } else {
            Option::None
        },
        Tag::Bool => if rest.len() >= 1 {
            if rest[0] == 0 {
                Option::Some((ValueSpec::Bool(false), 1 as nat))
            } else if rest[0] == 1 {
                Option::Some((ValueSpec::Bool(true), 1 as nat))
            } else {
                Option::None
            }
        } else {
            Option::None
        },
        Tag::Int => match decode_int_s(h, rest) {
            Option::Some(p) => Option::Some((ValueSpec::Int(p.0), p.1)),
            Option::None => Option::None,
        },
        Tag::Bytes => match compact_decode_s(rest) {
            Option::Some(p) => if rest.len() >= p.1 + p.0 {
                Option::Some(
                    (
                        ValueSpec::Bytes(rest.subrange(p.1 as int, p.1 as int + p.0 as int)),
                        p.1 + p.0,
                    ),
                )
            } else {
                Option::None
            },
            Option::None => Option::None,
        },
        Tag::Text => if h == Hint::Account {
            if rest.len() >= 32 {
                Option::Some(
                    (ValueSpec::Text(ss58_render(rest.take(32), (ver & 0x3FFF) as u16)), 32 as nat),
                )
            } else {
                Option::None
            }
        } else {
            match compact_decode_s(rest) {
                Option::Some(p) => if rest.len() >= p.1 + p.0 {
                    let b = rest.subrange(p.1 as int, p.1 as int + p.0 as int);
                    if valid_utf8(b) {
                        Option::Some((ValueSpec::Text(decode_utf8(b)), p.1 + p.0))
                    } else {
                        Option::None
                    }
                } else {
                    Option::None
                },
                Option::None => Option::None,
            }
        },
    }
}

/// Reads an `n`-byte little-endian two's-complement value.
fn read_signed(buf: &Vec<u8>, pos: usize, n: usize) -> (r: i64)
    requires
        1 <= n <= 8,
        pos + n <= buf@.len(),
    ensures
        r as int == from_twos(
            le_val(buf@.subrange(pos as int, pos as int + n as int)),
            n as nat,
        ),
{
    proof {
        lemma_pow256_16();
        lemma_pow256_even(n as nat);
        lemma_pow256_mono(n as nat, 8);
    }
    let v = read_le(buf, pos, n);
    if n == 8 {
        if v < 0x8000000000000000 {
            v as i64
        } else {
            i64::MIN + ((v - 0x8000000000000000) as i64)
        }
    } else {
        let p = pow256_exec(n);
        proof {
            lemma_pow256_mono(n as nat, 7);
            lemma_pow256_mid();
        }
        if v < p / 2 {
            v as i64
        } else {
            -((p - v) as i64)
        }
    }
}

/// Reads one integer field under a hint, widening to 64 signed bits.
fn decode_int(buf: &Vec<u8>, pos: usize, h: Hint) -> (r: Result<(i64, usize), CodecError>)
    requires
        pos <= buf@.len(),
    ensures
        match decode_int_s(h, buf@.skip(pos as int)) {
            Option::Some(p) => r matches Ok(q) && q.0 as int == p.0 && q.1 as nat == p.1 && pos
                + q.1 <= buf@.len(),
            Option::None => r is Err,
        },
        r matches Err(e) ==> (e == CodecError::Underrun || e == CodecError::NonCanonical
            || e == CodecError::OutOfRange || e == CodecError::UnknownHint),
{
    let ghost rest = buf@.skip(pos as int);
    proof {
        lemma_pow256_16();
    }
    let len = buf.len();
    if let Hint::Compact = h {
        return match compact_decode(buf, pos) {
            Ok((v, n)) => {
                if v > 0x7FFFFFFFFFFFFFFF {
                    Err(CodecError::OutOfRange)
                } else {
                    Ok((v as i64, n))
                }
            },
            Err(e) => Err(e),
        };
    }
    let w: usize = match h {
        Hint::U8 => 1,
        Hint::I8 => 1,
        Hint::U16 => 2,
        Hint::I16 => 2,
        Hint::U32 => 4,
        Hint::I32 => 4,
        Hint::U64 => 8,
        Hint::I64 => 8,
        Hint::U128 => 16,
        Hint::I128 => 16,
        _ => {
            return Err(CodecError::UnknownHint);
        },
    };
    proof {
        assert(w as nat == int_width(h));
    }
    if len - pos < w {
        return Err(CodecError::Underrun);
    }
    proof {
        assert(rest.take(w as int) =~= buf@.subrange(pos as int, pos as int + w as int));
        assert(rest.len() >= w as nat);
    }
    let signed = match h {
        Hint::I8 => true,
        Hint::I16 => true,
        Hint::I32 => true,
        Hint::I64 => true,
        Hint::I128 => true,
        _ => false,
    };
    if signed {
        if w <= 8 {
            let x = read_signed(buf, pos, w);
            proof {
                lemma_pow256_even(w as nat);
                lemma_pow256_mono(w as nat, 8);
            }
            Ok((x, w))
        } else {
            let v = read_le(buf, pos, 16);
            proof {
                lemma_pow256_even(16);
            }
            if v <= 0x7FFFFFFFFFFFFFFF {
                Ok((v as i64, 16))
            } else if v >= 0xFFFFFFFFFFFFFFFF8000000000000000 {
                Ok((i64::MIN + ((v - 0xFFFFFFFFFFFFFFFF8000000000000000) as i64), 16))
            } else {
                Err(CodecError::OutOfRange)
            }
        }
    } else {
        let v = read_le(buf, pos, w);
        proof {
            if w < 8 {
                lemma_pow256_mono(w as nat, 7);
                lemma_pow256_mid();
            }
        }
        if v > 0x7FFFFFFFFFFFFFFF {
            Err(CodecError::OutOfRange)
        } else {
            Ok((v as i64, w))
        }
    }
}

/// Decodes one field at `pos` under a target-type tag and hint; yields
/// the value and the number of bytes consumed.
pub fn decode_value(buf: &Vec<u8>, pos: usize, t: Tag, h: Hint, ver: u16) -> (r: Result<
    (Value, usize),
    CodecError,
>)
    requires
        pos <= buf@.len(),
    ensures
        match decode_value_s(t, h, buf@.skip(pos as int), ver) {
            Option::Some(p) => r matches Ok(q) && q.0@ == p.0 && q.1 as nat == p.1 && pos + q.1
                <= buf@.len(),
            Option::None => r is Err,
        },
        r matches Err(e) ==> (e == CodecError::Underrun || e == CodecError::NonCanonical
            || e == CodecError::OutOfRange || e == CodecError::UnknownHint
            || e == CodecError::InvalidBool || e == CodecError::InvalidUtf8),
{
    let ghost rest = buf@.skip(pos as int);
    let len = buf.len();
    match t {
        Tag::Nil => {
            if pos >= len {
                return Err(CodecError::Underrun);
            }
            Ok((Value::Nil, 1))
        },
        Tag::Bool => {
            if pos >= len {
                return Err(CodecError::Underrun);
            }
            let b = buf[pos];
            proof {
                assert(rest[0] == b);
            }
            if b == 0 {
                Ok((Value::Bool(false), 1))
            } else if b == 1 {
                Ok((Value::Bool(true), 1))
            } else {
                Err(CodecError::InvalidBool)
            }
        },
        Tag::Int => {
            match decode_int(buf, pos, h) {
                Ok((x, n)) => Ok((Value::Int(x), n)),
                Err(e) => Err(e),
            }
        },
        Tag::Bytes => {
            let (l, c) = match compact_decode(buf, pos) {
                Ok(p) => p,
                Err(e) => {
                    return Err(e);
                },
            };
            let remaining = len - (pos + c);
            if l > remaining as u64 {
                return Err(CodecError::Underrun);
            }
            let lu = l as usize;
            let mut v: Vec<u8> = Vec::new();
            push_range(&mut v, buf, pos + c, pos + c + lu);
            proof {
                assert(rest.subrange(c as int, c as int + l as int) =~= buf@.subrange(
                    pos as int + c as int,
                    pos as int + c as int + l as int,
                ));
            }
            Ok((Value::Bytes(v), c + lu))
        },
        Tag::Text => {
            if let Hint::Account = h {
                if len - pos < 32 {
                    return Err(CodecError::Underrun);
                }
                let mut key: Vec<u8> = Vec::new();
                push_range(&mut key, buf, pos, pos + 32);
                proof {
                    assert(rest.take(32) =~= buf@.subrange(pos as int, pos as int + 32));
                }
                match ss58_encode(&key, false, ver) {
                    Ok(s) => Ok((Value::Text(s), 32)),
                    Err(_) => {
                        proof {
                            assert(false);
                        }
                        Err(CodecError::BadKeyLength)
                    },
                }
            } else {
                let (l, c) = match compact_decode(buf, pos) {
                    Ok(p) => p,
                    Err(e) => {
                        return Err(e);
                    },
                };
                let remaining = len - (pos + c);
                if l > remaining as u64 {
                    return Err(CodecError::Underrun);
                }
                let lu = l as usize;
                let mut v: Vec<u8> = Vec::new();
                push_range(&mut v, buf, pos + c, pos + c + lu);
                proof {
                    assert(rest.subrange(c as int, c as int + l as int) =~= buf@.subrange(
                        pos as int + c as int,
                        pos as int + c as int + l as int,
                    ));
                }
                match string_from_utf8(v) {
                    Some(s) => Ok((Value::Text(s), c + lu)),
                    None => Err(CodecError::InvalidUtf8),
                }
            }
        },
    }
}

/// The sequence of values parallel tag and hint sequences decode to
/// from `rest`, or nothing as soon as one field fails; bytes past the
/// last field are ignored.
pub open spec fn decode_values_s(tags: Seq<Tag>, hints: Seq<Hint>, rest: Seq<u8>, ver: u16) -> Option<
    Seq<ValueSpec>,
>
    decreases tags.len(),
{
    if tags.len() == 0 {
        Option::Some(Seq::empty())
    } else {
        match decode_value_s(tags[0], hints[0], rest, ver) {
            Option::Some(p) => match decode_values_s(
                tags.drop_first(),
                hints.drop_first(),
                rest.skip(p.1 as int),
                ver,
            ) {
                Option::Some(t) => Option::Some(seq![p.0] + t),
                Option::None => Option::None,
            },
            Option::None => Option::None,
        }
    }
}

/// Decodes a byte buffer against parallel sequences of target-type
/// tags and hints, rendering identifier strings under the given
/// network version. The two sequences must have equal length and the
/// version must fit sixteen bits; a failing field aborts the whole
/// call with no partial result.
pub fn decode_values(buf: &Vec<u8>, tags: &Vec<Tag>, hints: &Vec<Hint>, version: i64) -> (r:
    Result<Vec<Value>, CodecError>)
    ensures
        tags@.len() != hints@.len() ==> r == Err::<Vec<Value>, CodecError>(
            CodecError::ArityMismatch,
        ),
        tags@.len() == hints@.len() && !(0 <= version <= 0xFFFF) ==> r == Err::<
            Vec<Value>,
            CodecError,
        >(CodecError::BadVersion),
        tags@.len() == hints@.len() && 0 <= version <= 0xFFFF ==> match decode_values_s(
            tags@,
            hints@,
            buf@,
            version as u16,
        ) {
            Option::Some(vals) => r matches Ok(out) && views_of(out@) == vals,
            Option::None => r is Err && !(r == Err::<Vec<Value>, CodecError>(
                CodecError::ArityMismatch,
            )),
        },
{
    if tags.len() != hints.len() {
        return Err(CodecError::ArityMismatch);
    }
    if version < 0 || version > 0xFFFF {
        return Err(CodecError::BadVersion);
    }
    let ver = version as u16;
    let ghost ts = tags@;
    let ghost hs = hints@;
    let blen = buf.len();
    let mut out: Vec<Value> = Vec::new();
    let mut pos: usize = 0;
    let mut i: usize = 0;
    proof {
        assert(ts.skip(0) =~= ts);
        assert(hs.skip(0) =~= hs);
        assert(buf@.skip(0) =~= buf@);
        assert(views_of(out@) =~= Seq::<ValueSpec>::empty());
        match decode_values_s(ts, hs, buf@, ver) {
            Option::Some(t) => {
                assert(Seq::<ValueSpec>::empty() + t =~= t);
            },
            Option::None => {},
        }
    }
    while i < tags.len()
        invariant
            i <= tags@.len(),
            tags@.len() == hints@.len(),
            ts == tags@,
            hs == hints@,
            0 <= version <= 0xFFFF,
            ver == version as u16,
            blen == buf@.len(),
            pos <= blen,
            match decode_values_s(ts.skip(i as int), hs.skip(i as int), buf@.skip(pos as int), ver) {
                Option::Some(t) => decode_values_s(ts, hs, buf@, ver) == Option::Some(
                    views_of(out@) + t,
                ),
                Option::None => decode_values_s(ts, hs, buf@, ver) is None,
            },
        decreases tags@.len() - i,
    {
        let ghost restt = ts.skip(i as int);
        let ghost resth = hs.skip(i as int);
        proof {
            assert(restt.len() > 0);
            assert(restt[0] == tags@[i as int]);
            assert(resth[0] == hints@[i as int]);
            assert(restt.drop_first() =~= ts.skip(i as int + 1));
            assert(resth.drop_first() =~= hs.skip(i as int + 1));
        }
        let rr = decode_value(buf, pos, tags[i], hints[i], ver);
        match rr {
            Ok((val, n)) => {
                let ghost acc0 = out@;
                out.push(val);
                proof {
                    assert(buf@.skip(pos as int).skip(n as int) =~= buf@.skip(
                        pos as int + n as int,
                    ));
                    let p = decode_value_s(restt[0], resth[0], buf@.skip(pos as int), ver)->Some_0;
                    match decode_values_s(
                        ts.skip(i as int + 1),
                        hs.skip(i as int + 1),
                        buf@.skip(pos as int + n as int),
                        ver,
                    ) {
                        Option::Some(t) => {
                            assert(views_of(out@) =~= views_of(acc0) + seq![val@]);
                            assert(views_of(acc0) + (seq![p.0] + t) =~= views_of(out@) + t);
                        },
                        Option::None => {},
                    }
                }
                pos = pos + n;
                i = i + 1;
            },
            Err(e) => {
                proof {
                    assert(decode_value_s(restt[0], resth[0], buf@.skip(pos as int), ver)
                        is None);
                }
                return Err(e);
            },
        }
    }
    proof {
        assert(ts.skip(tags@.len() as int) =~= Seq::<Tag>::empty());
        assert(hs.skip(tags@.len() as int) =~= Seq::<Hint>::empty());
        assert(views_of(out@) + Seq::<ValueSpec>::empty() =~= views_of(out@));
    }
    Ok(out)
}

} // verus!
