//! The SCALE compact encoding of unsigned integers: a variable-length
//! prefix scheme whose two low bits of the first byte select the form.
//!
//! Values under 2^6 take one byte, under 2^14 two bytes, under 2^30
//! four bytes; larger values take a byte-count prefix followed by their
//! minimal little-endian bytes. Decoding accepts only the canonical
//! (minimal) form.
use vstd::prelude::*;
use vstd::arithmetic::div_mod::*;
use crate::errors::CodecError;
use crate::le::{
    le_bytes, le_val, lemma_le_bytes_len, lemma_le_val_le_bytes, lemma_pow256_16,
    lemma_pow256_mono, pow256, push_le, read_le,
};

verus! {

/// Number of bytes the big-integer form needs for `v` (at least 4).
pub open spec fn compact_big_len(v: nat) -> nat {
    if v < pow256(4) {
        4
    } else if v < pow256(5) {
        5
    } else if v < pow256(6) {
        6
    } else if v < pow256(7) {
        7
    } else {
        8
    }
}

/// The canonical compact encoding of an unsigned 64-bit value.
pub open spec fn compact_bytes(v: nat) -> Seq<u8> {
    if v < 0x40 {
        seq![(v * 4) as u8]
    } else if v < 0x4000 {
        le_bytes(v * 4 + 1, 2)
    } else if v < 0x40000000 {
        le_bytes(v * 4 + 2, 4)
    } else {
        seq![((compact_big_len(v) - 4) * 4 + 3) as u8] + le_bytes(v, compact_big_len(v))
    }
}

/// Structural decode of a compact prefix of `rest`: yields the value and
/// the number of bytes consumed, or nothing when no canonical encoding
/// starts there.
pub open spec fn compact_decode_s(rest: Seq<u8>) -> Option<(nat, nat)> {
    if rest.len() < 1 {
        Option::None
    } else {
        let b0 = rest[0];
        let mode = b0 % 4;
        if mode == 0 {
            Option::Some(((b0 / 4) as nat, 1 as nat))
        } else if mode == 1 {
            if rest.len() < 2 {
                Option::None
            } else {
                let v = le_val(rest.subrange(0, 2)) / 4;
                if v >= 0x40 {
                    Option::Some((v, 2 as nat))
                } else {
                    Option::None
                }
            }
        } else if mode == 2 {
            if rest.len() < 4 {
                Option::None
            } else {
                let v = le_val(rest.subrange(0, 4)) / 4;
                if v >= 0x4000 {
                    Option::Some((v, 4 as nat))
                } else {
                    Option::None
                }
            }
        } else {
            let nb = (b0 / 4 + 4) as nat;
            if nb > 8 {
                Option::None
            } else if rest.len() < 1 + nb {
                Option::None
            } else {
                let v = le_val(rest.subrange(1, 1 + nb as int));
                if v >= 0x40000000 && (nb == 4 || v >= pow256((nb - 1) as nat)) {
                    Option::Some((v, 1 + nb))
                } else {
                    Option::None
                }
            }
        }
    }
}

pub proof fn lemma_pow256_mid()
    ensures
        pow256(3) == 0x1000000,
        pow256(5) == 0x10000000000,
        pow256(6) == 0x1000000000000,
        pow256(7) == 0x100000000000000,
{
    reveal_with_fuel(pow256, 9);
}

/// The exact byte counts of the canonical compact form at each size
/// class: one byte up to 63, two up to 16383, four up to 2^30 - 1, and
/// one more than the minimal little-endian width above that.
pub proof fn lemma_compact_canonical_sizes(v: nat)
    ensures
        v < 0x40 ==> compact_bytes(v).len() == 1,
        0x40 <= v < 0x4000 ==> compact_bytes(v).len() == 2,
        0x4000 <= v < 0x40000000 ==> compact_bytes(v).len() == 4,
        0x40000000 <= v ==> compact_bytes(v).len() == 1 + compact_big_len(v),
        0x40000000 <= v ==> 5 <= compact_bytes(v).len() <= 9,
{
    if v < 0x40 {
    } else if v < 0x4000 {
        lemma_le_bytes_len(v * 4 + 1, 2);
    } else if v < 0x40000000 {
        lemma_le_bytes_len(v * 4 + 2, 4);
    } else {
        lemma_le_bytes_len(v, compact_big_len(v));
    }
}

/// Decoding a canonical compact encoding, whatever follows it, yields
/// the encoded value back and consumes exactly the encoding.
pub proof fn lemma_compact_round_trip(v: nat, tail: Seq<u8>)
    requires
        v < pow256(8),
    ensures
        compact_decode_s(compact_bytes(v) + tail) == Option::Some(
            (v, compact_bytes(v).len()),
        ),
{
    lemma_pow256_16();
    lemma_pow256_mid();
    let s = compact_bytes(v) + tail;
    if v < 0x40 {
        assert(s[0] == (v * 4) as u8);
        lemma_mod_multiples_basic(v as int, 4);
        assert((v * 4) % 4 == 0);
        lemma_div_multiples_vanish(v as int, 4);
        assert((4 * v) / 4 == v);
        assert(v * 4 == 4 * v);
    } else if v < 0x4000 {
        let w = (v * 4 + 1) as nat;
        lemma_le_bytes_len(w, 2);
        assert(s.subrange(0, 2) =~= le_bytes(w, 2));
        lemma_le_val_le_bytes(w, 2);
        assert(s[0] == le_bytes(w, 2)[0]);
        assert(le_bytes(w, 2)[0] == (w % 256) as u8);
        lemma_mod_mod(w as int, 4, 64);
        assert((w % 256) % 4 == w % 4);
        lemma_mod_multiples_basic(v as int, 4);
        lemma_add_mod_noop(v as int * 4, 1, 4);
        assert(w % 4 == 1);
        lemma_div_multiples_vanish_fancy(v as int, 1, 4);
        assert((4 * (v as int) + 1) / 4 == v);
        assert(le_val(s.subrange(0, 2)) / 4 == v);
    } else if v < 0x40000000 {
        let w = (v * 4 + 2) as nat;
        lemma_le_bytes_len(w, 4);
        assert(s.subrange(0, 4) =~= le_bytes(w, 4));
        lemma_le_val_le_bytes(w, 4);
        assert(s[0] == le_bytes(w, 4)[0]);
        assert(le_bytes(w, 4)[0] == (w % 256) as u8);
        lemma_mod_mod(w as int, 4, 64);
        assert((w % 256) % 4 == w % 4);
        lemma_mod_multiples_basic(v as int, 4);
        lemma_add_mod_noop(v as int * 4, 2, 4);
        assert(w % 4 == 2);
        lemma_div_multiples_vanish_fancy(v as int, 2, 4);
        assert(le_val(s.subrange(0, 4)) / 4 == v);
    } else {
        let nb = compact_big_len(v);
        let p = ((nb - 4) * 4 + 3) as u8;
        lemma_le_bytes_len(v, nb);
        assert(s[0] == p);
        assert(p % 4 == 3);
        assert(p / 4 + 4 == nb);
        assert(s.subrange(1, 1 + nb as int) =~= le_bytes(v, nb));
        lemma_pow256_mono(nb, 8);
        lemma_le_val_le_bytes(v, nb);
        assert(nb == 4 || v >= pow256((nb - 1) as nat));
    }
}

/// Appends the canonical compact encoding of `v` to `out`.
pub fn compact_encode(v: u64, out: &mut Vec<u8>)
    ensures
        final(out)@ == old(out)@ + compact_bytes(v as nat),
{
    proof {
        lemma_pow256_16();
        lemma_pow256_mid();
    }
    if v < 0x40 {
        out.push((v * 4) as u8);
        proof {
            assert(out@ =~= old(out)@ + compact_bytes(v as nat));
        }
    } else if v < 0x4000 {
        push_le(out, (v as u128) * 4 + 1, 2);
    } else if v < 0x40000000 {
        push_le(out, (v as u128) * 4 + 2, 4);
    } else {
        let nb: usize = if v < 0x100000000 {
            4
        } else if v < 0x10000000000 {
            5
        } else if v < 0x1000000000000 {
            6
        } else if v < 0x100000000000000 {
            7
        } else {
            8
        };
        proof {
            assert(nb as nat == compact_big_len(v as nat));
        }
        out.push(((nb as u8) - 4) * 4 + 3);
        let ghost mid = out@;
        push_le(out, v as u128, nb);
        proof {
            lemma_pow256_mono(nb as nat, 8);
            assert(out@ =~= old(out)@ + compact_bytes(v as nat));
        }
    }
}

/// Reads one canonical compact integer from `buf` at `pos`; yields the
/// value and the number of bytes consumed.
pub fn compact_decode(buf: &Vec<u8>, pos: usize) -> (r: Result<(u64, usize), CodecError>)
    requires
        pos <= buf@.len(),
    ensures
        r matches Ok(p) ==> {
            &&& compact_decode_s(buf@.skip(pos as int)) == Option::Some(
                (p.0 as nat, p.1 as nat),
            )
            &&& pos + p.1 <= buf@.len()
            &&& 1 <= p.1 <= 9
        },
        r matches Err(e) ==> {
            &&& compact_decode_s(buf@.skip(pos as int)) is None
            &&& (e == CodecError::Underrun || e == CodecError::NonCanonical)
        },
{
    let ghost rest = buf@.skip(pos as int);
    proof {
        lemma_pow256_16();
        lemma_pow256_mid();
    }
    let len = buf.len();
    if pos >= len {
        return Err(CodecError::Underrun);
    }
    let b0 = buf[pos];
    proof {
        assert(rest[0] == b0);
    }
    let mode = b0 % 4;
    if mode == 0 {
        Ok(((b0 / 4) as u64, 1))
    } else if mode == 1 {
        if len - pos < 2 {
            return Err(CodecError::Underrun);
        }
        let w = read_le(buf, pos, 2);
        proof {
            assert(rest.subrange(0, 2) =~= buf@.subrange(pos as int, pos as int + 2));
        }
        let v = (w as u64) / 4;
        if v >= 0x40 {
            Ok((v, 2))
        } else {
            Err(CodecError::NonCanonical)
        }
    } else if mode == 2 {
        if len - pos < 4 {
            return Err(CodecError::Underrun);
        }
        let w = read_le(buf, pos, 4);
        proof {
            assert(rest.subrange(0, 4) =~= buf@.subrange(pos as int, pos as int + 4));
        }
        let v = (w as u64) / 4;
        if v >= 0x4000 {
            Ok((v, 4))
        } else {
            Err(CodecError::NonCanonical)
        }
    } else {
        let nb: usize = (b0 / 4) as usize + 4;
        if nb > 8 {
            return Err(CodecError::NonCanonical);
        }
        if len - pos < 1 + nb {
            return Err(CodecError::Underrun);
        }
        let w = read_le(buf, pos + 1, nb);
        proof {
            assert(rest.subrange(1, 1 + nb as int) =~= buf@.subrange(
                pos as int + 1,
                pos as int + 1 + nb as int,
            ));
            lemma_pow256_mono(nb as nat, 8);
        }
        let v = w as u64;
        let floor: u64 = if nb == 5 {
            0x100000000
        } else if nb == 6 {
            0x10000000000
        } else if nb == 7 {
            0x1000000000000
        } else if nb == 8 {
            0x100000000000000
        } else {
            0
        };
        if v >= 0x40000000 && (nb == 4 || v >= floor) {
            Ok((v, 1 + nb))
        } else {
            Err(CodecError::NonCanonical)
        }
    }
}

} // verus!
