//! The round-trip law: decoding an encoding, with the matching
//! target-type tag and the same hint, gives the original value back.
use vstd::prelude::*;
use vstd::utf8::{encode_utf8, encode_utf8_decode_utf8, encode_utf8_valid_utf8};
use crate::compact::{compact_bytes, lemma_compact_round_trip};
use crate::decode::{decode_value_s, decode_values_s};
use crate::encode::{encode_value_s, encode_values_s, int_bytes_s};
use crate::le::{
    lemma_le_bytes_len, lemma_le_val_le_bytes, lemma_pow256_16, lemma_pow256_even,
    lemma_pow256_mono, lemma_twos_from_twos, twos,
};
use crate::values::{tag_for, Hint, Tag, ValueSpec};

verus! {

/// Whether a value lies in the range the executable tagged values can
/// hold: integers are 64-bit signed.
pub open spec fn value_in_range(v: ValueSpec) -> bool {
    match v {
        ValueSpec::Int(i) => -0x8000000000000000 <= i < 0x8000000000000000,
        _ => true,
    }
}

proof fn lemma_take_concat(a: Seq<u8>, b: Seq<u8>)
    ensures
        (a + b).take(a.len() as int) == a,
        (a + b).skip(a.len() as int) == b,
        (a + b).len() == a.len() + b.len(),
{
    assert((a + b).take(a.len() as int) =~= a);
    assert((a + b).skip(a.len() as int) =~= b);
}

proof fn lemma_int_round_trip(i: int, h: Hint, tail: Seq<u8>)
    requires
        int_bytes_s(i, h) is Some,
        -0x8000000000000000 <= i < 0x8000000000000000,
    ensures
        ({
            let enc = int_bytes_s(i, h)->Some_0;
            crate::decode::decode_int_s(h, enc + tail) == Option::Some((i, enc.len()))
        }),
{
    lemma_pow256_16();
    let enc = int_bytes_s(i, h)->Some_0;
    match h {
        Hint::Compact => {
            lemma_compact_round_trip(i as nat, tail);
        },
        Hint::U8 | Hint::U16 | Hint::U32 | Hint::U64 | Hint::U128 => {
            let w = crate::decode::int_width(h);
            lemma_le_bytes_len(i as nat, w);
            lemma_take_concat(enc, tail);
            lemma_pow256_mono(8, 16);
            lemma_le_val_le_bytes(i as nat, w);
        },
        Hint::I8 | Hint::I16 | Hint::I32 | Hint::I64 | Hint::I128 => {
            let w = crate::decode::int_width(h);
            lemma_pow256_even(w);
            lemma_pow256_mono(8, 16);
            lemma_twos_from_twos(i, w);
            lemma_le_bytes_len(twos(i, w), w);
            lemma_take_concat(enc, tail);
            lemma_le_val_le_bytes(twos(i, w), w);
        },
        _ => {},
    }
}

/// Decoding the encoding of any accepted (value, hint) pair, with the
/// tag the value's shape answers to and the same hint, yields the value
/// back and consumes exactly the encoding, whatever bytes follow.
/// Identifier strings are excluded: their decode direction re-renders
/// the raw key under the decoder's own network version.
pub proof fn lemma_value_round_trip(v: ValueSpec, h: Hint, tail: Seq<u8>, ver: u16)
    requires
        encode_value_s(v, h) is Some,
        value_in_range(v),
        !(v is Text && h == Hint::Account),
    ensures
        ({
            let enc = encode_value_s(v, h)->Some_0;
            decode_value_s(tag_for(v), h, enc + tail, ver) == Option::Some((v, enc.len()))
        }),
{
    lemma_pow256_16();
    let enc = encode_value_s(v, h)->Some_0;
    match v {
        ValueSpec::Nil => {
            assert((enc + tail)[0] == 0u8);
            assert((enc + tail).len() >= 1);
        },
        ValueSpec::Bool(b) => {
            assert((enc + tail)[0] == (if b {
                1u8
            } else {
                0u8
            }));
        },
        ValueSpec::Int(i) => {
            lemma_int_round_trip(i, h, tail);
        },
        ValueSpec::Bytes(b) => {
            let c = compact_bytes(b.len());
            lemma_compact_round_trip(b.len(), b + tail);
            assert(c + b + tail =~= c + (b + tail));
            assert((c + (b + tail)).skip(c.len() as int) =~= b + tail);
            assert((enc + tail).subrange(
                c.len() as int,
                c.len() as int + b.len() as int,
            ) =~= b);
            assert((enc + tail).len() >= c.len() + b.len());
        },
        ValueSpec::Text(s) => {
            let b = encode_utf8(s);
            let c = compact_bytes(b.len());
            lemma_compact_round_trip(b.len(), b + tail);
            assert(c + b + tail =~= c + (b + tail));
            assert((enc + tail).subrange(
                c.len() as int,
                c.len() as int + b.len() as int,
            ) =~= b);
            assert((enc + tail).len() >= c.len() + b.len());
            encode_utf8_valid_utf8(s);
            encode_utf8_decode_utf8(s);
        },
    }
}

/// The tags the values' own shapes answer to.
pub open spec fn tags_for(vs: Seq<ValueSpec>) -> Seq<Tag> {
    vs.map_values(|v: ValueSpec| tag_for(v))
}

/// Decoding the buffer the encoder produced, with the matching tags and
/// the same hints, yields the original value sequence back.
pub proof fn lemma_values_round_trip(vs: Seq<ValueSpec>, hs: Seq<Hint>, ver: u16)
    requires
        vs.len() == hs.len(),
        encode_values_s(vs, hs) is Some,
        forall|j: int| 0 <= j < vs.len() ==> value_in_range(#[trigger] vs[j]),
        forall|j: int| 0 <= j < vs.len() ==> !(#[trigger] vs[j] is Text && hs[j] == Hint::Account),
    ensures
        decode_values_s(tags_for(vs), hs, encode_values_s(vs, hs)->Some_0, ver) == Option::Some(
            vs,
        ),
    decreases vs.len(),
{
    let enc = encode_values_s(vs, hs)->Some_0;
    if vs.len() == 0 {
        assert(tags_for(vs) =~= Seq::<Tag>::empty());
        assert(decode_values_s(tags_for(vs), hs, enc, ver) == Option::Some(
            Seq::<ValueSpec>::empty(),
        ));
        assert(vs =~= Seq::<ValueSpec>::empty());
    } else {
        let b0 = encode_value_s(vs[0], hs[0])->Some_0;
        let rest = encode_values_s(vs.drop_first(), hs.drop_first())->Some_0;
        assert(enc == b0 + rest);
        lemma_value_round_trip(vs[0], hs[0], rest, ver);
        assert(tags_for(vs)[0] == tag_for(vs[0]));
        assert(tags_for(vs).drop_first() =~= tags_for(vs.drop_first()));
        lemma_take_concat(b0, rest);
        assert((b0 + rest).skip(b0.len() as int) == rest);
        assert(forall|j: int|
            0 <= j < vs.drop_first().len() ==> value_in_range(#[trigger] vs.drop_first()[j]));
        assert(forall|j: int|
            0 <= j < vs.drop_first().len() ==> !(#[trigger] vs.drop_first()[j] is Text
                && hs.drop_first()[j] == Hint::Account));
        lemma_values_round_trip(vs.drop_first(), hs.drop_first(), ver);
        assert(seq![vs[0]] + vs.drop_first() =~= vs);
    }
}

} // verus!
