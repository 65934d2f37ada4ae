//! Little-endian byte layout of unsigned integers, and the
//! two's-complement view of signed ones.
//!
//! `le_bytes` and `le_val` are the mathematical model of every
//! fixed-width field in the wire format; `push_le` and `read_le` are the
//! executable writer and reader proved against them.
use vstd::prelude::*;
use vstd::arithmetic::div_mod::*;
use vstd::arithmetic::mul::*;

verus! {

/// 256 raised to `n`: the number of values an `n`-byte field can hold.
pub open spec fn pow256(n: nat) -> nat
    decreases n,
{
    if n == 0 {
        1
    } else {
        256 * pow256((n - 1) as nat)
    }
}

pub proof fn lemma_pow256_pos(n: nat)
    ensures
        pow256(n) >= 1,
    decreases n,
{
    if n > 0 {
        lemma_pow256_pos((n - 1) as nat);
    }
}

pub proof fn lemma_pow256_mono(m: nat, n: nat)
    requires
        m <= n,
    ensures
        pow256(m) <= pow256(n),
    decreases n,
{
    if m < n {
        lemma_pow256_mono(m, (n - 1) as nat);
        lemma_pow256_pos((n - 1) as nat);
    }
}

pub proof fn lemma_pow256_add(m: nat, n: nat)
    ensures
        pow256(m + n) == pow256(m) * pow256(n),
    decreases m,
{
    if m == 0 {
        assert(pow256(0) == 1);
        assert(pow256(0 + n) == 1 * pow256(n));
    } else {
        lemma_pow256_add((m - 1) as nat, n);
        let a = pow256((m - 1) as nat);
        let b = pow256(n);
        assert(pow256((m - 1) as nat + n) == a * b);
        assert((m + n - 1) as nat == (m - 1) as nat + n);
        assert(pow256(m + n) == 256 * pow256((m + n - 1) as nat));
        assert(pow256(m + n) == 256 * (a * b));
        assert(256 * (a * b) == (256 * a) * b) by (nonlinear_arith);
        assert(pow256(m) == 256 * a);
        assert(pow256(m) * pow256(n) == (256 * a) * b);
    }
}

pub proof fn lemma_pow256_16()
    ensures
        pow256(1) == 0x100,
        pow256(2) == 0x10000,
        pow256(4) == 0x100000000,
        pow256(8) == 0x10000000000000000,
        pow256(15) == 0x1000000000000000000000000000000,
        pow256(16) == 0x100000000000000000000000000000000,
{
    reveal_with_fuel(pow256, 17);
}

/// The `n` little-endian bytes of `v` (low byte first); higher bytes of
/// `v` are cut off.
pub open spec fn le_bytes(v: nat, n: nat) -> Seq<u8>
    decreases n,
{
    if n == 0 {
        Seq::empty()
    } else {
        seq![(v % 256) as u8] + le_bytes(v / 256, (n - 1) as nat)
    }
}

/// The unsigned value a little-endian byte sequence denotes.
pub open spec fn le_val(s: Seq<u8>) -> nat
    decreases s.len(),
{
    if s.len() == 0 {
        0
    } else {
        (s[0] + 256 * le_val(s.drop_first())) as nat
    }
}

pub proof fn lemma_le_bytes_len(v: nat, n: nat)
    ensures
        le_bytes(v, n).len() == n,
    decreases n,
{
    if n > 0 {
        lemma_le_bytes_len(v / 256, (n - 1) as nat);
    }
}

pub proof fn lemma_le_val_bound(s: Seq<u8>)
    ensures
        le_val(s) < pow256(s.len()),
    decreases s.len(),
{
    if s.len() > 0 {
        let r = le_val(s.drop_first());
        let p = pow256((s.len() - 1) as nat);
        lemma_le_val_bound(s.drop_first());
        assert(256 * r <= 256 * (p - 1)) by (nonlinear_arith)
            requires
                r <= p - 1,
        ;
    }
}

pub proof fn lemma_le_val_le_bytes(v: nat, n: nat)
    requires
        v < pow256(n),
    ensures
        le_val(le_bytes(v, n)) == v,
    decreases n,
{
    if n == 0 {
        assert(v == 0);
    } else {
        let s = le_bytes(v, n);
        lemma_le_bytes_len(v / 256, (n - 1) as nat);
        assert(s.drop_first() =~= le_bytes(v / 256, (n - 1) as nat));
        assert(v / 256 < pow256((n - 1) as nat)) by (nonlinear_arith)
            requires
                v < 256 * pow256((n - 1) as nat),
        ;
        lemma_le_val_le_bytes(v / 256, (n - 1) as nat);
        lemma_fundamental_div_mod(v as int, 256);
    }
}

pub proof fn lemma_le_bytes_le_val(s: Seq<u8>)
    ensures
        le_bytes(le_val(s), s.len()) == s,
    decreases s.len(),
{
    if s.len() == 0 {
        assert(le_bytes(le_val(s), s.len()) =~= s);
    } else {
        let v = le_val(s);
        let r = le_val(s.drop_first());
        assert(v == s[0] + 256 * r);
        assert(v % 256 == s[0] && v / 256 == r) by {
            lemma_mod_add_multiples_vanish(s[0] as int, 256);
            assert((256 * r + s[0]) % 256 == s[0] as int % 256) by {
                lemma_mod_add_multiples_vanish(s[0] as int, 256);
                assert(256 * r % 256 == 0) by (nonlinear_arith);
                lemma_add_mod_noop(256 * (r as int), s[0] as int, 256);
            }
            lemma_small_mod(s[0] as nat, 256);
            lemma_fundamental_div_mod_converse(v as int, 256, r as int, s[0] as int);
        }
        lemma_le_bytes_le_val(s.drop_first());
        assert(le_bytes(v, s.len()) =~= s);
    }
}

pub proof fn lemma_le_bytes_split(v: nat, m: nat, n: nat)
    ensures
        le_bytes(v, m + n) == le_bytes(v, m) + le_bytes(v / pow256(m), n),
    decreases m,
{
    if m == 0 {
        assert(v / pow256(0) == v) by {
            lemma_div_basics(v as int);
        }
        assert(le_bytes(v, n) =~= le_bytes(v, 0) + le_bytes(v / pow256(0), n));
    } else {
        lemma_le_bytes_split(v / 256, (m - 1) as nat, n);
        lemma_pow256_pos((m - 1) as nat);
        lemma_div_denominator(v as int, 256, pow256((m - 1) as nat) as int);
        assert(256 * pow256((m - 1) as nat) == pow256(m));
        assert(le_bytes(v, m + n) =~= le_bytes(v, m) + le_bytes(v / pow256(m), n));
    }
}

/// The two's-complement bit pattern of `i` in `n` bytes, as an unsigned
/// value.
pub open spec fn twos(i: int, n: nat) -> nat {
    (i % (pow256(n) as int)) as nat
}

/// The signed value an `n`-byte two's-complement pattern denotes.
pub open spec fn from_twos(v: nat, n: nat) -> int {
    if v < pow256(n) / 2 {
        v as int
    } else {
        v - pow256(n)
    }
}

pub proof fn lemma_pow256_even(n: nat)
    requires
        n >= 1,
    ensures
        pow256(n) == 2 * (pow256(n) / 2),
    decreases n,
{
    let h = 128 * pow256((n - 1) as nat);
    assert(pow256(n) == 2 * h) by (nonlinear_arith)
        requires
            pow256(n) == 256 * pow256((n - 1) as nat) && h == 128 * pow256((n - 1) as nat),
    ;
    assert(pow256(n) / 2 == h) by {
        lemma_div_multiples_vanish(h as int, 2);
    }
}

pub proof fn lemma_twos_from_twos(i: int, n: nat)
    requires
        n >= 1,
        -((pow256(n) / 2) as int) <= i < (pow256(n) / 2) as int,
    ensures
        twos(i, n) < pow256(n),
        from_twos(twos(i, n), n) == i,
        i >= 0 ==> twos(i, n) == i,
        i < 0 ==> twos(i, n) == i + pow256(n),
{
    let p = pow256(n) as int;
    lemma_pow256_even(n);
    if i >= 0 {
        lemma_small_mod(i as nat, pow256(n));
    } else {
        lemma_mod_add_multiples_vanish(i, p);
        lemma_small_mod((i + p) as nat, pow256(n));
        assert(i % p == i + p);
    }
}

/// Appends the `n` little-endian bytes of `v` to `out`.
pub fn push_le(out: &mut Vec<u8>, v: u128, n: usize)
    requires
        n <= 16,
        (v as nat) < pow256(n as nat),
    ensures
        final(out)@ == old(out)@ + le_bytes(v as nat, n as nat),
{
    let ghost base = out@;
    let mut cur: u128 = v;
    let mut i: usize = 0;
    proof {
        assert(out@ =~= base + le_bytes(v as nat, 0));
        lemma_div_basics(v as int);
    }
    while i < n
        invariant
            i <= n,
            n <= 16,
            (v as nat) < pow256(n as nat),
            out@ == base + le_bytes(v as nat, i as nat),
            cur as nat == (v as nat) / pow256(i as nat),
        decreases n - i,
    {
        let b: u8 = (cur % 256) as u8;
        out.push(b);
        proof {
            let vn = v as nat;
            let iN = i as nat;
            lemma_le_bytes_split(vn, iN, 1);
            assert(le_bytes((vn / pow256(iN)) / 256, 0) =~= Seq::<u8>::empty());
            assert(le_bytes(vn / pow256(iN), 1) =~= seq![((vn / pow256(iN)) % 256) as u8]);
            assert(out@ =~= base + le_bytes(vn, iN) + le_bytes(vn / pow256(iN), 1));
            assert(out@ =~= base + le_bytes(vn, (iN + 1) as nat));
            lemma_pow256_pos(iN);
            lemma_div_denominator(vn as int, pow256(iN) as int, 256);
            assert(pow256(iN) * 256 == pow256(iN + 1)) by (nonlinear_arith)
                requires
                    pow256(iN + 1) == 256 * pow256(iN),
            ;
        }
        cur = cur / 256;
        i = i + 1;
    }
}

/// Computes 256 raised to `n`.
pub fn pow256_exec(n: usize) -> (r: u128)
    requires
        n <= 15,
    ensures
        r as nat == pow256(n as nat),
{
    let mut r: u128 = 1;
    let mut j: usize = 0;
    while j < n
        invariant
            j <= n <= 15,
            r as nat == pow256(j as nat),
        decreases n - j,
    {
        proof {
            lemma_pow256_mono(j as nat + 1, 15);
            lemma_pow256_16();
            assert(pow256(j as nat + 1) == 256 * pow256(j as nat));
        }
        r = r * 256;
        j = j + 1;
    }
    r
}

/// Appends the `n`-byte little-endian two's-complement pattern of `i`.
pub fn push_twos(out: &mut Vec<u8>, i: i64, n: usize)
    requires
        1 <= n <= 16,
        -((pow256(n as nat) / 2) as int) <= (i as int) < ((pow256(n as nat) / 2) as int),
    ensures
        final(out)@ == old(out)@ + le_bytes(twos(i as int, n as nat), n as nat),
{
    proof {
        lemma_twos_from_twos(i as int, n as nat);
        lemma_pow256_even(n as nat);
        lemma_pow256_16();
    }
    if i >= 0 {
        push_le(out, i as u128, n);
    } else if n == 16 {
        let t: u128 = u128::MAX - ((-(i + 1)) as u128);
        proof {
            assert(t as nat == twos(i as int, 16));
        }
        push_le(out, t, n);
    } else {
        let p = pow256_exec(n);
        let t: u128 = p - 1 - ((-(i + 1)) as u128);
        proof {
            assert(t as nat == twos(i as int, n as nat));
        }
        push_le(out, t, n);
    }
}

/// Appends all bytes of `src` to `out`.
pub fn push_bytes(out: &mut Vec<u8>, src: &Vec<u8>)
    ensures
        final(out)@ == old(out)@ + src@,
{
    let ghost base = out@;
    let mut i: usize = 0;
    proof {
        assert(out@ =~= base + src@.take(0));
    }
    while i < src.len()
        invariant
            i <= src@.len(),
            out@ == base + src@.take(i as int),
        decreases src@.len() - i,
    {
        out.push(src[i]);
        proof {
            assert(base + src@.take(i as int) + seq![src@[i as int]] =~= base + src@.take(
                i as int + 1,
            ));
        }
        i = i + 1;
    }
    proof {
        assert(src@.take(src@.len() as int) =~= src@);
    }
}

/// Appends the bytes of `src` between `from` and `to` to `out`.
pub fn push_range(out: &mut Vec<u8>, src: &Vec<u8>, from: usize, to: usize)
    requires
        from <= to <= src@.len(),
    ensures
        final(out)@ == old(out)@ + src@.subrange(from as int, to as int),
{
    let ghost base = out@;
    let mut i: usize = from;
    proof {
        assert(out@ =~= base + src@.subrange(from as int, from as int));
    }
    while i < to
        invariant
            from <= i <= to,
            to <= src@.len(),
            out@ == base + src@.subrange(from as int, i as int),
        decreases to - i,
    {
        out.push(src[i]);
        proof {
            assert(base + src@.subrange(from as int, i as int) + seq![src@[i as int]] =~= base
                + src@.subrange(from as int, i as int + 1));
        }
        i = i + 1;
    }
}

/// Reads the unsigned value of the `n` bytes of `buf` starting at `pos`.
pub fn read_le(buf: &Vec<u8>, pos: usize, n: usize) -> (r: u128)
    requires
        n <= 16,
        pos + n <= buf@.len(),
    ensures
        r as nat == le_val(buf@.subrange(pos as int, pos as int + n as int)),
        (r as nat) < pow256(n as nat),
{
    let ghost t = buf@.subrange(pos as int, pos as int + n as int);
    let len = buf.len();
    let mut r: u128 = 0;
    let mut i: usize = n;
    proof {
        assert(t.skip(n as int) =~= Seq::empty());
        lemma_pow256_16();
    }
    while i > 0
        invariant
            i <= n,
            n <= 16,
            pos + n <= len,
            len == buf@.len(),
            t == buf@.subrange(pos as int, pos as int + n as int),
            r as nat == le_val(t.skip(i as int)),
        decreases i,
    {
        let b: u8 = buf[pos + (i - 1)];
        proof {
            let iI = i as int;
            assert(t[iI - 1] == buf@[pos + iI - 1]);
            assert(t.skip(iI - 1).drop_first() =~= t.skip(iI));
            assert(t.skip(iI - 1)[0] == t[iI - 1]);
            assert(le_val(t.skip(iI - 1)) == t[iI - 1] + 256 * le_val(t.skip(iI)));
            lemma_le_val_bound(t.skip(iI));
            lemma_pow256_mono((n - i) as nat, 15);
            lemma_pow256_16();
            assert(256 * le_val(t.skip(iI)) <= 256 * (pow256(15) - 1)) by (nonlinear_arith)
                requires
                    le_val(t.skip(iI)) <= pow256(15) - 1,
            ;
        }
        r = r * 256 + (b as u128);
        i = i - 1;
    }
    proof {
        assert(t.skip(0) =~= t);
        lemma_le_val_bound(t);
        assert(t.len() == n as nat);
    }
    r
}

} // verus!
