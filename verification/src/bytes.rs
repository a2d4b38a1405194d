//! Big-endian integer fields inside byte buffers.

use vstd::arithmetic::div_mod::{lemma_breakdown, lemma_div_denominator, lemma_div_pos_is_pos};
use vstd::arithmetic::mul::lemma_mul_strictly_positive;
use vstd::prelude::*;

verus! {

/// `256^n`.
pub open spec fn pow256(n: nat) -> nat
    decreases n,
{
    if n == 0 {
        1
    } else {
        256 * pow256((n - 1) as nat)
    }
}

/// The unsigned integer whose big-endian encoding is `s`.
pub open spec fn be_uint(s: Seq<u8>) -> nat
    decreases s.len(),
{
    if s.len() == 0 {
        0
    } else {
        (be_uint(s.drop_last()) * 256 + s.last()) as nat
    }
}

/// The `w`-byte big-endian encoding of `v` (truncated to its low `w` bytes):
/// byte `i` is base-256 digit `w - 1 - i` of `v`.
pub open spec fn be_bytes(v: nat, w: nat) -> Seq<u8> {
    Seq::new(w, |i: int| ((v / pow256((w - 1 - i) as nat)) % 256) as u8)
}

/// The 32-bit big-endian value stored at `pos`.
pub open spec fn be_u32_at(s: Seq<u8>, pos: int) -> nat {
    be_uint(s.subrange(pos, pos + 4))
}

/// The 16-bit big-endian value stored at `pos`.
pub open spec fn be_u16_at(s: Seq<u8>, pos: int) -> nat {
    be_uint(s.subrange(pos, pos + 2))
}

/// `s` with the bytes from `pos` on replaced by `t`.
pub open spec fn overwrite(s: Seq<u8>, pos: int, t: Seq<u8>) -> Seq<u8> {
    s.subrange(0, pos) + t + s.subrange(pos + t.len(), s.len() as int)
}

pub proof fn lemma_pow256_positive(n: nat)
    ensures
        pow256(n) > 0,
    decreases n,
{
    if n > 0 {
        lemma_pow256_positive((n - 1) as nat);
    }
}

pub proof fn lemma_pow256_values()
    ensures
        pow256(0) == 1,
        pow256(1) == 0x100,
        pow256(2) == 0x1_0000,
        pow256(3) == 0x100_0000,
        pow256(4) == 0x1_0000_0000,
        pow256(8) == 0x1_0000_0000_0000_0000,
{
    reveal_with_fuel(pow256, 9);
}

/// A big-endian value is smaller than `256^len`.
pub proof fn lemma_be_uint_bound(s: Seq<u8>)
    ensures
        be_uint(s) < pow256(s.len()),
    decreases s.len(),
{
    if s.len() > 0 {
        lemma_be_uint_bound(s.drop_last());
        let a = be_uint(s.drop_last());
        let p = pow256((s.len() - 1) as nat);
        assert(a * 256 + s.last() < 256 * p) by (nonlinear_arith)
            requires
                a < p,
                s.last() < 256,
        ;
    }
}

/// Decoding an encoding gives back the value modulo `256^w`.
pub proof fn lemma_be_roundtrip(v: nat, w: nat)
    ensures
        be_uint(be_bytes(v, w)) == v % pow256(w),
    decreases w,
{
    lemma_pow256_positive(w);
    if w == 0 {
        assert(be_bytes(v, w) =~= Seq::empty());
    } else {
        let s = be_bytes(v, w);
        let p = pow256((w - 1) as nat);
        lemma_pow256_positive((w - 1) as nat);
        assert forall|i: int| 0 <= i < w - 1 implies #[trigger] s.drop_last()[i] == be_bytes(
            v / 256,
            (w - 1) as nat,
        )[i] by {
            let k = (w - 2 - i) as nat;
            lemma_pow256_positive(k);
            lemma_div_denominator(v as int, 256, pow256(k) as int);
            assert(pow256((w - 1 - i) as nat) == 256 * pow256(k));
        }
        assert(s.drop_last() =~= be_bytes(v / 256, (w - 1) as nat));
        lemma_be_roundtrip(v / 256, (w - 1) as nat);
        assert(pow256(0) == 1);
        assert(s.len() == w);
        assert(s[w - 1] == ((v / pow256(0)) % 256) as u8);
        assert(s.last() == v % 256);
        lemma_breakdown(v as int, 256, p as int);
    }
}

/// An encoding of a value below `256^w` decodes to that value.
pub proof fn lemma_be_roundtrip_exact(v: nat, w: nat)
    requires
        v < pow256(w),
    ensures
        be_uint(be_bytes(v, w)) == v,
{
    lemma_be_roundtrip(v, w);
    vstd::arithmetic::div_mod::lemma_small_mod(v, pow256(w));
}

/// Equal-length encodings with equal values are equal.
pub proof fn lemma_be_uint_injective(a: Seq<u8>, b: Seq<u8>)
    requires
        a.len() == b.len(),
        be_uint(a) == be_uint(b),
    ensures
        a == b,
    decreases a.len(),
{
    if a.len() > 0 {
        let x = be_uint(a.drop_last());
        let y = be_uint(b.drop_last());
        assert(x * 256 + a.last() == y * 256 + b.last());
        vstd::arithmetic::div_mod::lemma_fundamental_div_mod_converse(
            be_uint(a) as int,
            256,
            x as int,
            a.last() as int,
        );
        vstd::arithmetic::div_mod::lemma_fundamental_div_mod_converse(
            be_uint(b) as int,
            256,
            y as int,
            b.last() as int,
        );
        lemma_be_uint_injective(a.drop_last(), b.drop_last());
        assert(a =~= a.drop_last().push(a.last()));
        assert(b =~= b.drop_last().push(b.last()));
    } else {
        assert(a =~= b);
    }
}

/// Encoding a decoded value in the same width gives back the bytes.
pub proof fn lemma_be_bytes_of_uint(a: Seq<u8>)
    ensures
        be_bytes(be_uint(a), a.len()) == a,
{
    lemma_be_uint_bound(a);
    lemma_be_roundtrip_exact(be_uint(a), a.len());
    lemma_be_uint_injective(be_bytes(be_uint(a), a.len()), a);
}

/// The four bytes of a 32-bit big-endian encoding, spelled out.
pub proof fn lemma_be_bytes4(v: nat)
    ensures
        be_bytes(v, 4) == seq![
            ((v / 0x100_0000) % 256) as u8,
            ((v / 0x1_0000) % 256) as u8,
            ((v / 0x100) % 256) as u8,
            (v % 256) as u8,
        ],
{
    lemma_pow256_values();
    let s = be_bytes(v, 4);
    assert(s[0] == ((v / pow256(3)) % 256) as u8);
    assert(s[1] == ((v / pow256(2)) % 256) as u8);
    assert(s[2] == ((v / pow256(1)) % 256) as u8);
    assert(s[3] == ((v / pow256(0)) % 256) as u8);
    assert(s =~= seq![
        ((v / 0x100_0000) % 256) as u8,
        ((v / 0x1_0000) % 256) as u8,
        ((v / 0x100) % 256) as u8,
        (v % 256) as u8,
    ]);
}

/// Reads the `w`-byte big-endian unsigned integer at `pos`.
pub fn read_be(data: &[u8], pos: usize, w: usize) -> (r: u64)
    requires
        w <= 8,
        pos + w <= data@.len(),
    ensures
        r == be_uint(data@.subrange(pos as int, pos + w)),
{
    let mut acc: u64 = 0;
    let mut i: usize = 0;
    while i < w
        invariant
            w <= 8,
            pos + w <= data.len(),
            i <= w,
            acc == be_uint(data@.subrange(pos as int, pos + i)),
        decreases w - i,
    {
        proof {
            let s = data@.subrange(pos as int, pos + i + 1);
            assert(s.drop_last() =~= data@.subrange(pos as int, pos + i));
            lemma_be_uint_bound(data@.subrange(pos as int, pos + i));
            lemma_pow256_values();
            lemma_pow256_monotone(i as nat, 7);
            assert(acc * 256 + data@[pos + i] < 0x1_0000_0000_0000_0000) by (nonlinear_arith)
                requires
                    acc < pow256(i as nat),
                    pow256(i as nat) <= pow256(7),
                    pow256(7) == 0x100_0000_0000_0000,
                    data@[pos + i] < 256,
            ;
        }
        let b = data[pos + i];
        acc = acc * 256 + b as u64;
        i += 1;
    }
    acc
}

pub proof fn lemma_pow256_monotone(a: nat, b: nat)
    requires
        a <= b,
    ensures
        pow256(a) <= pow256(b),
    decreases b,
{
    if a < b {
        lemma_pow256_monotone(a, (b - 1) as nat);
        lemma_pow256_positive((b - 1) as nat);
    }
}

/// Reads the big-endian `u32` at `pos`.
pub fn read_u32_be(data: &[u8], pos: usize) -> (r: u32)
    requires
        pos + 4 <= data@.len(),
    ensures
        r == be_u32_at(data@, pos as int),
{
    let v = read_be(data, pos, 4);
    proof {
        lemma_be_uint_bound(data@.subrange(pos as int, pos + 4));
        lemma_pow256_values();
    }
    v as u32
}

/// Reads the big-endian `u16` at `pos`.
pub fn read_u16_be(data: &[u8], pos: usize) -> (r: u16)
    requires
        pos + 2 <= data@.len(),
    ensures
        r == be_u16_at(data@, pos as int),
{
    let v = read_be(data, pos, 2);
    proof {
        lemma_be_uint_bound(data@.subrange(pos as int, pos + 2));
        lemma_pow256_values();
    }
    v as u16
}

/// Overwrites the `w` bytes at `pos` with the big-endian encoding of `v`.
pub fn write_be(data: &mut Vec<u8>, pos: usize, w: usize, v: u64)
    requires
        w <= 8,
        pos + w <= old(data)@.len(),
    ensures
        final(data)@ == overwrite(old(data)@, pos as int, be_bytes(v as nat, w as nat)),
{
    let ghost target = be_bytes(v as nat, w as nat);
    let mut cur: u64 = v;
    let mut k: usize = 0;
    proof {
        lemma_pow256_values();
    }
    while k < w
        invariant
            w <= 8,
            pos + w <= data.len(),
            data@.len() == old(data)@.len(),
            k <= w,
            cur == (v as nat) / pow256(k as nat),
            target == be_bytes(v as nat, w as nat),
            forall|i: int| 0 <= i < pos || pos + w <= i < data@.len() ==> #[trigger] data@[i] == old(data)@[i],
            forall|i: int| pos + w - k <= i < pos + w ==> #[trigger] data@[i] == target[i - pos],
            forall|i: int| pos <= i < pos + w - k ==> #[trigger] data@[i] == old(data)@[i],
        decreases w - k,
    {
        let idx = pos + w - 1 - k;
        proof {
            lemma_pow256_positive(k as nat);
            assert(target[idx - pos] == (((v as nat) / pow256(k as nat)) % 256) as u8);
            lemma_div_denominator(v as int, pow256(k as nat) as int, 256);
            assert(pow256((k + 1) as nat) == 256 * pow256(k as nat));
        }
        data.set(idx, (cur % 256) as u8);
        cur = cur / 256;
        k += 1;
    }
    assert(data@ =~= overwrite(old(data)@, pos as int, target));
}

/// Overwrites the four bytes at `pos` with the big-endian encoding of `v`.
pub fn write_u32_be(data: &mut Vec<u8>, pos: usize, v: u32)
    requires
        pos + 4 <= old(data)@.len(),
    ensures
        final(data)@ == overwrite(old(data)@, pos as int, be_bytes(v as nat, 4)),
{
    write_be(data, pos, 4, v as u64);
}

/// Appends the `w`-byte big-endian encoding of `v`.
pub fn push_be(out: &mut Vec<u8>, v: u64, w: usize)
    requires
        w <= 8,
    ensures
        final(out)@ == old(out)@ + be_bytes(v as nat, w as nat),
{
    let start = out.len();
    let mut i: usize = 0;
    while i < w
        invariant
            i <= w,
            out@.len() == start + i,
            start == old(out)@.len(),
            out@.subrange(0, start as int) == old(out)@,
        decreases w - i,
    {
        out.push(0);
        i += 1;
    }
    assert(out@.subrange(0, start as int) =~= old(out)@);
    write_be(out, start, w, v);
    assert(out@ =~= old(out)@ + be_bytes(v as nat, w as nat));
}

/// Appends all of `src`.
pub fn push_all(out: &mut Vec<u8>, src: &[u8])
    ensures
        final(out)@ == old(out)@ + src@,
{
    let mut i: usize = 0;
    while i < src.len()
        invariant
            i <= src@.len(),
            out@ == old(out)@ + src@.subrange(0, i as int),
        decreases src@.len() - i,
    {
        out.push(src[i]);
        i += 1;
        assert(out@ =~= old(out)@ + src@.subrange(0, i as int));
    }
    assert(src@.subrange(0, src@.len() as int) =~= src@);
}

/// Appends `src[from..to]`.
pub fn push_range(out: &mut Vec<u8>, src: &[u8], from: usize, to: usize)
    requires
        from <= to <= src@.len(),
    ensures
        final(out)@ == old(out)@ + src@.subrange(from as int, to as int),
{
    let mut i: usize = from;
    while i < to
        invariant
            from <= i <= to <= src@.len(),
            out@ == old(out)@ + src@.subrange(from as int, i as int),
        decreases to - i,
    {
        out.push(src[i]);
        i += 1;
        assert(out@ =~= old(out)@ + src@.subrange(from as int, i as int));
    }
}

} // verus!
