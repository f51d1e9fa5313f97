//! Little-endian byte encoding of 64-bit integers, as the virtual
//! machine stores integers in its byte-addressed data segment.

use vstd::prelude::*;

verus! {

pub open spec fn pow256(n: nat) -> nat
    decreases n,
{
    if n == 0 {
        1
    } else {
        256 * pow256((n - 1) as nat)
    }
}

/// The number that a little-endian byte sequence spells.
pub open spec fn le_value(bytes: Seq<u8>) -> nat
    decreases bytes.len(),
{
    if bytes.len() == 0 {
        0
    } else {
        bytes[0] as nat + 256 * le_value(bytes.drop_first())
    }
}

/// The `n` low bytes of `x`, least significant first.
pub open spec fn le_encode(x: nat, n: nat) -> Seq<u8>
    decreases n,
{
    if n == 0 {
        Seq::empty()
    } else {
        seq![(x % 256) as u8] + le_encode(x / 256, (n - 1) as nat)
    }
}

/// The integer that the eight bytes at the front of `bytes` hold
/// (the machine is little-endian).
pub open spec fn i64_from_le(bytes: Seq<u8>) -> i64 {
    (le_value(bytes.subrange(0, 8)) as u64) as i64
}

/// The eight bytes that hold `v`, least significant first.
pub open spec fn i64_to_le(v: i64) -> Seq<u8> {
    le_encode((v as u64) as nat, 8)
}

pub proof fn lemma_pow256_8()
    ensures
        pow256(8) == 0x1_0000_0000_0000_0000,
        pow256(7) == 0x1_0000_0000_0000_00,
{
    reveal_with_fuel(pow256, 9);
}

pub proof fn lemma_pow256_pos(n: nat)
    ensures
        pow256(n) >= 1,
    decreases n,
{
    if n > 0 {
        lemma_pow256_pos((n - 1) as nat);
    }
}

pub proof fn lemma_le_value_bound(bytes: Seq<u8>)
    ensures
        le_value(bytes) < pow256(bytes.len()),
    decreases bytes.len(),
{
    if bytes.len() > 0 {
        lemma_le_value_bound(bytes.drop_first());
        assert(le_value(bytes) <= 255 + 256 * (pow256((bytes.len() - 1) as nat) - 1));
    }
}

pub proof fn lemma_le_encode_len(x: nat, n: nat)
    ensures
        le_encode(x, n).len() == n,
    decreases n,
{
    if n > 0 {
        lemma_le_encode_len(x / 256, (n - 1) as nat);
    }
}

pub proof fn lemma_le_roundtrip(x: nat, n: nat)
    requires
        x < pow256(n),
    ensures
        le_value(le_encode(x, n)) == x,
    decreases n,
{
    if n > 0 {
        let rest = le_encode(x / 256, (n - 1) as nat);
        assert(x / 256 < pow256((n - 1) as nat));
        lemma_le_roundtrip(x / 256, (n - 1) as nat);
        assert(le_encode(x, n).drop_first() =~= rest);
    } else {
        assert(x == 0);
    }
}

/// Decoding the bytes that encode an integer gives the integer back.
pub proof fn lemma_i64_le_roundtrip(v: i64)
    ensures
        i64_to_le(v).len() == 8,
        i64_from_le(i64_to_le(v)) == v,
{
    let x = (v as u64) as nat;
    lemma_pow256_8();
    lemma_le_encode_len(x, 8);
    lemma_le_roundtrip(x, 8);
    assert(i64_to_le(v).subrange(0, 8) =~= i64_to_le(v));
    assert(((v as u64) as i64) == v) by (bit_vector);
}

/// Reads the integer held by the eight bytes at `bytes[at..at + 8]`.
pub fn read_i64_le(bytes: &[u8], at: usize) -> (v: i64)
    requires
        at + 8 <= bytes@.len(),
    ensures
        v == i64_from_le(bytes@.subrange(at as int, at + 8)),
{
    let ghost b = bytes@.subrange(at as int, at + 8);
    let n = bytes.len();
    let mut acc: u64 = 0;
    let mut i: usize = 8;
    proof {
        lemma_pow256_8();
    }
    while i > 0
        invariant
            i <= 8,
            at + 8 <= bytes@.len(),
            n == bytes@.len(),
            b == bytes@.subrange(at as int, at + 8),
            acc as nat == le_value(b.subrange(i as int, 8)),
            pow256(8) == 0x1_0000_0000_0000_0000,
            pow256(7) == 0x1_0000_0000_0000_00,
        decreases i,
    {
        i -= 1;
        proof {
            let tail = b.subrange(i as int, 8);
            assert(tail.drop_first() =~= b.subrange(i + 1, 8));
            lemma_le_value_bound(b.subrange(i + 1, 8));
            lemma_pow_mono((8 - (i + 1)) as nat, 7);
        }
        acc = acc * 256 + bytes[at + i] as u64;
    }
    assert(b.subrange(0, 8) =~= b);
    acc as i64
}

pub proof fn lemma_pow_mono(a: nat, b: nat)
    requires
        a <= b,
    ensures
        pow256(a) <= pow256(b),
    decreases b,
{
    if a < b {
        lemma_pow_mono(a, (b - 1) as nat);
        lemma_pow256_pos((b - 1) as nat);
    }
}

/// The eight bytes that hold `v`.
pub fn write_i64_le(v: i64) -> (bytes: Vec<u8>)
    ensures
        bytes@ == i64_to_le(v),
{
    let mut out: Vec<u8> = Vec::new();
    let mut u: u64 = v as u64;
    let mut i: usize = 0;
    while i < 8
        invariant
            i <= 8,
            out@ + le_encode(u as nat, (8 - i) as nat) == i64_to_le(v),
        decreases 8 - i,
    {
        let ghost before = out@;
        let ghost u0 = u;
        assert(le_encode(u as nat, (8 - i) as nat) =~= seq![(u % 256) as u8] + le_encode((u / 256) as nat, (8 - i - 1) as nat));
        out.push((u % 256) as u8);
        u = u / 256;
        i += 1;
        assert(out@ =~= before + seq![(u0 % 256) as u8]);
        assert(out@ + le_encode(u as nat, (8 - i) as nat) =~= before + (seq![(u0 % 256) as u8] + le_encode(u as nat, (8 - i) as nat)));
    }
    assert(le_encode(u as nat, 0) =~= Seq::<u8>::empty());
    assert(out@ + Seq::<u8>::empty() =~= out@);
    out
}

} // verus!
