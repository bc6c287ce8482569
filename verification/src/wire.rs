//! Byte-order primitives shared by the two wire codecs: little-endian and
//! big-endian integer encodings over byte sequences, with exec readers and
//! writers proved against the sequence-level definitions.

use vstd::prelude::*;

verus! {

/// 256 raised to the power `n`: the number of values an `n`-byte field can hold.
pub open spec fn pow256(n: nat) -> nat
    decreases n,
{
    if n == 0 {
        1
    } else {
        256 * pow256((n - 1) as nat)
    }
}

pub proof fn lemma_pow256_pos(n: nat)
    ensures
        pow256(n) >= 1,
    decreases n,
{
    if n > 0 {
        lemma_pow256_pos((n - 1) as nat);
    }
}

/// The little-endian encoding of `v` in exactly `n` bytes (truncating high bits).
pub open spec fn le_bytes(v: nat, n: nat) -> Seq<u8>
    decreases n,
{
    if n == 0 {
        Seq::empty()
    } else {
        seq![(v % 256) as u8] + le_bytes(v / 256, (n - 1) as nat)
    }
}

/// The value of a little-endian byte sequence.
pub open spec fn le_val(b: Seq<u8>) -> nat
    decreases b.len(),
{
    if b.len() == 0 {
        0
    } else {
        (b[0] + 256 * le_val(b.skip(1))) as nat
    }
}

pub proof fn lemma_le_bytes_len(v: nat, n: nat)
    ensures
        le_bytes(v, n).len() == n,
    decreases n,
{
    if n > 0 {
        lemma_le_bytes_len(v / 256, (n - 1) as nat);
    }
}

pub proof fn lemma_le_val_le_bytes(v: nat, n: nat)
    requires
        v < pow256(n),
    ensures
        le_val(le_bytes(v, n)) == v,
    decreases n,
{
    if n > 0 {
        assert(v / 256 < pow256((n - 1) as nat)) by (nonlinear_arith)
            requires
                v < 256 * pow256((n - 1) as nat),
        ;
        lemma_le_val_le_bytes(v / 256, (n - 1) as nat);
        lemma_le_bytes_len(v / 256, (n - 1) as nat);
        assert(le_bytes(v, n).skip(1) =~= le_bytes(v / 256, (n - 1) as nat));
    }
}

pub proof fn lemma_le_val_bound(b: Seq<u8>)
    ensures
        le_val(b) < pow256(b.len()),
    decreases b.len(),
{
    if b.len() > 0 {
        lemma_le_val_bound(b.skip(1));
        assert(b[0] + 256 * le_val(b.skip(1)) < 256 * pow256((b.len() - 1) as nat))
            by (nonlinear_arith)
            requires
                b[0] < 256,
                le_val(b.skip(1)) < pow256((b.len() - 1) as nat),
        ;
    }
}

/// The big-endian encoding of `v` in exactly `n` bytes (truncating high bits).
pub open spec fn be_bytes(v: nat, n: nat) -> Seq<u8>
    decreases n,
{
    if n == 0 {
        Seq::empty()
    } else {
        be_bytes(v / 256, (n - 1) as nat) + seq![(v % 256) as u8]
    }
}

/// The value of a big-endian byte sequence.
pub open spec fn be_val(b: Seq<u8>) -> nat
    decreases b.len(),
{
    if b.len() == 0 {
        0
    } else {
        (256 * be_val(b.drop_last()) + b.last()) as nat
    }
}

pub proof fn lemma_be_bytes_len(v: nat, n: nat)
    ensures
        be_bytes(v, n).len() == n,
    decreases n,
{
    if n > 0 {
        lemma_be_bytes_len(v / 256, (n - 1) as nat);
    }
}

pub proof fn lemma_be_val_be_bytes(v: nat, n: nat)
    requires
        v < pow256(n),
    ensures
        be_val(be_bytes(v, n)) == v,
    decreases n,
{
    if n > 0 {
        assert(v / 256 < pow256((n - 1) as nat)) by (nonlinear_arith)
            requires
                v < 256 * pow256((n - 1) as nat),
        ;
        lemma_be_val_be_bytes(v / 256, (n - 1) as nat);
        lemma_be_bytes_len(v / 256, (n - 1) as nat);
        assert(be_bytes(v, n).drop_last() =~= be_bytes(v / 256, (n - 1) as nat));
        assert(be_bytes(v, n).last() == (v % 256) as u8);
    }
}

pub proof fn lemma_be_val_bound(b: Seq<u8>)
    ensures
        be_val(b) < pow256(b.len()),
    decreases b.len(),
{
    if b.len() > 0 {
        lemma_be_val_bound(b.drop_last());
        assert(256 * be_val(b.drop_last()) + b.last() < 256 * pow256((b.len() - 1) as nat))
            by (nonlinear_arith)
            requires
                b.last() < 256,
                be_val(b.drop_last()) < pow256((b.len() - 1) as nat),
        ;
    }
}

/// Unfolds `le_val` on a two-byte sequence.
pub proof fn lemma_le_val2(b: Seq<u8>)
    requires
        b.len() == 2,
    ensures
        le_val(b) == b[0] + 0x100 * b[1],
{
    assert(b.skip(1).skip(1).len() == 0);
    assert(le_val(b.skip(1)) == b[1] + 256 * le_val(b.skip(1).skip(1)));
    assert(le_val(b.skip(1).skip(1)) == 0);
}

/// Unfolds `le_val` on a four-byte sequence.
pub proof fn lemma_le_val4(b: Seq<u8>)
    requires
        b.len() == 4,
    ensures
        le_val(b) == b[0] + 0x100 * b[1] + 0x1_0000 * b[2] + 0x100_0000 * b[3],
{
    lemma_le_val2(b.skip(2));
    assert(b.skip(1).skip(1) =~= b.skip(2));
    assert(le_val(b) == b[0] + 256 * le_val(b.skip(1)));
    assert(le_val(b.skip(1)) == b[1] + 256 * le_val(b.skip(1).skip(1)));
}

/// Unfolds `le_val` on an eight-byte sequence.
pub proof fn lemma_le_val8(b: Seq<u8>)
    requires
        b.len() == 8,
    ensures
        le_val(b) == b[0] + 0x100 * b[1] + 0x1_0000 * b[2] + 0x100_0000 * b[3]
            + 0x1_0000_0000 * b[4] + 0x100_0000_0000 * b[5] + 0x1_0000_0000_0000 * b[6]
            + 0x100_0000_0000_0000 * b[7],
{
    lemma_le_val4(b.skip(4));
    assert(b.skip(1).skip(1) =~= b.skip(2));
    assert(b.skip(2).skip(1) =~= b.skip(3));
    assert(b.skip(3).skip(1) =~= b.skip(4));
    assert(le_val(b) == b[0] + 256 * le_val(b.skip(1)));
    assert(le_val(b.skip(1)) == b[1] + 256 * le_val(b.skip(1).skip(1)));
    assert(le_val(b.skip(2)) == b[2] + 256 * le_val(b.skip(2).skip(1)));
    assert(le_val(b.skip(3)) == b[3] + 256 * le_val(b.skip(3).skip(1)));
}

/// Reads a little-endian `u16` at `pos`.
pub fn read_u16_le(buf: &Vec<u8>, pos: usize) -> (r: u16)
    requires
        pos + 2 <= buf@.len(),
    ensures
        r == le_val(buf@.subrange(pos as int, pos + 2)),
{
    let n = buf.len();
    let r = buf[pos] as u16 + buf[pos + 1] as u16 * 0x100;
    proof {
        lemma_le_val2(buf@.subrange(pos as int, pos + 2));
    }
    r
}

/// Reads a little-endian `u32` at `pos`.
pub fn read_u32_le(buf: &Vec<u8>, pos: usize) -> (r: u32)
    requires
        pos + 4 <= buf@.len(),
    ensures
        r == le_val(buf@.subrange(pos as int, pos + 4)),
{
    let n = buf.len();
    let r = buf[pos] as u32 + buf[pos + 1] as u32 * 0x100 + buf[pos + 2] as u32 * 0x1_0000
        + buf[pos + 3] as u32 * 0x100_0000;
    proof {
        lemma_le_val4(buf@.subrange(pos as int, pos + 4));
    }
    r
}

/// Reads a little-endian `u64` at `pos`.
pub fn read_u64_le(buf: &Vec<u8>, pos: usize) -> (r: u64)
    requires
        pos + 8 <= buf@.len(),
    ensures
        r == le_val(buf@.subrange(pos as int, pos + 8)),
{
    let n = buf.len();
    let r = buf[pos] as u64 + buf[pos + 1] as u64 * 0x100 + buf[pos + 2] as u64 * 0x1_0000
        + buf[pos + 3] as u64 * 0x100_0000 + buf[pos + 4] as u64 * 0x1_0000_0000
        + buf[pos + 5] as u64 * 0x100_0000_0000 + buf[pos + 6] as u64 * 0x1_0000_0000_0000
        + buf[pos + 7] as u64 * 0x100_0000_0000_0000;
    proof {
        lemma_le_val8(buf@.subrange(pos as int, pos + 8));
    }
    r
}

/// Unfolds `le_bytes` at width two.
pub proof fn lemma_le_bytes2(v: nat)
    ensures
        le_bytes(v, 2) =~= seq![(v % 256) as u8, ((v / 0x100) % 256) as u8],
{
    reveal_with_fuel(le_bytes, 3);
}

/// Unfolds `le_bytes` at width four.
pub proof fn lemma_le_bytes4(v: nat)
    ensures
        le_bytes(v, 4) =~= seq![
            (v % 256) as u8,
            ((v / 0x100) % 256) as u8,
            ((v / 0x1_0000) % 256) as u8,
            ((v / 0x100_0000) % 256) as u8,
        ],
{
    reveal_with_fuel(le_bytes, 5);
    assert(v / 0x100 / 0x100 == v / 0x1_0000) by (nonlinear_arith);
    assert(v / 0x1_0000 / 0x100 == v / 0x100_0000) by (nonlinear_arith);
}

/// Unfolds `le_bytes` at width eight.
pub proof fn lemma_le_bytes8(v: nat)
    ensures
        le_bytes(v, 8) =~= seq![
            (v % 256) as u8,
            ((v / 0x100) % 256) as u8,
            ((v / 0x1_0000) % 256) as u8,
            ((v / 0x100_0000) % 256) as u8,
            ((v / 0x1_0000_0000) % 256) as u8,
            ((v / 0x100_0000_0000) % 256) as u8,
            ((v / 0x1_0000_0000_0000) % 256) as u8,
            ((v / 0x100_0000_0000_0000) % 256) as u8,
        ],
{
    reveal_with_fuel(le_bytes, 9);
    assert(v / 0x100 / 0x100 == v / 0x1_0000) by (nonlinear_arith);
    assert(v / 0x1_0000 / 0x100 == v / 0x100_0000) by (nonlinear_arith);
    assert(v / 0x100_0000 / 0x100 == v / 0x1_0000_0000) by (nonlinear_arith);
    assert(v / 0x1_0000_0000 / 0x100 == v / 0x100_0000_0000) by (nonlinear_arith);
    assert(v / 0x100_0000_0000 / 0x100 == v / 0x1_0000_0000_0000) by (nonlinear_arith);
    assert(v / 0x1_0000_0000_0000 / 0x100 == v / 0x100_0000_0000_0000) by (nonlinear_arith);
}

/// Appends the two-byte little-endian encoding of `v`.
pub fn write_u16_le(out: &mut Vec<u8>, v: u16)
    ensures
        final(out)@ == old(out)@ + le_bytes(v as nat, 2),
{
    out.push((v % 0x100) as u8);
    out.push((v / 0x100) as u8);
    proof {
        lemma_le_bytes2(v as nat);
        assert(out@ =~= old(out)@ + le_bytes(v as nat, 2));
    }
}

/// Appends the four-byte little-endian encoding of `v`.
pub fn write_u32_le(out: &mut Vec<u8>, v: u32)
    ensures
        final(out)@ == old(out)@ + le_bytes(v as nat, 4),
{
    out.push((v % 0x100) as u8);
    out.push((v / 0x100 % 0x100) as u8);
    out.push((v / 0x1_0000 % 0x100) as u8);
    out.push((v / 0x100_0000) as u8);
    proof {
        lemma_le_bytes4(v as nat);
        assert(out@ =~= old(out)@ + le_bytes(v as nat, 4));
    }
}

/// Appends the eight-byte little-endian encoding of `v`.
pub fn write_u64_le(out: &mut Vec<u8>, v: u64)
    ensures
        final(out)@ == old(out)@ + le_bytes(v as nat, 8),
{
    out.push((v % 0x100) as u8);
    out.push((v / 0x100 % 0x100) as u8);
    out.push((v / 0x1_0000 % 0x100) as u8);
    out.push((v / 0x100_0000 % 0x100) as u8);
    out.push((v / 0x1_0000_0000 % 0x100) as u8);
    out.push((v / 0x100_0000_0000 % 0x100) as u8);
    out.push((v / 0x1_0000_0000_0000 % 0x100) as u8);
    out.push((v / 0x100_0000_0000_0000) as u8);
    proof {
        lemma_le_bytes8(v as nat);
        assert(out@ =~= old(out)@ + le_bytes(v as nat, 8));
    }
}

/// Unfolds `be_bytes` at width two.
pub proof fn lemma_be_bytes2(v: nat)
    ensures
        be_bytes(v, 2) =~= seq![((v / 0x100) % 256) as u8, (v % 256) as u8],
{
    reveal_with_fuel(be_bytes, 3);
}

/// Unfolds `be_val` on a two-byte sequence.
pub proof fn lemma_be_val2(b: Seq<u8>)
    requires
        b.len() == 2,
    ensures
        be_val(b) == 0x100 * b[0] + b[1],
{
    assert(b.drop_last().drop_last().len() == 0);
    assert(be_val(b) == 256 * be_val(b.drop_last()) + b.last());
    assert(be_val(b.drop_last()) == 256 * be_val(b.drop_last().drop_last()) + b.drop_last().last());
    assert(be_val(b.drop_last().drop_last()) == 0);
}

/// Appends the two-byte big-endian encoding of `v`.
pub fn write_u16_be(out: &mut Vec<u8>, v: u16)
    ensures
        final(out)@ == old(out)@ + be_bytes(v as nat, 2),
{
    out.push((v / 0x100) as u8);
    out.push((v % 0x100) as u8);
    proof {
        lemma_be_bytes2(v as nat);
        assert(out@ =~= old(out)@ + be_bytes(v as nat, 2));
    }
}

/// Reads a big-endian `u16` at `pos`.
pub fn read_u16_be(buf: &Vec<u8>, pos: usize) -> (r: u16)
    requires
        pos + 2 <= buf@.len(),
    ensures
        r == be_val(buf@.subrange(pos as int, pos + 2)),
{
    let n = buf.len();
    let r = buf[pos] as u16 * 0x100 + buf[pos + 1] as u16;
    proof {
        lemma_be_val2(buf@.subrange(pos as int, pos + 2));
    }
    r
}

/// Reads a big-endian value of `n` bytes at `pos`, for `n` up to eight.
pub fn read_be_len(buf: &Vec<u8>, pos: usize, n: usize) -> (r: u64)
    requires
        n <= 8,
        pos + n <= buf@.len(),
    ensures
        r == be_val(buf@.subrange(pos as int, pos + n)),
{
    let nb = buf.len();
    let mut acc: u64 = 0;
    let mut i: usize = 0;
    while i < n
        invariant
            i <= n,
            n <= 8,
            pos + n <= buf@.len(),
            nb == buf@.len(),
            acc == be_val(buf@.subrange(pos as int, pos + i)),
            acc < pow256(i as nat),
        decreases n - i,
    {
        proof {
            lemma_be_val_bound(buf@.subrange(pos as int, pos + i));
            assert(pow256(i as nat) <= pow256(7)) by {
                lemma_pow256_mono(i as nat, 7);
            }
            assert(pow256(7) == 0x1_0000_0000_0000_00) by {
                reveal_with_fuel(pow256, 8);
            }
            assert(256 * acc + 256 <= 256 * pow256(i as nat)) by (nonlinear_arith)
                requires
                    acc < pow256(i as nat) && acc + 1 <= pow256(i as nat),
            ;
            assert(256 * pow256(i as nat) <= 256 * pow256(7)) by (nonlinear_arith)
                requires
                    pow256(i as nat) <= pow256(7),
            ;
        }
        acc = acc * 256 + buf[pos + i] as u64;
        i = i + 1;
        proof {
            let s = buf@.subrange(pos as int, pos + i);
            assert(s.drop_last() =~= buf@.subrange(pos as int, pos + i - 1));
            assert(s.last() == buf@[pos + i - 1]);
            lemma_be_val_bound(s);
        }
    }
    assert(buf@.subrange(pos as int, pos + i) =~= buf@.subrange(pos as int, pos + n));
    acc
}

pub proof fn lemma_pow256_mono(m: nat, n: nat)
    requires
        m <= n,
    ensures
        pow256(m) <= pow256(n),
    decreases n,
{
    if m < n {
        lemma_pow256_mono(m, (n - 1) as nat);
        lemma_pow256_pos((n - 1) as nat);
    }
}

/// Copies `buf[from..to]` into a fresh vector.
pub fn vec_sub(buf: &Vec<u8>, from: usize, to: usize) -> (r: Vec<u8>)
    requires
        from <= to <= buf@.len(),
    ensures
        r@ == buf@.subrange(from as int, to as int),
{
    let mut r: Vec<u8> = Vec::new();
    let mut i: usize = from;
    while i < to
        invariant
            from <= i <= to <= buf@.len(),
            r@ == buf@.subrange(from as int, i as int),
        decreases to - i,
    {
        r.push(buf[i]);
        i = i + 1;
        proof {
            assert(buf@.subrange(from as int, i as int) =~= buf@.subrange(
                from as int,
                i - 1,
            ) + seq![buf@[i - 1]]);
        }
    }
    r
}

} // verus!
