//! The recursive length-prefix encoding that RLPx handshake payloads use:
//! byte-string and list items with minimal big-endian length prefixes.
//! Encoders and the header parser are specified over byte sequences, the
//! executable functions are proved against them, and decoding enforces the
//! canonical form so that parsing is the exact inverse of encoding.

use vstd::prelude::*;

use crate::wire::{be_bytes, be_val, lemma_be_bytes_len, pow256, read_be_len};

verus! {

/// The number of bytes in the minimal big-endian encoding of `v`.
pub open spec fn min_be_len(v: nat) -> nat
    decreases v,
{
    if v == 0 {
        0
    } else {
        1 + min_be_len(v / 256)
    }
}

/// The minimal big-endian encoding of `v`: no leading zero byte.
pub open spec fn min_be_bytes(v: nat) -> Seq<u8> {
    be_bytes(v, min_be_len(v))
}

/// `min_be_len` really is minimal: the value fits in that many bytes.
pub proof fn lemma_min_be_fits(v: nat)
    ensures
        v < pow256(min_be_len(v)),
    decreases v,
{
    if v > 0 {
        lemma_min_be_fits(v / 256);
        assert(v < 256 * pow256(min_be_len(v / 256))) by (nonlinear_arith)
            requires
                v / 256 < pow256(min_be_len(v / 256)),
        ;
    }
}

/// A value below `pow256(n)` needs at most `n` bytes.
pub proof fn lemma_min_be_len_bound(v: nat, n: nat)
    requires
        v < pow256(n),
    ensures
        min_be_len(v) <= n,
    decreases n,
{
    if v > 0 {
        assert(n > 0);
        assert(v / 256 < pow256((n - 1) as nat)) by (nonlinear_arith)
            requires
                v < 256 * pow256((n - 1) as nat),
        ;
        lemma_min_be_len_bound(v / 256, (n - 1) as nat);
    }
}

/// The minimal encoding round-trips through `be_val`.
pub proof fn lemma_min_be_val(v: nat)
    ensures
        be_val(min_be_bytes(v)) == v,
{
    lemma_min_be_fits(v);
    crate::wire::lemma_be_val_be_bytes(v, min_be_len(v));
}

/// A positive value's minimal encoding has no leading zero.
pub proof fn lemma_min_be_first_nonzero(v: nat)
    requires
        v > 0,
    ensures
        min_be_bytes(v).len() == min_be_len(v),
        min_be_bytes(v)[0] != 0,
    decreases v,
{
    lemma_be_bytes_len(v, min_be_len(v));
    if v < 256 {
        assert(min_be_len(0nat) == 0);
        assert(min_be_len(v) == 1);
        assert(be_bytes(v / 256, 0nat) =~= Seq::empty());
        assert(min_be_bytes(v) =~= seq![(v % 256) as u8]);
    } else {
        lemma_min_be_first_nonzero(v / 256);
        lemma_be_bytes_len(v / 256, min_be_len(v / 256));
        assert(min_be_bytes(v)[0] == be_bytes(v / 256, min_be_len(v / 256))[0]);
    }
}

/// The encoding of a byte-string item: a single byte below 0x80 stands for
/// itself; short strings get a one-byte length tag; long strings get a tag
/// naming the width of the minimal big-endian length that follows.
pub open spec fn rlp_str_bytes(payload: Seq<u8>) -> Seq<u8> {
    if payload.len() == 1 && payload[0] < 0x80 {
        payload
    } else if payload.len() < 56 {
        seq![(0x80 + payload.len()) as u8] + payload
    } else {
        seq![(0xb7 + min_be_len(payload.len())) as u8] + min_be_bytes(payload.len()) + payload
    }
}

/// The encoding of a list item around an already-encoded payload.
pub open spec fn rlp_list_bytes(payload: Seq<u8>) -> Seq<u8> {
    if payload.len() < 56 {
        seq![(0xc0 + payload.len()) as u8] + payload
    } else {
        seq![(0xf7 + min_be_len(payload.len())) as u8] + min_be_bytes(payload.len()) + payload
    }
}

/// The encoding of an unsigned integer item: its minimal big-endian bytes as
/// a string item; zero is the empty string.
pub open spec fn rlp_uint_bytes(v: nat) -> Seq<u8> {
    rlp_str_bytes(min_be_bytes(v))
}

/// Parses the item header at the front of `b`: whether the item is a list,
/// the header length, and the payload length. Rejects every non-canonical
/// form: a single byte wrapped in a needless tag, a length with a leading
/// zero, and a long length below fifty-six.
pub open spec fn rlp_header(b: Seq<u8>) -> Option<(bool, nat, nat)> {
    if b.len() == 0 {
        None
    } else {
        let t = b[0];
        if t < 0x80 {
            Some((false, 0nat, 1nat))
        } else if t <= 0xb7 {
            let l = (t - 0x80) as nat;
            if l == 1 && (b.len() < 2 || b[1] < 0x80) {
                None
            } else {
                Some((false, 1nat, l))
            }
        } else if t <= 0xbf {
            let ll = (t - 0xb7) as int;
            if b.len() < 1 + ll {
                None
            } else {
                let l = be_val(b.subrange(1, 1 + ll));
                if b[1] == 0 || l < 56 {
                    None
                } else {
                    Some((false, (1 + ll) as nat, l))
                }
            }
        } else if t <= 0xf7 {
            Some((true, 1nat, (t - 0xc0) as nat))
        } else {
            let ll = (t - 0xf7) as int;
            if b.len() < 1 + ll {
                None
            } else {
                let l = be_val(b.subrange(1, 1 + ll));
                if b[1] == 0 || l < 56 {
                    None
                } else {
                    Some((true, (1 + ll) as nat, l))
                }
            }
        }
    }
}

/// Appends the `n`-byte big-endian encoding of `v`.
pub fn write_be(out: &mut Vec<u8>, v: u64, n: usize)
    ensures
        final(out)@ == old(out)@ + be_bytes(v as nat, n as nat),
    decreases n,
{
    if n == 0 {
        assert(out@ =~= old(out)@ + be_bytes(v as nat, 0));
    } else {
        write_be(out, v / 256, n - 1);
        out.push((v % 256) as u8);
        assert(out@ =~= old(out)@ + be_bytes(v as nat, n as nat));
    }
}

/// Computes `min_be_len`.
pub fn min_be_len_exec(v: u64) -> (r: usize)
    ensures
        r == min_be_len(v as nat),
        r <= 8,
{
    let mut x = v;
    let mut k: usize = 0;
    proof {
        reveal_with_fuel(pow256, 9);
    }
    while x > 0
        invariant
            min_be_len(v as nat) == k + min_be_len(x as nat),
            k <= 8,
            x < pow256((8 - k) as nat),
        decreases x,
    {
        proof {
            if k >= 8 {
                assert(pow256((8 - k) as nat) == 1);
                assert(false);
            }
            assert(pow256((8 - k) as nat) == 256 * pow256((8 - k - 1) as nat));
            assert((x as nat) / 256 < pow256((8 - k - 1) as nat)) by (nonlinear_arith)
                requires
                    (x as nat) < 256 * pow256((8 - k - 1) as nat),
            ;
        }
        x = x / 256;
        k = k + 1;
    }
    k
}

/// Appends the minimal big-endian encoding of `v`.
pub fn write_min_be(out: &mut Vec<u8>, v: u64)
    ensures
        final(out)@ == old(out)@ + min_be_bytes(v as nat),
{
    let k = min_be_len_exec(v);
    write_be(out, v, k);
}

/// Appends the string-item encoding of `payload`.
pub fn write_rlp_str(out: &mut Vec<u8>, payload: &Vec<u8>)
    ensures
        final(out)@ == old(out)@ + rlp_str_bytes(payload@),
{
    let n = payload.len();
    if n == 1 && payload[0] < 0x80 {
        out.push(payload[0]);
        assert(out@ =~= old(out)@ + rlp_str_bytes(payload@));
    } else if n < 56 {
        out.push(0x80 + n as u8);
        out.extend_from_slice(payload.as_slice());
        assert(out@ =~= old(out)@ + rlp_str_bytes(payload@));
    } else {
        let ll = min_be_len_exec(n as u64);
        out.push(0xb7 + ll as u8);
        write_min_be(out, n as u64);
        out.extend_from_slice(payload.as_slice());
        assert(out@ =~= old(out)@ + rlp_str_bytes(payload@));
    }
}

/// Appends the list-item encoding around `payload`.
pub fn write_rlp_list(out: &mut Vec<u8>, payload: &Vec<u8>)
    ensures
        final(out)@ == old(out)@ + rlp_list_bytes(payload@),
{
    let n = payload.len();
    if n < 56 {
        out.push(0xc0 + n as u8);
        out.extend_from_slice(payload.as_slice());
        assert(out@ =~= old(out)@ + rlp_list_bytes(payload@));
    } else {
        let ll = min_be_len_exec(n as u64);
        out.push(0xf7 + ll as u8);
        write_min_be(out, n as u64);
        out.extend_from_slice(payload.as_slice());
        assert(out@ =~= old(out)@ + rlp_list_bytes(payload@));
    }
}

/// Appends the integer-item encoding of `v`.
pub fn write_rlp_uint(out: &mut Vec<u8>, v: u64)
    ensures
        final(out)@ == old(out)@ + rlp_uint_bytes(v as nat),
{
    let k = min_be_len_exec(v);
    let mut tmp: Vec<u8> = Vec::new();
    write_be(&mut tmp, v, k);
    write_rlp_str(out, &tmp);
}

/// Reads the item header at `pos`: whether the item is a list, the header
/// length, and the payload length (which may exceed what the buffer holds).
pub fn rlp_header_exec(b: &Vec<u8>, pos: usize) -> (r: Option<(bool, usize, u64)>)
    requires
        pos <= b@.len(),
    ensures
        ({
            let s = rlp_header(b@.skip(pos as int));
            match (r, s) {
                (Some((xl, xh, xp)), Some((sl, sh, sp))) => xl == sl && xh == sh && xp == sp,
                (None, None) => true,
                _ => false,
            }
        }),
{
    let n = b.len();
    let ghost t0 = b@.skip(pos as int);
    if pos >= n {
        return None;
    }
    let t = b[pos];
    proof {
        assert(t0[0] == b@[pos as int]);
    }
    if t < 0x80 {
        Some((false, 0, 1))
    } else if t <= 0xb7 {
        let l = (t - 0x80) as u64;
        if l == 1 {
            if pos + 1 >= n {
                return None;
            }
            let second = b[pos + 1];
            proof {
                assert(t0[1] == b@[pos + 1]);
            }
            if second < 0x80 {
                return None;
            }
        }
        Some((false, 1, l))
    } else if t <= 0xbf {
        let ll = (t - 0xb7) as usize;
        if n - pos < 1 + ll {
            return None;
        }
        let l = read_be_len(b, pos + 1, ll);
        proof {
            assert(t0.subrange(1, 1 + ll as int) =~= b@.subrange(pos + 1, pos + 1 + ll));
            assert(t0[1] == b@[pos + 1]);
        }
        if b[pos + 1] == 0 || l < 56 {
            return None;
        }
        Some((false, 1 + ll, l))
    } else if t <= 0xf7 {
        Some((true, 1, (t - 0xc0) as u64))
    } else {
        let ll = (t - 0xf7) as usize;
        if n - pos < 1 + ll {
            return None;
        }
        let l = read_be_len(b, pos + 1, ll);
        proof {
            assert(t0.subrange(1, 1 + ll as int) =~= b@.subrange(pos + 1, pos + 1 + ll));
            assert(t0[1] == b@[pos + 1]);
        }
        if b[pos + 1] == 0 || l < 56 {
            return None;
        }
        Some((true, 1 + ll, l))
    }
}

/// A string item's header parses back to the string's length, whatever
/// follows the item.
pub proof fn lemma_rlp_str_header(payload: Seq<u8>, rest: Seq<u8>)
    requires
        payload.len() < pow256(8),
    ensures
        ({
            let e = rlp_str_bytes(payload);
            let b = e + rest;
            &&& rlp_header(b) matches Some((is_list, hl, pl)) && !is_list && pl == payload.len()
                && hl + pl == e.len() && b.subrange(hl as int, (hl + pl) as int) == payload
        }),
{
    let e = rlp_str_bytes(payload);
    let b = e + rest;
    if payload.len() == 1 && payload[0] < 0x80 {
        assert(b[0] == payload[0]);
        assert(b.subrange(0, 1) =~= payload);
    } else if payload.len() < 56 {
        assert(b[0] == (0x80 + payload.len()) as u8);
        if payload.len() == 1 {
            assert(b[1] == payload[0]);
            assert(payload[0] >= 0x80);
        }
        assert(b.subrange(1, 1 + payload.len() as int) =~= payload);
    } else {
        let ll = min_be_len(payload.len());
        lemma_min_be_len_bound(payload.len(), 8);
        lemma_min_be_first_nonzero(payload.len());
        lemma_min_be_val(payload.len());
        assert(b[0] == (0xb7 + ll) as u8);
        assert(0xb8 <= b[0] <= 0xbf);
        assert(b.subrange(1, 1 + ll as int) =~= min_be_bytes(payload.len()));
        assert(b[1] == min_be_bytes(payload.len())[0]);
        assert(b.subrange((1 + ll) as int, (1 + ll + payload.len()) as int) =~= payload);
    }
}

/// A list item's header parses back to the payload's length, whatever
/// follows the item.
pub proof fn lemma_rlp_list_header(payload: Seq<u8>, rest: Seq<u8>)
    requires
        payload.len() < pow256(8),
    ensures
        ({
            let e = rlp_list_bytes(payload);
            let b = e + rest;
            &&& rlp_header(b) matches Some((is_list, hl, pl)) && is_list && pl == payload.len()
                && hl + pl == e.len() && b.subrange(hl as int, (hl + pl) as int) == payload
        }),
{
    let e = rlp_list_bytes(payload);
    let b = e + rest;
    if payload.len() < 56 {
        assert(b[0] == (0xc0 + payload.len()) as u8);
        assert(b.subrange(1, 1 + payload.len() as int) =~= payload);
    } else {
        let ll = min_be_len(payload.len());
        lemma_min_be_len_bound(payload.len(), 8);
        lemma_min_be_first_nonzero(payload.len());
        lemma_min_be_val(payload.len());
        assert(b[0] == (0xf7 + ll) as u8);
        assert(0xf8 <= b[0]);
        assert(b.subrange(1, 1 + ll as int) =~= min_be_bytes(payload.len()));
        assert(b[1] == min_be_bytes(payload.len())[0]);
        assert(b.subrange((1 + ll) as int, (1 + ll + payload.len()) as int) =~= payload);
    }
}

} // verus!
