//! Little-endian byte-level primitives shared by the XBE codec, the COFF
//! reader and the relocation evaluator: reading and writing 16- and 32-bit
//! words, rounding lengths up to an alignment boundary, and zero padding.

use vstd::prelude::*;

verus! {

use vstd::bytes::{
    spec_u16_from_le_bytes, spec_u16_to_le_bytes, spec_u32_from_le_bytes, spec_u32_to_le_bytes,
    u16_from_le_bytes, u16_to_le_bytes, u32_from_le_bytes, u32_to_le_bytes,
};
use vstd::slice::{slice_subrange, slice_to_vec};

/// `n` rounded up to the next multiple of `to` (`n` itself if it is already
/// a multiple).
#[verifier::opaque]
pub open spec fn round_up(n: int, to: int) -> int
    recommends
        to > 0,
{
    n + ((to - n % to) % to)
}

/// A sequence of `n` zero bytes.
pub open spec fn zero_bytes(n: int) -> Seq<u8>
    recommends
        n >= 0,
{
    Seq::new(n as nat, |i: int| 0u8)
}

pub proof fn lemma_round_up(n: int, to: int)
    requires
        n >= 0,
        to > 0,
    ensures
        n <= round_up(n, to) < n + to,
        round_up(n, to) % to == 0,
        n % to == 0 ==> round_up(n, to) == n,
{
    reveal(round_up);
    let r = n % to;
    assert(0 <= r < to) by (nonlinear_arith)
        requires
            to > 0,
            r == n % to,
    ;
    if r == 0 {
        assert(to % to == 0) by (nonlinear_arith)
            requires
                to > 0,
        ;
        assert((n + 0) % to == 0) by (nonlinear_arith)
            requires
                to > 0,
                n % to == 0,
        ;
    } else {
        assert((to - r) % to == to - r) by (nonlinear_arith)
            requires
                0 < r < to,
        ;
        assert((n + (to - r)) % to == 0) by (nonlinear_arith)
            requires
                to > 0,
                0 < r < to,
                r == n % to,
        ;
    }
}

/// `n` rounded up to the next multiple of `to`, on `u32` values.
pub fn round_up_u32(n: u32, to: u32) -> (r: u32)
    requires
        to > 0,
        round_up(n as int, to as int) <= u32::MAX,
    ensures
        r == round_up(n as int, to as int),
        r % to == 0,
        n <= r < n + to,
{
    proof {
        reveal(round_up);
        lemma_round_up(n as int, to as int);
    }
    let rem = n % to;
    if rem == 0 {
        n
    } else {
        proof {
            assert(0 < rem < to) by (nonlinear_arith)
                requires
                    to > 0,
                    rem == (n as int) % (to as int),
                    rem != 0,
            ;
            assert(((to - rem) as int) % (to as int) == (to - rem) as int) by (nonlinear_arith)
                requires
                    0 < ((to - rem) as int),
                    ((to - rem) as int) < (to as int),
            ;
        }
        n + (to - rem)
    }
}

/// `n` rounded up to the next multiple of `to`, on `usize` values.
pub fn round_up_usize(n: usize, to: usize) -> (r: usize)
    requires
        to > 0,
        round_up(n as int, to as int) <= usize::MAX,
    ensures
        r == round_up(n as int, to as int),
        r % to == 0,
        n <= r < n + to,
{
    proof {
        reveal(round_up);
        lemma_round_up(n as int, to as int);
    }
    let rem = n % to;
    if rem == 0 {
        n
    } else {
        proof {
            assert(0 < rem < to) by (nonlinear_arith)
                requires
                    to > 0,
                    rem == (n as int) % (to as int),
                    rem != 0,
            ;
            assert(((to - rem) as int) % (to as int) == (to - rem) as int) by (nonlinear_arith)
                requires
                    0 < ((to - rem) as int),
                    ((to - rem) as int) < (to as int),
            ;
        }
        n + (to - rem)
    }
}

/// The little-endian 16-bit word stored at `pos`.
pub fn read_u16_at(bytes: &[u8], pos: usize) -> (r: u16)
    requires
        pos + 2 <= bytes@.len(),
    ensures
        r == spec_u16_from_le_bytes(bytes@.subrange(pos as int, pos + 2)),
{
    let len = bytes.len();
    let s = slice_subrange(bytes, pos, pos + 2);
    u16_from_le_bytes(s)
}

/// The little-endian 32-bit word stored at `pos`.
pub fn read_u32_at(bytes: &[u8], pos: usize) -> (r: u32)
    requires
        pos + 4 <= bytes@.len(),
    ensures
        r == spec_u32_from_le_bytes(bytes@.subrange(pos as int, pos + 4)),
{
    let len = bytes.len();
    let s = slice_subrange(bytes, pos, pos + 4);
    u32_from_le_bytes(s)
}

/// Appends the two little-endian bytes of `x`.
pub fn push_u16_le(v: &mut Vec<u8>, x: u16)
    ensures
        final(v)@ == old(v)@ + spec_u16_to_le_bytes(x),
{
    let mut b = u16_to_le_bytes(x);
    v.append(&mut b);
}

/// Appends the four little-endian bytes of `x`.
pub fn push_u32_le(v: &mut Vec<u8>, x: u32)
    ensures
        final(v)@ == old(v)@ + spec_u32_to_le_bytes(x),
{
    let mut b = u32_to_le_bytes(x);
    v.append(&mut b);
}

/// Overwrites the four bytes at `pos` with the little-endian encoding of `x`.
pub fn write_u32_at(v: &mut Vec<u8>, pos: usize, x: u32)
    requires
        pos + 4 <= old(v)@.len(),
    ensures
        final(v)@.len() == old(v)@.len(),
        final(v)@ == old(v)@.take(pos as int) + spec_u32_to_le_bytes(x) + old(v)@.skip(pos + 4),
        final(v)@.subrange(pos as int, pos + 4) == spec_u32_to_le_bytes(x),
        forall|i: int|
            0 <= i < old(v)@.len() && !(pos <= i < pos + 4) ==> final(v)@[i] == old(v)@[i],
{
    proof {
        vstd::bytes::lemma_auto_spec_u32_to_from_le_bytes();
    }
    let len = v.len();
    let b = u32_to_le_bytes(x);
    v[pos] = b[0];
    v[pos + 1] = b[1];
    v[pos + 2] = b[2];
    v[pos + 3] = b[3];
    proof {
        assert(final(v)@ =~= old(v)@.take(pos as int) + spec_u32_to_le_bytes(x) + old(v)@.skip(
            pos + 4,
        ));
        assert(final(v)@.subrange(pos as int, pos + 4) =~= spec_u32_to_le_bytes(x));
    }
}

/// Appends `count` zero bytes.
pub fn push_zeros(v: &mut Vec<u8>, count: usize)
    ensures
        final(v)@ == old(v)@ + zero_bytes(count as int),
{
    let mut i: usize = 0;
    while i < count
        invariant
            i <= count,
            v@.len() == old(v)@.len() + i,
            v@ == old(v)@ + zero_bytes(i as int),
        decreases count - i,
    {
        v.push(0u8);
        i = i + 1;
        proof {
            assert(v@ =~= old(v)@ + zero_bytes(i as int));
        }
    }
}

/// Grows or shrinks `v` to exactly `target` bytes, padding with zeros.
pub fn resize_bytes(v: &mut Vec<u8>, target: usize)
    ensures
        final(v)@ == spec_resize(old(v)@, target as int),
{
    if target <= v.len() {
        v.truncate(target);
    } else {
        let grow = target - v.len();
        push_zeros(v, grow);
    }
    proof {
        assert(final(v)@ =~= spec_resize(old(v)@, target as int));
    }
}

/// `s` truncated or zero-padded to exactly `n` bytes.
pub open spec fn spec_resize(s: Seq<u8>, n: int) -> Seq<u8>
    recommends
        n >= 0,
{
    if n <= s.len() {
        s.take(n)
    } else {
        s + zero_bytes(n - s.len())
    }
}

/// Zero-pads `v` up to the next multiple of `to`.
pub fn pad_to_nearest(v: &mut Vec<u8>, to: usize)
    requires
        to > 0,
        round_up(old(v)@.len() as int, to as int) <= usize::MAX,
    ensures
        final(v)@ == old(v)@ + zero_bytes(
            round_up(old(v)@.len() as int, to as int) - old(v)@.len(),
        ),
        final(v)@.len() == round_up(old(v)@.len() as int, to as int),
        (final(v)@.len() as int) % (to as int) == 0,
{
    proof {
        lemma_round_up(v@.len() as int, to as int);
    }
    let target = round_up_usize(v.len(), to);
    let grow = target - v.len();
    push_zeros(v, grow);
}

/// Adjacent subranges concatenate to the enclosing subrange.
pub proof fn lemma_subrange_concat(s: Seq<u8>, a: int, b: int, c: int)
    requires
        0 <= a <= b <= c <= s.len(),
    ensures
        s.subrange(a, b) + s.subrange(b, c) == s.subrange(a, c),
{
    assert(s.subrange(a, b) + s.subrange(b, c) =~= s.subrange(a, c));
}

/// Appends a copy of `data`.
pub fn push_bytes(v: &mut Vec<u8>, data: &[u8])
    ensures
        final(v)@ == old(v)@ + data@,
{
    let mut copy = slice_to_vec(data);
    v.append(&mut copy);
}

/// Byte-for-byte equality of two slices.
pub fn bytes_eq(a: &[u8], b: &[u8]) -> (r: bool)
    ensures
        r == (a@ == b@),
{
    if a.len() != b.len() {
        return false;
    }
    let n = a.len();
    let mut i: usize = 0;
    while i < n
        invariant
            n == a@.len() == b@.len(),
            i <= n,
            forall|j: int| 0 <= j < i ==> a@[j] == b@[j],
        decreases n - i,
    {
        if a[i] != b[i] {
            return false;
        }
        i = i + 1;
    }
    proof {
        assert(a@ =~= b@);
    }
    true
}

/// Equality of two string slices, stated over their character views.
pub fn str_eq(a: &str, b: &str) -> (r: bool)
    ensures
        r == (a@ == b@),
{
    let x = a.to_owned();
    let y = b.to_owned();
    x == y
}

/// A copy of `v[from..to]` as a fresh vector.
pub fn copy_range(v: &[u8], from: usize, to: usize) -> (r: Vec<u8>)
    requires
        from <= to <= v@.len(),
    ensures
        r@ == v@.subrange(from as int, to as int),
{
    slice_to_vec(slice_subrange(v, from, to))
}

} // verus!
