//! Bits and fixed-width blocks of bits.
//!
//! A block is held in a `u64`; a block of width `w` uses the `w` lowest bits.

use vstd::prelude::*;
use vstd::arithmetic::power2::pow2;
use vstd::string::*;

verus! {

/// One tape symbol.
#[derive(Clone, Copy, Debug, PartialEq, Eq, Structural)]
pub enum Bit {
    Zero,
    One,
}

/// The widths a block may have: the powers of two up to 64.
pub open spec fn valid_width(w: nat) -> bool {
    w == 1 || w == 2 || w == 4 || w == 8 || w == 16 || w == 32 || w == 64
}

/// Whether `w` is a width a block may have.
pub fn is_valid_width(w: usize) -> (ok: bool)
    ensures
        ok == valid_width(w as nat),
{
    w == 1 || w == 2 || w == 4 || w == 8 || w == 16 || w == 32 || w == 64
}

/// The bit of `x` at offset `pos`.
pub open spec fn bit_of(x: u64, pos: nat) -> Bit {
    if x & (1u64 << (pos as u64)) == 0 {
        Bit::Zero
    } else {
        Bit::One
    }
}

/// `x` with the bit at offset `pos` replaced by `b`.
pub open spec fn with_bit(x: u64, pos: nat, b: Bit) -> u64 {
    match b {
        Bit::Zero => x & !(1u64 << (pos as u64)),
        Bit::One => x | (1u64 << (pos as u64)),
    }
}

/// `x` uses only its `w` lowest bits.
pub open spec fn fits(x: u64, w: nat) -> bool {
    x < pow2(w)
}

/// Calls `num_traits::Zero::zero` for `u64`, which returns the constant 0.
#[verifier::external_body]
pub(crate) fn zero_block() -> (r: u64)
    ensures
        r == 0,
{
    num_traits::Zero::zero()
}

/// Calls `num_traits::One::one` for `u64`, which returns the constant 1.
#[verifier::external_body]
pub(crate) fn one_block() -> (r: u64)
    ensures
        r == 1,
{
    num_traits::One::one()
}

/// Calls `num_traits::NumCast::from` to turn a `usize` into a `u64`. The
/// source is never wider than the target, so the cast always succeeds and
/// keeps the value.
#[verifier::external_body]
pub(crate) fn block_from_index(i: usize) -> (r: Option<u64>)
    ensures
        r == Some(i as u64),
{
    num_traits::NumCast::from(i)
}

/// Calls `num_traits::ToPrimitive::to_usize` on a `u64`: the value itself
/// where a `usize` can hold it, and `None` where it cannot.
#[verifier::external_body]
pub(crate) fn block_to_index(x: u64) -> (r: Option<usize>)
    ensures
        r == (if x <= usize::MAX { Some(x as usize) } else { None::<usize> }),
{
    num_traits::ToPrimitive::to_usize(&x)
}

/// Reads the bit of `x` at offset `pos`.
pub fn get_bit(x: u64, pos: usize) -> (b: Bit)
    requires
        pos < 64,
    ensures
        b == bit_of(x, pos as nat),
{
    if x & (one_block() << (pos as u64)) == zero_block() {
        Bit::Zero
    } else {
        Bit::One
    }
}

/// Replaces the bit of `x` at offset `pos` by `b`.
pub fn set_bit(x: &mut u64, pos: usize, b: Bit)
    requires
        pos < 64,
    ensures
        *final(x) == with_bit(*old(x), pos as nat, b),
{
    match b {
        Bit::Zero => *x = *x & !(one_block() << (pos as u64)),
        Bit::One => *x = *x | (one_block() << (pos as u64)),
    }
}

/// A write changes the bit it addresses and no other.
pub proof fn lemma_with_bit(x: u64, pos: nat, b: Bit, q: nat)
    requires
        pos < 64,
        q < 64,
    ensures
        bit_of(with_bit(x, pos, b), q) == (if q == pos { b } else { bit_of(x, q) }),
{
    let p: u64 = pos as u64;
    let r: u64 = q as u64;
    assert(p < 64 && r < 64 ==> ((x | (1u64 << p)) & (1u64 << r) == 0) == (if r == p {
        false
    } else {
        x & (1u64 << r) == 0
    })) by (bit_vector);
    assert(p < 64 && r < 64 ==> ((x & !(1u64 << p)) & (1u64 << r) == 0) == (if r == p {
        true
    } else {
        x & (1u64 << r) == 0
    })) by (bit_vector);
}

/// Every bit of the zero block is `Zero`.
pub proof fn lemma_zero_block(q: nat)
    requires
        q < 64,
    ensures
        bit_of(0, q) == Bit::Zero,
{
    let r: u64 = q as u64;
    assert(0u64 & (1u64 << r) == 0) by (bit_vector);
}

/// A write within the `w` lowest bits keeps a block within them.
pub proof fn lemma_with_bit_fits(x: u64, pos: nat, b: Bit, w: nat)
    requires
        pos < w <= 64,
        fits(x, w),
    ensures
        fits(with_bit(x, pos, b), w),
{
    if w == 64 {
        vstd::arithmetic::power2::lemma2_to64_rest();
    } else {
        let p: u64 = pos as u64;
        let v: u64 = w as u64;
        vstd::bits::lemma_u64_pow2_no_overflow(w);
        vstd::bits::lemma_u64_shl_is_mul(1, v);
        assert(p < v && v < 64 && x < (1u64 << v) ==> (x | (1u64 << p)) < (1u64 << v))
            by (bit_vector);
        assert(p < v && v < 64 && x < (1u64 << v) ==> (x & !(1u64 << p)) < (1u64 << v))
            by (bit_vector);
    }
}

/// The character that stands for a bit.
pub open spec fn bit_char(b: Bit) -> char {
    match b {
        Bit::Zero => '0',
        Bit::One => '1',
    }
}

/// The `w` lowest bits of `x` as characters, the highest of them first.
pub open spec fn spec_as_bits(x: u64, w: nat) -> Seq<char> {
    Seq::new(w, |i: int| bit_char(bit_of(x, (w - 1 - i) as nat)))
}

/// The `w` lowest bits of `x` as characters, the lowest first.
pub open spec fn spec_as_bits_rev(x: u64, w: nat) -> Seq<char> {
    Seq::new(w, |i: int| bit_char(bit_of(x, i as nat)))
}

/// Appends the character of `b` to `out`.
pub fn push_bit(out: &mut String, b: Bit)
    ensures
        final(out)@ == old(out)@.push(bit_char(b)),
{
    proof {
        reveal_strlit("0");
        reveal_strlit("1");
    }
    match b {
        Bit::Zero => out.append("0"),
        Bit::One => out.append("1"),
    }
    assert(out@ =~= old(out)@.push(bit_char(b)));
}

/// Renders the `bits` lowest bits of `x`, the highest of them first.
pub fn as_bits(x: u64, bits: usize) -> (s: String)
    requires
        bits <= 64,
    ensures
        s@ == spec_as_bits(x, bits as nat),
{
    let mut out = String::new();
    let mut i: usize = 0;
    while i < bits
        invariant
            i <= bits <= 64,
            out@ == spec_as_bits(x, bits as nat).take(i as int),
        decreases bits - i,
    {
        push_bit(&mut out, get_bit(x, bits - 1 - i));
        i += 1;
        assert(out@ =~= spec_as_bits(x, bits as nat).take(i as int));
    }
    assert(out@ =~= spec_as_bits(x, bits as nat));
    out
}

/// Renders the `bits` lowest bits of `x`, the lowest first.
pub fn as_bits_rev(x: u64, bits: usize) -> (s: String)
    requires
        bits <= 64,
    ensures
        s@ == spec_as_bits_rev(x, bits as nat),
{
    let mut out = String::new();
    let mut i: usize = 0;
    while i < bits
        invariant
            i <= bits <= 64,
            out@ == spec_as_bits_rev(x, bits as nat).take(i as int),
        decreases bits - i,
    {
        push_bit(&mut out, get_bit(x, i));
        i += 1;
        assert(out@ =~= spec_as_bits_rev(x, bits as nat).take(i as int));
    }
    assert(out@ =~= spec_as_bits_rev(x, bits as nat));
    out
}

/// The block whose `n` lowest bits are set, and no other.
pub open spec fn low_mask(n: u64) -> u64 {
    if n >= 64 {
        0xffff_ffff_ffff_ffffu64
    } else {
        !(0xffff_ffff_ffff_ffffu64 << n)
    }
}

/// Two blocks with the same `n` lowest bits are equal under the mask of
/// those bits.
pub proof fn lemma_same_low_bits(x: u64, y: u64, n: nat)
    requires
        n <= 64,
        forall|j: nat| j < n ==> #[trigger] bit_of(x, j) == bit_of(y, j),
    ensures
        x & low_mask(n as u64) == y & low_mask(n as u64),
    decreases n,
{
    if n == 0 {
        assert(x & low_mask(0) == y & low_mask(0)) by (bit_vector);
    } else {
        let m: u64 = (n - 1) as u64;
        lemma_same_low_bits(x, y, (n - 1) as nat);
        assert(bit_of(x, (n - 1) as nat) == bit_of(y, (n - 1) as nat));
        assert(m < 64 && x & low_mask(m) == y & low_mask(m) && ((x & (1u64 << m)) == 0) == ((y & (
        1u64 << m)) == 0) ==> x & low_mask((m + 1) as u64) == y & low_mask((m + 1) as u64))
            by (bit_vector);
    }
}

/// A block of width `w` is what its `w` lowest bits say: two such blocks
/// with the same bits are the same block.
pub proof fn lemma_same_bits(x: u64, y: u64, w: nat)
    requires
        w <= 64,
        fits(x, w),
        fits(y, w),
        forall|j: nat| j < w ==> #[trigger] bit_of(x, j) == bit_of(y, j),
    ensures
        x == y,
{
    lemma_same_low_bits(x, y, w);
    let v: u64 = w as u64;
    if w < 64 {
        vstd::bits::lemma_u64_pow2_no_overflow(w);
        vstd::bits::lemma_u64_shl_is_mul(1, v);
        assert(v < 64 && x < (1u64 << v) ==> x & low_mask(v) == x) by (bit_vector);
        assert(v < 64 && y < (1u64 << v) ==> y & low_mask(v) == y) by (bit_vector);
    } else {
        assert(x & low_mask(64) == x) by (bit_vector);
        assert(y & low_mask(64) == y) by (bit_vector);
    }
}

} // verus!
