//! The tape: unbounded in both directions, held as two growing rows of
//! blocks, one for the positions from 0 upwards and one for those below 0.

use vstd::prelude::*;
use vstd::string::*;
use crate::block::{Bit, bit_of, with_bit, fits, valid_width, is_valid_width, get_bit, set_bit,
    zero_block, bit_char, as_bits, as_bits_rev, lemma_with_bit, lemma_with_bit_fits, lemma_zero_block};
use crate::machine::TapeMotion;

verus! {

/// `n` cells that all hold `Zero`.
pub open spec fn zeros(n: nat) -> Seq<Bit> {
    Seq::new(n, |i: int| Bit::Zero)
}

/// A tape as a mathematical value: the cells that are held, and the head.
pub struct TapeView {
    /// The number of cells by which a half grows.
    pub width: nat,
    /// The cells at the positions -1, -2, ... in this order.
    pub left: Seq<Bit>,
    /// The cells at the positions 0, 1, ... in this order.
    pub right: Seq<Bit>,
    /// The position of the head.
    pub head: int,
}

impl TapeView {
    /// The tape with one block of zeros on each side and the head at 0.
    pub open spec fn fresh(width: nat) -> TapeView {
        TapeView { width, left: zeros(width), right: zeros(width), head: 0 }
    }

    /// The head stands on a cell that is held.
    pub open spec fn wf(self) -> bool {
        &&& self.width > 0
        &&& -self.left.len() <= self.head < self.right.len()
    }

    /// The symbol at position `p`; a cell that is not held yet is `Zero`.
    pub open spec fn cell(self, p: int) -> Bit {
        if 0 <= p < self.right.len() {
            self.right[p]
        } else if -self.left.len() <= p < 0 {
            self.left[-p - 1]
        } else {
            Bit::Zero
        }
    }

    /// The symbol under the head.
    pub open spec fn read(self) -> Bit {
        self.cell(self.head)
    }

    /// The tape with `b` written under the head.
    pub open spec fn write(self, b: Bit) -> TapeView {
        if self.head >= 0 {
            TapeView { right: self.right.update(self.head, b), ..self }
        } else {
            TapeView { left: self.left.update(-self.head - 1, b), ..self }
        }
    }

    /// The tape with the head moved by one cell. A half whose last cell the
    /// head leaves behind grows by one block of zeros.
    pub open spec fn shift(self, motion: TapeMotion) -> TapeView {
        let head = match motion {
            TapeMotion::Left => self.head - 1,
            TapeMotion::Right => self.head + 1,
        };
        TapeView {
            width: self.width,
            left: if -head - 1 >= self.left.len() {
                self.left + zeros(self.width)
            } else {
                self.left
            },
            right: if head >= self.right.len() {
                self.right + zeros(self.width)
            } else {
                self.right
            },
            head,
        }
    }

    /// The tape after `k` moves of the head in one direction.
    pub open spec fn shift_by(self, motion: TapeMotion, k: nat) -> TapeView
        decreases k,
    {
        if k == 0 {
            self
        } else {
            self.shift_by(motion, (k - 1) as nat).shift(motion)
        }
    }
}

/// The cells of a row of blocks of width `w`: block 0 first, and in each
/// block the lowest bit first.
pub open spec fn half_bits(blocks: Seq<u64>, w: nat) -> Seq<Bit> {
    Seq::new(blocks.len() * w, |i: int| bit_of(blocks[i / (w as int)], (i % (w as int)) as nat))
}

/// Every block of the row uses only its `w` lowest bits.
pub open spec fn all_fit(blocks: Seq<u64>, w: nat) -> bool {
    forall|k: int| 0 <= k < blocks.len() ==> fits(#[trigger] blocks[k], w)
}

/// The number of the cell at offset `j` of block `k`, counted from the
/// origin of its half.
pub open spec fn offset(k: nat, j: nat, w: nat) -> nat {
    k * w + j
}

/// The cell at offset `j` of block `k` is where `half_bits` puts it.
pub proof fn lemma_half_index(blocks: Seq<u64>, w: nat, k: nat, j: nat)
    requires
        k < blocks.len(),
        j < w,
    ensures
        offset(k, j, w) < blocks.len() * w,
        offset(k, j, w) < half_bits(blocks, w).len(),
        offset(k, j, w) as int / (w as int) == k,
        offset(k, j, w) as int % (w as int) == j,
        half_bits(blocks, w)[offset(k, j, w) as int] == bit_of(blocks[k as int], j),
        offset(k, j, w) + 1 == blocks.len() * w <==> (k + 1 == blocks.len() && j + 1 == w),
        j + 1 == w ==> offset(k + 1, 0, w) == offset(k, j, w) + 1,
        k > 0 ==> offset((k - 1) as nat, (w - 1) as nat, w) + 1 == offset(k, 0, w),
{
    let n = blocks.len() as int;
    vstd::arithmetic::div_mod::lemma_fundamental_div_mod_converse(
        offset(k, j, w) as int,
        w as int,
        k as int,
        j as int,
    );
    assert(k * w + j < n * w && (k * w + j + 1 == n * w <==> (k + 1 == n && j + 1 == w)))
        by (nonlinear_arith)
        requires
            0 <= k < n,
            0 <= j < w,
    ;
    assert((k + 1) * w == k * w + w) by (nonlinear_arith);
    assert(k > 0 ==> (k - 1) * w + (w - 1) + 1 == k * w) by (nonlinear_arith);
}

/// Every cell of a row lies in one block, at one offset.
pub proof fn lemma_half_split(blocks: Seq<u64>, w: nat, i: int)
    requires
        0 <= i < blocks.len() * w,
    ensures
        w > 0,
        0 <= i / (w as int) < blocks.len(),
        0 <= i % (w as int) < w,
        i == offset((i / (w as int)) as nat, (i % (w as int)) as nat, w),
{
    let n = blocks.len() as int;
    assert(w > 0) by (nonlinear_arith)
        requires
            0 <= i < n * w,
            n >= 0,
    ;
    vstd::arithmetic::div_mod::lemma_fundamental_div_mod(i, w as int);
    vstd::arithmetic::div_mod::lemma_mod_bound(i, w as int);
    let q = i / (w as int);
    assert(0 <= q < n) by (nonlinear_arith)
        requires
            0 <= i < n * w,
            i == w * q + i % (w as int),
            0 <= i % (w as int) < w,
    ;
    assert(w * q == q * w) by (nonlinear_arith);
}

/// A write into one block is a write into one cell of the row.
pub proof fn lemma_half_update(blocks: Seq<u64>, w: nat, k: nat, j: nat, b: Bit)
    requires
        k < blocks.len(),
        j < w <= 64,
    ensures
        half_bits(blocks.update(k as int, with_bit(blocks[k as int], j, b)), w) == half_bits(
            blocks,
            w,
        ).update(offset(k, j, w) as int, b),
{
    let after = blocks.update(k as int, with_bit(blocks[k as int], j, b));
    let lhs = half_bits(after, w);
    let rhs = half_bits(blocks, w).update(offset(k, j, w) as int, b);
    lemma_half_index(blocks, w, k, j);
    assert forall|i: int| 0 <= i < lhs.len() implies lhs[i] == rhs[i] by {
        lemma_half_split(blocks, w, i);
        let q = (i / (w as int)) as nat;
        let r = (i % (w as int)) as nat;
        if q == k {
            lemma_with_bit(blocks[k as int], j, b, r);
        }
    }
    assert(lhs =~= rhs);
}

/// A new zero block at the end of a row is `w` new zero cells at its end.
pub proof fn lemma_half_push(blocks: Seq<u64>, w: nat)
    requires
        0 < w <= 64,
    ensures
        half_bits(blocks.push(0), w) == half_bits(blocks, w) + zeros(w),
{
    let after = blocks.push(0);
    let lhs = half_bits(after, w);
    let rhs = half_bits(blocks, w) + zeros(w);
    let n = blocks.len() as int;
    assert((n + 1) * w == n * w + w) by (nonlinear_arith);
    assert forall|i: int| 0 <= i < lhs.len() implies lhs[i] == rhs[i] by {
        lemma_half_split(after, w, i);
        let q = i / (w as int);
        let r = (i % (w as int)) as nat;
        if i < n * w {
            lemma_half_split(blocks, w, i);
        } else {
            assert(q >= n) by (nonlinear_arith)
                requires
                    i >= n * w,
                    i == q * w + r,
                    r < w,
            ;
            lemma_zero_block(r);
        }
    }
    assert(lhs =~= rhs);
}

/// Growth: on a tape that holds one block on each side, with the head on the
/// first cell of one half, `k` moves away from the origin leave the other
/// half as it was and bring the half that the head moves in to the least
/// number of blocks that holds `k + 1` cells, which is `k / width + 1`.
pub proof fn lemma_growth(t: TapeView, motion: TapeMotion, k: nat)
    requires
        t.width > 0,
        t.left.len() == t.width,
        t.right.len() == t.width,
        t.head == (match motion {
            TapeMotion::Right => 0int,
            TapeMotion::Left => -1int,
        }),
    ensures
        t.shift_by(motion, k).width == t.width,
        match motion {
            TapeMotion::Right => {
                &&& t.shift_by(motion, k).head == k
                &&& t.shift_by(motion, k).left == t.left
                &&& t.shift_by(motion, k).right.len() == (k / t.width + 1) * t.width
            },
            TapeMotion::Left => {
                &&& t.shift_by(motion, k).head == -1 - k
                &&& t.shift_by(motion, k).right == t.right
                &&& t.shift_by(motion, k).left.len() == (k / t.width + 1) * t.width
            },
        },
    decreases k,
{
    let w = t.width as int;
    if k == 0 {
        vstd::arithmetic::div_mod::lemma_fundamental_div_mod_converse(0, w, 0, 0);
        assert((0 + 1) * w == w) by (nonlinear_arith);
    } else {
        lemma_growth(t, motion, (k - 1) as nat);
        let q = (k - 1) / w;
        let r = (k - 1) % w;
        vstd::arithmetic::div_mod::lemma_fundamental_div_mod(k - 1, w);
        vstd::arithmetic::div_mod::lemma_mod_bound(k - 1, w);
        assert(w * q == q * w) by (nonlinear_arith);
        assert((q + 1) * w == q * w + w && (q + 2) * w == q * w + w + w) by (nonlinear_arith);
        if r == w - 1 {
            vstd::arithmetic::div_mod::lemma_fundamental_div_mod_converse(k as int, w, q + 1, 0);
        } else {
            vstd::arithmetic::div_mod::lemma_fundamental_div_mod_converse(k as int, w, q, r + 1);
        }
        let p = (k as int) / w;
        assert((p + 1) * w == p * w + w) by (nonlinear_arith);
        assert(p * w == if r == w - 1 { q * w + w } else { q * w }) by (nonlinear_arith)
            requires
                p == (if r == w - 1 { q + 1 } else { q }),
        ;
    }
}

/// The tape as text: every cell that is held, from the leftmost to the
/// rightmost, `'0'` or `'1'` each.
pub open spec fn rendering(v: TapeView) -> Seq<char> {
    Seq::new(v.left.len() + v.right.len(), |i: int| bit_char(v.cell(i - v.left.len())))
}

/// The tape.
pub struct Tape {
    /// The blocks that hold the positions from 0 upwards.
    pub right: Vec<u64>,
    /// The blocks that hold the positions below 0, the nearest first.
    pub left: Vec<u64>,
    /// The block of the active half that the head stands in.
    pub vec_index: usize,
    /// The offset of the head in that block.
    pub bit_index: usize,
    /// The half that the head stands in.
    pub half: TapeMotion,
    /// The width of a block.
    pub bits: usize,
}

impl View for Tape {
    type V = TapeView;

    open spec fn view(&self) -> TapeView {
        TapeView {
            width: self.bits as nat,
            left: half_bits(self.left@, self.bits as nat),
            right: half_bits(self.right@, self.bits as nat),
            head: match self.half {
                TapeMotion::Right => offset(self.vec_index as nat, self.bit_index as nat, self.bits as nat) as int,
                TapeMotion::Left => -offset(self.vec_index as nat, self.bit_index as nat, self.bits as nat) - 1,
            },
        }
    }
}

impl Tape {
    /// The blocks of the half that the head stands in.
    pub open spec fn active(&self) -> Seq<u64> {
        match self.half {
            TapeMotion::Left => self.left@,
            TapeMotion::Right => self.right@,
        }
    }

    /// Both halves hold a block, no block uses a bit beyond the width, and
    /// the head stands in a block that is held.
    pub open spec fn wf(&self) -> bool {
        &&& valid_width(self.bits as nat)
        &&& self.left@.len() > 0
        &&& self.right@.len() > 0
        &&& all_fit(self.left@, self.bits as nat)
        &&& all_fit(self.right@, self.bits as nat)
        &&& self.vec_index < self.active().len()
        &&& self.bit_index < self.bits
    }

    /// The head of a well-formed tape stands on a cell that its view holds.
    pub proof fn lemma_view_wf(&self)
        requires
            self.wf(),
        ensures
            self@.wf(),
            self@.width == self.bits,
            self@.left.len() == self.left@.len() * self.bits,
            self@.right.len() == self.right@.len() * self.bits,
    {
        lemma_half_index(self.active(), self.bits as nat, self.vec_index as nat, self.bit_index as nat);
    }

    /// The number of blocks of the left half.
    pub fn left_blocks(&self) -> (n: usize)
        ensures
            n == self.left@.len(),
            self.wf() ==> n * self.bits == self@.left.len(),
    {
        self.left.len()
    }

    /// The number of blocks of the right half.
    pub fn right_blocks(&self) -> (n: usize)
        ensures
            n == self.right@.len(),
            self.wf() ==> n * self.bits == self@.right.len(),
    {
        self.right.len()
    }

    /// The all-zero tape of blocks of width `bits`, one block on each side,
    /// the head at position 0. `None` where `bits` is no valid width.
    pub fn new(bits: usize) -> (r: Option<Tape>)
        ensures
            r is Some <==> valid_width(bits as nat),
            r matches Some(t) ==> t.wf() && t@ == TapeView::fresh(bits as nat) && t.left@.len() == 1
                && t.right@.len() == 1,
    {
        if !is_valid_width(bits) {
            return None;
        }
        let mut right: Vec<u64> = Vec::new();
        right.push(zero_block());
        let mut left: Vec<u64> = Vec::new();
        left.push(zero_block());
        let t = Tape { right, left, vec_index: 0, bit_index: 0, half: TapeMotion::Right, bits };
        proof {
            vstd::arithmetic::power2::lemma_pow2_pos(bits as nat);
            lemma_half_push(Seq::<u64>::empty(), bits as nat);
            assert(t.left@ =~= Seq::<u64>::empty().push(0));
            assert(t.right@ =~= Seq::<u64>::empty().push(0));
            assert(half_bits(Seq::<u64>::empty(), bits as nat) =~= Seq::<Bit>::empty());
            assert(t@.left =~= zeros(bits as nat));
            assert(t@.right =~= zeros(bits as nat));
        }
        Some(t)
    }

    /// The symbol under the head.
    pub fn get(&self) -> (b: Bit)
        requires
            self.wf(),
        ensures
            b == self@.read(),
    {
        proof {
            lemma_half_index(self.active(), self.bits as nat, self.vec_index as nat, self.bit_index as nat);
        }
        let vec_value = match self.half {
            TapeMotion::Left => self.left[self.vec_index],
            TapeMotion::Right => self.right[self.vec_index],
        };
        get_bit(vec_value, self.bit_index)
    }

    /// Writes `b` under the head.
    pub fn set(&mut self, b: Bit)
        requires
            old(self).wf(),
        ensures
            final(self).wf(),
            final(self)@ == old(self)@.write(b),
            final(self).left@.len() == old(self).left@.len(),
            final(self).right@.len() == old(self).right@.len(),
    {
        proof {
            lemma_half_index(self.active(), self.bits as nat, self.vec_index as nat, self.bit_index as nat);
            lemma_half_update(self.active(), self.bits as nat, self.vec_index as nat, self.bit_index as nat, b);
            lemma_with_bit_fits(
                self.active()[self.vec_index as int],
                self.bit_index as nat,
                b,
                self.bits as nat,
            );
        }
        match self.half {
            TapeMotion::Left => {
                let mut vec_value: u64 = self.left[self.vec_index];
                set_bit(&mut vec_value, self.bit_index, b);
                self.left.set(self.vec_index, vec_value);
            },
            TapeMotion::Right => {
                let mut vec_value: u64 = self.right[self.vec_index];
                set_bit(&mut vec_value, self.bit_index, b);
                self.right.set(self.vec_index, vec_value);
            },
        }
    }

    /// Moves the head by one cell. Where it leaves the last block of its half
    /// behind, the half grows by one zero block.
    pub fn move_tape(&mut self, motion: TapeMotion)
        requires
            old(self).wf(),
        ensures
            final(self).wf(),
            final(self)@ == old(self)@.shift(motion),
    {
        let bits: usize = self.bits;
        let held: usize = match self.half {
            TapeMotion::Left => self.left.len(),
            TapeMotion::Right => self.right.len(),
        };
        proof {
            lemma_half_index(self.active(), bits as nat, self.vec_index as nat, self.bit_index as nat);
            lemma_half_index(self.left@, bits as nat, 0, 0);
            lemma_half_index(self.right@, bits as nat, 0, 0);
            lemma_half_push(self.active(), bits as nat);
        }
        if self.half == motion {
            if self.bit_index == bits - 1 {
                self.bit_index = 0;
                self.vec_index += 1;
                if self.vec_index == held {
                    match self.half {
                        TapeMotion::Left => self.left.push(zero_block()),
                        TapeMotion::Right => self.right.push(zero_block()),
                    }
                }
                proof {
                    vstd::arithmetic::power2::lemma_pow2_pos(bits as nat);
                    lemma_half_index(self.active(), bits as nat, self.vec_index as nat, 0);
                }
            } else {
                self.bit_index += 1;
            }
        } else {
            if self.bit_index == 0 {
                if self.vec_index == 0 {
                    self.half = match self.half {
                        TapeMotion::Left => TapeMotion::Right,
                        TapeMotion::Right => TapeMotion::Left,
                    };
                } else {
                    self.bit_index = bits - 1;
                    self.vec_index -= 1;
                }
            } else {
                self.bit_index -= 1;
            }
        }
    }

    /// The position of the head: block times width plus offset in the right
    /// half, and the complement of that, which is below zero, in the left.
    pub fn get_index(&self) -> (p: i128)
        requires
            self.wf(),
        ensures
            p == self@.head,
    {
        assert(0 <= self.vec_index * self.bits <= 0xffff_ffff_ffff_ffff * 64) by (nonlinear_arith)
            requires
                0 <= self.vec_index <= 0xffff_ffff_ffff_ffff,
                0 <= self.bits <= 64,
        ;
        let inner: i128 = (self.vec_index as i128) * (self.bits as i128) + (self.bit_index as i128);
        match self.half {
            TapeMotion::Right => inner,
            TapeMotion::Left => -inner - 1,
        }
    }

    /// The number of cells that the tape holds to the left of the head: the
    /// column of the head in the tape's rendering.
    pub fn get_display_index(&self) -> (p: u128)
        requires
            self.wf(),
        ensures
            p == self@.left.len() + self@.head,
    {
        proof {
            lemma_half_index(self.active(), self.bits as nat, self.vec_index as nat, self.bit_index as nat);
        }
        let held: usize = self.left.len();
        assert(0 <= held * self.bits <= 0xffff_ffff_ffff_ffff * 64) by (nonlinear_arith)
            requires
                0 <= held <= 0xffff_ffff_ffff_ffff,
                0 <= self.bits <= 64,
        ;
        let cells: i128 = (held as i128) * (self.bits as i128);
        (cells + self.get_index()) as u128
    }

    /// Renders every block of the tape, the left half first, its last block
    /// first and each block's highest bit first; then the right half, each
    /// block's lowest bit first: the cells from left to right.
    pub fn render(&self) -> (s: String)
        requires
            self.wf(),
        ensures
            s@ == rendering(self@),
    {
        let n: usize = self.left.len();
        let m: usize = self.right.len();
        let w: usize = self.bits;
        let ghost v = self@;
        proof {
            self.lemma_view_wf();
        }
        let mut out = String::new();
        let mut k: usize = n;
        while k > 0
            invariant
                self.wf(),
                n == self.left@.len(),
                w == self.bits,
                v == self@,
                v.left.len() == n * w,
                k <= n,
                out@.len() == (n - k) * w,
                forall|i: int| 0 <= i < out@.len() ==> #[trigger] out@[i] == bit_char(v.cell(i - n * w)),
            decreases k,
        {
            k -= 1;
            let piece = as_bits(self.left[k], w);
            let ghost before = out@;
            out.append(piece.as_str());
            proof {
                assert((n - k) * w == (n - (k + 1)) * w + w) by (nonlinear_arith);
                assert forall|i: int| 0 <= i < out@.len() implies #[trigger] out@[i] == bit_char(
                    v.cell(i - n * w),
                ) by {
                    if i >= before.len() {
                        let j = i - before.len();
                        lemma_half_index(self.left@, w as nat, k as nat, (w - 1 - j) as nat);
                        assert(-(i - n * w) - 1 == k * w + (w - 1 - j)) by (nonlinear_arith)
                            requires
                                i == (n - (k + 1)) * w + j,
                        ;
                    }
                }
            }
        }
        let mut k: usize = 0;
        while k < m
            invariant
                self.wf(),
                n == self.left@.len(),
                m == self.right@.len(),
                w == self.bits,
                v == self@,
                v.left.len() == n * w,
                v.right.len() == m * w,
                k <= m,
                out@.len() == n * w + k * w,
                forall|i: int| 0 <= i < out@.len() ==> #[trigger] out@[i] == bit_char(v.cell(i - n * w)),
            decreases m - k,
        {
            let piece = as_bits_rev(self.right[k], w);
            let ghost before = out@;
            out.append(piece.as_str());
            proof {
                assert((k + 1) * w == k * w + w) by (nonlinear_arith);
                assert forall|i: int| 0 <= i < out@.len() implies #[trigger] out@[i] == bit_char(
                    v.cell(i - n * w),
                ) by {
                    if i >= before.len() {
                        let j = i - before.len();
                        lemma_half_index(self.right@, w as nat, k as nat, j as nat);
                    }
                }
            }
            k += 1;
        }
        assert(out@ =~= rendering(v));
        out
    }
}

} // verus!
