//! Reading a tape back from its rendering.

use vstd::prelude::*;
use vstd::string::*;
use crate::block::{Bit, bit_of, with_bit, bit_char, fits, valid_width, is_valid_width, set_bit,
    zero_block, lemma_with_bit, lemma_with_bit_fits, lemma_same_bits};
use crate::machine::TapeMotion;
use crate::tape::{Tape, rendering, all_fit, offset, lemma_half_index, lemma_half_split};

verus! {

/// `c` stands for a bit.
pub open spec fn is_bit_char(c: char) -> bool {
    c == '0' || c == '1'
}

/// `text` is the rendering of a tape of blocks of width `bits` with
/// `left_blocks` blocks in its left half, and the cursor lies on that tape.
pub open spec fn parses(
    text: Seq<char>,
    bits: nat,
    left_blocks: nat,
    vec_index: nat,
    bit_index: nat,
    half: TapeMotion,
) -> bool {
    &&& valid_width(bits)
    &&& left_blocks >= 1
    &&& text.len() % bits == 0
    &&& text.len() / bits > left_blocks
    &&& forall|i: int| 0 <= i < text.len() ==> is_bit_char(#[trigger] text[i])
    &&& bit_index < bits
    &&& vec_index < (match half {
        TapeMotion::Left => left_blocks as int,
        TapeMotion::Right => text.len() / bits - left_blocks,
    })
}

/// Where in the text the bit at offset `j` of a block stands, the block's
/// lowest bit standing at `start`.
pub open spec fn cell_index(start: int, j: int, descending: bool) -> int {
    if descending {
        start - j
    } else {
        start + j
    }
}

/// Reads one block of width `bits` from `text`: its lowest bit stands at
/// `start`, the others follow to the left where `descending`, else to the
/// right.
pub fn read_block(text: &str, start: usize, bits: usize, descending: bool) -> (x: u64)
    requires
        1 <= bits <= 64,
        text@.len() <= usize::MAX,
        forall|i: int| 0 <= i < text@.len() ==> is_bit_char(#[trigger] text@[i]),
        descending ==> bits - 1 <= start < text@.len(),
        !descending ==> start + bits <= text@.len(),
    ensures
        fits(x, bits as nat),
        forall|j: int|
            0 <= j < bits ==> bit_char(#[trigger] bit_of(x, j as nat)) == text@[cell_index(
                start as int,
                j,
                descending,
            )],
{
    let mut x: u64 = zero_block();
    let mut j: usize = 0;
    proof {
        vstd::arithmetic::power2::lemma_pow2_pos(bits as nat);
    }
    while j < bits
        invariant
            j <= bits,
            1 <= bits <= 64,
            fits(x, bits as nat),
            text@.len() <= usize::MAX,
            forall|i: int| 0 <= i < text@.len() ==> is_bit_char(#[trigger] text@[i]),
            descending ==> bits - 1 <= start < text@.len(),
            !descending ==> start + bits <= text@.len(),
            forall|q: int|
                0 <= q < j ==> bit_char(#[trigger] bit_of(x, q as nat)) == text@[cell_index(
                    start as int,
                    q,
                    descending,
                )],
        decreases bits - j,
    {
        let i: usize = if descending {
            start - j
        } else {
            start + j
        };
        let c = text.get_char(i);
        let b = if c == '1' {
            Bit::One
        } else {
            Bit::Zero
        };
        proof {
            assert(is_bit_char(text@[i as int]));
            lemma_with_bit_fits(x, j as nat, b, bits as nat);
            assert forall|q: int| 0 <= q <= j implies bit_char(
                #[trigger] bit_of(with_bit(x, j as nat, b), q as nat),
            ) == text@[cell_index(start as int, q, descending)] by {
                lemma_with_bit(x, j as nat, b, q as nat);
            }
        }
        set_bit(&mut x, j, b);
        j += 1;
    }
    x
}

impl Tape {
    /// Reads a tape from its rendering `text`, given the width of a block,
    /// the number of blocks in the left half and the cursor. `None` where
    /// `text` is no rendering of such a tape or the cursor lies outside it.
    pub fn parse(
        text: &str,
        bits: usize,
        left_blocks: usize,
        vec_index: usize,
        bit_index: usize,
        half: TapeMotion,
    ) -> (r: Option<Tape>)
        ensures
            r is Some <==> parses(
                text@,
                bits as nat,
                left_blocks as nat,
                vec_index as nat,
                bit_index as nat,
                half,
            ),
            r matches Some(t) ==> {
                &&& t.wf()
                &&& rendering(t@) == text@
                &&& t.bits == bits
                &&& t.left@.len() == left_blocks
                &&& t.vec_index == vec_index
                &&& t.bit_index == bit_index
                &&& t.half == half
            },
    {
        if !is_valid_width(bits) || left_blocks == 0 || bit_index >= bits {
            return None;
        }
        let total: usize = text.unicode_len();
        if total % bits != 0 {
            return None;
        }
        let blocks: usize = total / bits;
        if blocks <= left_blocks {
            return None;
        }
        let right_blocks: usize = blocks - left_blocks;
        let held: usize = match half {
            TapeMotion::Left => left_blocks,
            TapeMotion::Right => right_blocks,
        };
        if vec_index >= held {
            return None;
        }
        let mut i: usize = 0;
        while i < total
            invariant
                total == text@.len(),
                i <= total,
                forall|k: int| 0 <= k < i ==> is_bit_char(#[trigger] text@[k]),
            decreases total - i,
        {
            let c = text.get_char(i);
            if c != '0' && c != '1' {
                return None;
            }
            i += 1;
        }
        proof {
            vstd::arithmetic::div_mod::lemma_fundamental_div_mod(total as int, bits as int);
            assert(total == left_blocks * bits + right_blocks * bits) by (nonlinear_arith)
                requires
                    total == bits * blocks,
                    blocks == left_blocks + right_blocks,
            ;
            assert(left_blocks * bits >= bits && right_blocks * bits >= bits) by (nonlinear_arith)
                requires
                    left_blocks >= 1,
                    right_blocks >= 1,
                    bits >= 1,
            ;
        }
        let left_cells: usize = left_blocks * bits;
        let mut left: Vec<u64> = Vec::new();
        let mut k: usize = 0;
        while k < left_blocks
            invariant
                1 <= bits <= 64,
                k <= left_blocks,
                left_cells == left_blocks * bits,
                left_cells <= text@.len() <= usize::MAX,
                forall|i: int| 0 <= i < text@.len() ==> is_bit_char(#[trigger] text@[i]),
                left@.len() == k,
                all_fit(left@, bits as nat),
                forall|a: int, j: int|
                    0 <= a < k && 0 <= j < bits ==> bit_char(
                        #[trigger] bit_of(left@[a], j as nat),
                    ) == text@[left_cells - 1 - (a * bits + j)],
            decreases left_blocks - k,
        {
            assert(0 <= k * bits && k * bits + bits <= left_blocks * bits) by (nonlinear_arith)
                requires
                    0 <= k < left_blocks,
                    bits >= 1,
            ;
            let start: usize = left_cells - 1 - k * bits;
            let x = read_block(text, start, bits, true);
            left.push(x);
            k += 1;
        }
        let mut right: Vec<u64> = Vec::new();
        let mut k: usize = 0;
        while k < right_blocks
            invariant
                1 <= bits <= 64,
                k <= right_blocks,
                left_cells + right_blocks * bits == text@.len(),
                text@.len() <= usize::MAX,
                forall|i: int| 0 <= i < text@.len() ==> is_bit_char(#[trigger] text@[i]),
                right@.len() == k,
                all_fit(right@, bits as nat),
                forall|a: int, j: int|
                    0 <= a < k && 0 <= j < bits ==> bit_char(
                        #[trigger] bit_of(right@[a], j as nat),
                    ) == text@[left_cells + (a * bits + j)],
            decreases right_blocks - k,
        {
            assert(0 <= k * bits && k * bits + bits <= right_blocks * bits) by (nonlinear_arith)
                requires
                    0 <= k < right_blocks,
                    bits >= 1,
            ;
            let start: usize = left_cells + k * bits;
            let x = read_block(text, start, bits, false);
            right.push(x);
            k += 1;
        }
        let t = Tape { right, left, vec_index, bit_index, half, bits };
        proof {
            t.lemma_view_wf();
            let w = bits as nat;
            assert forall|i: int| 0 <= i < text@.len() implies rendering(t@)[i] == text@[i] by {
                if i < left_cells {
                    let idx = left_cells - 1 - i;
                    lemma_half_split(t.left@, w, idx);
                    let q = idx / (w as int);
                    let r = idx % (w as int);
                    assert(bit_char(bit_of(t.left@[q], r as nat)) == text@[left_cells - 1 - (q * bits
                        + r)]);
                } else {
                    let idx = i - left_cells;
                    lemma_half_split(t.right@, w, idx);
                    let q = idx / (w as int);
                    let r = idx % (w as int);
                    assert(bit_char(bit_of(t.right@[q], r as nat)) == text@[left_cells + (q * bits
                        + r)]);
                }
            }
            assert(rendering(t@) =~= text@);
        }
        Some(t)
    }
}

/// The rendering of a tape can be read back: with the tape's width, the
/// number of its left blocks and its cursor, `parse` accepts it.
pub proof fn lemma_rendering_parses(t: Tape)
    requires
        t.wf(),
    ensures
        parses(
            rendering(t@),
            t.bits as nat,
            t.left@.len(),
            t.vec_index as nat,
            t.bit_index as nat,
            t.half,
        ),
{
    t.lemma_view_wf();
    let w = t.bits as int;
    let n = t.left@.len() as int;
    let m = t.right@.len() as int;
    assert(n * w + m * w == (n + m) * w + 0) by (nonlinear_arith);
    vstd::arithmetic::div_mod::lemma_fundamental_div_mod_converse(n * w + m * w, w, n + m, 0);
}

/// Round trip: a tape read back from the rendering of `t`, with the width,
/// the number of left blocks and the cursor of `t`, is `t` again, block for
/// block.
pub proof fn lemma_round_trip(t: Tape, u: Tape)
    requires
        t.wf(),
        u.wf(),
        rendering(u@) == rendering(t@),
        u.bits == t.bits,
        u.left@.len() == t.left@.len(),
        u.vec_index == t.vec_index,
        u.bit_index == t.bit_index,
        u.half == t.half,
    ensures
        u.left@ == t.left@,
        u.right@ == t.right@,
        u@ == t@,
{
    t.lemma_view_wf();
    u.lemma_view_wf();
    let w = t.bits as nat;
    let n = t.left@.len();
    assert(rendering(t@).len() == t@.left.len() + t@.right.len());
    assert(rendering(u@).len() == u@.left.len() + u@.right.len());
    assert(t@.left.len() == u@.left.len()) by (nonlinear_arith)
        requires
            t@.left.len() == n * t.bits,
            u@.left.len() == n * u.bits,
            t.bits == u.bits,
    ;
    assert(t.right@.len() * w == t@.right.len());
    assert(u.right@.len() * w == u@.right.len());
    assert(t.right@.len() == u.right@.len()) by (nonlinear_arith)
        requires
            t.right@.len() * w == u.right@.len() * w,
            w > 0,
    ;
    assert forall|k: int| 0 <= k < n implies t.left@[k] == u.left@[k] by {
        assert forall|j: nat| j < w implies #[trigger] bit_of(t.left@[k], j) == bit_of(
            u.left@[k],
            j,
        ) by {
            lemma_half_index(t.left@, w, k as nat, j);
            lemma_half_index(u.left@, w, k as nat, j);
            let i: int = n * w - 1 - offset(k as nat, j, w);
            assert(rendering(t@)[i] == bit_char(t@.cell(i - n * w)));
            assert(rendering(u@)[i] == bit_char(u@.cell(i - n * w)));
        }
        lemma_same_bits(t.left@[k], u.left@[k], w);
    }
    assert(t.left@ =~= u.left@);
    assert forall|k: int| 0 <= k < t.right@.len() implies t.right@[k] == u.right@[k] by {
        assert forall|j: nat| j < w implies #[trigger] bit_of(t.right@[k], j) == bit_of(
            u.right@[k],
            j,
        ) by {
            lemma_half_index(t.right@, w, k as nat, j);
            lemma_half_index(u.right@, w, k as nat, j);
            let i: int = (n * w + offset(k as nat, j, w)) as int;
            assert(rendering(t@)[i] == bit_char(t@.cell(i - n * w)));
            assert(rendering(u@)[i] == bit_char(u@.cell(i - n * w)));
        }
        lemma_same_bits(t.right@[k], u.right@[k], w);
    }
    assert(t.right@ =~= u.right@);
}

} // verus!
