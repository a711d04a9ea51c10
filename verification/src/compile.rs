//! The block compiler: for every state, every content of one block and each
//! side of entry, the effect of running the machine until the head leaves the
//! block or the machine halts.

use vstd::prelude::*;
use vstd::arithmetic::power2::pow2;
use crate::block::{Bit, bit_of, with_bit, fits, valid_width, get_bit, set_bit, lemma_with_bit_fits,
    is_valid_width, block_from_index, block_to_index};
use crate::machine::{TapeMotion, State, TuringStep, TuringState, TuringMachine, table_ok};

verus! {

/// The largest table that can be compiled: the packed state field keeps its
/// two highest values for `Halt` and `Unfinished`.
pub const MAX_STATES: usize = 126;

/// The packed form of `Outcome::Halt`.
pub const HALT_KEY: u8 = 254;

/// The packed form of `Outcome::Unfinished`.
pub const UNFINISHED_KEY: u8 = 252;

/// How a run inside one block ends.
#[derive(Clone, Copy, Debug, PartialEq, Eq, Structural)]
pub enum Outcome {
    /// The machine halted. Halting wins over leaving the block.
    Halt,
    /// The head left the block over its `side` edge, the machine in `state`.
    Continue { state: usize, side: TapeMotion },
    /// The step budget ran out with the head still inside the block.
    Unfinished,
}

/// The content of a block after a run inside it, and how the run ended.
pub struct BlockResult {
    pub content: u64,
    pub outcome: Outcome,
}

/// The offset at which the head enters a block of width `w`: a head that
/// comes in over the left edge stands on the highest bit, one that comes in
/// over the right edge on the lowest.
pub open spec fn entry_position(entry: TapeMotion, w: nat) -> nat {
    match entry {
        TapeMotion::Left => (w - 1) as nat,
        TapeMotion::Right => 0,
    }
}

/// The run of the machine inside one block of width `w`, from state `s` with
/// the head at offset `pos`, for at most `fuel` steps. Moving left raises the
/// offset, moving right lowers it.
pub open spec fn block_run(
    table: Seq<TuringState>,
    s: nat,
    content: u64,
    pos: nat,
    w: nat,
    fuel: nat,
) -> BlockResult
    decreases fuel,
{
    if fuel == 0 {
        BlockResult { content, outcome: Outcome::Unfinished }
    } else {
        let step = table[s as int].pick(bit_of(content, pos));
        let written = with_bit(content, pos, step.print);
        match step.next_state {
            State::HALT => BlockResult { content: written, outcome: Outcome::Halt },
            State::Index(next) => {
                if step.motion == TapeMotion::Left && pos + 1 == w {
                    BlockResult {
                        content: written,
                        outcome: Outcome::Continue { state: next, side: TapeMotion::Left },
                    }
                } else if step.motion == TapeMotion::Right && pos == 0 {
                    BlockResult {
                        content: written,
                        outcome: Outcome::Continue { state: next, side: TapeMotion::Right },
                    }
                } else {
                    let moved = match step.motion {
                        TapeMotion::Left => pos + 1,
                        TapeMotion::Right => (pos - 1) as nat,
                    };
                    block_run(table, next as nat, written, moved, w, (fuel - 1) as nat)
                }
            },
        }
    }
}

/// The lowest bit of a packed outcome: 1 for the left edge, 0 for the right.
pub open spec fn side_bit(side: TapeMotion) -> nat {
    match side {
        TapeMotion::Left => 1,
        TapeMotion::Right => 0,
    }
}

/// An outcome in one byte: the lowest bit is the side, the other seven are
/// the state, with 127 for `Halt` and 126 for `Unfinished`.
pub open spec fn pack(o: Outcome) -> u8 {
    match o {
        Outcome::Halt => HALT_KEY,
        Outcome::Unfinished => UNFINISHED_KEY,
        Outcome::Continue { state, side } => (2 * state + side_bit(side)) as u8,
    }
}

/// The outcome that a byte stands for.
pub open spec fn unpack(key: u8) -> Outcome {
    if key / 2 == 127 {
        Outcome::Halt
    } else if key / 2 == 126 {
        Outcome::Unfinished
    } else {
        Outcome::Continue {
            state: (key / 2) as usize,
            side: if key % 2 == 1 {
                TapeMotion::Left
            } else {
                TapeMotion::Right
            },
        }
    }
}

/// One entry of the compiled table.
#[derive(Clone, Copy, Debug, PartialEq, Eq, Structural)]
pub struct CompiledStep {
    /// The content of the block after the run.
    pub tape: u64,
    /// The packed outcome of the run.
    pub direction_state: u8,
}

/// The table entry that records `r`.
pub open spec fn packed(r: BlockResult) -> CompiledStep {
    CompiledStep { tape: r.content, direction_state: pack(r.outcome) }
}

impl CompiledStep {
    /// The outcome that the entry records.
    pub open spec fn spec_outcome(self) -> Outcome {
        unpack(self.direction_state)
    }

    /// The outcome that the entry records.
    pub fn outcome(&self) -> (o: Outcome)
        ensures
            o == self.spec_outcome(),
    {
        let field: u8 = self.direction_state / 2;
        if field == 127 {
            Outcome::Halt
        } else if field == 126 {
            Outcome::Unfinished
        } else {
            Outcome::Continue { state: field as usize, side: self.get_direction() }
        }
    }

    /// The edge named by the lowest bit: `Left` for 1, `Right` for 0. It says
    /// where the head left the block only when the outcome is `Continue`.
    pub fn get_direction(&self) -> (side: TapeMotion)
        ensures
            side == (if self.direction_state % 2 == 1 {
                TapeMotion::Left
            } else {
                TapeMotion::Right
            }),
    {
        let low: u8 = self.direction_state & 1;
        proof {
            let k: u8 = self.direction_state;
            assert(k & 1 == k % 2) by (bit_vector);
        }
        if low == 0 {
            TapeMotion::Right
        } else {
            TapeMotion::Left
        }
    }

    /// The state field as a signed number: -1 for `Halt`, else the field
    /// itself, which is the state's row for `Continue` and 126 for
    /// `Unfinished`.
    pub fn get_state(&self) -> (s: i8)
        ensures
            s == (if self.direction_state / 2 == 127 {
                -1int
            } else {
                (self.direction_state / 2) as int
            }),
    {
        let result: u8 = self.direction_state >> 1;
        proof {
            let k: u8 = self.direction_state;
            assert(k >> 1 == k / 2) by (bit_vector);
        }
        if result == 127 {
            -1
        } else {
            result as i8
        }
    }
}

/// Packing loses nothing of an outcome whose state is a row of a table that
/// can be compiled.
pub proof fn lemma_unpack_pack(o: Outcome)
    requires
        o matches Outcome::Continue { state, .. } ==> state < MAX_STATES,
    ensures
        unpack(pack(o)) == o,
{
}

/// A run inside a block keeps the content within the block's width and ends
/// in a state of the table.
pub proof fn lemma_block_run_in_range(
    table: Seq<TuringState>,
    s: nat,
    content: u64,
    pos: nat,
    w: nat,
    fuel: nat,
)
    requires
        table_ok(table),
        s < table.len(),
        pos < w <= 64,
        fits(content, w),
    ensures
        fits(block_run(table, s, content, pos, w, fuel).content, w),
        block_run(table, s, content, pos, w, fuel).outcome matches Outcome::Continue { state, .. }
            ==> state < table.len(),
    decreases fuel,
{
    if fuel > 0 {
        let step = table[s as int].pick(bit_of(content, pos));
        let written = with_bit(content, pos, step.print);
        lemma_with_bit_fits(content, pos, step.print, w);
        assert(table[s as int].in_range(table.len()));
        match step.next_state {
            State::HALT => {},
            State::Index(next) => {
                if step.motion == TapeMotion::Left && pos + 1 == w {
                } else if step.motion == TapeMotion::Right && pos == 0 {
                } else {
                    let moved = match step.motion {
                        TapeMotion::Left => pos + 1,
                        TapeMotion::Right => (pos - 1) as nat,
                    };
                    lemma_block_run_in_range(table, next as nat, written, moved, w, (fuel - 1) as nat);
                }
            },
        }
    }
}

impl TuringMachine {
    /// Runs the machine inside one block of width `bits` holding `content`,
    /// from `state`, the head coming in over the `entry` edge, for at most
    /// `max_steps` steps.
    pub fn run_block(
        &self,
        state: usize,
        content: u64,
        entry: TapeMotion,
        bits: usize,
        max_steps: u64,
    ) -> (r: CompiledStep)
        requires
            table_ok(self.states@),
            self.states@.len() <= MAX_STATES,
            state < self.states@.len(),
            1 <= bits <= 64,
            fits(content, bits as nat),
        ensures
            r == packed(
                block_run(
                    self.states@,
                    state as nat,
                    content,
                    entry_position(entry, bits as nat),
                    bits as nat,
                    max_steps as nat,
                ),
            ),
            fits(r.tape, bits as nat),
    {
        let mut tape: u64 = content;
        let mut position: usize = match entry {
            TapeMotion::Left => bits - 1,
            TapeMotion::Right => 0,
        };
        let mut current: usize = state;
        let mut remaining: u64 = max_steps;
        while remaining > 0
            invariant
                table_ok(self.states@),
                self.states@.len() <= MAX_STATES,
                current < self.states@.len(),
                position < bits <= 64,
                fits(tape, bits as nat),
                block_run(
                    self.states@,
                    state as nat,
                    content,
                    entry_position(entry, bits as nat),
                    bits as nat,
                    max_steps as nat,
                ) == block_run(
                    self.states@,
                    current as nat,
                    tape,
                    position as nat,
                    bits as nat,
                    remaining as nat,
                ),
            decreases remaining,
        {
            let step = self.states[current].select(get_bit(tape, position));
            proof {
                lemma_with_bit_fits(tape, position as nat, step.print, bits as nat);
                assert(self.states@[current as int].in_range(self.states@.len()));
            }
            set_bit(&mut tape, position, step.print);
            match step.next_state {
                State::HALT => {
                    return CompiledStep { tape, direction_state: HALT_KEY };
                },
                State::Index(next) => {
                    match step.motion {
                        TapeMotion::Left => {
                            if position == bits - 1 {
                                return CompiledStep {
                                    tape,
                                    direction_state: (next as u8) * 2 + 1,
                                };
                            }
                            position += 1;
                        },
                        TapeMotion::Right => {
                            if position == 0 {
                                return CompiledStep { tape, direction_state: (next as u8) * 2 };
                            }
                            position -= 1;
                        },
                    }
                    current = next;
                },
            }
            remaining -= 1;
        }
        CompiledStep { tape, direction_state: UNFINISHED_KEY }
    }
}

/// Why a machine cannot be compiled.
#[derive(Clone, Copy, Debug, PartialEq, Eq, Structural)]
pub enum CompileError {
    /// The table has more than `MAX_STATES` rows.
    TooManyStates,
    /// The width is not a power of two between 1 and 64.
    InvalidWidth,
    /// The table would have more entries than a `usize` can count.
    TableTooLarge,
}

/// The side of entry that a slot of the table stands for.
pub open spec fn entry_of(bit: int) -> TapeMotion {
    if bit == 0 {
        TapeMotion::Left
    } else {
        TapeMotion::Right
    }
}

/// The number that a side of entry has in a slot of the table.
pub open spec fn entry_bit(entry: TapeMotion) -> nat {
    match entry {
        TapeMotion::Left => 0,
        TapeMotion::Right => 1,
    }
}

/// The slot of the entry for state `s`, side of entry `entry` and content
/// `content`: the content in the `w` lowest bits, the side in the next bit,
/// the state above.
pub open spec fn slot(s: nat, entry: TapeMotion, content: u64, w: nat) -> nat {
    (2 * s + entry_bit(entry)) * pow2(w) + content as nat
}

/// What slot `i` of the table holds for blocks of width `w` and a budget of
/// `fuel` steps.
pub open spec fn entry_at(table: Seq<TuringState>, w: nat, fuel: nat, i: int) -> CompiledStep {
    let size = pow2(w) as int;
    packed(
        block_run(
            table,
            (i / (2 * size)) as nat,
            (i % size) as u64,
            entry_position(entry_of((i / size) % 2), w),
            w,
            fuel,
        ),
    )
}

/// A machine together with its compiled table.
pub struct CompiledTuringMachine {
    pub tm: TuringMachine,
    pub lut: Vec<CompiledStep>,
    /// The width of a block.
    pub bits: usize,
    /// The step budget of each run.
    pub max_steps: u64,
}

impl CompiledTuringMachine {
    /// The table has one entry for each state, side of entry and content, and
    /// each entry records the run that its slot stands for.
    pub open spec fn wf(&self) -> bool {
        &&& self.tm.wf()
        &&& self.tm.states@.len() <= MAX_STATES
        &&& valid_width(self.bits as nat)
        &&& self.lut@.len() == 2 * self.tm.states@.len() * pow2(self.bits as nat)
        &&& forall|i: int|
            0 <= i < self.lut@.len() ==> #[trigger] self.lut@[i] == entry_at(
                self.tm.states@,
                self.bits as nat,
                self.max_steps as nat,
                i,
            )
    }

    /// The run that the table records for `state`, `content` and `entry`.
    pub open spec fn spec_run(&self, state: nat, content: u64, entry: TapeMotion) -> BlockResult {
        block_run(
            self.tm.states@,
            state,
            content,
            entry_position(entry, self.bits as nat),
            self.bits as nat,
            self.max_steps as nat,
        )
    }

    /// The entry that the table holds for `state`, `content` and `entry`.
    pub open spec fn spec_lookup(&self, state: nat, content: u64, entry: TapeMotion) -> CompiledStep {
        packed(self.spec_run(state, content, entry))
    }

    /// The entry for `state`, a block holding `content` and the head coming
    /// in over the `entry` edge; `None` where the table has no such state or
    /// a block cannot hold `content`.
    pub fn lookup(&self, state: usize, content: u64, entry: TapeMotion) -> (r: Option<CompiledStep>)
        requires
            self.wf(),
        ensures
            r == (if state < self.tm.states@.len() && fits(content, self.bits as nat) {
                Some(self.spec_lookup(state as nat, content, entry))
            } else {
                None::<CompiledStep>
            }),
            r matches Some(e) ==> {
                &&& e == self.lut@[slot(state as nat, entry, content, self.bits as nat) as int]
                &&& e.tape == self.spec_run(state as nat, content, entry).content
                &&& e.spec_outcome() == self.spec_run(state as nat, content, entry).outcome
                &&& fits(e.tape, self.bits as nat)
            },
    {
        let n: usize = self.tm.states.len();
        let total: usize = self.lut.len();
        proof {
            lemma_table_width(n as nat, self.bits as nat);
        }
        let size: u64 = 1u64 << (self.bits as u64);
        if state >= n || content >= size {
            return None;
        }
        match block_to_index(content) {
            None => None,
            Some(c) => {
                let side: usize = match entry {
                    TapeMotion::Left => 0,
                    TapeMotion::Right => 1,
                };
                proof {
                    lemma_slot(n as nat, self.bits as nat, state as nat, entry, content);
                    lemma_block_run_in_range(
                        self.tm.states@,
                        state as nat,
                        content,
                        entry_position(entry, self.bits as nat),
                        self.bits as nat,
                        self.max_steps as nat,
                    );
                    lemma_unpack_pack(self.spec_run(state as nat, content, entry).outcome);
                }
                let i: usize = (2 * state + side) * (size as usize) + c;
                Some(self.lut[i])
            },
        }
    }

    /// The entry that `key` leads to, `key` read as the outcome of the run
    /// before: its state, with the block's content in `key.tape`. A head that
    /// left a block over its left edge comes into the next over the right
    /// edge, and the other way round. `None` where `key` does not record a
    /// state of the table.
    pub fn index(&self, key: CompiledStep) -> (r: Option<CompiledStep>)
        requires
            self.wf(),
        ensures
            r == (if key.direction_state / 2 < self.tm.states@.len() && fits(
                key.tape,
                self.bits as nat,
            ) {
                Some(
                    self.spec_lookup(
                        (key.direction_state / 2) as nat,
                        key.tape,
                        entry_of((key.direction_state % 2) as int),
                    ),
                )
            } else {
                None::<CompiledStep>
            }),
    {
        let entry = match key.get_direction() {
            TapeMotion::Left => TapeMotion::Right,
            TapeMotion::Right => TapeMotion::Left,
        };
        self.lookup((key.direction_state / 2) as usize, key.tape, entry)
    }
}

/// A table of `n > 0` rows over blocks of width `w` that a `usize` can count
/// has `w < 64`, and `1 << w` is the number of contents of a block.
pub proof fn lemma_table_width(n: nat, w: nat)
    requires
        n > 0,
        valid_width(w),
        2 * n * pow2(w) <= usize::MAX,
    ensures
        w < 64,
        (1u64 << (w as u64)) == pow2(w),
        pow2(w) <= usize::MAX,
{
    vstd::arithmetic::power2::lemma2_to64_rest();
    assert(2 * n * pow2(w) >= pow2(w)) by (nonlinear_arith)
        requires
            n > 0,
    ;
    vstd::bits::lemma_u64_pow2_no_overflow(w);
    vstd::bits::lemma_u64_shl_is_mul(1, w as u64);
}

/// The slot of a state, a side and a content lies in the table and stands
/// for exactly these three.
pub proof fn lemma_slot(n: nat, w: nat, s: nat, entry: TapeMotion, content: u64)
    requires
        s < n,
        fits(content, w),
    ensures
        slot(s, entry, content, w) < 2 * n * pow2(w),
        (2 * s + entry_bit(entry)) * pow2(w) <= slot(s, entry, content, w),
        slot(s, entry, content, w) as int / (2 * pow2(w) as int) == s,
        slot(s, entry, content, w) as int % (pow2(w) as int) == content,
        entry_of((slot(s, entry, content, w) as int / (pow2(w) as int)) % 2) == entry,
{
    let size = pow2(w) as int;
    let e = entry_bit(entry) as int;
    let i = slot(s, entry, content, w) as int;
    vstd::arithmetic::power2::lemma_pow2_pos(w);
    vstd::arithmetic::div_mod::lemma_fundamental_div_mod_converse(i, size, 2 * s + e, content as int);
    assert(i == s * (2 * size) + (e * size + content)) by (nonlinear_arith)
        requires
            i == (2 * s + e) * size + content,
    ;
    assert(0 <= e * size + content < 2 * size) by (nonlinear_arith)
        requires
            0 <= e <= 1,
            0 <= content < size,
    ;
    vstd::arithmetic::div_mod::lemma_fundamental_div_mod_converse(
        i,
        2 * size,
        s as int,
        e * size + content,
    );
    assert((2 * s + e) * size + content < 2 * n * size) by (nonlinear_arith)
        requires
            0 <= s < n,
            0 <= e <= 1,
            0 <= content < size,
    ;
    assert((2 * s + e) * size >= 0) by (nonlinear_arith)
        requires
            s >= 0,
            e >= 0,
            size > 0,
    ;
}

impl TuringMachine {
    /// Compiles the machine for blocks of width `bits`, each run bounded by
    /// `max_steps` steps.
    pub fn compile(self, bits: usize, max_steps: u64) -> (r: Result<CompiledTuringMachine, CompileError>)
        requires
            self.wf(),
        ensures
            match r {
                Ok(cm) => {
                    &&& self.states@.len() <= MAX_STATES
                    &&& valid_width(bits as nat)
                    &&& 2 * self.states@.len() * pow2(bits as nat) <= usize::MAX
                    &&& cm.wf()
                    &&& cm.tm == self
                    &&& cm.bits == bits
                    &&& cm.max_steps == max_steps
                },
                Err(CompileError::TooManyStates) => self.states@.len() > MAX_STATES,
                Err(CompileError::InvalidWidth) => {
                    &&& self.states@.len() <= MAX_STATES
                    &&& !valid_width(bits as nat)
                },
                Err(CompileError::TableTooLarge) => {
                    &&& self.states@.len() <= MAX_STATES
                    &&& valid_width(bits as nat)
                    &&& 2 * self.states@.len() * pow2(bits as nat) > usize::MAX
                },
            },
    {
        let n: usize = self.states.len();
        if n > MAX_STATES {
            return Err(CompileError::TooManyStates);
        }
        if !is_valid_width(bits) {
            return Err(CompileError::InvalidWidth);
        }
        proof {
            vstd::arithmetic::power2::lemma2_to64_rest();
        }
        if bits >= 64 {
            assert(2 * n * pow2(bits as nat) > usize::MAX) by (nonlinear_arith)
                requires
                    n > 0,
                    pow2(bits as nat) > usize::MAX,
            ;
            return Err(CompileError::TableTooLarge);
        }
        proof {
            vstd::bits::lemma_u64_pow2_no_overflow(bits as nat);
            vstd::bits::lemma_u64_shl_is_mul(1, bits as u64);
        }
        let size64: u64 = 1u64 << (bits as u64);
        let limit: u64 = (usize::MAX as u64) / (2 * (n as u64));
        if size64 > limit {
            assert(2 * n * size64 > usize::MAX) by (nonlinear_arith)
                requires
                    n > 0,
                    size64 > (usize::MAX as int) / (2 * n),
            ;
            return Err(CompileError::TableTooLarge);
        }
        assert(2 * n * size64 <= usize::MAX) by (nonlinear_arith)
            requires
                n > 0,
                size64 <= (usize::MAX as int) / (2 * n),
        ;
        let size: usize = size64 as usize;
        let num_steps: usize = 2 * n * size;
        let mut steps: Vec<CompiledStep> = Vec::new();
        let mut i: usize = 0;
        while i < num_steps
            invariant
                self.wf(),
                n == self.states@.len(),
                0 < n <= MAX_STATES,
                1 <= bits < 64,
                size == pow2(bits as nat),
                num_steps == 2 * n * size,
                i <= num_steps,
                steps@.len() == i,
                forall|k: int|
                    0 <= k < i ==> #[trigger] steps@[k] == entry_at(
                        self.states@,
                        bits as nat,
                        max_steps as nat,
                        k,
                    ),
            decreases num_steps - i,
        {
            proof {
                vstd::arithmetic::power2::lemma_pow2_pos(bits as nat);
                assert((i as int) / (2 * size) < n) by (nonlinear_arith)
                    requires
                        0 <= i < 2 * n * size,
                        size > 0,
                ;
                assert(0 <= (i as int) % (size as int) < size) by (nonlinear_arith)
                    requires
                        size > 0,
                        i >= 0,
                ;
                assert(2 * size <= 2 * n * size) by (nonlinear_arith)
                    requires
                        n > 0,
                        size > 0,
                ;
            }
            let state: usize = i / (2 * size);
            let entry = if (i / size) % 2 == 0 {
                TapeMotion::Left
            } else {
                TapeMotion::Right
            };
            let content: u64 = match block_from_index(i % size) {
                Some(c) => c,
                None => 0,
            };
            let step = self.run_block(state, content, entry, bits, max_steps);
            steps.push(step);
            i += 1;
        }
        Ok(CompiledTuringMachine { tm: self, lut: steps, bits, max_steps })
    }
}

/// What one step of the machine does to a single cell: the symbol printed
/// as a block of width 1, and where the machine goes.
pub open spec fn raw_result(step: TuringStep) -> BlockResult {
    BlockResult {
        content: match step.print {
            Bit::Zero => 0,
            Bit::One => 1,
        },
        outcome: match step.next_state {
            State::HALT => Outcome::Halt,
            State::Index(next) => Outcome::Continue { state: next, side: step.motion },
        },
    }
}

/// The table holds in the slot of a state, a side and a content the run
/// that the three stand for.
pub proof fn lemma_table_slot(cm: CompiledTuringMachine, s: nat, entry: TapeMotion, content: u64)
    requires
        cm.wf(),
        s < cm.tm.states@.len(),
        fits(content, cm.bits as nat),
    ensures
        slot(s, entry, content, cm.bits as nat) < cm.lut@.len(),
        cm.lut@[slot(s, entry, content, cm.bits as nat) as int] == cm.spec_lookup(s, content, entry),
{
    lemma_slot(cm.tm.states@.len(), cm.bits as nat, s, entry, content);
}

/// With blocks of a single cell the compiled table is the transition table:
/// whichever side the head comes in from, the entry for a state and a symbol
/// records the one step that the machine takes there.
pub proof fn lemma_single_cell_table(cm: CompiledTuringMachine, s: nat, entry: TapeMotion, content: u64)
    requires
        cm.wf(),
        cm.bits == 1,
        cm.max_steps >= 1,
        s < cm.tm.states@.len(),
        content < 2,
    ensures
        cm.spec_lookup(s, content, entry) == packed(
            raw_result(
                cm.tm.states@[s as int].pick(
                    if content == 0 {
                        Bit::Zero
                    } else {
                        Bit::One
                    },
                ),
            ),
        ),
        cm.lut@[slot(s, entry, content, 1) as int] == cm.spec_lookup(s, content, entry),
{
    vstd::arithmetic::power2::lemma2_to64();
    lemma_table_slot(cm, s, entry, content);
    assert(0u64 & (1u64 << 0u64) == 0) by (bit_vector);
    assert(1u64 & (1u64 << 0u64) != 0) by (bit_vector);
    assert(0u64 | (1u64 << 0u64) == 1) by (bit_vector);
    assert(1u64 | (1u64 << 0u64) == 1) by (bit_vector);
    assert(0u64 & !(1u64 << 0u64) == 0) by (bit_vector);
    assert(1u64 & !(1u64 << 0u64) == 0) by (bit_vector);
    assert(entry_position(entry, 1) == 0);
}

} // verus!
