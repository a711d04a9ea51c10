//! The compiled table against the interpreter: a run inside a block is a run
//! of the machine, cell by cell, on a tape that holds the block.

use vstd::prelude::*;
use crate::block::{bit_of, with_bit, fits, lemma_with_bit};
use crate::machine::{TapeMotion, State, TuringState, table_ok};
use crate::tape::TapeView;
use crate::interpreter::{Config, step_of, run_of, lemma_write_is_local};
use crate::compile::{Outcome, CompiledTuringMachine, block_run, entry_position, slot,
    lemma_table_slot, lemma_block_run_in_range, lemma_unpack_pack};

verus! {

/// The number of steps that `block_run` takes.
pub open spec fn block_steps(
    table: Seq<TuringState>,
    s: nat,
    content: u64,
    pos: nat,
    w: nat,
    fuel: nat,
) -> nat
    decreases fuel,
{
    if fuel == 0 {
        0
    } else {
        let step = table[s as int].pick(bit_of(content, pos));
        let written = with_bit(content, pos, step.print);
        match step.next_state {
            State::HALT => 1,
            State::Index(next) => {
                if step.motion == TapeMotion::Left && pos + 1 == w {
                    1
                } else if step.motion == TapeMotion::Right && pos == 0 {
                    1
                } else {
                    let moved = match step.motion {
                        TapeMotion::Left => pos + 1,
                        TapeMotion::Right => (pos - 1) as nat,
                    };
                    1 + block_steps(table, next as nat, written, moved, w, (fuel - 1) as nat)
                }
            },
        }
    }
}

/// The `w` cells of `t` from position `base` downwards hold the bits of
/// `content`, the lowest bit at `base`.
pub open spec fn holds_block(t: TapeView, base: int, content: u64, w: nat) -> bool {
    forall|j: int| 0 <= j < w ==> #[trigger] t.cell(base - j) == bit_of(content, j as nat)
}

/// A run inside a block is the interpreter's run on a tape that holds the
/// block. Let the tape hold `content` in the `w` cells from `base` downwards
/// and the head stand at offset `pos` of that block. Then after as many
/// steps as the run inside the block takes, and no more than `fuel`, the
/// interpreter has left in those cells the content that the run records,
/// has changed no other cell, and is where the outcome says: halted; or in
/// the recorded state with the head on the cell next to the block's edge on
/// the recorded side; or, the budget used up, still inside the block.
pub proof fn lemma_block_run_is_raw_run(
    table: Seq<TuringState>,
    s: usize,
    content: u64,
    pos: nat,
    w: nat,
    fuel: nat,
    t: TapeView,
    base: int,
)
    requires
        table_ok(table),
        s < table.len(),
        pos < w <= 64,
        t.wf(),
        t.head == base - pos,
        holds_block(t, base, content, w),
    ensures
        ({
            let r = block_run(table, s as nat, content, pos, w, fuel);
            let n = block_steps(table, s as nat, content, pos, w, fuel);
            let end = run_of(table, Config { state: State::Index(s), tape: t }, n);
            &&& n <= fuel
            &&& end.tape.wf()
            &&& holds_block(end.tape, base, r.content, w)
            &&& forall|p: int| (p > base || p <= base - w) ==> #[trigger] end.tape.cell(p) == t.cell(p)
            &&& match r.outcome {
                Outcome::Halt => end.state == State::HALT,
                Outcome::Continue { state, side } => {
                    &&& end.state == State::Index(state)
                    &&& end.tape.head == (match side {
                        TapeMotion::Left => base - w,
                        TapeMotion::Right => base + 1,
                    })
                },
                Outcome::Unfinished => {
                    &&& n == fuel
                    &&& end.state is Index
                    &&& base - w < end.tape.head <= base
                },
            }
        }),
    decreases fuel,
{
    let start = Config { state: State::Index(s), tape: t };
    if fuel > 0 {
        let step = table[s as int].pick(bit_of(content, pos));
        let written = with_bit(content, pos, step.print);
        let t1 = t.write(step.print).shift(step.motion);
        assert(t.cell(base - pos) == bit_of(content, pos));
        assert(table[s as int].in_range(table.len()));
        lemma_write_is_local(t, step.print, step.motion);
        assert(step_of(table, s as nat, t) == Config { state: step.next_state, tape: t1 });
        assert forall|j: int| 0 <= j < w implies #[trigger] t1.cell(base - j) == bit_of(
            written,
            j as nat,
        ) by {
            lemma_with_bit(content, pos, step.print, j as nat);
            assert(t.cell(base - j) == bit_of(content, j as nat));
        }
        let n = block_steps(table, s as nat, content, pos, w, fuel);
        assert(run_of(table, start, n) == run_of(table, step_of(table, s as nat, t), (n - 1) as nat));
        match step.next_state {
            State::HALT => {},
            State::Index(next) => {
                if step.motion == TapeMotion::Left && pos + 1 == w {
                } else if step.motion == TapeMotion::Right && pos == 0 {
                } else {
                    let moved = match step.motion {
                        TapeMotion::Left => pos + 1,
                        TapeMotion::Right => (pos - 1) as nat,
                    };
                    lemma_block_run_is_raw_run(
                        table,
                        next,
                        written,
                        moved,
                        w,
                        (fuel - 1) as nat,
                        t1,
                        base,
                    );
                }
            },
        }
    }
}

/// The compiled table against the interpreter. Let the tape hold `content`
/// in the cells of one block, from `base` downwards, and the head stand
/// where a head that comes in over the `entry` edge stands. Then the entry
/// that the table holds for `s`, `content` and `entry` records what the
/// interpreter does from state `s` on that tape, in as many steps as the run
/// inside the block takes: the block's content afterwards, and whether the
/// machine halted, left the block, and in which state and over which edge,
/// or used up the budget inside it. No cell outside the block has changed.
pub proof fn lemma_table_matches_interpreter(
    cm: CompiledTuringMachine,
    s: usize,
    content: u64,
    entry: TapeMotion,
    t: TapeView,
    base: int,
)
    requires
        cm.wf(),
        s < cm.tm.states@.len(),
        fits(content, cm.bits as nat),
        t.wf(),
        t.head == base - entry_position(entry, cm.bits as nat),
        holds_block(t, base, content, cm.bits as nat),
    ensures
        ({
            let w = cm.bits as nat;
            let found = cm.lut@[slot(s as nat, entry, content, w) as int];
            let n = block_steps(
                cm.tm.states@,
                s as nat,
                content,
                entry_position(entry, w),
                w,
                cm.max_steps as nat,
            );
            let end = run_of(cm.tm.states@, Config { state: State::Index(s), tape: t }, n);
            &&& n <= cm.max_steps
            &&& holds_block(end.tape, base, found.tape, w)
            &&& forall|p: int| (p > base || p <= base - w) ==> #[trigger] end.tape.cell(p) == t.cell(p)
            &&& match found.spec_outcome() {
                Outcome::Halt => end.state == State::HALT,
                Outcome::Continue { state, side } => {
                    &&& end.state == State::Index(state)
                    &&& end.tape.head == (match side {
                        TapeMotion::Left => base - w,
                        TapeMotion::Right => base + 1,
                    })
                },
                Outcome::Unfinished => {
                    &&& n == cm.max_steps
                    &&& end.state is Index
                    &&& base - w < end.tape.head <= base
                },
            }
        }),
{
    let w = cm.bits as nat;
    let pos = entry_position(entry, w);
    lemma_table_slot(cm, s as nat, entry, content);
    lemma_block_run_in_range(cm.tm.states@, s as nat, content, pos, w, cm.max_steps as nat);
    lemma_unpack_pack(cm.spec_run(s as nat, content, entry).outcome);
    lemma_block_run_is_raw_run(cm.tm.states@, s, content, pos, w, cm.max_steps as nat, t, base);
}

} // verus!
