//! The interpreter: one transition per step, cell by cell.

use vstd::prelude::*;
use crate::block::Bit;
use crate::machine::{TapeMotion, State, TuringState, TuringMachine};
use crate::tape::{Tape, TapeView};

verus! {

/// A machine at one moment: its state and its tape.
pub struct Config {
    pub state: State,
    pub tape: TapeView,
}

/// One step from row `s` on tape `t`: read, write, move, change state.
pub open spec fn step_of(table: Seq<TuringState>, s: nat, t: TapeView) -> Config {
    let step = table[s as int].pick(t.read());
    Config { state: step.next_state, tape: t.write(step.print).shift(step.motion) }
}

/// Where the machine is after at most `fuel` steps from `c`; it stops
/// before that where it halts.
pub open spec fn run_of(table: Seq<TuringState>, c: Config, fuel: nat) -> Config
    decreases fuel,
{
    match c.state {
        State::HALT => c,
        State::Index(s) => if fuel == 0 {
            c
        } else {
            run_of(table, step_of(table, s as nat, c.tape), (fuel - 1) as nat)
        },
    }
}

/// The number of steps that `run_of` takes.
pub open spec fn steps_of(table: Seq<TuringState>, c: Config, fuel: nat) -> nat
    decreases fuel,
{
    match c.state {
        State::HALT => 0,
        State::Index(s) => if fuel == 0 {
            0
        } else {
            1 + steps_of(table, step_of(table, s as nat, c.tape), (fuel - 1) as nat)
        },
    }
}

/// A step changes the cell that the head stood on and no other: after the
/// write and the move, every other cell holds what it held before.
pub proof fn lemma_write_is_local(t: TapeView, b: Bit, motion: TapeMotion)
    requires
        t.wf(),
    ensures
        t.write(b).shift(motion).wf(),
        t.write(b).shift(motion).width == t.width,
        t.write(b).shift(motion).head == t.head + (if motion == TapeMotion::Left {
            -1int
        } else {
            1int
        }),
        forall|p: int|
            #[trigger] t.write(b).shift(motion).cell(p) == (if p == t.head {
                b
            } else {
                t.cell(p)
            }),
{
}

impl TuringMachine {
    /// Performs one step from row `state`: reads the symbol under the head,
    /// writes, moves the head and takes the next state.
    pub fn step(&mut self, tape: &mut Tape, state: usize)
        requires
            old(self).wf(),
            old(tape).wf(),
            state < old(self).states@.len(),
        ensures
            final(self).wf(),
            final(tape).wf(),
            final(self).states@ == old(self).states@,
            (Config { state: final(self).state, tape: final(tape)@ }) == step_of(
                old(self).states@,
                state as nat,
                old(tape)@,
            ),
            forall|p: int|
                p != old(tape)@.head ==> #[trigger] final(tape)@.cell(p) == old(tape)@.cell(p),
            final(tape)@.read() == old(tape)@.cell(final(tape)@.head),
    {
        let step = self.states[state].select(tape.get());
        proof {
            assert(self.states@[state as int].in_range(self.states@.len()));
            tape.lemma_view_wf();
            lemma_write_is_local(tape@, step.print, step.motion);
        }
        tape.set(step.print);
        tape.move_tape(step.motion);
        self.state = step.next_state;
    }

    /// Steps until the machine halts, or until `max_steps` steps are done,
    /// and returns the number of steps taken.
    pub fn run(&mut self, tape: &mut Tape, max_steps: u64) -> (steps: u64)
        requires
            old(self).wf(),
            old(tape).wf(),
        ensures
            final(self).wf(),
            final(tape).wf(),
            final(self).states@ == old(self).states@,
            (Config { state: final(self).state, tape: final(tape)@ }) == run_of(
                old(self).states@,
                Config { state: old(self).state, tape: old(tape)@ },
                max_steps as nat,
            ),
            steps == steps_of(
                old(self).states@,
                Config { state: old(self).state, tape: old(tape)@ },
                max_steps as nat,
            ),
            final(self).state == State::HALT || steps == max_steps,
    {
        let mut steps: u64 = 0;
        while steps < max_steps
            invariant
                self.wf(),
                tape.wf(),
                self.states@ == old(self).states@,
                steps <= max_steps,
                run_of(
                    self.states@,
                    Config { state: old(self).state, tape: old(tape)@ },
                    max_steps as nat,
                ) == run_of(
                    self.states@,
                    Config { state: self.state, tape: tape@ },
                    (max_steps - steps) as nat,
                ),
                steps_of(
                    self.states@,
                    Config { state: old(self).state, tape: old(tape)@ },
                    max_steps as nat,
                ) == steps + steps_of(
                    self.states@,
                    Config { state: self.state, tape: tape@ },
                    (max_steps - steps) as nat,
                ),
            decreases max_steps - steps,
        {
            match self.state {
                State::HALT => {
                    return steps;
                },
                State::Index(state) => {
                    self.step(tape, state);
                    steps += 1;
                },
            }
        }
        steps
    }
}

} // verus!
