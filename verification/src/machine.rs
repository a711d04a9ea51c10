//! The transition table of a machine and the state it is in.

use vstd::prelude::*;
use crate::block::Bit;

verus! {

/// A direction on the tape: the way the head moves, or a side of a block.
#[derive(Clone, Copy, Debug, PartialEq, Eq, Structural)]
pub enum TapeMotion {
    Left,
    Right,
}

/// The state of a machine: halted, or at a row of its table.
#[derive(Clone, Copy, Debug, PartialEq, Eq, Structural)]
pub enum State {
    HALT,
    Index(usize),
}

impl State {
    /// `HALT`, or a row of a table of `n` rows.
    pub open spec fn in_range(self, n: nat) -> bool {
        match self {
            State::HALT => true,
            State::Index(i) => i < n,
        }
    }

    /// Whether the state is `HALT` or a row below `n`.
    pub fn check_range(&self, n: usize) -> (ok: bool)
        ensures
            ok == self.in_range(n as nat),
    {
        match self {
            State::HALT => true,
            State::Index(i) => *i < n,
        }
    }
}

impl From<usize> for State {
    fn from(value: usize) -> (s: State) {
        State::Index(value)
    }
}

impl vstd::std_specs::convert::FromSpecImpl<usize> for State {
    open spec fn obeys_from_spec() -> bool {
        true
    }

    open spec fn from_spec(value: usize) -> State {
        State::Index(value)
    }
}

/// What the machine does on reading one symbol in one state.
#[derive(Clone, Copy, Debug, PartialEq, Eq, Structural)]
pub struct TuringStep {
    pub print: Bit,
    pub motion: TapeMotion,
    pub next_state: State,
}

/// One row of the table: the step for each symbol read.
#[derive(Clone, Copy, Debug, PartialEq, Eq, Structural)]
pub struct TuringState {
    pub zero: TuringStep,
    pub one: TuringStep,
}

impl TuringState {
    /// The step taken on reading `b`.
    pub open spec fn pick(self, b: Bit) -> TuringStep {
        match b {
            Bit::Zero => self.zero,
            Bit::One => self.one,
        }
    }

    /// The row that prints `print0`, moves `motion0` and goes to `next0` on
    /// reading a zero, and likewise on reading a one.
    pub fn new(
        print0: Bit,
        motion0: TapeMotion,
        next0: State,
        print1: Bit,
        motion1: TapeMotion,
        next1: State,
    ) -> (row: TuringState)
        ensures
            row.zero == (TuringStep { print: print0, motion: motion0, next_state: next0 }),
            row.one == (TuringStep { print: print1, motion: motion1, next_state: next1 }),
    {
        TuringState {
            zero: TuringStep { print: print0, motion: motion0, next_state: next0 },
            one: TuringStep { print: print1, motion: motion1, next_state: next1 },
        }
    }

    /// The step taken on reading `b`.
    pub fn select(&self, b: Bit) -> (step: TuringStep)
        ensures
            step == self.pick(b),
    {
        match b {
            Bit::Zero => self.zero,
            Bit::One => self.one,
        }
    }

    /// Both steps of the row lead to `HALT` or to a row below `n`.
    pub open spec fn in_range(self, n: nat) -> bool {
        self.zero.next_state.in_range(n) && self.one.next_state.in_range(n)
    }
}

/// Every step of the table leads to `HALT` or to a row of the table.
pub open spec fn table_ok(table: Seq<TuringState>) -> bool {
    forall|i: int| 0 <= i < table.len() ==> (#[trigger] table[i]).in_range(table.len())
}

/// Why a list of rows is no transition table.
#[derive(Clone, Copy, Debug, PartialEq, Eq, Structural)]
pub enum TableError {
    /// The list has no row, so there is no state to start in.
    Empty,
    /// The row `row` is the first with a step to a state that the table lacks.
    StateOutOfRange { row: usize },
}

/// A transition table together with the machine's current state.
pub struct TuringMachine {
    pub states: Vec<TuringState>,
    pub state: State,
}

impl TuringMachine {
    /// The table has a row and is closed under its steps, and the current
    /// state lies in it.
    pub open spec fn wf(&self) -> bool {
        &&& self.states@.len() > 0
        &&& table_ok(self.states@)
        &&& self.state.in_range(self.states@.len())
    }

    /// Builds a machine from its rows, started in state 0. A list without
    /// rows, or with a step that leaves the table, is rejected.
    pub fn new(states: Vec<TuringState>) -> (r: Result<TuringMachine, TableError>)
        ensures
            match r {
                Ok(m) => {
                    &&& states@.len() > 0
                    &&& table_ok(states@)
                    &&& m.states@ == states@
                    &&& m.state == State::Index(0)
                    &&& m.wf()
                },
                Err(TableError::Empty) => states@.len() == 0,
                Err(TableError::StateOutOfRange { row }) => {
                    &&& row < states@.len()
                    &&& !states@[row as int].in_range(states@.len())
                    &&& forall|i: int| 0 <= i < row ==> (#[trigger] states@[i]).in_range(states@.len())
                },
            },
    {
        let n: usize = states.len();
        if n == 0 {
            return Err(TableError::Empty);
        }
        let mut i: usize = 0;
        while i < n
            invariant
                n == states@.len(),
                i <= n,
                forall|k: int| 0 <= k < i ==> (#[trigger] states@[k]).in_range(n as nat),
            decreases n - i,
        {
            let row = states[i];
            if !(row.zero.next_state.check_range(n) && row.one.next_state.check_range(n)) {
                return Err(TableError::StateOutOfRange { row: i });
            }
            i += 1;
        }
        Ok(TuringMachine { states, state: State::Index(0) })
    }
}

} // verus!
