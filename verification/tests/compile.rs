use turing_machine::block::Bit;
use turing_machine::compile::{CompileError, CompiledStep, Outcome, HALT_KEY, MAX_STATES, UNFINISHED_KEY};
use turing_machine::machine::{State, TapeMotion, TuringMachine, TuringState};

fn two_states() -> TuringMachine {
    TuringMachine::new(vec![
        TuringState::new(
            Bit::One,
            TapeMotion::Right,
            State::Index(1),
            Bit::One,
            TapeMotion::Left,
            State::Index(1),
        ),
        TuringState::new(Bit::One, TapeMotion::Left, State::Index(0), Bit::One, TapeMotion::Right, State::HALT),
    ])
    .unwrap()
}

fn bouncer() -> TuringMachine {
    TuringMachine::new(vec![
        TuringState::new(
            Bit::Zero,
            TapeMotion::Left,
            State::Index(1),
            Bit::One,
            TapeMotion::Left,
            State::Index(1),
        ),
        TuringState::new(
            Bit::Zero,
            TapeMotion::Right,
            State::Index(0),
            Bit::One,
            TapeMotion::Right,
            State::Index(0),
        ),
    ])
    .unwrap()
}

fn many_states(n: usize) -> TuringMachine {
    let rows = (0..n)
        .map(|i| {
            TuringState::new(
                Bit::One,
                TapeMotion::Right,
                State::Index((i + 1) % n),
                Bit::Zero,
                TapeMotion::Left,
                State::HALT,
            )
        })
        .collect();
    TuringMachine::new(rows).unwrap()
}

fn cont(state: usize, side: TapeMotion) -> Outcome {
    Outcome::Continue { state, side }
}

#[test]
fn table_has_an_entry_for_each_state_side_and_content() {
    let cm = two_states().compile(4, 100).unwrap();
    assert_eq!(cm.lut.len(), 2 * 2 * 16);
    assert_eq!(cm.bits, 4);
    assert_eq!(cm.max_steps, 100);
    assert_eq!(cm.tm.states.len(), 2);
    let cm = two_states().compile(16, 100).unwrap();
    assert_eq!(cm.lut.len(), 2 * 2 * 65536);
}

#[test]
fn single_cell_blocks_give_the_transition_table() {
    let tm = two_states();
    let rows = tm.states.clone();
    let cm = tm.compile(1, 1).unwrap();
    assert_eq!(cm.lut.len(), 8);
    for (s, row) in rows.iter().enumerate() {
        for entry in [TapeMotion::Left, TapeMotion::Right] {
            for (c, bit) in [(0u64, Bit::Zero), (1u64, Bit::One)] {
                let step = row.select(bit);
                let found = cm.lookup(s, c, entry).unwrap();
                assert_eq!(found.tape, if step.print == Bit::One { 1 } else { 0 });
                match step.next_state {
                    State::HALT => assert_eq!(found.outcome(), Outcome::Halt),
                    State::Index(n) => assert_eq!(found.outcome(), cont(n, step.motion)),
                }
            }
        }
    }
}

#[test]
fn two_cell_blocks_of_the_two_state_machine() {
    let cm = two_states().compile(2, 100).unwrap();
    let l = TapeMotion::Left;
    let r = TapeMotion::Right;
    let expected = [
        (0, l, 0b00, 3, cont(1, l)),
        (0, l, 0b01, 3, Outcome::Halt),
        (0, l, 0b10, 2, cont(1, l)),
        (0, l, 0b11, 3, cont(1, l)),
        (0, r, 0b00, 1, cont(1, r)),
        (0, r, 0b01, 3, cont(0, l)),
        (0, r, 0b10, 3, cont(1, r)),
        (0, r, 0b11, 3, Outcome::Halt),
        (1, l, 0b00, 2, cont(0, l)),
        (1, l, 0b01, 3, cont(0, l)),
        (1, l, 0b10, 2, Outcome::Halt),
        (1, l, 0b11, 3, Outcome::Halt),
        (1, r, 0b00, 3, Outcome::Halt),
        (1, r, 0b01, 1, Outcome::Halt),
        (1, r, 0b10, 3, cont(1, l)),
        (1, r, 0b11, 3, Outcome::Halt),
    ];
    for (i, (s, e, c, tape, outcome)) in expected.into_iter().enumerate() {
        let found = cm.lookup(s, c, e).unwrap();
        assert_eq!(found.tape, tape);
        assert_eq!(found.outcome(), outcome);
        assert_eq!(cm.lut[i], found);
    }
}

#[test]
fn four_cell_blocks_of_the_two_state_machine() {
    let cm = two_states().compile(4, 100).unwrap();
    let l = TapeMotion::Left;
    let r = TapeMotion::Right;
    let found = cm.lookup(0, 0b0101, r).unwrap();
    assert_eq!((found.tape, found.outcome()), (15, cont(0, l)));
    let found = cm.lookup(0, 0b0001, r).unwrap();
    assert_eq!((found.tape, found.outcome()), (7, Outcome::Halt));
    let found = cm.lookup(0, 0b0000, l).unwrap();
    assert_eq!((found.tape, found.outcome()), (12, cont(1, l)));
    let found = cm.lookup(1, 0b0010, r).unwrap();
    assert_eq!((found.tape, found.outcome()), (15, Outcome::Halt));
    let found = cm.lookup(0, 0b1110, r).unwrap();
    assert_eq!((found.tape, found.outcome()), (15, cont(1, r)));
}

#[test]
fn packed_outcome_holds_side_and_state() {
    let cm = two_states().compile(2, 100).unwrap();
    let left_exit = cm.lookup(0, 0b00, TapeMotion::Left).unwrap();
    assert_eq!(left_exit.direction_state, 0b11);
    assert_eq!(left_exit.get_direction(), TapeMotion::Left);
    assert_eq!(left_exit.get_state(), 1);
    let right_exit = cm.lookup(0, 0b00, TapeMotion::Right).unwrap();
    assert_eq!(right_exit.direction_state, 0b10);
    assert_eq!(right_exit.get_direction(), TapeMotion::Right);
    assert_eq!(right_exit.get_state(), 1);
    let halted = cm.lookup(1, 0b01, TapeMotion::Right).unwrap();
    assert_eq!(halted.direction_state, HALT_KEY);
    assert_eq!(halted.get_state(), -1);
    assert_eq!(halted.outcome(), Outcome::Halt);
}

#[test]
fn halting_wins_over_leaving_the_block() {
    let cm = two_states().compile(1, 10).unwrap();
    let found = cm.lookup(1, 1, TapeMotion::Left).unwrap();
    assert_eq!(found.outcome(), Outcome::Halt);
    assert_eq!(found.tape, 1);
}

#[test]
fn run_that_stays_inside_is_unfinished() {
    let cm = bouncer().compile(2, 50).unwrap();
    let found = cm.lookup(0, 0b10, TapeMotion::Right).unwrap();
    assert_eq!(found.outcome(), Outcome::Unfinished);
    assert_eq!(found.direction_state, UNFINISHED_KEY);
    assert_eq!(found.get_state(), 126);
    assert_eq!(found.tape, 0b10);
    let found = cm.lookup(1, 0b10, TapeMotion::Right).unwrap();
    assert_eq!(found.outcome(), cont(0, TapeMotion::Right));
    let found = cm.lookup(0, 0b01, TapeMotion::Left).unwrap();
    assert_eq!(found.outcome(), cont(1, TapeMotion::Left));
}

#[test]
fn step_budget_bounds_each_run() {
    let tm = two_states();
    let found = tm.run_block(0, 0b0101, TapeMotion::Right, 4, 3);
    assert_eq!((found.tape, found.outcome()), (7, Outcome::Unfinished));
    let found = tm.run_block(0, 0b0101, TapeMotion::Right, 4, 4);
    assert_eq!((found.tape, found.outcome()), (15, cont(0, TapeMotion::Left)));
    let found = tm.run_block(0, 0b0101, TapeMotion::Right, 4, 100);
    assert_eq!((found.tape, found.outcome()), (15, cont(0, TapeMotion::Left)));
    let found = tm.run_block(0, 0b0101, TapeMotion::Right, 4, 0);
    assert_eq!((found.tape, found.outcome()), (0b0101, Outcome::Unfinished));
    let cm = two_states().compile(2, 0).unwrap();
    assert!(cm.lut.iter().all(|e| e.outcome() == Outcome::Unfinished));
}

#[test]
fn lookup_outside_the_table_is_none() {
    let cm = two_states().compile(2, 100).unwrap();
    assert!(cm.lookup(2, 0, TapeMotion::Left).is_none());
    assert!(cm.lookup(0, 4, TapeMotion::Left).is_none());
    assert!(cm.lookup(1, 3, TapeMotion::Right).is_some());
}

#[test]
fn index_follows_an_outcome_into_the_next_block() {
    let cm = two_states().compile(2, 100).unwrap();
    let first = cm.lookup(0, 0b00, TapeMotion::Left).unwrap();
    assert_eq!(first.outcome(), cont(1, TapeMotion::Left));
    let key = CompiledStep { tape: 0b00, direction_state: first.direction_state };
    let next = cm.index(key).unwrap();
    assert_eq!(next, cm.lookup(1, 0b00, TapeMotion::Right).unwrap());
    assert_eq!(next.outcome(), Outcome::Halt);
    assert_eq!(next.tape, 3);
    let key = CompiledStep { tape: 0b10, direction_state: 0b00 };
    assert_eq!(cm.index(key), cm.lookup(0, 0b10, TapeMotion::Left));
    let halted = CompiledStep { tape: 0, direction_state: HALT_KEY };
    assert!(cm.index(halted).is_none());
    let wide = CompiledStep { tape: 4, direction_state: 0 };
    assert!(cm.index(wide).is_none());
}

#[test]
fn too_many_states_are_rejected() {
    assert_eq!(MAX_STATES, 126);
    assert_eq!(many_states(127).compile(1, 1).err(), Some(CompileError::TooManyStates));
    let cm = many_states(126).compile(1, 1).unwrap();
    assert_eq!(cm.lut.len(), 126 * 4);
    let last = cm.lookup(124, 0, TapeMotion::Left).unwrap();
    assert_eq!(last.outcome(), cont(125, TapeMotion::Right));
    assert_eq!(last.get_state(), 125);
}

#[test]
fn other_widths_are_rejected() {
    assert_eq!(two_states().compile(0, 1).err(), Some(CompileError::InvalidWidth));
    assert_eq!(two_states().compile(3, 1).err(), Some(CompileError::InvalidWidth));
    assert_eq!(many_states(127).compile(3, 1).err(), Some(CompileError::TooManyStates));
}

#[test]
fn table_beyond_the_address_space_is_rejected() {
    assert_eq!(two_states().compile(64, 1).err(), Some(CompileError::TableTooLarge));
}
