use turing_machine::block::Bit;
use turing_machine::display::{push_decimal, push_motion, push_signed, push_state, show_state};
use turing_machine::machine::{State, TapeMotion, TuringMachine, TuringState};
use turing_machine::tape::Tape;

fn beaver() -> TuringMachine {
    TuringMachine::new(vec![
        TuringState::new(Bit::One, TapeMotion::Right, State::Index(1), Bit::One, TapeMotion::Left, State::Index(1)),
        TuringState::new(Bit::One, TapeMotion::Left, State::Index(0), Bit::One, TapeMotion::Right, State::HALT),
    ])
    .unwrap()
}

fn decimal(n: u128) -> String {
    let mut s = String::new();
    push_decimal(&mut s, n);
    s
}

fn signed(i: i128) -> String {
    let mut s = String::new();
    push_signed(&mut s, i);
    s
}

#[test]
fn decimal_digits_of_a_number() {
    assert_eq!(decimal(0), "0");
    assert_eq!(decimal(7), "7");
    assert_eq!(decimal(10), "10");
    assert_eq!(decimal(1234567890), "1234567890");
    assert_eq!(decimal(u128::MAX), "340282366920938463463374607431768211455");
    let mut s = String::from("n=");
    push_decimal(&mut s, 405);
    assert_eq!(s, "n=405");
}

#[test]
fn signed_numbers_carry_a_minus_sign() {
    assert_eq!(signed(0), "0");
    assert_eq!(signed(42), "42");
    assert_eq!(signed(-1), "-1");
    assert_eq!(signed(-190), "-190");
    assert_eq!(signed(i128::MAX), "170141183460469231731687303715884105727");
    assert_eq!(signed(i128::MIN), "-170141183460469231731687303715884105728");
}

#[test]
fn labels_of_motions_and_states() {
    let mut s = String::new();
    push_motion(&mut s, TapeMotion::Left);
    push_motion(&mut s, TapeMotion::Right);
    assert_eq!(s, "<-->");
    let mut s = String::new();
    push_state(&mut s, State::HALT);
    push_state(&mut s, State::Index(0));
    push_state(&mut s, State::Index(125));
    assert_eq!(s, "HALTs0s125");
}

#[test]
fn status_line_of_a_running_machine() {
    let mut tm = beaver();
    let mut tape = Tape::new(8).unwrap();
    assert_eq!(show_state(&tm, &tape), "        ^0 \ts0.0: 1 -> s1");
    tm.run(&mut tape, 3);
    assert_eq!(show_state(&tm, &tape), "       ^-1 \ts1.0: 1 <- s0");
    tm.run(&mut tape, 2);
    assert_eq!(show_state(&tm, &tape), "       ^-1 \ts1.1: 1 -> HALT");
}

#[test]
fn status_line_of_a_halted_machine() {
    let mut tm = beaver();
    let mut tape = Tape::new(8).unwrap();
    tm.run(&mut tape, 100);
    assert_eq!(show_state(&tm, &tape), "        ^0 \tHALT");
    let mut tape = Tape::new(1).unwrap();
    tape.move_tape(TapeMotion::Left);
    tape.move_tape(TapeMotion::Left);
    assert_eq!(show_state(&tm, &tape), "^-2 \tHALT");
}
