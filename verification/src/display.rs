//! The line that annotates a rendering of the tape: a caret under the head,
//! the head's position, the machine's state and the step it is about to take.

use vstd::prelude::*;
use vstd::string::*;
use crate::block::{bit_char, push_bit};
use crate::machine::{TapeMotion, State, TuringState, TuringMachine};
use crate::tape::{Tape, TapeView};

verus! {

/// The character of a decimal digit.
pub open spec fn digit_char(d: nat) -> char {
    if d == 0 {
        '0'
    } else if d == 1 {
        '1'
    } else if d == 2 {
        '2'
    } else if d == 3 {
        '3'
    } else if d == 4 {
        '4'
    } else if d == 5 {
        '5'
    } else if d == 6 {
        '6'
    } else if d == 7 {
        '7'
    } else if d == 8 {
        '8'
    } else {
        '9'
    }
}

/// A natural number in decimal digits, without leading zeros.
pub open spec fn decimal(n: nat) -> Seq<char>
    decreases n,
{
    if n < 10 {
        seq![digit_char(n)]
    } else {
        decimal(n / 10).push(digit_char(n % 10))
    }
}

/// An integer in decimal digits, with a minus sign where it is negative.
pub open spec fn signed_decimal(i: int) -> Seq<char> {
    if i < 0 {
        "-"@ + decimal((-i) as nat)
    } else {
        decimal(i as nat)
    }
}

/// `n` blanks.
pub open spec fn spaces(n: nat) -> Seq<char> {
    Seq::new(n, |i: int| ' ')
}

/// A direction as an arrow.
pub open spec fn motion_label(m: TapeMotion) -> Seq<char> {
    match m {
        TapeMotion::Left => "<-"@,
        TapeMotion::Right => "->"@,
    }
}

/// A state by name: `HALT`, or `s` and the number of the row.
pub open spec fn state_label(s: State) -> Seq<char> {
    match s {
        State::HALT => "HALT"@,
        State::Index(i) => "s"@ + decimal(i as nat),
    }
}

/// The annotation of a machine in `state` with tape `t`: blanks up to the
/// column of the head, a caret, the head's position, a blank and a tab,
/// the state; and for a machine that has not halted a dot, the symbol read,
/// a colon, and the step to take: symbol, arrow and next state.
pub open spec fn status_line(table: Seq<TuringState>, state: State, t: TapeView) -> Seq<char> {
    let cursor = spaces((t.left.len() + t.head) as nat) + "^"@ + signed_decimal(t.head) + " \t"@
        + state_label(state);
    match state {
        State::HALT => cursor,
        State::Index(s) => {
            let step = table[s as int].pick(t.read());
            cursor + "."@ + seq![bit_char(t.read())] + ": "@ + seq![bit_char(step.print)] + " "@
                + motion_label(step.motion) + " "@ + state_label(step.next_state)
        },
    }
}

/// Appends the decimal digits of `n` to `out`.
pub fn push_decimal(out: &mut String, n: u128)
    ensures
        final(out)@ == old(out)@ + decimal(n as nat),
    decreases n,
{
    if n >= 10 {
        push_decimal(out, n / 10);
    }
    let d: u128 = n % 10;
    proof {
        reveal_strlit("0");
        reveal_strlit("1");
        reveal_strlit("2");
        reveal_strlit("3");
        reveal_strlit("4");
        reveal_strlit("5");
        reveal_strlit("6");
        reveal_strlit("7");
        reveal_strlit("8");
        reveal_strlit("9");
    }
    let ghost before = out@;
    if d == 0 {
        out.append("0");
    } else if d == 1 {
        out.append("1");
    } else if d == 2 {
        out.append("2");
    } else if d == 3 {
        out.append("3");
    } else if d == 4 {
        out.append("4");
    } else if d == 5 {
        out.append("5");
    } else if d == 6 {
        out.append("6");
    } else if d == 7 {
        out.append("7");
    } else if d == 8 {
        out.append("8");
    } else {
        out.append("9");
    }
    assert(out@ =~= before.push(digit_char(d as nat)));
    assert(out@ =~= old(out)@ + decimal(n as nat));
}

/// Appends `i` in decimal to `out`.
pub fn push_signed(out: &mut String, i: i128)
    ensures
        final(out)@ == old(out)@ + signed_decimal(i as int),
{
    if i < 0 {
        out.append("-");
        let magnitude: u128 = ((-(i + 1)) as u128) + 1;
        push_decimal(out, magnitude);
        assert(out@ =~= old(out)@ + signed_decimal(i as int));
    } else {
        push_decimal(out, i as u128);
    }
}

/// Appends the arrow of `m` to `out`.
pub fn push_motion(out: &mut String, m: TapeMotion)
    ensures
        final(out)@ == old(out)@ + motion_label(m),
{
    match m {
        TapeMotion::Left => out.append("<-"),
        TapeMotion::Right => out.append("->"),
    }
}

/// Appends the name of `s` to `out`.
pub fn push_state(out: &mut String, s: State)
    ensures
        final(out)@ == old(out)@ + state_label(s),
{
    match s {
        State::HALT => out.append("HALT"),
        State::Index(i) => {
            out.append("s");
            push_decimal(out, i as u128);
            assert(out@ =~= old(out)@ + state_label(s));
        },
    }
}

/// The annotation of the machine on its tape.
pub fn show_state(tm: &TuringMachine, tape: &Tape) -> (line: String)
    requires
        tm.wf(),
        tape.wf(),
    ensures
        line@ == status_line(tm.states@, tm.state, tape@),
{
    let column: u128 = tape.get_display_index();
    let mut out = String::new();
    let mut k: u128 = 0;
    while k < column
        invariant
            k <= column,
            out@ == spaces(k as nat),
        decreases column - k,
    {
        proof {
            reveal_strlit(" ");
        }
        out.append(" ");
        k += 1;
        assert(out@ =~= spaces(k as nat));
    }
    out.append("^");
    push_signed(&mut out, tape.get_index());
    out.append(" \t");
    push_state(&mut out, tm.state);
    match tm.state {
        State::HALT => {},
        State::Index(state) => {
            let bit = tape.get();
            let step = tm.states[state].select(bit);
            out.append(".");
            let ghost before = out@;
            push_bit(&mut out, bit);
            assert(out@ =~= before + seq![bit_char(bit)]);
            out.append(": ");
            let ghost before = out@;
            push_bit(&mut out, step.print);
            assert(out@ =~= before + seq![bit_char(step.print)]);
            out.append(" ");
            push_motion(&mut out, step.motion);
            out.append(" ");
            push_state(&mut out, step.next_state);
        },
    }
    out
}

} // verus!
