use turing_machine::block::{get_bit, is_valid_width, set_bit, Bit};
use turing_machine::machine::TapeMotion;
use turing_machine::tape::Tape;

#[test]
fn get_bit_reads_each_offset() {
    assert_eq!(get_bit(0b0110, 0), Bit::Zero);
    assert_eq!(get_bit(0b0110, 1), Bit::One);
    assert_eq!(get_bit(0b0110, 2), Bit::One);
    assert_eq!(get_bit(0b0110, 3), Bit::Zero);
    assert_eq!(get_bit(1 << 63, 63), Bit::One);
    assert_eq!(get_bit(u64::MAX >> 1, 63), Bit::Zero);
}

#[test]
fn set_bit_writes_one_offset() {
    let mut x: u64 = 0b0110;
    set_bit(&mut x, 0, Bit::One);
    assert_eq!(x, 0b0111);
    set_bit(&mut x, 2, Bit::Zero);
    assert_eq!(x, 0b0011);
    set_bit(&mut x, 1, Bit::One);
    assert_eq!(x, 0b0011);
    set_bit(&mut x, 63, Bit::One);
    assert_eq!(x, (1 << 63) | 0b0011);
    set_bit(&mut x, 5, Bit::Zero);
    assert_eq!(x, (1 << 63) | 0b0011);
}

#[test]
fn valid_widths_are_the_powers_of_two_up_to_64() {
    for w in 0..130usize {
        assert_eq!(is_valid_width(w), w.is_power_of_two() && w <= 64);
    }
}

#[test]
fn new_tape_has_one_zero_block_on_each_side() {
    let tape = Tape::new(8).unwrap();
    assert_eq!(tape.right, vec![0]);
    assert_eq!(tape.left, vec![0]);
    assert_eq!(tape.vec_index, 0);
    assert_eq!(tape.bit_index, 0);
    assert_eq!(tape.half, TapeMotion::Right);
    assert_eq!(tape.bits, 8);
    assert_eq!(tape.get(), Bit::Zero);
    assert_eq!(tape.get_index(), 0);
    assert_eq!(tape.get_display_index(), 8);
    assert_eq!(tape.left_blocks(), 1);
    assert_eq!(tape.right_blocks(), 1);
}

#[test]
fn new_tape_rejects_other_widths() {
    assert!(Tape::new(0).is_none());
    assert!(Tape::new(3).is_none());
    assert!(Tape::new(128).is_none());
    assert!(Tape::new(1).is_some());
    assert!(Tape::new(64).is_some());
}

#[test]
fn set_then_get_returns_the_symbol() {
    let mut tape = Tape::new(4).unwrap();
    tape.set(Bit::One);
    assert_eq!(tape.get(), Bit::One);
    assert_eq!(tape.right, vec![1]);
    tape.move_tape(TapeMotion::Right);
    assert_eq!(tape.get(), Bit::Zero);
    tape.move_tape(TapeMotion::Left);
    assert_eq!(tape.get(), Bit::One);
    tape.set(Bit::Zero);
    assert_eq!(tape.get(), Bit::Zero);
    assert_eq!(tape.right, vec![0]);
}

#[test]
fn crossing_the_origin_flips_the_half() {
    let mut tape = Tape::new(8).unwrap();
    tape.move_tape(TapeMotion::Left);
    assert_eq!(tape.half, TapeMotion::Left);
    assert_eq!((tape.vec_index, tape.bit_index), (0, 0));
    assert_eq!(tape.get_index(), -1);
    assert_eq!(tape.get_display_index(), 7);
    tape.set(Bit::One);
    assert_eq!(tape.left, vec![1]);
    assert_eq!(tape.right, vec![0]);
    tape.move_tape(TapeMotion::Right);
    assert_eq!(tape.half, TapeMotion::Right);
    assert_eq!((tape.vec_index, tape.bit_index), (0, 0));
    assert_eq!(tape.get_index(), 0);
}

#[test]
fn position_counts_blocks_and_offsets() {
    let mut tape = Tape::new(4).unwrap();
    for k in 1..=9 {
        tape.move_tape(TapeMotion::Right);
        assert_eq!(tape.get_index(), k);
    }
    assert_eq!((tape.vec_index, tape.bit_index), (2, 1));
    assert_eq!(tape.get_display_index(), 13);
    for k in (-11..9).rev() {
        tape.move_tape(TapeMotion::Left);
        assert_eq!(tape.get_index(), k);
    }
    assert_eq!(tape.half, TapeMotion::Left);
    assert_eq!((tape.vec_index, tape.bit_index), (2, 2));
    assert_eq!(tape.get_display_index(), 1);
    assert_eq!(tape.right_blocks(), 3);
    assert_eq!(tape.left_blocks(), 3);
}

#[test]
fn moving_right_grows_the_right_half_only() {
    for bits in [1usize, 2, 4, 8, 16, 32, 64] {
        let mut tape = Tape::new(bits).unwrap();
        for k in 1..=200usize {
            tape.move_tape(TapeMotion::Right);
            assert_eq!(tape.right_blocks(), (k + 1 + bits - 1) / bits);
            assert_eq!(tape.left_blocks(), 1);
        }
        assert!(tape.right.iter().all(|b| *b == 0));
    }
}

#[test]
fn moving_left_grows_the_left_half_only() {
    for bits in [1usize, 2, 4, 8, 16, 32, 64] {
        let mut tape = Tape::new(bits).unwrap();
        tape.move_tape(TapeMotion::Left);
        for k in 1..=200usize {
            tape.move_tape(TapeMotion::Left);
            assert_eq!(tape.left_blocks(), (k + 1 + bits - 1) / bits);
            assert_eq!(tape.right_blocks(), 1);
        }
    }
}

#[test]
fn moving_back_does_not_shrink() {
    let mut tape = Tape::new(2).unwrap();
    for _ in 0..5 {
        tape.move_tape(TapeMotion::Right);
    }
    assert_eq!(tape.right_blocks(), 3);
    for _ in 0..5 {
        tape.move_tape(TapeMotion::Left);
    }
    assert_eq!(tape.right_blocks(), 3);
    assert_eq!(tape.get_index(), 0);
}

#[test]
fn full_width_block_uses_every_bit() {
    let mut tape = Tape::new(64).unwrap();
    for _ in 0..63 {
        tape.move_tape(TapeMotion::Right);
    }
    tape.set(Bit::One);
    assert_eq!(tape.right, vec![1 << 63]);
    tape.move_tape(TapeMotion::Right);
    assert_eq!(tape.right, vec![1 << 63, 0]);
    assert_eq!(tape.get_index(), 64);
}
