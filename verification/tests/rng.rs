use tictactoe_replay::board::{Board, Cell};
use tictactoe_replay::game::get_computer_move;
use tictactoe_replay::rng::SimpleRNG;

#[test]
fn first_value_for_seed_one() {
    let mut rng = SimpleRNG::new(1);
    assert_eq!(rng.next(), 7806831264735756412);
}

#[test]
fn values_for_seed_zero() {
    let mut rng = SimpleRNG::new(0);
    assert_eq!(rng.next(), 1442695040888963407);
    assert_eq!(rng.next(), 1876011003808476466);
    assert_eq!(rng.next(), 11166244414315200793);
}

#[test]
fn largest_seed_wraps_around() {
    let mut rng = SimpleRNG::new(u64::MAX);
    assert_eq!(rng.next(), 13525302890751722018);
}

#[test]
fn same_seed_same_values() {
    let mut first = SimpleRNG::new(2024);
    let mut second = SimpleRNG::new(2024);
    for _ in 0..20 {
        assert_eq!(first.next(), second.next());
    }
}

#[test]
fn range_pick_is_offset_plus_remainder() {
    // 7806831264735756412 modulo 8 is 4.
    assert_eq!(SimpleRNG::new(1).rand_range(0, 7), 4);
    assert_eq!(SimpleRNG::new(1).rand_range(3, 10), 7);
    // 7806831264735756412 modulo 3 is 1.
    assert_eq!(SimpleRNG::new(1).rand_range(10, 12), 11);
}

#[test]
fn range_of_one_value_picks_it() {
    let mut rng = SimpleRNG::new(7);
    assert_eq!(rng.rand_range(5, 5), 5);
    assert_eq!(rng.rand_range(0, 0), 0);
}

#[test]
fn range_pick_advances_the_generator() {
    let mut picked = SimpleRNG::new(1);
    picked.rand_range(0, 7);
    let mut stepped = SimpleRNG::new(1);
    stepped.next();
    assert_eq!(picked.next(), stepped.next());
}

#[test]
fn opponent_answers_square_zero_with_square_five() {
    let mut board = Board::new();
    assert!(board.make_move(0, Cell::Human));
    assert_eq!(board.get_empty_cells(), vec![1, 2, 3, 4, 5, 6, 7, 8]);
    let mut rng = SimpleRNG::new(1);
    assert_eq!(get_computer_move(&board, &mut rng), 5);
}

#[test]
fn opponent_takes_the_last_empty_square() {
    let mut board = Board::new();
    for position in 0..8 {
        assert!(board.make_move(position, Cell::Human));
    }
    let mut rng = SimpleRNG::new(99);
    assert_eq!(get_computer_move(&board, &mut rng), 8);
}
