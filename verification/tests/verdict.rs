use tictactoe_replay::game::GameState;
use tictactoe_replay::replay::{replay, verify_player_win};
use tictactoe_replay::transcript::GameRound;

fn outcome(seed: u64, moves: &[usize]) -> GameState {
    replay(&GameRound { seed, player_moves: moves.to_vec() })
}

#[test]
fn non_numeric_seed_is_rejected() {
    assert!(!verify_player_win("abc,0"));
}

#[test]
fn move_nine_is_out_of_range() {
    assert!(!verify_player_win("1,9"));
    assert_eq!(outcome(1, &[9]), GameState::Invalid);
}

#[test]
fn single_move_leaves_game_unfinished() {
    assert!(!verify_player_win("1,0"));
    assert_eq!(outcome(1, &[0]), GameState::InProgress);
}

#[test]
fn out_of_range_second_move_is_rejected() {
    assert!(!verify_player_win("1,0,9"));
    assert_eq!(outcome(1, &[0, 9]), GameState::Invalid);
}

#[test]
fn repeated_square_is_rejected() {
    assert!(!verify_player_win("1,0,0"));
    assert_eq!(outcome(1, &[0, 0]), GameState::Invalid);
}

#[test]
fn square_taken_by_opponent_is_rejected() {
    // With seed 1 the opponent answers square 0 with square 5.
    assert!(!verify_player_win("1,0,5"));
    assert_eq!(outcome(1, &[0, 5]), GameState::Invalid);
}

#[test]
fn seed_alone_claims_nothing() {
    assert!(!verify_player_win("1"));
    assert_eq!(outcome(1, &[]), GameState::InProgress);
}

#[test]
fn top_row_wins_with_seed_zero() {
    // The opponent answers with squares 8 and 6.
    assert!(verify_player_win("0,0,1,2"));
    assert_eq!(outcome(0, &[0, 1, 2]), GameState::HumanWin);
}

#[test]
fn diagonal_wins_with_seed_forty_two() {
    assert!(verify_player_win("42,4,0,8"));
    assert_eq!(outcome(42, &[4, 0, 8]), GameState::HumanWin);
}

#[test]
fn two_moves_of_a_winning_game_are_no_win() {
    assert!(!verify_player_win("0,0,1"));
    assert_eq!(outcome(0, &[0, 1]), GameState::InProgress);
}

#[test]
fn opponent_win_is_no_win() {
    // The opponent takes 8, 5 and 2: the right column.
    assert!(!verify_player_win("0,0,6,4"));
    assert_eq!(outcome(0, &[0, 6, 4]), GameState::OpponentWin);
}

#[test]
fn moves_after_an_opponent_win_change_nothing() {
    assert!(!verify_player_win("0,0,6,4,1,3,7"));
    assert_eq!(outcome(0, &[0, 6, 4, 1, 3, 7]), GameState::OpponentWin);
}

#[test]
fn full_board_without_line_is_a_draw() {
    assert!(!verify_player_win("0,0,2,3,5,7"));
    assert_eq!(outcome(0, &[0, 2, 3, 5, 7]), GameState::Draw);
}

#[test]
fn moves_after_a_win_are_ignored() {
    assert!(verify_player_win("0,0,1,2,7"));
    assert!(verify_player_win("0,0,1,2,0"));
    assert!(verify_player_win("0,0,1,2,99"));
    assert_eq!(outcome(0, &[0, 1, 2, 99]), GameState::HumanWin);
}

#[test]
fn unreadable_piece_after_a_win_spoils_the_claim() {
    assert!(!verify_player_win("0,0,1,2,abc"));
    assert!(!verify_player_win("0,0,1,2,"));
    assert!(!verify_player_win("0,0,1,2,-1"));
}

#[test]
fn plus_sign_and_leading_zeros_are_read() {
    assert!(verify_player_win("+0,0,1,2"));
    assert!(verify_player_win("0,+0,+1,+2"));
    assert!(verify_player_win("000,00,01,002"));
    assert!(verify_player_win("+00042,4,0,8"));
}

#[test]
fn malformed_texts_claim_nothing() {
    assert!(!verify_player_win(""));
    assert!(!verify_player_win(","));
    assert!(!verify_player_win(",0,1,2"));
    assert!(!verify_player_win("0,,0,1,2"));
    assert!(!verify_player_win("0,0,1,,2"));
    assert!(!verify_player_win(" 0,0,1,2"));
    assert!(!verify_player_win("0, 0,1,2"));
    assert!(!verify_player_win("0,0,1,2\n"));
    assert!(!verify_player_win("0,0,1,2 "));
    assert!(!verify_player_win("-0,0,1,2"));
    assert!(!verify_player_win("++0,0,1,2"));
    assert!(!verify_player_win("0+,0,1,2"));
    assert!(!verify_player_win("+,0,1,2"));
    assert!(!verify_player_win("0,0,1,+"));
    assert!(!verify_player_win("0x0,0,1,2"));
    assert!(!verify_player_win("0.0,0,1,2"));
    assert!(!verify_player_win("0;0;1;2"));
    assert!(!verify_player_win("\u{ff10},0,1,2"));
    assert!(!verify_player_win("0,0,1,\u{0662}"));
}

#[test]
fn seed_must_fit_in_sixty_four_bits() {
    assert!(!verify_player_win("18446744073709551616,0,1,2"));
    assert!(!verify_player_win("99999999999999999999999999,0,1,2"));
    // The largest seed is read; its game is merely unfinished.
    assert!(!verify_player_win("18446744073709551615,0"));
    assert_eq!(outcome(18446744073709551615, &[0]), GameState::InProgress);
}

#[test]
fn huge_move_is_rejected() {
    assert!(!verify_player_win("0,0,1,99999999999999999999999999"));
    assert!(!verify_player_win("0,99999999999999999999999999,0,1,2"));
}

#[test]
fn same_text_same_verdict() {
    for text in ["0,0,1,2", "1,0", "abc,0", "0,0,6,4", ""] {
        assert_eq!(verify_player_win(text), verify_player_win(text));
    }
}
