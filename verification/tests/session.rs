use tictactoe_replay::board::Cell;
use tictactoe_replay::game::{Game, GameState};
use tictactoe_replay::replay::{replay, verify_player_win};
use tictactoe_replay::session::Session;
use tictactoe_replay::transcript::{format_seed_and_moves, GameRound};

#[test]
fn game_starts_in_progress_and_empty() {
    let game = Game::new(1);
    assert_eq!(game.state(), GameState::InProgress);
    assert_eq!(game.board().get_empty_cells().len(), 9);
}

#[test]
fn first_turn_with_seed_one() {
    let mut game = Game::new(1);
    assert_eq!(game.play(0), GameState::InProgress);
    assert_eq!(game.board().cell(0), Cell::Human);
    assert_eq!(game.board().cell(5), Cell::Opponent);
    assert_eq!(game.board().get_empty_cells(), vec![1, 2, 3, 4, 6, 7, 8]);
}

#[test]
fn winning_move_gets_no_answer() {
    let mut game = Game::new(0);
    assert_eq!(game.play(0), GameState::InProgress);
    assert_eq!(game.play(1), GameState::InProgress);
    assert_eq!(game.play(2), GameState::HumanWin);
    // Two answers only: squares 8 and 6.
    assert_eq!(game.board().get_empty_cells(), vec![3, 4, 5, 7]);
    assert_eq!(game.board().cell(8), Cell::Opponent);
    assert_eq!(game.board().cell(6), Cell::Opponent);
    assert_eq!(game.board().check_winner(), Some(Cell::Human));
}

#[test]
fn finished_game_stays_as_it_is() {
    let mut game = Game::new(0);
    game.play(0);
    game.play(1);
    assert_eq!(game.play(2), GameState::HumanWin);
    assert_eq!(game.play(3), GameState::HumanWin);
    assert_eq!(game.play(9), GameState::HumanWin);
    assert_eq!(game.board().get_empty_cells(), vec![3, 4, 5, 7]);
}

#[test]
fn illegal_move_makes_the_game_invalid() {
    let mut game = Game::new(1);
    assert_eq!(game.play(9), GameState::Invalid);
    assert_eq!(game.play(0), GameState::Invalid);
    assert_eq!(game.board().get_empty_cells().len(), 9);
}

#[test]
fn opponent_can_win() {
    let mut game = Game::new(0);
    assert_eq!(game.play(0), GameState::InProgress);
    assert_eq!(game.play(6), GameState::InProgress);
    assert_eq!(game.play(4), GameState::OpponentWin);
    assert_eq!(game.board().check_winner(), Some(Cell::Opponent));
}

#[test]
fn game_can_be_drawn() {
    let mut game = Game::new(0);
    for position in [0, 2, 3, 5] {
        assert_eq!(game.play(position), GameState::InProgress);
    }
    assert_eq!(game.play(7), GameState::Draw);
    assert!(game.board().is_full());
    assert_eq!(game.board().check_winner(), None);
}

#[test]
fn session_records_accepted_moves() {
    let mut session = Session::new(0);
    assert!(session.play(0));
    assert!(!session.play(0));
    assert!(!session.play(8));
    assert!(!session.play(9));
    assert!(session.play(1));
    assert_eq!(session.state(), GameState::InProgress);
    assert_eq!(session.transcript(), "0,0,1");
    assert!(session.play(2));
    assert_eq!(session.state(), GameState::HumanWin);
    assert!(!session.play(3));
    assert_eq!(session.transcript(), "0,0,1,2");
    let round = session.into_round();
    assert_eq!(round.seed, 0);
    assert_eq!(round.player_moves, vec![0, 1, 2]);
}

#[test]
fn won_session_is_confirmed_from_its_text() {
    let mut session = Session::new(42);
    for position in [4, 0, 8] {
        assert!(session.play(position));
    }
    assert_eq!(session.state(), GameState::HumanWin);
    assert!(verify_player_win(&session.transcript()));
}

#[test]
fn lost_session_is_not_confirmed() {
    let mut session = Session::new(0);
    for position in [0, 6, 4] {
        assert!(session.play(position));
    }
    assert_eq!(session.state(), GameState::OpponentWin);
    assert_eq!(session.board().render(), "Z|1|K\n-+-+-\n3|Z|K\n-+-+-\nZ|7|K\n\n");
    assert!(!verify_player_win(&session.transcript()));
}

#[test]
fn any_session_agrees_with_its_replay() {
    for seed in 0..200u64 {
        let mut session = Session::new(seed);
        // Ask for the squares in an order that depends on the seed and comes
        // by every square; refused ones are skipped.
        let step = [1, 2, 4, 5, 7, 8][(seed % 6) as usize];
        let mut wanted = (seed % 9) as usize;
        while session.state() == GameState::InProgress {
            session.play(wanted);
            wanted = (wanted + step) % 9;
        }
        let won = session.state() == GameState::HumanWin;
        assert_eq!(verify_player_win(&session.transcript()), won, "seed {}", seed);
    }
}

/// Every way to ask for `count` different squares.
fn orders(count: usize) -> Vec<Vec<usize>> {
    let mut all: Vec<Vec<usize>> = vec![vec![]];
    for _ in 0..count {
        let mut longer = Vec::new();
        for order in &all {
            for square in 0..9 {
                if !order.contains(&square) {
                    let mut next = order.clone();
                    next.push(square);
                    longer.push(next);
                }
            }
        }
        all = longer;
    }
    all
}

#[test]
fn verdict_is_a_win_exactly_when_the_human_holds_a_line() {
    for seed in [0u64, 1, 42, u64::MAX] {
        for moves in orders(4) {
            let mut game = Game::new(seed);
            for &position in &moves {
                game.play(position);
            }
            let line = game.board().check_winner();
            let text = format_seed_and_moves(seed, &moves);
            assert_eq!(verify_player_win(&text), line == Some(Cell::Human), "{}", text);
            if line.is_none() {
                assert!(!verify_player_win(&text), "{}", text);
            }
            match game.state() {
                GameState::HumanWin => assert_eq!(line, Some(Cell::Human)),
                GameState::OpponentWin => assert_eq!(line, Some(Cell::Opponent)),
                _ => assert_eq!(line, None),
            }
        }
    }
}

#[test]
fn five_moves_end_every_game() {
    for seed in [0u64, 7] {
        for moves in orders(5) {
            let state = replay(&GameRound { seed, player_moves: moves });
            assert_ne!(state, GameState::InProgress);
        }
    }
}

#[test]
fn marks_are_never_cleared() {
    for seed in 0..50u64 {
        let mut game = Game::new(seed);
        let mut earlier: Vec<Cell> = (0..9).map(|square| game.board().cell(square)).collect();
        for position in [4, 0, 8, 2, 6, 1, 3, 5, 7, 9] {
            game.play(position);
            for square in 0..9 {
                let now = game.board().cell(square);
                if earlier[square] != Cell::Empty {
                    assert_eq!(now, earlier[square]);
                }
                earlier[square] = now;
            }
        }
    }
}
