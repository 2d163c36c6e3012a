//! Replaying a recorded game from its seed and the human's moves alone, and
//! judging the claim that the human won it.

use crate::board::{
    empty_cells, empty_cells_below, full, lemma_empty_cells, lemma_mark_completes_own_line,
    lemma_mark_takes_one_empty, lemma_winner_is_first_line, line_owner, open_at, winner,
    winner_from, Cell, LINES, SQUARES,
};
use crate::game::{opponent_choice, start, turn, Game, GameState, Position};
use crate::rng::lcg_next;
use crate::transcript::{
    lemma_written_game_reads_back, parse_transcript, transcript_of, transcript_text, GameRound,
};
use vstd::prelude::*;

verus! {

/// The position after the human's moves have been played in order, from the
/// start of a game with the given seed.
pub open spec fn position_after(seed: u64, moves: Seq<usize>) -> Position
    decreases moves.len(),
{
    if moves.len() == 0 {
        start(seed)
    } else {
        turn(position_after(seed, moves.drop_last()), moves.last())
    }
}

/// Whether a written game records a win of the human: the text records a
/// game, and replaying that game ends with a line of the human.
pub open spec fn claims_win(text: Seq<char>) -> bool {
    match transcript_of(text) {
        Some((seed, moves)) => position_after(seed, moves).state == GameState::HumanWin,
        None => false,
    }
}

/// Once a game is over, further moves change nothing: if the game is over
/// after the first `played` moves, the position after all moves is the
/// position after those.
pub proof fn lemma_finished_game_stays(seed: u64, moves: Seq<usize>, played: int)
    requires
        0 <= played <= moves.len(),
        position_after(seed, moves.take(played)).state != GameState::InProgress,
    ensures
        position_after(seed, moves) == position_after(seed, moves.take(played)),
    decreases moves.len(),
{
    if played == moves.len() {
        assert(moves.take(played) =~= moves);
    } else {
        let earlier = moves.drop_last();
        assert(earlier.take(played) =~= moves.take(played));
        lemma_finished_game_stays(seed, earlier, played);
    }
}

/// Replays a recorded game and returns how it ended, or `InProgress` if the
/// moves ran out before it ended.
pub fn replay(round: &GameRound) -> (state: GameState)
    ensures
        state == position_after(round.seed, round.player_moves@).state,
{
    let mut game = Game::new(round.seed);
    let mut played: usize = 0;
    while played < round.player_moves.len() && game.state() == GameState::InProgress
        invariant
            played <= round.player_moves.len(),
            game@ == position_after(round.seed, round.player_moves@.take(played as int)),
        decreases round.player_moves.len() - played,
    {
        proof {
            assert(round.player_moves@.take(played + 1).drop_last() =~= round.player_moves@.take(
                played as int,
            ));
        }
        game.play(round.player_moves[played]);
        played += 1;
    }
    proof {
        if game@.state == GameState::InProgress {
            assert(round.player_moves@.take(played as int) =~= round.player_moves@);
        } else {
            lemma_finished_game_stays(round.seed, round.player_moves@, played as int);
        }
    }
    game.state()
}

/// Judges the claim that the human won the game written in `input`: true if
/// the text records a game whose replay ends with a line of the human, false
/// for every other text.
pub fn verify_player_win(input: &str) -> (won: bool)
    ensures
        won == claims_win(input@),
{
    match parse_transcript(input) {
        Some(round) => replay(&round) == GameState::HumanWin,
        None => false,
    }
}

/// On a grid with an empty square the opponent takes an empty square.
pub proof fn lemma_opponent_takes_empty_square(cells: Seq<Cell>, rng: u64)
    requires
        cells.len() == SQUARES,
        !full(cells),
    ensures
        open_at(cells, opponent_choice(cells, lcg_next(rng)) as int),
{
    lemma_empty_cells(cells);
    let empty = empty_cells(cells);
    let index = (lcg_next(rng) as int) % (empty.len() as int);
    assert(0 <= index < empty.len());
    assert(open_at(cells, empty[index] as int));
}

/// The grid has nine squares, and the state tells who holds a line: the
/// human after a win, the opponent after a loss, nobody in any other state.
/// No line is held by the other side.
pub open spec fn state_matches_grid(position: Position) -> bool {
    &&& position.cells.len() == SQUARES
    &&& winner(position.cells) == match position.state {
        GameState::HumanWin => Some(Cell::Human),
        GameState::OpponentWin => Some(Cell::Opponent),
        _ => None::<Cell>,
    }
    &&& forall|line: int|
        0 <= line < LINES ==> {
            ||| (#[trigger] line_owner(position.cells, line)) is None
            ||| line_owner(position.cells, line) == winner(position.cells)
        }
}

/// A turn keeps the state in step with the grid.
pub proof fn lemma_turn_keeps_state_and_grid(before: Position, square: usize)
    requires
        state_matches_grid(before),
    ensures
        state_matches_grid(turn(before, square)),
{
    if before.state == GameState::InProgress && open_at(before.cells, square as int) {
        let marked = before.cells.update(square as int, Cell::Human);
        lemma_mark_completes_own_line(before.cells, square as int, Cell::Human);
        if winner(marked) != Some(Cell::Human) && !full(marked) {
            lemma_opponent_takes_empty_square(marked, before.rng);
            let choice = opponent_choice(marked, lcg_next(before.rng));
            lemma_mark_completes_own_line(marked, choice as int, Cell::Opponent);
        }
        lemma_winner_is_first_line(turn(before, square).cells);
    }
}

/// At every point of every replay the state is in step with the grid: the
/// state is a win of the human exactly when the human holds a line, a win of
/// the opponent exactly when the opponent does, and in every other state no
/// line is complete. The two sides never hold a line each.
pub proof fn lemma_state_matches_grid(seed: u64, moves: Seq<usize>)
    ensures
        state_matches_grid(position_after(seed, moves)),
    decreases moves.len(),
{
    if moves.len() == 0 {
        reveal_with_fuel(winner_from, 9);
    } else {
        lemma_state_matches_grid(seed, moves.drop_last());
        lemma_turn_keeps_state_and_grid(position_after(seed, moves.drop_last()), moves.last());
    }
}

/// A game that the human has won shows a line of the human.
pub proof fn lemma_win_shows_a_line(seed: u64, moves: Seq<usize>)
    requires
        position_after(seed, moves).state == GameState::HumanWin,
    ensures
        exists|line: int|
            0 <= line < LINES && #[trigger] line_owner(position_after(seed, moves).cells, line)
                == Some(Cell::Human),
{
    lemma_state_matches_grid(seed, moves);
    lemma_winner_is_first_line(position_after(seed, moves).cells);
}

/// A written game whose replay ends on a grid without a complete line claims
/// no win.
pub proof fn lemma_no_line_no_win(text: Seq<char>, seed: u64, moves: Seq<usize>)
    requires
        transcript_of(text) == Some((seed, moves)),
        forall|line: int|
            0 <= line < LINES ==> line_owner(position_after(seed, moves).cells, line) is None,
    ensures
        !claims_win(text),
{
    lemma_state_matches_grid(seed, moves);
    lemma_winner_is_first_line(position_after(seed, moves).cells);
}

/// A move to a square that does not exist or is taken, asked for while the
/// game is in progress, makes the game invalid for good.
pub proof fn lemma_illegal_move_is_final(seed: u64, moves: Seq<usize>, index: int)
    requires
        0 <= index < moves.len(),
        position_after(seed, moves.take(index)).state == GameState::InProgress,
        !open_at(position_after(seed, moves.take(index)).cells, moves[index] as int),
    ensures
        position_after(seed, moves).state == GameState::Invalid,
{
    let upto = moves.take(index + 1);
    assert(upto.drop_last() =~= moves.take(index));
    lemma_finished_game_stays(seed, moves, index + 1);
}

/// A turn never clears a square and never changes who holds it.
pub proof fn lemma_turn_keeps_marks(before: Position, square: usize, other: int)
    requires
        before.cells.len() == SQUARES,
        0 <= other < SQUARES,
        before.cells[other] != Cell::Empty,
    ensures
        turn(before, square).cells[other] == before.cells[other],
        turn(before, square).cells.len() == SQUARES,
{
    if before.state == GameState::InProgress && open_at(before.cells, square as int) {
        let marked = before.cells.update(square as int, Cell::Human);
        if winner(marked) != Some(Cell::Human) && !full(marked) {
            lemma_opponent_takes_empty_square(marked, before.rng);
        }
    }
}

/// Throughout a replay no square is ever cleared and none changes hands: a
/// square that is taken after the first `played` moves is held by the same
/// side after all of them.
pub proof fn lemma_marks_stay(seed: u64, moves: Seq<usize>, played: int, square: int)
    requires
        0 <= played <= moves.len(),
        0 <= square < SQUARES,
        position_after(seed, moves.take(played)).cells[square] != Cell::Empty,
    ensures
        position_after(seed, moves).cells[square] == position_after(
            seed,
            moves.take(played),
        ).cells[square],
    decreases moves.len(),
{
    if played == moves.len() {
        assert(moves.take(played) =~= moves);
    } else {
        let earlier = moves.drop_last();
        assert(earlier.take(played) =~= moves.take(played));
        lemma_marks_stay(seed, earlier, played, square);
        lemma_state_matches_grid(seed, earlier);
        lemma_turn_keeps_marks(position_after(seed, earlier), moves.last(), square);
    }
}

/// While a game is in progress, every move played has filled two squares:
/// the human's and the opponent's.
pub proof fn lemma_two_squares_a_turn(seed: u64, moves: Seq<usize>)
    requires
        position_after(seed, moves).state == GameState::InProgress,
    ensures
        empty_cells(position_after(seed, moves).cells).len() + 2 * moves.len() == SQUARES,
    decreases moves.len(),
{
    if moves.len() == 0 {
        reveal_with_fuel(empty_cells_below, 10);
    } else {
        let before = position_after(seed, moves.drop_last());
        let square = moves.last();
        lemma_two_squares_a_turn(seed, moves.drop_last());
        lemma_state_matches_grid(seed, moves.drop_last());
        let marked = before.cells.update(square as int, Cell::Human);
        lemma_mark_takes_one_empty(before.cells, square as int, Cell::Human);
        lemma_opponent_takes_empty_square(marked, before.rng);
        let choice = opponent_choice(marked, lcg_next(before.rng));
        lemma_mark_takes_one_empty(marked, choice as int, Cell::Opponent);
    }
}

/// Every game is over after five moves of the human.
pub proof fn lemma_five_moves_end_the_game(seed: u64, moves: Seq<usize>)
    requires
        moves.len() >= 5,
    ensures
        position_after(seed, moves).state != GameState::InProgress,
{
    if position_after(seed, moves).state == GameState::InProgress {
        lemma_two_squares_a_turn(seed, moves);
    }
}

/// The written record of a game claims a win exactly when replaying the game
/// ends with a win of the human.
pub proof fn lemma_written_record_claims(seed: u64, moves: Seq<usize>)
    ensures
        claims_win(transcript_text(seed, moves)) == (position_after(seed, moves).state
            == GameState::HumanWin),
{
    lemma_written_game_reads_back(seed, moves);
}

/// The verdict depends on the characters of the text and on nothing else:
/// two texts with the same characters get the same verdict, whenever and
/// wherever they are judged.
pub proof fn lemma_same_text_same_verdict(first: &str, second: &str)
    requires
        first@ == second@,
    ensures
        claims_win(first@) == claims_win(second@),
{
}

/// A text that records no game claims no win.
pub proof fn lemma_unreadable_text_claims_nothing(text: Seq<char>)
    requires
        transcript_of(text) is None,
    ensures
        !claims_win(text),
{
}

} // verus!
