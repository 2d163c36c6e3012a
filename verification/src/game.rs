//! The game as a state machine: one human move and the opponent's reply at a
//! time.

use crate::board::{
    empty_cells, empty_grid, full, lemma_empty_cells, open_at, winner, Board, Cell,
};
use crate::rng::{lcg_next, SimpleRNG};
use vstd::prelude::*;

verus! {

/// How far a game has come. Every state but `InProgress` is final.
#[derive(Clone, Copy, PartialEq, Eq, Structural, Debug)]
pub enum GameState {
    InProgress,
    HumanWin,
    OpponentWin,
    Draw,
    Invalid,
}

/// A game at one moment: the grid, the generator's state, and how far the game
/// has come.
pub struct Position {
    pub cells: Seq<Cell>,
    pub rng: u64,
    pub state: GameState,
}

/// The square that the opponent takes on a grid with an empty square when the
/// generator has produced `drawn`: the empty squares are counted in ascending
/// order, and `drawn` modulo their number says which one it is.
pub open spec fn opponent_choice(cells: Seq<Cell>, drawn: u64) -> usize {
    let empty = empty_cells(cells);
    empty[drawn as int % empty.len() as int]
}

/// The position before the first move of a game with the given seed.
pub open spec fn start(seed: u64) -> Position {
    Position { cells: empty_grid(), rng: seed, state: GameState::InProgress }
}

/// The position after the opponent has answered on the grid `cells`, which has
/// an empty square, from generator state `rng`.
pub open spec fn opponent_reply(cells: Seq<Cell>, rng: u64) -> Position {
    let drawn = lcg_next(rng);
    let answered = cells.update(opponent_choice(cells, drawn) as int, Cell::Opponent);
    Position {
        cells: answered,
        rng: drawn,
        state: if winner(answered) == Some(Cell::Opponent) {
            GameState::OpponentWin
        } else {
            GameState::InProgress
        },
    }
}

/// The position after the human has asked for square `square` in `before`.
/// A finished game stays as it is. A square that does not exist or is taken
/// makes the game invalid. Otherwise the human takes the square; the game ends
/// there if that completes a line for the human or fills the grid, and else
/// the opponent answers.
pub open spec fn turn(before: Position, square: usize) -> Position {
    if before.state != GameState::InProgress {
        before
    } else if !open_at(before.cells, square as int) {
        Position { state: GameState::Invalid, ..before }
    } else {
        let marked = before.cells.update(square as int, Cell::Human);
        if winner(marked) == Some(Cell::Human) {
            Position { cells: marked, rng: before.rng, state: GameState::HumanWin }
        } else if full(marked) {
            Position { cells: marked, rng: before.rng, state: GameState::Draw }
        } else {
            opponent_reply(marked, before.rng)
        }
    }
}

/// Draws the opponent's move on a board that has an empty square.
pub fn get_computer_move(board: &Board, rng: &mut SimpleRNG) -> (position: usize)
    requires
        !full(board@),
    ensures
        final(rng)@ == lcg_next(old(rng)@),
        position == opponent_choice(board@, final(rng)@),
        open_at(board@, position as int),
{
    proof {
        board.lemma_size();
        lemma_empty_cells(board@);
    }
    let empty_cells = board.get_empty_cells();
    let random_index = rng.rand_range(0, empty_cells.len() - 1);
    empty_cells[random_index]
}

/// A game in play. Its view is its position.
pub struct Game {
    board: Board,
    rng: SimpleRNG,
    state: GameState,
}

impl View for Game {
    type V = Position;

    closed spec fn view(&self) -> Position {
        Position { cells: self.board@, rng: self.rng@, state: self.state }
    }
}

impl Game {
    /// A game with the given seed, before the first move.
    pub fn new(seed: u64) -> (game: Game)
        ensures
            game@ == start(seed),
    {
        Game { board: Board::new(), rng: SimpleRNG::new(seed), state: GameState::InProgress }
    }

    /// How far the game has come.
    pub fn state(&self) -> (state: GameState)
        ensures
            state == self@.state,
    {
        self.state
    }

    /// The grid as it stands.
    pub fn board(&self) -> (board: &Board)
        ensures
            board@ == self@.cells,
    {
        &self.board
    }

    /// Plays the human's move to square `square` and, unless that ends the
    /// game, the opponent's answer. Returns how far the game has come.
    pub fn play(&mut self, square: usize) -> (state: GameState)
        ensures
            final(self)@ == turn(old(self)@, square),
            state == final(self)@.state,
    {
        if self.state != GameState::InProgress {
            return self.state;
        }
        if !self.board.make_move(square, Cell::Human) {
            self.state = GameState::Invalid;
            return self.state;
        }
        if self.board.check_winner() == Some(Cell::Human) {
            self.state = GameState::HumanWin;
            return self.state;
        }
        if self.board.is_full() {
            self.state = GameState::Draw;
            return self.state;
        }
        let reply = get_computer_move(&self.board, &mut self.rng);
        self.board.make_move(reply, Cell::Opponent);
        if self.board.check_winner() == Some(Cell::Opponent) {
            self.state = GameState::OpponentWin;
        }
        self.state
    }
}

} // verus!
