//! A game as it is played live: the human's moves come in one at a time, the
//! opponent answers from the generator, and the moves are recorded so that
//! the game can be replayed from its record alone.

use crate::board::{open_at, Board};
use crate::game::{start, turn, Game, GameState, Position};
use crate::replay::{claims_win, lemma_written_record_claims, position_after};
use crate::transcript::{format_seed_and_moves, transcript_text, GameRound};
use vstd::prelude::*;

verus! {

/// A live game at one moment: where the game stands, the seed it began with,
/// and the human's moves so far.
pub struct Recorded {
    pub position: Position,
    pub seed: u64,
    pub moves: Seq<usize>,
}

/// A live game together with its record.
pub struct Session {
    game: Game,
    seed: u64,
    moves: Vec<usize>,
}

impl View for Session {
    type V = Recorded;

    closed spec fn view(&self) -> Recorded {
        Recorded { position: self.game@, seed: self.seed, moves: self.moves@ }
    }
}

impl Session {
    /// The record tells the whole game: replaying the recorded moves from the
    /// recorded seed leads to the position where the game stands. No recorded
    /// move was refused.
    pub open spec fn well_formed(&self) -> bool {
        &&& self@.position == position_after(self@.seed, self@.moves)
        &&& self@.position.state != GameState::Invalid
    }

    /// A game with the given seed, before the first move.
    pub fn new(seed: u64) -> (session: Session)
        ensures
            session.well_formed(),
            session@ == (Recorded { position: start(seed), seed, moves: Seq::empty() }),
    {
        Session { game: Game::new(seed), seed, moves: Vec::new() }
    }

    /// How far the game has come.
    pub fn state(&self) -> (state: GameState)
        ensures
            state == self@.position.state,
    {
        self.game.state()
    }

    /// The grid as it stands.
    pub fn board(&self) -> (board: &Board)
        ensures
            board@ == self@.position.cells,
    {
        self.game.board()
    }

    /// Plays the human's move to square `square` and the opponent's answer,
    /// and records the move. A move is refused, and nothing changes, when the
    /// game is over or the square does not exist or is taken.
    pub fn play(&mut self, square: usize) -> (accepted: bool)
        requires
            old(self).well_formed(),
        ensures
            final(self).well_formed(),
            accepted == (old(self)@.position.state == GameState::InProgress && open_at(
                old(self)@.position.cells,
                square as int,
            )),
            accepted ==> final(self)@ == (Recorded {
                position: turn(old(self)@.position, square),
                seed: old(self)@.seed,
                moves: old(self)@.moves.push(square),
            }),
            !accepted ==> final(self)@ == old(self)@,
    {
        if self.game.state() != GameState::InProgress || !self.game.board().is_open(square) {
            return false;
        }
        self.game.play(square);
        self.moves.push(square);
        proof {
            assert(self.moves@.drop_last() =~= old(self).moves@);
        }
        true
    }

    /// The record of the game so far.
    pub fn into_round(self) -> (round: GameRound)
        ensures
            round.seed == self@.seed,
            round.player_moves@ == self@.moves,
    {
        GameRound { seed: self.seed, player_moves: self.moves }
    }

    /// The game so far, written down. The text claims a win exactly when the
    /// human has won.
    pub fn transcript(&self) -> (text: String)
        requires
            self.well_formed(),
        ensures
            text@ == transcript_text(self@.seed, self@.moves),
            claims_win(text@) == (self@.position.state == GameState::HumanWin),
    {
        proof {
            lemma_written_record_claims(self.seed, self.moves@);
        }
        format_seed_and_moves(self.seed, self.moves.as_slice())
    }
}

} // verus!
