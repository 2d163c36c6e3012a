//! The written form of a game: the seed and the human's moves as decimal
//! numbers, separated by commas.

use crate::decimal::{
    decimal_digits, lemma_decimal_digits, lemma_numeral_of_digits, numeral_u64, numeral_value,
    parse_u64, push_decimal, NumeralReader,
};
use vstd::prelude::*;
use vstd::string::StringExecFns;

verus! {

/// The record of one game: the seed of the opponent's generator and the squares
/// that the human asked for, in the order of play.
#[derive(Debug)]
pub struct GameRound {
    pub seed: u64,
    pub player_moves: Vec<usize>,
}

/// The seed that a piece of text denotes: the number of a numeral that fits in
/// 64 bits.
pub open spec fn seed_of(piece: Seq<char>) -> Option<u64> {
    numeral_u64(piece)
}

/// The move that a piece of text denotes: the number of a numeral that fits in
/// a machine word. Whether the grid has such a square is not asked here.
pub open spec fn move_of(piece: Seq<char>) -> Option<usize> {
    match numeral_value(piece) {
        Some(value) => if value <= usize::MAX {
            Some(value as usize)
        } else {
            None
        },
        None => None,
    }
}

/// The pieces of `text` between its commas, in order. A text with n commas has
/// n + 1 pieces, some of which may be empty.
pub open spec fn split_commas(text: Seq<char>) -> Seq<Seq<char>>
    decreases text.len(),
{
    if text.len() == 0 {
        seq![Seq::empty()]
    } else {
        let before = split_commas(text.drop_last());
        if text.last() == ',' {
            before.push(Seq::empty())
        } else {
            before.drop_last().push(before.last().push(text.last()))
        }
    }
}

/// The seed and the moves that `text` records: its first piece is the seed,
/// each later piece a move. A text with a piece that denotes no seed or no
/// move records nothing.
pub open spec fn transcript_of(text: Seq<char>) -> Option<(u64, Seq<usize>)> {
    let pieces = split_commas(text);
    let moves = pieces.drop_first();
    if seed_of(pieces[0]) is Some && forall|j: int|
        0 <= j < moves.len() ==> (#[trigger] move_of(moves[j])) is Some {
        Some((seed_of(pieces[0])->0, moves.map_values(|piece: Seq<char>| move_of(piece)->0)))
    } else {
        None
    }
}

/// A text always has a last piece.
pub proof fn lemma_split_nonempty(text: Seq<char>)
    ensures
        split_commas(text).len() >= 1,
    decreases text.len(),
{
    if text.len() > 0 {
        lemma_split_nonempty(text.drop_last());
    }
}

/// A comma at the end of a text starts a new, empty piece; any other character
/// joins the last piece.
pub proof fn lemma_split_push(text: Seq<char>, c: char)
    ensures
        c == ',' ==> split_commas(text.push(c)) == split_commas(text).push(Seq::empty()),
        c != ',' ==> split_commas(text.push(c)) == split_commas(text).drop_last().push(
            split_commas(text).last().push(c),
        ),
{
    assert(text.push(c).drop_last() =~= text);
}

/// Pieces put together again, with a comma between each two.
pub open spec fn join_commas(pieces: Seq<Seq<char>>) -> Seq<char>
    decreases pieces.len(),
{
    if pieces.len() == 0 {
        Seq::empty()
    } else if pieces.len() == 1 {
        pieces[0]
    } else {
        join_commas(pieces.drop_last()) + seq![','] + pieces.last()
    }
}

/// Splitting loses nothing and cuts at every comma: no piece holds a comma,
/// and the pieces joined with commas are the text again.
pub proof fn lemma_split_joins_back(text: Seq<char>)
    ensures
        join_commas(split_commas(text)) == text,
        forall|j: int, i: int|
            0 <= j < split_commas(text).len() && 0 <= i < split_commas(text)[j].len()
                ==> split_commas(text)[j][i] != ',',
    decreases text.len(),
{
    lemma_split_nonempty(text);
    let pieces = split_commas(text);
    if text.len() > 0 {
        let shorter = text.drop_last();
        let before = split_commas(shorter);
        lemma_split_nonempty(shorter);
        lemma_split_joins_back(shorter);
        assert(shorter.push(text.last()) =~= text);
        if text.last() == ',' {
            assert(pieces.drop_last() =~= before);
        } else {
            assert(pieces.drop_last() =~= before.drop_last());
            assert(pieces.last() == before.last().push(text.last()));
        }
    }
}

/// The piece in place `place` denotes what that place asks for: a seed in the
/// first place, a move in every other.
spec fn fits_place(piece: Seq<char>, place: int) -> bool {
    if place == 0 {
        seed_of(piece) is Some
    } else {
        move_of(piece) is Some
    }
}

/// Every piece but the last, which may still grow, denotes what its place
/// asks for.
spec fn closed_pieces_fit(pieces: Seq<Seq<char>>) -> bool {
    forall|j: int| 0 <= j < pieces.len() - 1 ==> fits_place(#[trigger] pieces[j], j)
}

/// What has been gathered from the pieces that are closed: the seed from the
/// first, a move from each of the others.
spec fn gathered(pieces: Seq<Seq<char>>, have_seed: bool, seed: u64, moves: Seq<usize>) -> bool {
    &&& have_seed == (pieces.len() > 1)
    &&& have_seed ==> seed_of(pieces[0]) == Some(seed)
    &&& moves.len() == if have_seed {
        pieces.len() - 2
    } else {
        0
    }
    &&& forall|j: int| 0 <= j < moves.len() ==> move_of(pieces[j + 1]) == Some(#[trigger] moves[j])
}

/// How one more character changes whether the closed pieces fit.
proof fn lemma_fit_step(pieces: Seq<Seq<char>>, c: char)
    requires
        pieces.len() >= 1,
    ensures
        c == ',' ==> closed_pieces_fit(pieces.push(Seq::empty())) == (closed_pieces_fit(pieces)
            && fits_place(pieces.last(), pieces.len() - 1)),
        c != ',' ==> closed_pieces_fit(pieces.drop_last().push(pieces.last().push(c)))
            == closed_pieces_fit(pieces),
{
    let n = pieces.len() as int;
    if c == ',' {
        let longer = pieces.push(Seq::empty());
        if closed_pieces_fit(pieces) && fits_place(pieces.last(), n - 1) {
            assert forall|j: int| 0 <= j < longer.len() - 1 implies fits_place(
                #[trigger] longer[j],
                j,
            ) by {
                assert(longer[j] == pieces[j]);
            }
        }
        if closed_pieces_fit(longer) {
            assert(longer[n - 1] == pieces.last());
            assert forall|j: int| 0 <= j < pieces.len() - 1 implies fits_place(
                #[trigger] pieces[j],
                j,
            ) by {
                assert(longer[j] == pieces[j]);
            }
        }
    } else {
        let changed = pieces.drop_last().push(pieces.last().push(c));
        if closed_pieces_fit(pieces) {
            assert forall|j: int| 0 <= j < changed.len() - 1 implies fits_place(
                #[trigger] changed[j],
                j,
            ) by {
                assert(changed[j] == pieces[j]);
            }
        }
        if closed_pieces_fit(changed) {
            assert forall|j: int| 0 <= j < pieces.len() - 1 implies fits_place(
                #[trigger] pieces[j],
                j,
            ) by {
                assert(changed[j] == pieces[j]);
            }
        }
    }
}

/// A text records a game exactly when every piece, the last one too, denotes
/// what its place asks for.
proof fn lemma_fit_at_end(text: Seq<char>)
    ensures
        split_commas(text).len() >= 1,
        transcript_of(text) is Some <==> closed_pieces_fit(split_commas(text)) && fits_place(
            split_commas(text).last(),
            split_commas(text).len() - 1,
        ),
{
    lemma_split_nonempty(text);
    let pieces = split_commas(text);
    let moves = pieces.drop_first();
    let n = pieces.len() as int;
    if transcript_of(text) is Some {
        assert forall|j: int| 0 <= j < n implies fits_place(#[trigger] pieces[j], j) by {
            if j > 0 {
                assert(move_of(moves[j - 1]) is Some);
            }
        }
    }
    if closed_pieces_fit(pieces) && fits_place(pieces.last(), n - 1) {
        assert forall|j: int| 0 <= j < moves.len() implies (#[trigger] move_of(moves[j])) is Some by {
            assert(fits_place(pieces[j + 1], j + 1));
        }
    }
}

/// Reads one move: an optional `+`, then one digit or more. Returns the
/// number if the text is of that form and the number fits in a machine word,
/// and nothing otherwise.
pub fn parse_move(input: &str) -> (position: Option<usize>)
    ensures
        position == move_of(input@),
{
    match parse_u64(input) {
        Some(value) => if value <= usize::MAX as u64 {
            Some(value as usize)
        } else {
            None
        },
        None => None,
    }
}

/// Reads a written game. Returns the game if every piece of the text denotes
/// what its place asks for, and nothing otherwise.
pub fn parse_transcript(input: &str) -> (round: Option<GameRound>)
    ensures
        match round {
            Some(round) => transcript_of(input@) == Some((round.seed, round.player_moves@)),
            None => transcript_of(input@) is None,
        },
{
    let mut seed: u64 = 0;
    let mut have_seed = false;
    let mut moves: Vec<usize> = Vec::new();
    let mut fit = true;
    let mut reader = NumeralReader::new();
    for c in it: input.chars()
        invariant
            it.seq() == input@,
            split_commas(input@.take(it.index())).len() >= 1,
            reader.has_read(split_commas(input@.take(it.index())).last()),
            fit == closed_pieces_fit(split_commas(input@.take(it.index()))),
            fit ==> gathered(split_commas(input@.take(it.index())), have_seed, seed, moves@),
    {
        let ghost seen = input@.take(it.index());
        let ghost pieces = split_commas(seen);
        proof {
            assert(input@.take(it.index() + 1) =~= seen.push(c));
            lemma_split_push(seen, c);
            lemma_fit_step(pieces, c);
        }
        if c == ',' {
            let closed = reader.finish(Ghost(pieces.last()));
            if fit {
                match closed {
                    None => {
                        fit = false;
                    },
                    Some(value) => {
                        if !have_seed {
                            seed = value;
                            have_seed = true;
                        } else if value <= usize::MAX as u64 {
                            moves.push(value as usize);
                        } else {
                            fit = false;
                        }
                    },
                }
            }
            reader = NumeralReader::new();
        } else {
            reader.push(c, Ghost(pieces.last()));
        }
    }
    proof {
        assert(input@.take(input@.len() as int) =~= input@);
        lemma_fit_at_end(input@);
    }
    let ghost pieces = split_commas(input@);
    let last = reader.finish(Ghost(pieces.last()));
    if !fit {
        return None;
    }
    match last {
        None => None,
        Some(value) => {
            if !have_seed {
                seed = value;
            } else if value <= usize::MAX as u64 {
                moves.push(value as usize);
            } else {
                return None;
            }
            let round = GameRound { seed, player_moves: moves };
            proof {
                assert(round.player_moves@ =~= pieces.drop_first().map_values(
                    |piece: Seq<char>| move_of(piece)->0,
                ));
            }
            Some(round)
        },
    }
}

/// The pieces of a written game: the seed in base ten, then each move in base
/// ten.
pub open spec fn written_pieces(seed: u64, moves: Seq<usize>) -> Seq<Seq<char>> {
    seq![decimal_digits(seed as nat)] + moves.map_values(|m: usize| decimal_digits(m as nat))
}

/// A game written down: the seed and the moves in base ten, with a comma
/// between each two.
pub open spec fn transcript_text(seed: u64, moves: Seq<usize>) -> Seq<char> {
    join_commas(written_pieces(seed, moves))
}

/// Writes a game down: the seed and the moves in base ten, with a comma
/// between each two.
pub fn format_seed_and_moves(seed: u64, moves: &[usize]) -> (text: String)
    ensures
        text@ == transcript_text(seed, moves@),
{
    let mut result = String::new();
    push_decimal(&mut result, seed);
    let mut written: usize = 0;
    proof {
        assert(written_pieces(seed, moves@.take(0)) =~= seq![decimal_digits(seed as nat)]);
    }
    while written < moves.len()
        invariant
            written <= moves.len(),
            result@ == transcript_text(seed, moves@.take(written as int)),
        decreases moves.len() - written,
    {
        result.append(",");
        push_decimal(&mut result, moves[written] as u64);
        proof {
            reveal_strlit(",");
            let pieces = written_pieces(seed, moves@.take(written + 1));
            assert(pieces.drop_last() =~= written_pieces(seed, moves@.take(written as int)));
        }
        written += 1;
    }
    proof {
        assert(moves@.take(moves@.len() as int) =~= moves@);
    }
    result
}

/// Characters that are no commas, added at the end of a text, join its last
/// piece.
pub proof fn lemma_split_plain(text: Seq<char>, tail: Seq<char>)
    requires
        forall|i: int| 0 <= i < tail.len() ==> tail[i] != ',',
    ensures
        split_commas(text + tail) == split_commas(text).drop_last().push(
            split_commas(text).last() + tail,
        ),
    decreases tail.len(),
{
    lemma_split_nonempty(text);
    let pieces = split_commas(text);
    if tail.len() == 0 {
        assert(text + tail =~= text);
        assert(pieces.last() + tail =~= pieces.last());
    } else {
        let shorter = tail.drop_last();
        lemma_split_plain(text, shorter);
        lemma_split_push(text + shorter, tail.last());
        assert((text + shorter).push(tail.last()) =~= text + tail);
        assert((pieces.last() + shorter).push(tail.last()) =~= pieces.last() + tail);
    }
}

/// Joining undoes nothing that splitting cannot find again: pieces without
/// commas, joined with commas and split at them, are the same pieces.
pub proof fn lemma_join_splits_back(pieces: Seq<Seq<char>>)
    requires
        pieces.len() >= 1,
        forall|j: int, i: int|
            0 <= j < pieces.len() && 0 <= i < pieces[j].len() ==> pieces[j][i] != ',',
    ensures
        split_commas(join_commas(pieces)) == pieces,
    decreases pieces.len(),
{
    let last = pieces.last();
    assert forall|i: int| 0 <= i < last.len() implies last[i] != ',' by {
        assert(pieces[pieces.len() - 1][i] != ',');
    }
    if pieces.len() == 1 {
        lemma_split_plain(Seq::empty(), last);
        assert(Seq::<char>::empty() + last =~= last);
    } else {
        let earlier = pieces.drop_last();
        let text = join_commas(earlier);
        assert forall|j: int, i: int|
            0 <= j < earlier.len() && 0 <= i < earlier[j].len() implies earlier[j][i] != ',' by {
            assert(earlier[j] == pieces[j]);
        }
        lemma_join_splits_back(earlier);
        lemma_split_push(text, ',');
        assert(text + seq![','] =~= text.push(','));
        lemma_split_plain(text.push(','), last);
        assert(earlier.push(last) =~= pieces);
    }
}

/// Reading a written game gives back the seed and the moves that were written.
pub proof fn lemma_written_game_reads_back(seed: u64, moves: Seq<usize>)
    ensures
        transcript_of(transcript_text(seed, moves)) == Some((seed, moves)),
{
    let pieces = written_pieces(seed, moves);
    assert forall|j: int, i: int|
        0 <= j < pieces.len() && 0 <= i < pieces[j].len() implies pieces[j][i] != ',' by {
        if j == 0 {
            lemma_decimal_digits(seed as nat);
        } else {
            lemma_decimal_digits(moves[j - 1] as nat);
        }
    }
    lemma_join_splits_back(pieces);
    lemma_numeral_of_digits(seed as nat);
    let rest = pieces.drop_first();
    assert forall|j: int| 0 <= j < rest.len() implies (#[trigger] move_of(rest[j])) == Some(
        moves[j],
    ) by {
        lemma_numeral_of_digits(moves[j] as nat);
    }
    assert(rest.map_values(|piece: Seq<char>| move_of(piece)->0) =~= moves);
}

} // verus!
