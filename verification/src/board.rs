//! The 3x3 grid: which moves are legal, and who has completed a line.

use crate::decimal::{digit_char, digit_text};
use vstd::prelude::*;
use vstd::string::StringExecFns;

verus! {

/// What occupies one square of the grid.
#[derive(Clone, Copy, PartialEq, Eq, Structural, Debug)]
pub enum Cell {
    Empty,
    Human,
    Opponent,
}

/// The number of squares of the grid.
pub const SQUARES: usize = 9;

/// The number of winning lines.
pub const LINES: usize = 8;

/// The three squares of winning line `line`, numbered row by row: lines 0 to 2
/// are the rows, 3 to 5 the columns, 6 and 7 the diagonals.
pub open spec fn winning_line(line: int) -> (int, int, int) {
    if line == 0 {
        (0, 1, 2)
    } else if line == 1 {
        (3, 4, 5)
    } else if line == 2 {
        (6, 7, 8)
    } else if line == 3 {
        (0, 3, 6)
    } else if line == 4 {
        (1, 4, 7)
    } else if line == 5 {
        (2, 5, 8)
    } else if line == 6 {
        (0, 4, 8)
    } else {
        (2, 4, 6)
    }
}

/// The side that holds all three squares of `line`, if one does.
pub open spec fn line_owner(cells: Seq<Cell>, line: int) -> Option<Cell> {
    let (a, b, c) = winning_line(line);
    if cells[a] != Cell::Empty && cells[a] == cells[b] && cells[b] == cells[c] {
        Some(cells[a])
    } else {
        None
    }
}

/// The owner of the first complete line among lines `line`, `line + 1`, ...
pub open spec fn winner_from(cells: Seq<Cell>, line: int) -> Option<Cell>
    decreases LINES - line,
{
    if line < 0 || line >= LINES {
        None
    } else if line_owner(cells, line) is Some {
        line_owner(cells, line)
    } else {
        winner_from(cells, line + 1)
    }
}

/// The owner of the first complete line, rows before columns before diagonals.
pub open spec fn winner(cells: Seq<Cell>) -> Option<Cell> {
    winner_from(cells, 0)
}

/// The empty squares among the first `bound` ones, in ascending order.
pub open spec fn empty_cells_below(cells: Seq<Cell>, bound: nat) -> Seq<usize>
    decreases bound,
{
    if bound == 0 {
        Seq::empty()
    } else {
        let rest = empty_cells_below(cells, (bound - 1) as nat);
        if cells[bound - 1] == Cell::Empty {
            rest.push((bound - 1) as usize)
        } else {
            rest
        }
    }
}

/// The empty squares of a grid, in ascending order.
pub open spec fn empty_cells(cells: Seq<Cell>) -> Seq<usize> {
    empty_cells_below(cells, cells.len())
}

/// No square is empty.
pub open spec fn full(cells: Seq<Cell>) -> bool {
    forall|p: int| 0 <= p < cells.len() ==> cells[p] != Cell::Empty
}

/// Square `position` exists and is empty.
pub open spec fn open_at(cells: Seq<Cell>, position: int) -> bool {
    0 <= position < cells.len() && cells[position] == Cell::Empty
}

/// The grid with no square taken.
pub open spec fn empty_grid() -> Seq<Cell> {
    Seq::new(SQUARES as nat, |p: int| Cell::Empty)
}

/// `empty_cells_below` lists, in ascending order, exactly the empty squares
/// below the bound.
pub proof fn lemma_empty_cells_below(cells: Seq<Cell>, bound: nat)
    requires
        bound <= cells.len(),
        bound <= usize::MAX,
    ensures
        forall|i: int|
            0 <= i < empty_cells_below(cells, bound).len() ==> {
                let p = #[trigger] empty_cells_below(cells, bound)[i];
                p < bound && cells[p as int] == Cell::Empty
            },
        forall|i: int, j: int|
            0 <= i < j < empty_cells_below(cells, bound).len() ==> empty_cells_below(
                cells,
                bound,
            )[i] < empty_cells_below(cells, bound)[j],
        forall|p: int|
            0 <= p < bound && cells[p] == Cell::Empty ==> empty_cells_below(cells, bound).contains(
                p as usize,
            ),
    decreases bound,
{
    if bound > 0 {
        let rest = empty_cells_below(cells, (bound - 1) as nat);
        lemma_empty_cells_below(cells, (bound - 1) as nat);
        let all = empty_cells_below(cells, bound);
        assert forall|p: int| 0 <= p < bound && cells[p] == Cell::Empty implies all.contains(
            p as usize,
        ) by {
            if p < bound - 1 {
                let i = choose|i: int| 0 <= i < rest.len() && rest[i] == p as usize;
                assert(all[i] == p as usize);
            } else {
                assert(all[all.len() - 1] == p as usize);
            }
        }
    }
}

/// `empty_cells` lists, in ascending order, exactly the empty squares of the
/// grid; it is empty exactly when the grid is full.
pub proof fn lemma_empty_cells(cells: Seq<Cell>)
    requires
        cells.len() <= usize::MAX,
    ensures
        forall|i: int|
            0 <= i < empty_cells(cells).len() ==> open_at(
                cells,
                #[trigger] empty_cells(cells)[i] as int,
            ),
        forall|i: int, j: int|
            0 <= i < j < empty_cells(cells).len() ==> empty_cells(cells)[i] < empty_cells(cells)[j],
        forall|p: int| open_at(cells, p) ==> empty_cells(cells).contains(p as usize),
        full(cells) <==> empty_cells(cells).len() == 0,
{
    lemma_empty_cells_below(cells, cells.len());
    let empty = empty_cells(cells);
    if empty.len() > 0 {
        assert(open_at(cells, empty[0] as int));
    }
    if !full(cells) {
        let p = choose|p: int| 0 <= p < cells.len() && cells[p] == Cell::Empty;
        assert(open_at(cells, p));
    }
}

/// The character that shows square `position`: `Z` for the human, `K` for the
/// opponent, the number of the square while it is empty.
pub open spec fn cell_symbol(cells: Seq<Cell>, position: int) -> char {
    match cells[position] {
        Cell::Human => 'Z',
        Cell::Opponent => 'K',
        Cell::Empty => digit_char(position as nat),
    }
}

/// One row of the grid as a line of text: its three squares with a bar
/// between them.
pub open spec fn row_text(cells: Seq<Cell>, row: int) -> Seq<char> {
    seq![
        cell_symbol(cells, 3 * row),
        '|',
        cell_symbol(cells, 3 * row + 1),
        '|',
        cell_symbol(cells, 3 * row + 2),
        '\n',
    ]
}

/// The line of text that parts two rows.
pub open spec fn rule_text() -> Seq<char> {
    seq!['-', '+', '-', '+', '-', '\n']
}

/// The grid as text: its three rows with a rule between them, and an empty
/// line at the end.
pub open spec fn board_text(cells: Seq<Cell>) -> Seq<char> {
    row_text(cells, 0) + rule_text() + row_text(cells, 1) + rule_text() + row_text(cells, 2)
        + seq!['\n']
}

/// A mark on an empty square leaves the squares below `bound` with one empty
/// square less if the square lies below `bound`, and as they were if not.
proof fn lemma_mark_below(cells: Seq<Cell>, position: int, side: Cell, bound: nat)
    requires
        open_at(cells, position),
        side != Cell::Empty,
        bound <= cells.len(),
    ensures
        empty_cells_below(cells.update(position, side), bound).len() == empty_cells_below(
            cells,
            bound,
        ).len() - if position < bound {
            1int
        } else {
            0int
        },
        position >= bound ==> empty_cells_below(cells.update(position, side), bound)
            == empty_cells_below(cells, bound),
    decreases bound,
{
    if bound > 0 {
        lemma_mark_below(cells, position, side, (bound - 1) as nat);
    }
}

/// A mark on an empty square leaves one empty square less.
pub proof fn lemma_mark_takes_one_empty(cells: Seq<Cell>, position: int, side: Cell)
    requires
        open_at(cells, position),
        side != Cell::Empty,
    ensures
        empty_cells(cells.update(position, side)).len() == empty_cells(cells).len() - 1,
{
    lemma_mark_below(cells, position, side, cells.len());
}

/// The winner is the owner of the first complete line: no line before it is
/// complete, and its owner is not `Empty`. There is no winner exactly when no
/// line is complete.
pub proof fn lemma_winner_is_first_line(cells: Seq<Cell>)
    ensures
        match winner(cells) {
            Some(side) => side != Cell::Empty && exists|line: int|
                {
                    &&& 0 <= line < LINES
                    &&& #[trigger] line_owner(cells, line) == Some(side)
                    &&& forall|earlier: int|
                        0 <= earlier < line ==> line_owner(cells, earlier) is None
                },
            None => forall|line: int| 0 <= line < LINES ==> line_owner(cells, line) is None,
        },
{
    reveal_with_fuel(winner_from, 9);
    if winner(cells) is Some {
        let first = choose|line: int|
            0 <= line < LINES && line_owner(cells, line) == winner(cells) && forall|earlier: int|
                0 <= earlier < line ==> line_owner(cells, earlier) is None;
        assert(line_owner(cells, first) == winner(cells));
    }
}

/// A mark on an empty square of a grid without a complete line can complete
/// a line only for the side that made it.
pub proof fn lemma_mark_completes_own_line(cells: Seq<Cell>, position: int, side: Cell)
    requires
        cells.len() == SQUARES,
        open_at(cells, position),
        winner(cells) is None,
        side != Cell::Empty,
    ensures
        winner(cells.update(position, side)) is None || winner(cells.update(position, side))
            == Some(side),
        forall|line: int|
            0 <= line < LINES ==> {
                ||| (#[trigger] line_owner(cells.update(position, side), line)) is None
                ||| line_owner(cells.update(position, side), line) == Some(side)
            },
{
    let marked = cells.update(position, side);
    lemma_winner_is_first_line(cells);
    lemma_winner_is_first_line(marked);
    assert forall|line: int| 0 <= line < LINES implies (#[trigger] line_owner(marked, line))
        is None || line_owner(marked, line) == Some(side) by {
        assert(line_owner(cells, line) is None);
    }
}

/// A grid of nine squares. Its view is the sequence of its squares, row by row.
pub struct Board {
    cells: [Cell; SQUARES],
}

impl View for Board {
    type V = Seq<Cell>;

    closed spec fn view(&self) -> Seq<Cell> {
        self.cells@
    }
}

/// The three squares of a winning line.
fn line_squares(line: usize) -> (squares: (usize, usize, usize))
    requires
        line < LINES,
    ensures
        squares.0 == winning_line(line as int).0,
        squares.1 == winning_line(line as int).1,
        squares.2 == winning_line(line as int).2,
        squares.0 < SQUARES,
        squares.1 < SQUARES,
        squares.2 < SQUARES,
{
    match line {
        0 => (0, 1, 2),
        1 => (3, 4, 5),
        2 => (6, 7, 8),
        3 => (0, 3, 6),
        4 => (1, 4, 7),
        5 => (2, 5, 8),
        6 => (0, 4, 8),
        _ => (2, 4, 6),
    }
}

impl Board {
    /// Every board has nine squares.
    pub proof fn lemma_size(&self)
        ensures
            self@.len() == SQUARES,
    {
    }

    /// The board with no square taken.
    pub fn new() -> (board: Board)
        ensures
            board@ == empty_grid(),
    {
        Board { cells: [Cell::Empty;SQUARES] }
    }

    /// What occupies square `position`.
    pub fn cell(&self, position: usize) -> (cell: Cell)
        requires
            position < SQUARES,
        ensures
            cell == self@[position as int],
    {
        self.cells[position]
    }

    /// Whether square `position` exists and is empty.
    pub fn is_open(&self, position: usize) -> (open: bool)
        ensures
            open == open_at(self@, position as int),
    {
        position < SQUARES && self.cells[position] == Cell::Empty
    }

    /// Gives square `position` to `player` if the square exists and is empty,
    /// and says whether it did. A refused move leaves the board as it was.
    pub fn make_move(&mut self, position: usize, player: Cell) -> (placed: bool)
        ensures
            placed == open_at(old(self)@, position as int),
            placed ==> final(self)@ == old(self)@.update(position as int, player),
            !placed ==> final(self)@ == old(self)@,
    {
        if position < SQUARES && self.cells[position] == Cell::Empty {
            self.cells[position] = player;
            true
        } else {
            false
        }
    }

    /// The empty squares, in ascending order.
    pub fn get_empty_cells(&self) -> (empty: Vec<usize>)
        ensures
            empty@ == empty_cells(self@),
    {
        let mut empty: Vec<usize> = Vec::new();
        let mut position: usize = 0;
        while position < SQUARES
            invariant
                position <= SQUARES,
                empty@ == empty_cells_below(self@, position as nat),
            decreases SQUARES - position,
        {
            if self.cells[position] == Cell::Empty {
                empty.push(position);
            }
            position += 1;
        }
        empty
    }

    /// Whether no square is empty.
    pub fn is_full(&self) -> (is_full: bool)
        ensures
            is_full == full(self@),
    {
        let mut position: usize = 0;
        while position < SQUARES
            invariant
                position <= SQUARES,
                forall|p: int| 0 <= p < position ==> self@[p] != Cell::Empty,
            decreases SQUARES - position,
        {
            if self.cells[position] == Cell::Empty {
                return false;
            }
            position += 1;
        }
        true
    }

    /// The side that holds the first complete line, rows before columns
    /// before diagonals, if any line is complete.
    pub fn check_winner(&self) -> (won: Option<Cell>)
        ensures
            won == winner(self@),
    {
        let mut line: usize = 0;
        while line < LINES
            invariant
                line <= LINES,
                winner(self@) == winner_from(self@, line as int),
            decreases LINES - line,
        {
            let squares = line_squares(line);
            let first = self.cells[squares.0];
            if first != Cell::Empty && first == self.cells[squares.1] && self.cells[squares.1]
                == self.cells[squares.2] {
                return Some(first);
            }
            line += 1;
        }
        None
    }

    /// The text that shows square `position`.
    fn symbol_text(&self, position: usize) -> (text: &'static str)
        requires
            position < SQUARES,
        ensures
            text@ == seq![cell_symbol(self@, position as int)],
    {
        proof {
            reveal_strlit("Z");
            reveal_strlit("K");
        }
        match self.cells[position] {
            Cell::Human => "Z",
            Cell::Opponent => "K",
            Cell::Empty => digit_text(position as u64),
        }
    }

    /// Writes one row of the grid at the end of `text`.
    fn push_row(&self, text: &mut String, row: usize)
        requires
            row < 3,
        ensures
            final(text)@ == old(text)@ + row_text(self@, row as int),
    {
        proof {
            reveal_strlit("|");
            reveal_strlit("\n");
        }
        text.append(self.symbol_text(3 * row));
        text.append("|");
        text.append(self.symbol_text(3 * row + 1));
        text.append("|");
        text.append(self.symbol_text(3 * row + 2));
        text.append("\n");
    }

    /// The grid as text: its three rows with a rule between them, and an
    /// empty line at the end.
    pub fn render(&self) -> (text: String)
        ensures
            text@ == board_text(self@),
    {
        proof {
            reveal_strlit("-+-+-\n");
            reveal_strlit("\n");
        }
        let mut text = String::new();
        self.push_row(&mut text, 0);
        text.append("-+-+-\n");
        self.push_row(&mut text, 1);
        text.append("-+-+-\n");
        self.push_row(&mut text, 2);
        text.append("\n");
        text
    }
}

} // verus!
