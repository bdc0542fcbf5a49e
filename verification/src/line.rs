use vstd::prelude::*;

use crate::board::Cell;
use crate::text::{append_decimal, decimal};

verus! {

/// Identifier of a row, column, or diagonal which can be used to match cells
/// in a [`Board`](crate::board::Board).
#[derive(Debug, Clone, Copy, PartialEq, Eq, Structural)]
pub enum Line {
    Row(u8),
    Col(u8),
    /// The diagonal from the bottom left to the top right.
    DiagonalUp,
    /// The diagonal from the top left to the bottom right.
    DiagonalDown,
}

impl Line {
    /// The cell at the given offset is on this line.
    pub open spec fn covers(self, offset: int) -> bool {
        match self {
            Line::Row(r) => offset / 3 == r,
            Line::Col(c) => offset % 3 == c,
            Line::DiagonalUp => offset / 3 + offset % 3 == 2,
            Line::DiagonalDown => offset / 3 == offset % 3,
        }
    }

    /// The cell is on this line.
    pub open spec fn contains(self, cell: Cell) -> bool {
        self.covers(cell.offset())
    }

    /// The line crosses the board: its row or column, if it has one, is at
    /// most 2.
    pub open spec fn crosses_board(self) -> bool {
        match self {
            Line::Row(r) => r <= 2,
            Line::Col(c) => c <= 2,
            Line::DiagonalUp => true,
            Line::DiagonalDown => true,
        }
    }

    /// The offsets below `limit` that are on this line, in rising order.
    pub open spec fn offsets_below(self, limit: nat) -> Seq<int>
        decreases limit,
    {
        if limit == 0 {
            Seq::empty()
        } else {
            let before = self.offsets_below((limit - 1) as nat);
            if self.covers(limit - 1) {
                before.push(limit - 1)
            } else {
                before
            }
        }
    }

    /// The offsets of the cells of the board that are on this line, in
    /// rising order.
    pub open spec fn offsets(self) -> Seq<int> {
        self.offsets_below(9)
    }

    /// The eight lines that cross the board: rows, then columns, then the
    /// two diagonals.
    pub open spec fn every() -> Seq<Line> {
        seq![
            Line::Row(0),
            Line::Row(1),
            Line::Row(2),
            Line::Col(0),
            Line::Col(1),
            Line::Col(2),
            Line::DiagonalUp,
            Line::DiagonalDown,
        ]
    }

    /// The name of the line in text. Rows and columns are counted from 1.
    pub open spec fn text(self) -> Seq<char> {
        match self {
            Line::Row(r) => "row "@ + decimal((r + 1) as nat),
            Line::Col(c) => "column "@ + decimal((c + 1) as nat),
            Line::DiagonalUp => "diagonal ↗"@,
            Line::DiagonalDown => "diagonal ↘"@,
        }
    }

    /// The name of the line in text, such as `row 1` or `diagonal ↗`.
    pub fn to_string(&self) -> (text: String)
        ensures
            text@ == self.text(),
    {
        match self {
            Line::Row(r) => {
                let mut text = "row ".to_owned();
                append_decimal(&mut text, *r as u16 + 1);
                text
            },
            Line::Col(c) => {
                let mut text = "column ".to_owned();
                append_decimal(&mut text, *c as u16 + 1);
                text
            },
            Line::DiagonalUp => "diagonal ↗".to_owned(),
            Line::DiagonalDown => "diagonal ↘".to_owned(),
        }
    }

    /// Check if a cell coordinate is on this line.
    pub fn matches(&self, cell: &Cell) -> (on: bool)
        ensures
            on == self.contains(*cell),
    {
        match self {
            Line::Row(r) => cell.row() == *r,
            Line::Col(c) => cell.col() == *c,
            Line::DiagonalUp => cell.row() + cell.col() == 2,
            Line::DiagonalDown => cell.row() == cell.col(),
        }
    }

    /// Get all possible lines for the board: rows, then columns, then the
    /// two diagonals.
    pub fn all() -> (lines: Vec<Line>)
        ensures
            lines@ == Line::every(),
    {
        let mut lines: Vec<Line> = Vec::new();
        for r in 0u8..3
            invariant
                lines@ == Line::every().take(r as int),
        {
            lines.push(Line::Row(r));
            assert(lines@ =~= Line::every().take(r + 1));
        }
        for c in 0u8..3
            invariant
                lines@ == Line::every().take(3 + c),
        {
            lines.push(Line::Col(c));
            assert(lines@ =~= Line::every().take(3 + c + 1));
        }
        lines.push(Line::DiagonalUp);
        lines.push(Line::DiagonalDown);
        assert(lines@ =~= Line::every());
        lines
    }

    /// A line that crosses the board has exactly three cells; any other line
    /// has none.
    pub proof fn lemma_three_cells(self)
        ensures
            self.crosses_board() ==> self.offsets().len() == 3,
            !self.crosses_board() ==> self.offsets().len() == 0,
            forall|k: int|
                0 <= k < self.offsets().len() ==> 0 <= #[trigger] self.offsets()[k] < 9
                    && self.covers(self.offsets()[k]),
            forall|i: int| 0 <= i < 9 && self.covers(i) ==> self.offsets().contains(i),
            self matches Line::Row(r) ==> r <= 2 ==> self.offsets() == seq![
                3 * r,
                3 * r + 1,
                3 * r + 2,
            ],
            self matches Line::Col(c) ==> c <= 2 ==> self.offsets() == seq![c + 0, c + 3, c + 6],
            self == Line::DiagonalUp ==> self.offsets() == seq![2int, 4, 6],
            self == Line::DiagonalDown ==> self.offsets() == seq![0int, 4, 8],
    {
        reveal_with_fuel(Line::offsets_below, 10);
        let found = self.offsets();
        match self {
            Line::Row(r) => {
                if r <= 2 {
                    assert(found =~= seq![3 * r, 3 * r + 1, 3 * r + 2]);
                } else {
                    assert(found =~= Seq::<int>::empty());
                }
            },
            Line::Col(c) => {
                if c <= 2 {
                    assert(found =~= seq![c + 0, c + 3, c + 6]);
                } else {
                    assert(found =~= Seq::<int>::empty());
                }
            },
            Line::DiagonalUp => {
                assert(found =~= seq![2int, 4, 6]);
            },
            Line::DiagonalDown => {
                assert(found =~= seq![0int, 4, 8]);
            },
        }
        assert forall|i: int| 0 <= i < 9 && self.covers(i) implies found.contains(i) by {
            if found.len() == 3 {
                assert(i == found[0] || i == found[1] || i == found[2]);
            }
        }
    }

    /// Every line that [`Line::all`] gives crosses the board.
    pub proof fn lemma_every_crosses_board()
        ensures
            Line::every().len() == 8,
            forall|k: int| 0 <= k < 8 ==> (#[trigger] Line::every()[k]).crosses_board(),
            forall|line: Line| line.crosses_board() ==> Line::every().contains(line),
    {
        assert forall|line: Line| line.crosses_board() implies Line::every().contains(line) by {
            let k: int = match line {
                Line::Row(r) => r as int,
                Line::Col(c) => 3 + c,
                Line::DiagonalUp => 6,
                Line::DiagonalDown => 7,
            };
            assert(Line::every()[k] == line);
        }
    }
}

} // verus!
