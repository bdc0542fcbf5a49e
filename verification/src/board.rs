use std::ops::{Index, IndexMut};
use vstd::prelude::*;

use crate::line::Line;
use crate::piece::Size;
use crate::player::Player;
use crate::text::{append_decimal, decimal};

verus! {

/// Error encountered during creation of a cell.
///
/// See [`Cell::new`].
#[derive(Debug, Clone, Copy, PartialEq, Eq, Structural)]
pub enum CellError {
    RowOutOfBounds,
    ColumnOutOfBounds,
}

/// Coordinates for a cell on a [`Board`].
#[derive(Debug, Clone, Copy, PartialEq, Eq, Structural, Hash)]
pub struct Cell(usize);

impl Cell {
    /// Position of the cell when the board is read row by row.
    pub closed spec fn offset(self) -> int {
        self.0 as int
    }

    /// The cell lies on the board. Every cell that exists at run time does.
    #[verifier::type_invariant]
    pub open spec fn on_board(self) -> bool {
        0 <= self.offset() < 9
    }

    /// The 0-indexed row of the cell.
    pub open spec fn spec_row(self) -> int {
        self.offset() / 3
    }

    /// The 0-indexed column of the cell.
    pub open spec fn spec_col(self) -> int {
        self.offset() % 3
    }

    /// The cell in the given row and column of the board.
    pub closed spec fn at(row: int, col: int) -> Cell {
        Cell((3 * row + col) as usize)
    }

    /// What [`Cell::new`] makes of a row and a column: the cell there, or
    /// the error for the first of the two that is out of bounds.
    pub open spec fn made(row: u8, col: u8) -> Result<Cell, CellError> {
        if row > 2 {
            Err(CellError::RowOutOfBounds)
        } else if col > 2 {
            Err(CellError::ColumnOutOfBounds)
        } else {
            Ok(Cell::at(row as int, col as int))
        }
    }

    /// The name of the cell in text, such as `r0c2`.
    pub open spec fn text(self) -> Seq<char> {
        "r"@ + decimal(self.spec_row() as nat) + "c"@ + decimal(self.spec_col() as nat)
    }

    /// The cell as a move names it: the row, a comma and the column, such
    /// as `0,2`.
    pub open spec fn notation(self) -> Seq<char> {
        decimal(self.spec_row() as nat) + ","@ + decimal(self.spec_col() as nat)
    }

    /// Create a new instance of `Self`.
    ///
    /// # Errors
    /// This function returns an error if the row or column is out of bounds
    /// for a standard board. The row is looked at first.
    pub fn new(row: u8, col: u8) -> (made: Result<Cell, CellError>)
        ensures
            made == Cell::made(row, col),
            made matches Ok(cell) ==> cell.on_board() && cell.spec_row() == row && cell.spec_col()
                == col,
    {
        if row > 2 {
            return Err(CellError::RowOutOfBounds);
        }
        if col > 2 {
            return Err(CellError::ColumnOutOfBounds);
        }
        let offset: u8 = row * 3 + col;
        Ok(Cell(offset as usize))
    }

    /// The 0-indexed row of the cell.
    pub fn row(&self) -> (row: u8)
        ensures
            row == self.spec_row(),
            row <= 2,
    {
        proof {
            use_type_invariant(self);
        }
        (self.0 / 3) as u8
    }

    /// The 0-indexed column of the cell.
    pub fn col(&self) -> (col: u8)
        ensures
            col == self.spec_col(),
            col <= 2,
    {
        proof {
            use_type_invariant(self);
        }
        (self.0 % 3) as u8
    }

    /// The name of the cell in text, such as `r0c2`.
    pub fn to_string(&self) -> (text: String)
        ensures
            text@ == self.text(),
    {
        let mut text = "r".to_owned();
        append_decimal(&mut text, self.row() as u16);
        text.append("c");
        append_decimal(&mut text, self.col() as u16);
        text
    }

    /// The cell as a move names it, such as `0,2`.
    pub fn to_notation(&self) -> (text: String)
        ensures
            text@ == self.notation(),
    {
        let mut text = String::new();
        append_decimal(&mut text, self.row() as u16);
        text.append(",");
        append_decimal(&mut text, self.col() as u16);
        assert(text@ =~= self.notation());
        text
    }

    /// The cell in a row and a column of the board lies on the board, in
    /// that row and that column.
    pub proof fn lemma_at(row: int, col: int)
        requires
            0 <= row <= 2,
            0 <= col <= 2,
        ensures
            Cell::at(row, col).on_board(),
            Cell::at(row, col).offset() == 3 * row + col,
            Cell::at(row, col).spec_row() == row,
            Cell::at(row, col).spec_col() == col,
    {
    }

    /// Two cells of the board are equal exactly when they are in the same
    /// row and the same column.
    pub proof fn lemma_equal(self, other: Cell)
        requires
            self.on_board(),
            other.on_board(),
        ensures
            self == other <==> self.spec_row() == other.spec_row() && self.spec_col()
                == other.spec_col(),
            self == other <==> self.offset() == other.offset(),
    {
    }

    /// A cell is known by its row and column.
    pub proof fn lemma_row_col(self)
        requires
            self.on_board(),
        ensures
            0 <= self.spec_row() <= 2,
            0 <= self.spec_col() <= 2,
            self.offset() == 3 * self.spec_row() + self.spec_col(),
            self == Cell::at(self.spec_row(), self.spec_col()),
    {
    }
}

/// The contents of a [`Cell`]: for each size, the player whose piece of that
/// size lies in the cell, if any.
#[derive(Debug, Clone, Copy, PartialEq, Eq, Structural)]
pub struct CellState {
    pub small: Option<Player>,
    pub medium: Option<Player>,
    pub large: Option<Player>,
}

impl CellState {
    /// The cell that holds no piece.
    pub open spec fn vacant() -> CellState {
        CellState { small: None, medium: None, large: None }
    }

    /// The player whose piece of the given size is in the cell.
    pub open spec fn occupant(self, size: Size) -> Option<Player> {
        match size {
            Size::Small => self.small,
            Size::Medium => self.medium,
            Size::Large => self.large,
        }
    }

    /// The cell with the slot of the given size replaced.
    pub open spec fn put(self, size: Size, value: Option<Player>) -> CellState {
        match size {
            Size::Small => CellState { small: value, ..self },
            Size::Medium => CellState { medium: value, ..self },
            Size::Large => CellState { large: value, ..self },
        }
    }

    /// The size of the largest piece in the cell.
    pub open spec fn top(self) -> Option<Size> {
        if self.large is Some {
            Some(Size::Large)
        } else if self.medium is Some {
            Some(Size::Medium)
        } else if self.small is Some {
            Some(Size::Small)
        } else {
            None
        }
    }

    /// The owner of the largest piece in the cell.
    pub open spec fn controller(self) -> Option<Player> {
        match self.top() {
            Some(size) => self.occupant(size),
            None => None,
        }
    }

    /// The player has a piece of the given size in the cell.
    pub open spec fn holds(self, player: Player, size: Size) -> bool {
        self.occupant(size) == Some(player)
    }

    /// A piece of the given size in this cell would lie under a larger one.
    pub open spec fn buries(self, size: Size) -> bool {
        self.top() matches Some(top) && top.rank() > size.rank()
    }

    /// No piece of the given size can be put into this cell: one of the same
    /// or a greater size lies in it.
    pub open spec fn blocks(self, size: Size) -> bool {
        self.top() matches Some(top) && top.rank() >= size.rank()
    }

    /// What is drawn for the cell: the short names of the controlling
    /// player and of the top size with a hyphen between them, or four blanks
    /// where the cell is empty.
    pub open spec fn text(self) -> Seq<char> {
        match (self.controller(), self.top()) {
            (Some(player), Some(size)) => player.abbrev_text() + "-"@ + size.abbrev_text(),
            _ => "    "@,
        }
    }

    /// Get the player who currently controls the cell.
    pub fn controlled_by(&self) -> (player: Option<Player>)
        ensures
            player == self.controller(),
    {
        if self.large.is_some() {
            self.large
        } else if self.medium.is_some() {
            self.medium
        } else {
            self.small
        }
    }

    /// Get the size of the largest piece in the cell.
    pub fn size(&self) -> (size: Option<Size>)
        ensures
            size == self.top(),
    {
        if self.large.is_some() {
            Some(Size::Large)
        } else if self.medium.is_some() {
            Some(Size::Medium)
        } else if self.small.is_some() {
            Some(Size::Small)
        } else {
            None
        }
    }

    /// What is drawn for the cell, such as `P1-S`.
    pub fn to_string(&self) -> (text: String)
        ensures
            text@ == self.text(),
    {
        match (self.controlled_by(), self.size()) {
            (Some(player), Some(size)) => {
                let mut text = player.abbrev();
                text.append("-");
                text.append(size.abbrev().as_str());
                text
            },
            _ => "    ".to_owned(),
        }
    }

    /// A cell has a controller exactly when it holds a piece, and the
    /// controller owns the piece of the top size.
    pub proof fn lemma_controller(self)
        ensures
            self.controller() is Some <==> self.top() is Some,
            self.top() is None <==> self == CellState::vacant(),
            forall|size: Size| self.top() == Some(size) ==> self.controller() == self.occupant(size),
            forall|size: Size| #[trigger]
                self.occupant(size) is Some ==> self.top() is Some && self.top()->Some_0.rank()
                    >= size.rank(),
    {
    }
}

impl Default for CellState {
    fn default() -> (state: CellState)
        ensures
            state == CellState::vacant(),
    {
        CellState { small: None, medium: None, large: None }
    }
}

impl Index<Size> for CellState {
    type Output = Option<Player>;

    fn index(&self, index: Size) -> (slot: &Option<Player>)
        ensures
            *slot == self.occupant(index),
    {
        match index {
            Size::Small => &self.small,
            Size::Medium => &self.medium,
            Size::Large => &self.large,
        }
    }
}

impl vstd::std_specs::core::IndexSpecImpl<Size> for CellState {
    open spec fn index_req(&self, index: &Size) -> bool {
        true
    }
}

impl IndexMut<Size> for CellState {
    fn index_mut(&mut self, index: Size) -> (slot: &mut Option<Player>)
        ensures
            *slot == old(self).occupant(index),
            *final(self) == old(self).put(index, *final(slot)),
    {
        match index {
            Size::Small => &mut self.small,
            Size::Medium => &mut self.medium,
            Size::Large => &mut self.large,
        }
    }
}

/// A point-in-time game board: nine cells, read row by row.
pub struct Board {
    cells: [CellState; 9],
}

impl View for Board {
    type V = Seq<CellState>;

    closed spec fn view(&self) -> Seq<CellState> {
        self.cells@
    }
}

impl Board {
    /// The board on which no piece lies.
    pub open spec fn vacant() -> Seq<CellState> {
        Seq::new(9, |i: int| CellState::vacant())
    }

    /// What is drawn for one row of the board: its three cells with a bar
    /// between them, and the end of the line.
    pub open spec fn row_text(board: Seq<CellState>, row: int) -> Seq<char> {
        board[3 * row].text() + "|"@ + board[3 * row + 1].text() + "|"@ + board[3 * row
            + 2].text() + "\n"@
    }

    /// What is drawn for the board: its three rows with a dashed line
    /// between them.
    pub open spec fn text(board: Seq<CellState>) -> Seq<char> {
        Board::row_text(board, 0) + "--------------\n"@ + Board::row_text(board, 1)
            + "--------------\n"@ + Board::row_text(board, 2)
    }

    /// Drawing is a function of what lies on the board: two boards with the
    /// same cells are drawn alike, and so is one board drawn twice.
    pub proof fn lemma_same_cells_same_text(&self, other: &Board)
        requires
            self@ == other@,
        ensures
            Board::text(self@) == Board::text(other@),
    {
    }

    /// A board has nine cells.
    pub proof fn lemma_nine_cells(&self)
        ensures
            self@.len() == 9,
    {
    }

    /// Two boards with the same cells are the same board.
    pub proof fn lemma_same_cells(&self, other: &Board)
        requires
            self@ == other@,
        ensures
            *self == *other,
    {
        assert(self.cells =~= other.cells);
    }

    /// Iterate over each cell's coordinates and current state, row by row.
    pub fn cells(&self) -> (all: Vec<(Cell, &CellState)>)
        ensures
            all@.len() == 9,
            forall|i: int|
                0 <= i < 9 ==> (#[trigger] all@[i]).0.offset() == i && *all@[i].1 == self@[i],
    {
        let mut all: Vec<(Cell, &CellState)> = Vec::new();
        for i in 0usize..9
            invariant
                all@.len() == i,
                forall|j: int|
                    0 <= j < i ==> (#[trigger] all@[j]).0.offset() == j && *all@[j].1 == self@[j],
        {
            all.push((Cell(i), &self.cells[i]));
        }
        all
    }

    /// Get cell coordinates and state for the cells on the specified line,
    /// in the order of [`Board::cells`]. A line that crosses the board has
    /// three.
    pub fn line(&self, line: Line) -> (on: Vec<(Cell, &CellState)>)
        ensures
            on@.len() == line.offsets().len(),
            forall|k: int|
                0 <= k < on@.len() ==> (#[trigger] on@[k]).0.offset() == line.offsets()[k]
                    && *on@[k].1 == self@[line.offsets()[k]],
    {
        let all = self.cells();
        let mut on: Vec<(Cell, &CellState)> = Vec::new();
        for i in 0usize..9
            invariant
                all@.len() == 9,
                forall|j: int|
                    0 <= j < 9 ==> (#[trigger] all@[j]).0.offset() == j && *all@[j].1 == self@[j],
                on@.len() == line.offsets_below(i as nat).len(),
                forall|k: int|
                    0 <= k < on@.len() ==> (#[trigger] on@[k]).0.offset() == line.offsets_below(
                        i as nat,
                    )[k] && *on@[k].1 == self@[line.offsets_below(i as nat)[k]],
        {
            let entry = all[i];
            if line.matches(&entry.0) {
                on.push(entry);
            }
        }
        on
    }

    /// The drawing of one row of the board.
    fn row_to_string(&self, row: usize) -> (text: String)
        requires
            row <= 2,
        ensures
            text@ == Board::row_text(self@, row as int),
    {
        let mut text = self.cells[3 * row].to_string();
        text.append("|");
        text.append(self.cells[3 * row + 1].to_string().as_str());
        text.append("|");
        text.append(self.cells[3 * row + 2].to_string().as_str());
        text.append("\n");
        text
    }

    /// The drawing of the board: three rows of three cells, with `|` between
    /// the cells and a dashed line between the rows.
    pub fn to_string(&self) -> (text: String)
        ensures
            text@ == Board::text(self@),
    {
        let mut text = self.row_to_string(0);
        text.append("--------------\n");
        text.append(self.row_to_string(1).as_str());
        text.append("--------------\n");
        text.append(self.row_to_string(2).as_str());
        text
    }

    /// The occupant of the slot of the given size in the given cell.
    pub fn read(&self, cell: Cell, size: Size) -> (occupant: Option<Player>)
        ensures
            occupant == self@[cell.offset()].occupant(size),
    {
        proof {
            use_type_invariant(cell);
        }
        *self.cells[cell.0].index(size)
    }

    /// Set or clear the occupant of the slot of the given size in the given
    /// cell. Every other slot stays as it is.
    pub fn write(&mut self, cell: Cell, size: Size, value: Option<Player>)
        ensures
            final(self)@ == old(self)@.update(
                cell.offset(),
                old(self)@[cell.offset()].put(size, value),
            ),
    {
        proof {
            use_type_invariant(cell);
        }
        *self.cells[cell.0].index_mut(size) = value;
    }
}

impl Default for Board {
    fn default() -> (board: Board)
        ensures
            board@ == Board::vacant(),
    {
        let board = Board { cells: [CellState { small: None, medium: None, large: None };9] };
        assert(board@ =~= Board::vacant());
        board
    }
}

impl Index<Cell> for Board {
    type Output = CellState;

    fn index(&self, index: Cell) -> (state: &CellState)
        ensures
            *state == self@[index.offset()],
    {
        proof {
            use_type_invariant(index);
        }
        &self.cells[index.0]
    }
}

impl vstd::std_specs::core::IndexSpecImpl<Cell> for Board {
    open spec fn index_req(&self, index: &Cell) -> bool {
        true
    }
}

impl IndexMut<Cell> for Board {
    fn index_mut(&mut self, index: Cell) -> (state: &mut CellState)
        ensures
            *state == old(self)@[index.offset()],
            final(self)@ == old(self)@.update(index.offset(), *final(state)),
    {
        proof {
            use_type_invariant(index);
        }
        &mut self.cells[index.0]
    }
}

} // verus!
