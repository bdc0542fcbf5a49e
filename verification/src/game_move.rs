use std::str::FromStr;
use vstd::prelude::*;

use crate::board::{Cell, CellError};
use crate::piece::Size;
use crate::player::Player;
use crate::text::{
    chars_of, decimal, decimal_u8, digit_char, lemma_decimal_read_back, read_u8, same_text,
};

verus! {

/// A player's move of a piece.
#[derive(Debug, Clone, Copy, PartialEq, Eq, Structural)]
pub struct Move {
    /// The player moving a piece.
    pub player: Player,
    /// The size of the piece being moved.
    pub size: Size,
    /// Where the moved piece was at the start of the turn. If `None`, the piece
    /// comes from the player's off-board inventory.
    pub source: Option<Cell>,
    /// Where the moved piece goes.
    pub target: Cell,
}

impl Move {
    /// The cells that the move names lie on the board. Every move that
    /// exists at run time is such a move.
    pub open spec fn on_board(self) -> bool {
        &&& self.target.on_board()
        &&& self.source matches Some(source) ==> source.on_board()
    }

    /// The move as text, such as `P1 S _ > 0,0`: the short names of the
    /// player and the size, the source cell or `_` for the inventory, an
    /// arrow and the target cell. It is the text that [`Move::from_str`]
    /// reads.
    pub open spec fn text(self) -> Seq<char> {
        self.player.abbrev_text() + " "@ + self.size.abbrev_text() + " "@ + (match self.source {
            Some(source) => source.notation(),
            None => "_"@,
        }) + " > "@ + self.target.notation()
    }

    /// The move in words, such as `Player 1: Small Inventory > r0c0`.
    pub open spec fn description(self) -> Seq<char> {
        self.player.text() + ": "@ + self.size.text() + " "@ + (match self.source {
            Some(source) => source.text(),
            None => "Inventory"@,
        }) + " > "@ + self.target.text()
    }

    /// The move as text, such as `P1 S _ > 0,0`. Reading the text with
    /// [`Move::from_str`] gives the move back.
    pub fn to_string(&self) -> (text: String)
        ensures
            text@ == self.text(),
            parsed_move(text@) == Ok::<Move, ParseMoveError>(*self),
    {
        proof {
            use_type_invariant(self.target);
            if let Some(source) = self.source {
                use_type_invariant(source);
            }
            lemma_text_reads_back(*self);
        }
        let mut text = self.player.abbrev();
        text.append(" ");
        text.append(self.size.abbrev().as_str());
        text.append(" ");
        if let Some(source) = self.source {
            text.append(source.to_notation().as_str());
        } else {
            text.append("_");
        }
        text.append(" > ");
        text.append(self.target.to_notation().as_str());
        text
    }

    /// The move in words, such as `Player 1: Small Inventory > r0c0`. This
    /// is for people to read; [`Move::from_str`] does not read it.
    pub fn describe(&self) -> (words: String)
        ensures
            words@ == self.description(),
    {
        let mut words = self.player.to_string();
        words.append(": ");
        words.append(self.size.to_string().as_str());
        words.append(" ");
        if let Some(source) = self.source {
            words.append(source.to_string().as_str());
        } else {
            words.append("Inventory");
        }
        words.append(" > ");
        words.append(self.target.to_string().as_str());
        words
    }

    /// Create a new instance of `Self`.
    pub fn new(player: Player, size: Size, source: Option<Cell>, target: Cell) -> (mv: Move)
        ensures
            mv == (Move { player, size, source, target }),
            mv.on_board(),
    {
        proof {
            use_type_invariant(target);
            if let Some(cell) = source {
                use_type_invariant(cell);
            }
        }
        Move { player, size, source, target }
    }
}

/// Error encountered when parsing a [`Move`] from its string representation.
#[derive(Debug, Clone, Copy, PartialEq, Eq, Structural)]
pub enum ParseMoveError {
    /// The text has fewer than five parts; the number of parts is given.
    TooFewParts(usize),
    /// The text has more than five parts; the number of parts is given.
    TooManyParts(usize),
    InvalidPlayer,
    InvalidSize,
    InvalidSource(ParseCellError),
    InvalidTarget(ParseCellError),
}

/// Error encountered when parsing a [`Cell`] as part of a [`Move`].
#[derive(Debug, Clone, Copy, PartialEq, Eq, Structural)]
pub enum ParseCellError {
    /// A cell should be row,col.
    TooFewParts,
    InvalidRow,
    InvalidColumn,
    OutOfBounds(CellError),
}

impl From<CellError> for ParseCellError {
    fn from(error: CellError) -> (wrapped: ParseCellError) {
        ParseCellError::OutOfBounds(error)
    }
}

impl vstd::std_specs::convert::FromSpecImpl<CellError> for ParseCellError {
    open spec fn obeys_from_spec() -> bool {
        true
    }

    open spec fn from_spec(error: CellError) -> ParseCellError {
        ParseCellError::OutOfBounds(error)
    }
}

/// The character is one of those that part the words of a move: blank,
/// tab, line feed, form feed and carriage return.
pub open spec fn is_space(c: char) -> bool {
    c == ' ' || c == '\t' || c == '\n' || c == '\x0C' || c == '\r'
}

/// The words of a text: its longest runs of characters that are no spaces,
/// from left to right.
pub open spec fn words(text: Seq<char>) -> Seq<Seq<char>>
    decreases text.len(),
{
    if text.len() == 0 {
        Seq::empty()
    } else {
        let before = words(text.drop_last());
        if is_space(text.last()) {
            before
        } else if text.len() >= 2 && !is_space(text[text.len() - 2]) {
            before.drop_last().push(before.last().push(text.last()))
        } else {
            before.push(seq![text.last()])
        }
    }
}

/// The player that a word names.
pub open spec fn parsed_player(word: Seq<char>) -> Result<Player, ParseMoveError> {
    if word == "P1"@ || word == "p1"@ {
        Ok(Player::One)
    } else if word == "P2"@ || word == "p2"@ {
        Ok(Player::Two)
    } else {
        Err(ParseMoveError::InvalidPlayer)
    }
}

/// The size that a word names.
pub open spec fn parsed_size(word: Seq<char>) -> Result<Size, ParseMoveError> {
    if word == "S"@ || word == "s"@ {
        Ok(Size::Small)
    } else if word == "M"@ || word == "m"@ {
        Ok(Size::Medium)
    } else if word == "L"@ || word == "l"@ {
        Ok(Size::Large)
    } else {
        Err(ParseMoveError::InvalidSize)
    }
}

/// The cell that a word names: the row, a comma and the column. The word
/// is parted at its first comma.
pub open spec fn parsed_cell(word: Seq<char>) -> Result<Cell, ParseCellError> {
    match word.index_of_first(',') {
        None => Err(ParseCellError::TooFewParts),
        Some(comma) => match decimal_u8(word.take(comma)) {
            None => Err(ParseCellError::InvalidRow),
            Some(row) => match decimal_u8(word.skip(comma + 1)) {
                None => Err(ParseCellError::InvalidColumn),
                Some(col) => match Cell::made(row, col) {
                    Ok(cell) => Ok(cell),
                    Err(error) => Err(ParseCellError::OutOfBounds(error)),
                },
            },
        },
    }
}

/// Where a piece comes from: the inventory for `_`, else a cell.
pub open spec fn parsed_source(word: Seq<char>) -> Result<Option<Cell>, ParseCellError> {
    if word == "_"@ {
        Ok(None)
    } else {
        match parsed_cell(word) {
            Ok(cell) => Ok(Some(cell)),
            Err(error) => Err(error),
        }
    }
}

/// The move that a text stands for: five words, which are the player, the
/// size, the source, an arrow that is not looked at, and the target.
pub open spec fn parsed_move(text: Seq<char>) -> Result<Move, ParseMoveError> {
    let parts = words(text);
    if parts.len() < 5 {
        Err(ParseMoveError::TooFewParts(parts.len() as usize))
    } else if parts.len() > 5 {
        Err(ParseMoveError::TooManyParts(parts.len() as usize))
    } else {
        match parsed_player(parts[0]) {
            Err(error) => Err(error),
            Ok(player) => match parsed_size(parts[1]) {
                Err(error) => Err(error),
                Ok(size) => match parsed_source(parts[2]) {
                    Err(error) => Err(ParseMoveError::InvalidSource(error)),
                    Ok(source) => match parsed_cell(parts[4]) {
                        Err(error) => Err(ParseMoveError::InvalidTarget(error)),
                        Ok(target) => Ok(Move { player, size, source, target }),
                    },
                },
            },
        }
    }
}

/// No character of the word is a space, and the word is not empty.
pub open spec fn is_word(word: Seq<char>) -> bool {
    &&& word.len() > 0
    &&& forall|i: int| 0 <= i < word.len() ==> !is_space(#[trigger] word[i])
}

/// A space at the end of a text adds no word.
pub proof fn lemma_words_space(text: Seq<char>, space: char)
    requires
        is_space(space),
    ensures
        words(text.push(space)) == words(text),
{
    assert(text.push(space).drop_last() =~= text);
}

/// A word that follows a space, or stands at the beginning, is the last
/// word of the text.
pub proof fn lemma_words_word(text: Seq<char>, word: Seq<char>)
    requires
        is_word(word),
        text.len() == 0 || is_space(text.last()),
    ensures
        words(text + word) == words(text).push(word),
    decreases word.len(),
{
    let whole = text + word;
    let shorter = word.drop_last();
    assert(whole.drop_last() =~= text + shorter);
    assert(whole.last() == word.last());
    if shorter.len() == 0 {
        assert(text + shorter =~= text);
        assert(seq![word.last()] =~= word);
    } else {
        assert(is_word(shorter)) by {
            assert forall|i: int| 0 <= i < shorter.len() implies !is_space(
                #[trigger] shorter[i],
            ) by {
                assert(shorter[i] == word[i]);
            }
        }
        lemma_words_word(text, shorter);
        assert(whole[whole.len() - 2] == shorter.last());
        assert(shorter.last() == word[word.len() - 2]);
        let before = words(text).push(shorter);
        assert(before.drop_last() =~= words(text));
        assert(shorter.push(word.last()) =~= word);
    }
}

/// Five words with one blank between them are the five words of the text.
pub proof fn lemma_five_words(
    first: Seq<char>,
    second: Seq<char>,
    third: Seq<char>,
    fourth: Seq<char>,
    fifth: Seq<char>,
)
    requires
        is_word(first),
        is_word(second),
        is_word(third),
        is_word(fourth),
        is_word(fifth),
    ensures
        words(
            first.push(' ') + second.push(' ') + third.push(' ') + fourth.push(' ') + fifth,
        ) == seq![first, second, third, fourth, fifth],
{
    let none = Seq::<char>::empty();
    let one = first.push(' ');
    let two = one + second.push(' ');
    let three = two + third.push(' ');
    let four = three + fourth.push(' ');
    lemma_words_word(none, first);
    assert(none + first =~= first);
    lemma_words_space(first, ' ');
    assert(words(one) =~= seq![first]);
    lemma_words_word(one, second);
    lemma_words_space(one + second, ' ');
    assert((one + second).push(' ') =~= two);
    assert(words(two) =~= seq![first, second]);
    lemma_words_word(two, third);
    lemma_words_space(two + third, ' ');
    assert((two + third).push(' ') =~= three);
    assert(words(three) =~= seq![first, second, third]);
    lemma_words_word(three, fourth);
    lemma_words_space(three + fourth, ' ');
    assert((three + fourth).push(' ') =~= four);
    assert(words(four) =~= seq![first, second, third, fourth]);
    lemma_words_word(four, fifth);
    assert(words(four + fifth) =~= seq![first, second, third, fourth, fifth]);
}

/// The name that a move gives a cell of the board is one word of three
/// characters, and reading it gives the cell.
pub proof fn lemma_cell_notation(cell: Cell)
    requires
        cell.on_board(),
    ensures
        is_word(cell.notation()),
        cell.notation().len() == 3,
        parsed_cell(cell.notation()) == Ok::<Cell, ParseCellError>(cell),
        parsed_source(cell.notation()) == Ok::<Option<Cell>, ParseCellError>(Some(cell)),
{
    reveal_strlit(",");
    reveal_strlit("_");
    let row = cell.spec_row();
    let col = cell.spec_col();
    let name = cell.notation();
    cell.lemma_row_col();
    lemma_decimal_read_back(row as nat);
    lemma_decimal_read_back(col as nat);
    assert(name =~= seq![digit_char(row), ',', digit_char(col)]);
    name.index_of_first_ensures(',');
    assert(name[1] == ',');
    assert(name.contains(','));
    assert(name.index_of_first(',') == Some(1int));
    assert(name.take(1) =~= decimal(row as nat));
    assert(name.skip(2) =~= decimal(col as nat));
}

/// Writing a move as text and reading the text gives the move back,
/// whatever its player, size, source and target.
pub proof fn lemma_text_reads_back(mv: Move)
    requires
        mv.on_board(),
    ensures
        parsed_move(mv.text()) == Ok::<Move, ParseMoveError>(mv),
{
    reveal_strlit(" ");
    reveal_strlit(" > ");
    reveal_strlit("_");
    reveal_strlit("P");
    reveal_strlit("1");
    reveal_strlit("2");
    reveal_strlit("P1");
    reveal_strlit("P2");
    reveal_strlit("p1");
    reveal_strlit("p2");
    reveal_strlit("S");
    reveal_strlit("M");
    reveal_strlit("L");
    reveal_strlit("s");
    reveal_strlit("m");
    reveal_strlit("l");
    let player = mv.player.abbrev_text();
    let size = mv.size.abbrev_text();
    let source = match mv.source {
        Some(cell) => cell.notation(),
        None => "_"@,
    };
    let arrow = seq!['>'];
    let target = mv.target.notation();
    mv.size.lemma_abbrev();
    lemma_cell_notation(mv.target);
    if let Some(cell) = mv.source {
        lemma_cell_notation(cell);
    }
    assert(player =~= match mv.player {
        Player::One => seq!['P', '1'],
        Player::Two => seq!['P', '2'],
    });
    assert(is_word(player));
    assert(is_word(size));
    assert(is_word(source));
    assert(is_word(arrow));
    lemma_five_words(player, size, source, arrow, target);
    assert(mv.text() =~= player.push(' ') + size.push(' ') + source.push(' ') + arrow.push(
        ' ',
    ) + target);
    assert(parsed_player(player) == Ok::<Player, ParseMoveError>(mv.player)) by {
        match mv.player {
            Player::One => {
                assert(player =~= "P1"@);
            },
            Player::Two => {
                assert(player =~= "P2"@);
                assert(player[1] != "P1"@[1] && player[1] != "p1"@[1]);
            },
        }
    }
    assert(parsed_size(size) == Ok::<Size, ParseMoveError>(mv.size)) by {
        match mv.size {
            Size::Small => {
                assert(size =~= "S"@);
            },
            Size::Medium => {
                assert(size =~= "M"@);
                assert(size[0] != "S"@[0] && size[0] != "s"@[0]);
            },
            Size::Large => {
                assert(size =~= "L"@);
                assert(size[0] != "S"@[0] && size[0] != "s"@[0]);
                assert(size[0] != "M"@[0] && size[0] != "m"@[0]);
            },
        }
    }
    assert(parsed_source(source) == Ok::<Option<Cell>, ParseCellError>(mv.source));
}

/// Read the player of a move: `P1` or `p1`, `P2` or `p2`.
pub fn parse_player(p: &str) -> (player: Result<Player, ParseMoveError>)
    ensures
        player == parsed_player(p@),
{
    if same_text(p, "P1") || same_text(p, "p1") {
        Ok(Player::One)
    } else if same_text(p, "P2") || same_text(p, "p2") {
        Ok(Player::Two)
    } else {
        Err(ParseMoveError::InvalidPlayer)
    }
}

/// Read the size of a piece: `S`, `M` or `L`, in either case.
pub fn parse_size(size: &str) -> (parsed: Result<Size, ParseMoveError>)
    ensures
        parsed == parsed_size(size@),
{
    if same_text(size, "S") || same_text(size, "s") {
        Ok(Size::Small)
    } else if same_text(size, "M") || same_text(size, "m") {
        Ok(Size::Medium)
    } else if same_text(size, "L") || same_text(size, "l") {
        Ok(Size::Large)
    } else {
        Err(ParseMoveError::InvalidSize)
    }
}

/// Read where a piece comes from: `_` for the inventory, else a cell.
pub fn parse_source(source: &str) -> (parsed: Result<Option<Cell>, ParseCellError>)
    ensures
        parsed == parsed_source(source@),
{
    if same_text(source, "_") {
        Ok(None)
    } else {
        match parse_cell(source) {
            Ok(cell) => Ok(Some(cell)),
            Err(error) => Err(error),
        }
    }
}

/// Read a cell: the row, a comma and the column, such as `0,2`.
pub fn parse_cell(cell: &str) -> (parsed: Result<Cell, ParseCellError>)
    ensures
        parsed == parsed_cell(cell@),
{
    let chars = chars_of(cell);
    let mut comma: usize = 0;
    while comma < chars.len() && chars[comma] != ','
        invariant
            comma <= chars.len(),
            forall|j: int| 0 <= j < comma ==> chars@[j] != ',',
        decreases chars.len() - comma,
    {
        comma = comma + 1;
    }
    proof {
        chars@.index_of_first_ensures(',');
    }
    if comma == chars.len() {
        return Err(ParseCellError::TooFewParts);
    }
    proof {
        assert(chars@.contains(','));
        assert(chars@.index_of_first(',') == Some(comma as int));
        assert(chars@.subrange(0, comma as int) =~= chars@.take(comma as int));
        assert(chars@.subrange(comma + 1, chars@.len() as int) =~= chars@.skip(comma + 1));
    }
    let row = match read_u8(cell.substring_char(0, comma)) {
        Some(row) => row,
        None => {
            return Err(ParseCellError::InvalidRow);
        },
    };
    let col = match read_u8(cell.substring_char(comma + 1, chars.len())) {
        Some(col) => col,
        None => {
            return Err(ParseCellError::InvalidColumn);
        },
    };
    match Cell::new(row, col) {
        Ok(cell) => Ok(cell),
        Err(error) => Err(ParseCellError::from(error)),
    }
}

/// Find the words of a text: for each, where it begins and where it ends.
fn find_words(chars: &Vec<char>) -> (parts: Vec<(usize, usize)>)
    ensures
        parts@.len() == words(chars@).len(),
        forall|k: int|
            0 <= k < parts@.len() ==> (#[trigger] parts@[k]).0 <= parts@[k].1 <= chars@.len()
                && words(chars@)[k] == chars@.subrange(parts@[k].0 as int, parts@[k].1 as int),
{
    let mut parts: Vec<(usize, usize)> = Vec::new();
    let mut in_word = false;
    let mut start: usize = 0;
    for i in 0..chars.len()
        invariant
            in_word <==> i > 0 && !is_space(chars@[i - 1]),
            in_word ==> start < i && words(chars@.take(i as int)).len() == parts@.len() + 1
                && words(chars@.take(i as int)).last() == chars@.subrange(start as int, i as int),
            !in_word ==> words(chars@.take(i as int)).len() == parts@.len(),
            forall|k: int|
                0 <= k < parts@.len() ==> (#[trigger] parts@[k]).0 <= parts@[k].1 <= i && words(
                    chars@.take(i as int),
                )[k] == chars@.subrange(parts@[k].0 as int, parts@[k].1 as int),
    {
        let c = chars[i];
        proof {
            assert(chars@.take(i + 1).drop_last() =~= chars@.take(i as int));
            assert(chars@.take(i + 1).last() == c);
            if i > 0 {
                assert(chars@.take(i + 1)[i - 1] == chars@[i - 1]);
            }
        }
        if c == ' ' || c == '\t' || c == '\n' || c == '\x0C' || c == '\r' {
            if in_word {
                parts.push((start, i));
                in_word = false;
            }
        } else if in_word {
            assert(chars@.subrange(start as int, i as int).push(c) =~= chars@.subrange(
                start as int,
                i + 1,
            ));
        } else {
            start = i;
            in_word = true;
            assert(seq![c] =~= chars@.subrange(i as int, i + 1));
        }
    }
    proof {
        assert(chars@.take(chars@.len() as int) =~= chars@);
    }
    if in_word {
        parts.push((start, chars.len()));
    }
    parts
}

impl FromStr for Move {
    type Err = ParseMoveError;

    /// Read a move from text: five words, which are the player, the size,
    /// the source, an arrow and the target, such as `P1 S _ > 0,0`.
    fn from_str(s: &str) -> (parsed: Result<Move, ParseMoveError>)
        ensures
            parsed == parsed_move(s@),
    {
        let chars = chars_of(s);
        let parts = find_words(&chars);
        let num_parts = parts.len();
        if num_parts < 5 {
            return Err(ParseMoveError::TooFewParts(num_parts));
        } else if num_parts > 5 {
            return Err(ParseMoveError::TooManyParts(num_parts));
        }
        let player = match parse_player(s.substring_char(parts[0].0, parts[0].1)) {
            Ok(player) => player,
            Err(error) => {
                return Err(error);
            },
        };
        let size = match parse_size(s.substring_char(parts[1].0, parts[1].1)) {
            Ok(size) => size,
            Err(error) => {
                return Err(error);
            },
        };
        let source = match parse_source(s.substring_char(parts[2].0, parts[2].1)) {
            Ok(source) => source,
            Err(error) => {
                return Err(ParseMoveError::InvalidSource(error));
            },
        };
        let target = match parse_cell(s.substring_char(parts[4].0, parts[4].1)) {
            Ok(target) => target,
            Err(error) => {
                return Err(ParseMoveError::InvalidTarget(error));
            },
        };
        Ok(Move { player, size, source, target })
    }
}

} // verus!
