//! What a terminal shows of a game, and what it makes of a line that a
//! player types. Writing to the screen and reading the line are left to
//! the caller.

use std::str::FromStr;
use vstd::prelude::*;

use crate::board::{Board, CellState};
use crate::game::{Game, SubmitMoveError, Victory};
use crate::game_move::{parsed_move, Move, ParseMoveError};
use crate::player::Player;

verus! {

/// The sequence that erases the screen: escape, then `[2J`.
pub open spec fn erase_screen_text() -> Seq<char> {
    "\x1B[2J"@
}

/// The sequence that moves the cursor to the top left: escape, then
/// `[1;1H`.
pub open spec fn cursor_home_text() -> Seq<char> {
    "\x1B[1;1H"@
}

/// What a terminal is sent to start a new drawing: it erases the screen
/// and moves the cursor to the top left.
pub open spec fn reset_text() -> Seq<char> {
    erase_screen_text() + cursor_home_text()
}

/// The drawing of a game on a cleared screen.
pub open spec fn frame_text(board: Seq<CellState>) -> Seq<char> {
    reset_text() + Board::text(board) + "\n"@
}

/// What the player whose turn it is is asked with.
pub open spec fn prompt_text(player: Player) -> Seq<char> {
    player.abbrev_text() + ": "@
}

/// The text of the move that a player types: the short name of the player
/// and a blank, then what was typed.
pub open spec fn typed_text(player: Player, typed: Seq<char>) -> Seq<char> {
    player.abbrev_text() + " "@ + typed
}

/// What is said at the end of a game.
pub open spec fn closing_text(outcome: Option<Victory>) -> Seq<char> {
    match outcome {
        Some(victory) => victory.text(),
        None => "No winner"@,
    }
}

/// Why a line that a player typed led to no move.
#[derive(Debug, Clone, Copy, PartialEq, Eq, Structural)]
pub enum EntryError {
    /// The line is not the text of a move.
    Invalid(ParseMoveError),
    /// The move is against the rules.
    Illegal(SubmitMoveError),
}

/// `ansi_escapes::EraseScreen` as text. Its `Display` writes the fixed
/// sequence escape, `[2J`; nothing here proves that.
#[verifier::external_body]
fn erase_screen() -> (code: String)
    ensures
        code@ == erase_screen_text(),
{
    format!("{}", ansi_escapes::EraseScreen)
}

/// `ansi_escapes::CursorTo::TopLeft` as text. Its `Display` writes escape,
/// `[`, row 1, `;`, column 1 and `H`; nothing here proves that.
#[verifier::external_body]
fn cursor_to_top_left() -> (code: String)
    ensures
        code@ == cursor_home_text(),
{
    format!("{}", ansi_escapes::CursorTo::TopLeft)
}

/// What erases the screen and moves the cursor to the top left.
pub fn reset_sequence() -> (text: String)
    ensures
        text@ == reset_text(),
{
    let mut text = erase_screen();
    text.append(cursor_to_top_left().as_str());
    text
}

/// The drawing of the game's board on a cleared screen, with the end of
/// the line after it.
pub fn frame(game: &Game) -> (text: String)
    ensures
        text@ == frame_text(game@.board),
{
    let mut text = reset_sequence();
    text.append(game.board().to_string().as_str());
    text.append("\n");
    text
}

/// What the player whose turn it is is asked with, such as `P1: `.
pub fn prompt(game: &Game) -> (text: String)
    ensures
        text@ == prompt_text(game@.next_player()),
{
    let mut text = game.next_player().abbrev();
    text.append(": ");
    text
}

/// What is said at the end of a game: who has won and on which line, or
/// that nobody has.
pub fn closing(game: &Game) -> (text: String)
    ensures
        text@ == closing_text(game@.outcome),
{
    match game.outcome() {
        Some(victory) => victory.to_string(),
        None => "No winner".to_owned(),
    }
}

/// Make the move that the player whose turn it is has typed. The player
/// types the size, the source, an arrow and the target; the player's own
/// name is put in front. A line that is no move, or a move that is against
/// the rules, leaves the game as it was.
pub fn enter(game: &mut Game, typed: &str) -> (entered: Result<Option<Victory>, EntryError>)
    ensures
        match parsed_move(typed_text(old(game)@.next_player(), typed@)) {
            Err(error) => entered == Err::<Option<Victory>, EntryError>(
                EntryError::Invalid(error),
            ) && *final(game) == *old(game),
            Ok(mv) => match old(game)@.rejection(mv) {
                Some(error) => entered == Err::<Option<Victory>, EntryError>(
                    EntryError::Illegal(error),
                ) && *final(game) == *old(game),
                None => entered == Ok::<Option<Victory>, EntryError>(final(game)@.outcome)
                    && final(game)@ == old(game)@.after(mv),
            },
        },
        final(game)@.reachable(),
{
    proof {
        use_type_invariant(&*game);
    }
    let mut text = game.next_player().abbrev();
    text.append(" ");
    text.append(typed);
    match Move::from_str(text.as_str()) {
        Err(error) => Err(EntryError::Invalid(error)),
        Ok(mv) => match game.submit(mv) {
            Ok(victory) => Ok(victory),
            Err(error) => Err(EntryError::Illegal(error)),
        },
    }
}

} // verus!
