use gobblet::{
    closing, enter, frame, prompt, reset_sequence, Cell, EntryError, Game, Line, Move,
    ParseCellError, ParseMoveError, Player, Size, SubmitMoveError, Victory,
};

fn cell(row: u8, col: u8) -> Cell {
    Cell::new(row, col).expect("cell is on the board")
}

#[test]
fn reset_sequence_erases_the_screen_and_homes_the_cursor() {
    assert_eq!(reset_sequence(), "\x1B[2J\x1B[1;1H");
}

#[test]
fn reset_sequence_is_what_the_escape_codes_print() {
    let expected = format!("{}{}", ansi_escapes::EraseScreen, ansi_escapes::CursorTo::TopLeft);
    assert_eq!(reset_sequence(), expected);
}

#[test]
fn frame_of_a_new_game_is_an_empty_grid_on_a_cleared_screen() {
    let expected = "\x1B[2J\x1B[1;1H\
                    \x20   |    |    \n\
                    --------------\n\
                    \x20   |    |    \n\
                    --------------\n\
                    \x20   |    |    \n\
                    \n";
    assert_eq!(frame(&Game::default()), expected);
}

#[test]
fn frame_shows_the_board_of_the_game() {
    let mut game = Game::default();
    game.submit(Move::new(Player::One, Size::Medium, None, cell(1, 1))).unwrap();
    game.submit(Move::new(Player::Two, Size::Large, None, cell(0, 2))).unwrap();
    let expected = "\x1B[2J\x1B[1;1H\
                    \x20   |    |P2-L\n\
                    --------------\n\
                    \x20   |P1-M|    \n\
                    --------------\n\
                    \x20   |    |    \n\
                    \n";
    assert_eq!(frame(&game), expected);
    assert_eq!(frame(&game), format!("{}{}\n", reset_sequence(), game.board().to_string()));
}

#[test]
fn prompt_names_the_player_whose_turn_it_is() {
    let mut game = Game::default();
    assert_eq!(prompt(&game), "P1: ");
    game.submit(Move::new(Player::One, Size::Medium, None, cell(1, 1))).unwrap();
    assert_eq!(prompt(&game), "P2: ");
}

#[test]
fn closing_says_no_winner_while_the_game_is_on() {
    assert_eq!(closing(&Game::default()), "No winner");
}

#[test]
fn closing_announces_the_victory() {
    let mut game = Game::default();
    for typed in ["S _ > 0,0", "S _ > 1,0", "S _ > 0,1", "S _ > 1,1"] {
        assert_eq!(enter(&mut game, typed), Ok(None));
    }
    assert_eq!(
        enter(&mut game, "M _ > 0,2\n"),
        Ok(Some(Victory { player: Player::One, line: Line::Row(0) }))
    );
    assert_eq!(closing(&game), "Player 1 wins on row 1");
}

#[test]
fn enter_puts_the_name_of_the_player_in_front() {
    let mut game = Game::default();
    assert_eq!(enter(&mut game, "S _ > 0,0\n"), Ok(None));
    assert_eq!(enter(&mut game, "L _ > 0,0\n"), Ok(None));
    assert_eq!(
        game.moves(),
        &[
            Move::new(Player::One, Size::Small, None, cell(0, 0)),
            Move::new(Player::Two, Size::Large, None, cell(0, 0)),
        ][..]
    );
}

#[test]
fn enter_reports_a_line_that_is_no_move() {
    let mut game = Game::default();
    assert_eq!(
        enter(&mut game, "\n"),
        Err(EntryError::Invalid(ParseMoveError::TooFewParts(1)))
    );
    assert_eq!(
        enter(&mut game, "P1 S _ > 0,0"),
        Err(EntryError::Invalid(ParseMoveError::TooManyParts(6)))
    );
    assert_eq!(enter(&mut game, "X _ > 0,0"), Err(EntryError::Invalid(ParseMoveError::InvalidSize)));
    assert_eq!(
        enter(&mut game, "S 0;0 > 0,0"),
        Err(EntryError::Invalid(ParseMoveError::InvalidSource(ParseCellError::TooFewParts)))
    );
    assert_eq!(
        enter(&mut game, "S _ > 0,x"),
        Err(EntryError::Invalid(ParseMoveError::InvalidTarget(ParseCellError::InvalidColumn)))
    );
    assert_eq!(game.moves().len(), 0);
    assert_eq!(game.next_player(), Player::One);
}

#[test]
fn enter_reports_a_move_against_the_rules() {
    let mut game = Game::default();
    assert_eq!(
        enter(&mut game, "S 0,0 > 1,1"),
        Err(EntryError::Illegal(SubmitMoveError::PieceNotAtSource))
    );
    assert_eq!(enter(&mut game, "L _ > 1,1"), Ok(None));
    assert_eq!(
        enter(&mut game, "M _ > 1,1"),
        Err(EntryError::Illegal(SubmitMoveError::TargetBlocked))
    );
    assert_eq!(game.moves().len(), 1);
    assert_eq!(game.next_player(), Player::Two);
}
