use gobblet::{
    look_for_victory, Board, Cell, Game, Line, Move, Player, Size, SubmitMoveError, Victory,
    STARTING_INVENTORY,
};

fn cell(row: u8, col: u8) -> Cell {
    Cell::new(row, col).expect("cell is on the board")
}

fn place(player: Player, size: Size, target: (u8, u8)) -> Move {
    Move::new(player, size, None, cell(target.0, target.1))
}

fn shift(player: Player, size: Size, source: (u8, u8), target: (u8, u8)) -> Move {
    Move::new(player, size, Some(cell(source.0, source.1)), cell(target.0, target.1))
}

fn slots(board: &Board) -> Vec<Option<Player>> {
    let mut all = Vec::new();
    for (_, state) in board.cells() {
        for size in [Size::Small, Size::Medium, Size::Large] {
            all.push(state[size]);
        }
    }
    all
}

fn in_play(board: &Board, player: Player, size: Size) -> usize {
    board.cells().iter().filter(|(_, state)| state[size] == Some(player)).count()
}

fn play_all(game: &mut Game, moves: &[Move]) {
    for mv in moves {
        assert_eq!(game.submit(*mv), Ok(None), "move {:?}", mv);
    }
}

#[test]
fn new_game_is_empty_and_player_one_begins() {
    let game = Game::default();
    assert_eq!(game.next_player(), Player::One);
    assert_eq!(game.moves().len(), 0);
    assert_eq!(game.outcome(), None);
    assert!(slots(game.board()).iter().all(|slot| slot.is_none()));
}

#[test]
fn starting_inventory_is_two() {
    assert_eq!(STARTING_INVENTORY, 2);
}

#[test]
fn next_player_after_first_move_is_player_two() {
    let mut game = Game::default();
    assert_eq!(game.next_player(), Player::One);
    game.submit(place(Player::One, Size::Small, (0, 0))).unwrap();
    assert_eq!(game.next_player(), Player::Two);
}

#[test]
fn submit_first_move_is_accepted() {
    let mut game = Game::default();
    let victory = game.submit(place(Player::One, Size::Small, (0, 0))).unwrap();
    assert!(victory.is_none());
    assert_eq!(game.moves().len(), 1);
    assert_eq!(game.next_player(), Player::Two);
    assert_eq!(game.board().read(cell(0, 0), Size::Small), Some(Player::One));
}

#[test]
fn next_player_alternates_with_each_accepted_move() {
    let mut game = Game::default();
    let moves = [
        place(Player::One, Size::Small, (0, 0)),
        place(Player::Two, Size::Small, (1, 1)),
        place(Player::One, Size::Medium, (2, 2)),
        place(Player::Two, Size::Medium, (0, 1)),
        shift(Player::One, Size::Small, (0, 0), (1, 0)),
        place(Player::Two, Size::Large, (1, 0)),
    ];
    let mut expected = Player::One;
    for mv in moves {
        assert_eq!(game.next_player(), expected);
        assert_eq!(game.submit(mv), Ok(None));
        expected = !expected;
        assert_eq!(game.next_player(), expected);
    }
}

#[test]
fn rejected_move_does_not_pass_the_turn() {
    let mut game = Game::default();
    assert!(game.submit(place(Player::Two, Size::Small, (0, 0))).is_err());
    assert_eq!(game.next_player(), Player::One);
}

#[test]
fn moves_are_kept_in_order_of_submission() {
    let mut game = Game::default();
    let moves = [
        place(Player::One, Size::Small, (0, 0)),
        place(Player::Two, Size::Medium, (0, 0)),
        place(Player::One, Size::Large, (0, 0)),
    ];
    play_all(&mut game, &moves);
    assert_eq!(game.moves(), &moves[..]);
}

#[test]
fn out_of_turn_move_is_rejected() {
    let mut game = Game::default();
    assert_eq!(
        game.submit(place(Player::Two, Size::Small, (0, 0))),
        Err(SubmitMoveError::OutOfTurn)
    );
    game.submit(place(Player::One, Size::Small, (0, 0))).unwrap();
    assert_eq!(
        game.submit(place(Player::One, Size::Small, (0, 1))),
        Err(SubmitMoveError::OutOfTurn)
    );
}

#[test]
fn moving_a_piece_that_is_not_at_the_source_is_rejected() {
    let mut game = Game::default();
    assert_eq!(
        game.submit(shift(Player::One, Size::Small, (0, 0), (0, 1))),
        Err(SubmitMoveError::PieceNotAtSource)
    );
}

#[test]
fn moving_the_other_players_piece_is_rejected() {
    let mut game = Game::default();
    play_all(
        &mut game,
        &[place(Player::One, Size::Small, (0, 0)), place(Player::Two, Size::Small, (1, 1))],
    );
    assert_eq!(
        game.submit(shift(Player::One, Size::Small, (1, 1), (2, 2))),
        Err(SubmitMoveError::PieceNotAtSource)
    );
}

#[test]
fn moving_a_piece_of_another_size_than_the_one_at_the_source_is_rejected() {
    let mut game = Game::default();
    play_all(
        &mut game,
        &[place(Player::One, Size::Small, (0, 0)), place(Player::Two, Size::Small, (1, 1))],
    );
    assert_eq!(
        game.submit(shift(Player::One, Size::Medium, (0, 0), (2, 2))),
        Err(SubmitMoveError::PieceNotAtSource)
    );
}

#[test]
fn covered_piece_cannot_be_moved() {
    let mut game = Game::default();
    play_all(
        &mut game,
        &[
            place(Player::One, Size::Small, (0, 0)),
            place(Player::Two, Size::Medium, (0, 0)),
        ],
    );
    assert_eq!(
        game.submit(shift(Player::One, Size::Small, (0, 0), (1, 1))),
        Err(SubmitMoveError::PieceBlockedAtSource)
    );
}

#[test]
fn piece_under_two_larger_ones_cannot_be_moved() {
    let mut game = Game::default();
    play_all(
        &mut game,
        &[
            place(Player::One, Size::Small, (0, 0)),
            place(Player::Two, Size::Medium, (0, 0)),
            place(Player::One, Size::Large, (0, 0)),
            place(Player::Two, Size::Small, (2, 2)),
        ],
    );
    assert_eq!(
        game.submit(shift(Player::One, Size::Small, (0, 0), (1, 1))),
        Err(SubmitMoveError::PieceBlockedAtSource)
    );
}

#[test]
fn third_piece_of_a_size_is_not_in_the_inventory() {
    let mut game = Game::default();
    play_all(
        &mut game,
        &[
            place(Player::One, Size::Small, (0, 0)),
            place(Player::Two, Size::Small, (1, 0)),
            place(Player::One, Size::Small, (0, 1)),
            place(Player::Two, Size::Small, (1, 1)),
        ],
    );
    assert_eq!(
        game.submit(place(Player::One, Size::Small, (0, 2))),
        Err(SubmitMoveError::PieceNotInInventory)
    );
    // A piece of another size is still there.
    assert!(game.submit(place(Player::One, Size::Medium, (2, 2))).is_ok());
}

#[test]
fn covered_pieces_still_count_against_the_inventory() {
    let mut game = Game::default();
    play_all(
        &mut game,
        &[
            place(Player::One, Size::Small, (0, 0)),
            place(Player::Two, Size::Medium, (0, 0)),
            place(Player::One, Size::Small, (1, 1)),
            place(Player::Two, Size::Medium, (1, 1)),
        ],
    );
    assert_eq!(
        game.submit(place(Player::One, Size::Small, (2, 2))),
        Err(SubmitMoveError::PieceNotInInventory)
    );
}

#[test]
fn target_with_a_piece_of_the_same_size_is_blocked() {
    let mut game = Game::default();
    game.submit(place(Player::One, Size::Medium, (1, 1))).unwrap();
    assert_eq!(
        game.submit(place(Player::Two, Size::Medium, (1, 1))),
        Err(SubmitMoveError::TargetBlocked)
    );
}

#[test]
fn target_with_a_larger_piece_is_blocked() {
    let mut game = Game::default();
    game.submit(place(Player::One, Size::Large, (1, 1))).unwrap();
    assert_eq!(
        game.submit(place(Player::Two, Size::Small, (1, 1))),
        Err(SubmitMoveError::TargetBlocked)
    );
    assert_eq!(
        game.submit(place(Player::Two, Size::Medium, (1, 1))),
        Err(SubmitMoveError::TargetBlocked)
    );
}

#[test]
fn moving_a_piece_onto_its_own_cell_is_blocked() {
    let mut game = Game::default();
    play_all(
        &mut game,
        &[place(Player::One, Size::Small, (0, 0)), place(Player::Two, Size::Small, (1, 1))],
    );
    assert_eq!(
        game.submit(shift(Player::One, Size::Small, (0, 0), (0, 0))),
        Err(SubmitMoveError::TargetBlocked)
    );
}

#[test]
fn larger_piece_covers_a_smaller_one() {
    let mut game = Game::default();
    play_all(
        &mut game,
        &[
            place(Player::One, Size::Small, (1, 1)),
            place(Player::Two, Size::Large, (1, 1)),
        ],
    );
    let state = &game.board()[cell(1, 1)];
    assert_eq!(state.controlled_by(), Some(Player::Two));
    assert_eq!(state.size(), Some(Size::Large));
    assert_eq!(state[Size::Small], Some(Player::One));
}

#[test]
fn moving_a_piece_clears_the_source_and_fills_the_target() {
    let mut game = Game::default();
    play_all(
        &mut game,
        &[
            place(Player::One, Size::Medium, (0, 0)),
            place(Player::Two, Size::Small, (2, 2)),
            shift(Player::One, Size::Medium, (0, 0), (2, 2)),
        ],
    );
    assert_eq!(game.board().read(cell(0, 0), Size::Medium), None);
    assert_eq!(game.board().read(cell(2, 2), Size::Medium), Some(Player::One));
    assert_eq!(game.board().read(cell(2, 2), Size::Small), Some(Player::Two));
    assert_eq!(game.board()[cell(2, 2)].controlled_by(), Some(Player::One));
}

#[test]
fn moving_the_top_piece_away_uncovers_the_piece_below() {
    let mut game = Game::default();
    play_all(
        &mut game,
        &[
            place(Player::One, Size::Small, (0, 0)),
            place(Player::Two, Size::Large, (0, 0)),
            place(Player::One, Size::Small, (2, 2)),
            shift(Player::Two, Size::Large, (0, 0), (1, 1)),
        ],
    );
    assert_eq!(game.board()[cell(0, 0)].controlled_by(), Some(Player::One));
    assert_eq!(game.board()[cell(1, 1)].controlled_by(), Some(Player::Two));
}

#[test]
fn rejected_submit_leaves_the_game_unchanged() {
    let mut game = Game::default();
    play_all(
        &mut game,
        &[
            place(Player::One, Size::Small, (0, 0)),
            place(Player::Two, Size::Medium, (0, 0)),
            place(Player::One, Size::Small, (0, 1)),
            place(Player::Two, Size::Large, (2, 2)),
        ],
    );
    let rejected = [
        (place(Player::Two, Size::Small, (1, 1)), SubmitMoveError::OutOfTurn),
        (shift(Player::One, Size::Large, (1, 1), (1, 2)), SubmitMoveError::PieceNotAtSource),
        (shift(Player::One, Size::Small, (0, 0), (1, 2)), SubmitMoveError::PieceBlockedAtSource),
        (place(Player::One, Size::Small, (1, 2)), SubmitMoveError::PieceNotInInventory),
        (place(Player::One, Size::Medium, (2, 2)), SubmitMoveError::TargetBlocked),
    ];
    for (mv, error) in rejected {
        let board = slots(game.board());
        let moves = game.moves().to_vec();
        let outcome = game.outcome();
        assert_eq!(game.submit(mv), Err(error));
        assert_eq!(slots(game.board()), board);
        assert_eq!(game.moves(), &moves[..]);
        assert_eq!(game.outcome(), outcome);
        assert_eq!(game.next_player(), Player::One);
    }
}

#[test]
fn checks_are_made_in_order() {
    let mut game = Game::default();
    // Out of turn comes before the piece missing at the source.
    assert_eq!(
        game.submit(shift(Player::Two, Size::Small, (0, 0), (0, 1))),
        Err(SubmitMoveError::OutOfTurn)
    );
    play_all(
        &mut game,
        &[
            place(Player::One, Size::Small, (0, 0)),
            place(Player::Two, Size::Medium, (0, 0)),
        ],
    );
    // The piece missing at the source comes before the blocked target.
    assert_eq!(
        game.submit(shift(Player::One, Size::Medium, (1, 1), (0, 0))),
        Err(SubmitMoveError::PieceNotAtSource)
    );
    // The piece blocked at the source comes before the blocked target.
    assert_eq!(
        game.submit(shift(Player::One, Size::Small, (0, 0), (0, 0))),
        Err(SubmitMoveError::PieceBlockedAtSource)
    );
}

#[test]
fn row_of_three_wins() {
    let mut game = Game::default();
    play_all(
        &mut game,
        &[
            place(Player::One, Size::Small, (0, 0)),
            place(Player::Two, Size::Small, (1, 0)),
            place(Player::One, Size::Small, (0, 1)),
            place(Player::Two, Size::Small, (1, 1)),
        ],
    );
    let victory = game.submit(place(Player::One, Size::Medium, (0, 2))).unwrap();
    assert_eq!(victory, Some(Victory { player: Player::One, line: Line::Row(0) }));
    let victory = victory.unwrap();
    assert_eq!(victory.player(), Player::One);
    assert_eq!(victory.line(), Line::Row(0));
    assert_eq!(game.outcome(), Some(victory));
    assert_eq!(game.moves().len(), 5);
}

#[test]
fn third_small_piece_in_a_row_is_not_in_the_inventory() {
    let mut game = Game::default();
    play_all(
        &mut game,
        &[
            place(Player::One, Size::Small, (0, 0)),
            place(Player::Two, Size::Small, (1, 0)),
            place(Player::One, Size::Small, (0, 1)),
            place(Player::Two, Size::Small, (1, 1)),
        ],
    );
    assert_eq!(
        game.submit(place(Player::One, Size::Small, (0, 2))),
        Err(SubmitMoveError::PieceNotInInventory)
    );
    assert_eq!(game.outcome(), None);
}

#[test]
fn column_of_three_wins_for_player_two() {
    let mut game = Game::default();
    play_all(
        &mut game,
        &[
            place(Player::One, Size::Small, (0, 0)),
            place(Player::Two, Size::Small, (0, 2)),
            place(Player::One, Size::Small, (1, 0)),
            place(Player::Two, Size::Small, (1, 2)),
            place(Player::One, Size::Medium, (1, 1)),
        ],
    );
    let victory = game.submit(place(Player::Two, Size::Large, (2, 2))).unwrap();
    assert_eq!(victory, Some(Victory { player: Player::Two, line: Line::Col(2) }));
}

#[test]
fn diagonal_wins() {
    let mut game = Game::default();
    play_all(
        &mut game,
        &[
            place(Player::One, Size::Small, (2, 0)),
            place(Player::Two, Size::Small, (0, 0)),
            place(Player::One, Size::Medium, (1, 1)),
            place(Player::Two, Size::Small, (0, 1)),
        ],
    );
    let victory = game.submit(place(Player::One, Size::Large, (0, 2))).unwrap();
    assert_eq!(victory, Some(Victory { player: Player::One, line: Line::DiagonalUp }));
}

#[test]
fn covering_the_last_cell_of_a_line_wins() {
    let mut game = Game::default();
    play_all(
        &mut game,
        &[
            place(Player::One, Size::Medium, (0, 0)),
            place(Player::Two, Size::Small, (2, 2)),
            place(Player::One, Size::Medium, (1, 1)),
            place(Player::Two, Size::Small, (0, 1)),
        ],
    );
    let victory = game.submit(place(Player::One, Size::Large, (2, 2))).unwrap();
    assert_eq!(victory, Some(Victory { player: Player::One, line: Line::DiagonalDown }));
}

#[test]
fn no_move_is_accepted_after_the_game_has_ended() {
    let mut game = Game::default();
    play_all(
        &mut game,
        &[
            place(Player::One, Size::Small, (0, 0)),
            place(Player::Two, Size::Small, (1, 0)),
            place(Player::One, Size::Small, (0, 1)),
            place(Player::Two, Size::Small, (1, 1)),
        ],
    );
    let victory = game.submit(place(Player::One, Size::Medium, (0, 2))).unwrap();
    assert!(victory.is_some());
    let board = slots(game.board());
    for mv in [
        place(Player::Two, Size::Medium, (2, 2)),
        place(Player::One, Size::Medium, (2, 2)),
        shift(Player::Two, Size::Small, (1, 0), (2, 0)),
    ] {
        assert_eq!(game.submit(mv), Err(SubmitMoveError::GameOver));
    }
    assert_eq!(game.outcome(), victory);
    assert_eq!(game.moves().len(), 5);
    assert_eq!(slots(game.board()), board);
}

#[test]
fn uncovering_a_line_of_the_other_player_loses_even_when_completing_a_line() {
    let mut game = Game::default();
    play_all(
        &mut game,
        &[
            place(Player::One, Size::Medium, (1, 0)),
            place(Player::Two, Size::Small, (0, 0)),
            place(Player::One, Size::Large, (0, 0)),
            place(Player::Two, Size::Small, (0, 1)),
            place(Player::One, Size::Medium, (1, 1)),
            place(Player::Two, Size::Medium, (0, 2)),
        ],
    );
    // The large piece leaves (0, 0), where it hid a piece of player two, and
    // completes row 1 for player one. Row 0 is now player two's.
    let victory = game.submit(shift(Player::One, Size::Large, (0, 0), (1, 2))).unwrap();
    assert_eq!(victory, Some(Victory { player: Player::Two, line: Line::Row(0) }));
    assert_eq!(game.outcome(), victory);
    assert_eq!(game.board()[cell(1, 0)].controlled_by(), Some(Player::One));
    assert_eq!(game.board()[cell(1, 1)].controlled_by(), Some(Player::One));
    assert_eq!(game.board()[cell(1, 2)].controlled_by(), Some(Player::One));
}

#[test]
fn uncovering_a_line_of_the_other_player_loses() {
    let mut game = Game::default();
    play_all(
        &mut game,
        &[
            place(Player::One, Size::Medium, (2, 0)),
            place(Player::Two, Size::Small, (0, 0)),
            place(Player::One, Size::Large, (0, 0)),
            place(Player::Two, Size::Small, (0, 1)),
            place(Player::One, Size::Medium, (2, 1)),
            place(Player::Two, Size::Medium, (0, 2)),
        ],
    );
    let victory = game.submit(shift(Player::One, Size::Large, (0, 0), (1, 1))).unwrap();
    assert_eq!(victory, Some(Victory { player: Player::Two, line: Line::Row(0) }));
}

#[test]
fn look_for_victory_finds_nothing_on_an_empty_board() {
    let board = Board::default();
    assert_eq!(look_for_victory(&board, Player::One), None);
    assert_eq!(look_for_victory(&board, Player::Two), None);
}

#[test]
fn look_for_victory_needs_three_cells_of_one_player() {
    let mut board = Board::default();
    board.write(cell(0, 0), Size::Small, Some(Player::One));
    board.write(cell(0, 1), Size::Small, Some(Player::One));
    assert_eq!(look_for_victory(&board, Player::One), None);
    board.write(cell(0, 2), Size::Small, Some(Player::Two));
    assert_eq!(look_for_victory(&board, Player::One), None);
    assert_eq!(look_for_victory(&board, Player::Two), None);
}

#[test]
fn look_for_victory_goes_by_the_controlling_player() {
    let mut board = Board::default();
    board.write(cell(0, 0), Size::Small, Some(Player::One));
    board.write(cell(1, 1), Size::Medium, Some(Player::One));
    board.write(cell(2, 2), Size::Small, Some(Player::One));
    assert_eq!(
        look_for_victory(&board, Player::One),
        Some(Victory { player: Player::One, line: Line::DiagonalDown })
    );
    board.write(cell(2, 2), Size::Large, Some(Player::Two));
    assert_eq!(look_for_victory(&board, Player::One), None);
}

#[test]
fn look_for_victory_prefers_the_player_who_did_not_move() {
    let mut board = Board::default();
    // The mover's small piece lies in a cell of a row that the other
    // player's large pieces hold, and the mover has a row of their own.
    for col in 0..3 {
        board.write(cell(0, col), Size::Large, Some(Player::Two));
        board.write(cell(2, col), Size::Medium, Some(Player::One));
    }
    board.write(cell(0, 0), Size::Small, Some(Player::One));
    assert_eq!(
        look_for_victory(&board, Player::One),
        Some(Victory { player: Player::Two, line: Line::Row(0) })
    );
    assert_eq!(
        look_for_victory(&board, Player::Two),
        Some(Victory { player: Player::One, line: Line::Row(2) })
    );
}

#[test]
fn look_for_victory_prefers_the_other_player_even_on_a_later_line() {
    let mut board = Board::default();
    for row in 0..3 {
        board.write(cell(row, 0), Size::Small, Some(Player::One));
        board.write(cell(row, 2), Size::Small, Some(Player::Two));
    }
    // Column 0 comes before column 2, but the mover's own line counts last.
    assert_eq!(
        look_for_victory(&board, Player::One),
        Some(Victory { player: Player::Two, line: Line::Col(2) })
    );
    assert_eq!(
        look_for_victory(&board, Player::Two),
        Some(Victory { player: Player::One, line: Line::Col(0) })
    );
}

#[test]
fn look_for_victory_reports_the_first_line_in_order() {
    let mut board = Board::default();
    // Player one holds row 2, column 0 and the rising diagonal.
    for at in [(2, 0), (2, 1), (2, 2), (0, 0), (1, 0), (1, 1), (0, 2)] {
        board.write(cell(at.0, at.1), Size::Small, Some(Player::One));
    }
    assert_eq!(
        look_for_victory(&board, Player::One),
        Some(Victory { player: Player::One, line: Line::Row(2) })
    );
    board.write(cell(2, 2), Size::Small, None);
    assert_eq!(
        look_for_victory(&board, Player::One),
        Some(Victory { player: Player::One, line: Line::Col(0) })
    );
    board.write(cell(1, 0), Size::Small, None);
    assert_eq!(
        look_for_victory(&board, Player::One),
        Some(Victory { player: Player::One, line: Line::DiagonalUp })
    );
}

#[test]
fn look_for_victory_is_the_same_each_time() {
    let mut board = Board::default();
    for at in [(0, 0), (1, 1), (2, 2), (0, 2), (2, 0)] {
        board.write(cell(at.0, at.1), Size::Large, Some(Player::Two));
    }
    let first = look_for_victory(&board, Player::Two);
    assert_eq!(first, Some(Victory { player: Player::Two, line: Line::DiagonalUp }));
    assert_eq!(look_for_victory(&board, Player::Two), first);
}

#[test]
fn inventory_is_never_exceeded_during_a_game() {
    let mut game = Game::default();
    let attempts = [
        place(Player::One, Size::Small, (0, 0)),
        place(Player::Two, Size::Small, (0, 1)),
        place(Player::One, Size::Small, (1, 0)),
        place(Player::Two, Size::Small, (1, 1)),
        place(Player::One, Size::Small, (2, 1)),
        place(Player::One, Size::Medium, (0, 1)),
        place(Player::Two, Size::Small, (2, 2)),
        place(Player::Two, Size::Medium, (0, 0)),
        shift(Player::One, Size::Small, (1, 0), (2, 2)),
        place(Player::Two, Size::Medium, (1, 0)),
        place(Player::One, Size::Medium, (1, 1)),
        place(Player::Two, Size::Medium, (2, 0)),
        place(Player::Two, Size::Large, (2, 2)),
        place(Player::One, Size::Medium, (2, 0)),
        place(Player::One, Size::Large, (1, 0)),
    ];
    for mv in attempts {
        let _ = game.submit(mv);
        for player in [Player::One, Player::Two] {
            for size in [Size::Small, Size::Medium, Size::Large] {
                assert!(in_play(game.board(), player, size) <= STARTING_INVENTORY);
            }
        }
    }
    assert!(game.moves().len() >= 10);
}

#[test]
fn victory_message_names_player_and_line() {
    let victory = Victory { player: Player::One, line: Line::Row(0) };
    assert_eq!(victory.to_string(), "Player 1 wins on row 1");
    let victory = Victory { player: Player::Two, line: Line::Col(2) };
    assert_eq!(victory.to_string(), "Player 2 wins on column 3");
    let victory = Victory { player: Player::Two, line: Line::DiagonalUp };
    assert_eq!(victory.to_string(), "Player 2 wins on diagonal ↗");
    let victory = Victory { player: Player::One, line: Line::DiagonalDown };
    assert_eq!(victory.to_string(), "Player 1 wins on diagonal ↘");
}
