use std::ops::{Index, Not};
use vstd::prelude::*;

use crate::board::{Board, CellState};
use crate::game_move::Move;
use crate::line::Line;
use crate::piece::Size;
use crate::player::Player;

verus! {

/// The number of pieces each player has of each size at the start
/// of the game.
pub const STARTING_INVENTORY: usize = 2;

/// The terminal state of a game.
#[derive(Debug, Clone, Copy, PartialEq, Eq, Structural)]
pub struct Victory {
    pub player: Player,
    pub line: Line,
}

impl Victory {
    /// The message that announces the victory.
    pub open spec fn text(self) -> Seq<char> {
        self.player.text() + " wins on "@ + self.line.text()
    }

    /// The message that announces the victory, such as
    /// `Player 1 wins on row 1`.
    pub fn to_string(&self) -> (text: String)
        ensures
            text@ == self.text(),
    {
        let mut text = self.player.to_string();
        text.append(" wins on ");
        text.append(self.line.to_string().as_str());
        text
    }

    /// The player who won the game.
    pub fn player(&self) -> (player: Player)
        ensures
            player == self.player,
    {
        self.player
    }

    /// The line that won the game for the player.
    ///
    /// In the event that the board has multiple winning lines for
    /// the player, only one is kept: the first in the order of [`Line::all`].
    pub fn line(&self) -> (line: Line)
        ensures
            line == self.line,
    {
        self.line
    }
}

/// An error that prevented evaluation of a submitted move.
///
/// See [`Game::submit`].
#[derive(Debug, Clone, Copy, PartialEq, Eq, Structural)]
pub enum SubmitMoveError {
    /// The game has already ended.
    GameOver,
    /// It is the other player's turn.
    OutOfTurn,
    /// The piece is not present at the source.
    PieceNotAtSource,
    /// All pieces of that size are on the board already.
    PieceNotInInventory,
    /// The piece is present at the source, but lies under a larger piece.
    PieceBlockedAtSource,
    /// A piece of the same or greater size is already at the destination.
    TargetBlocked,
}

/// The number of cells of the board in which the player has a piece of the
/// given size.
pub open spec fn in_play(board: Seq<CellState>, player: Player, size: Size) -> nat
    decreases board.len(),
{
    if board.len() == 0 {
        0
    } else {
        in_play(board.drop_last(), player, size) + if board.last().holds(player, size) {
            1nat
        } else {
            0nat
        }
    }
}

/// No player has more pieces of one size on the board than the inventory
/// held at the start.
pub open spec fn inventory_kept(board: Seq<CellState>) -> bool {
    forall|player: Player, size: Size| #[trigger]
        in_play(board, player, size) <= STARTING_INVENTORY
}

/// The line crosses the board and the player controls each of its cells.
pub open spec fn completes(board: Seq<CellState>, player: Player, line: Line) -> bool {
    &&& line.crosses_board()
    &&& forall|i: int|
        0 <= i < 9 && #[trigger] line.covers(i) ==> board[i].controller() == Some(player)
}

/// The player who completes the line, if any.
pub open spec fn line_owner(board: Seq<CellState>, line: Line) -> Option<Player> {
    if completes(board, Player::One, line) {
        Some(Player::One)
    } else if completes(board, Player::Two, line) {
        Some(Player::Two)
    } else {
        None
    }
}

/// The first line that the player completes among the first `among` lines
/// of [`Line::every`].
pub open spec fn first_completed(board: Seq<CellState>, player: Player, among: nat) -> Option<
    Line,
>
    decreases among,
{
    if among == 0 {
        None
    } else {
        match first_completed(board, player, (among - 1) as nat) {
            Some(line) => Some(line),
            None => if completes(board, player, Line::every()[among - 1]) {
                Some(Line::every()[among - 1])
            } else {
                None
            },
        }
    }
}

/// The victory that stands on the board once `mover` has moved. A line of
/// the other player comes before any line of the mover: whoever uncovers a
/// line of the other player loses, even when completing a line in the same
/// move.
pub open spec fn victory_after(board: Seq<CellState>, mover: Player) -> Option<Victory> {
    match first_completed(board, mover.other(), 8) {
        Some(line) => Some(Victory { player: mover.other(), line }),
        None => match first_completed(board, mover, 8) {
            Some(line) => Some(Victory { player: mover, line }),
            None => None,
        },
    }
}

/// What a game is made of: the board, the moves accepted so far and the
/// outcome.
pub struct GameState {
    pub board: Seq<CellState>,
    pub moves: Seq<Move>,
    pub outcome: Option<Victory>,
}

impl GameState {
    /// The game before the first move.
    pub open spec fn opening() -> GameState {
        GameState { board: Board::vacant(), moves: Seq::empty(), outcome: None }
    }

    /// The player whose turn it is: player one at first, then the player
    /// who did not make the last move.
    pub open spec fn next_player(self) -> Player {
        if self.moves.len() == 0 {
            Player::One
        } else {
            self.moves.last().player.other()
        }
    }

    /// Why the move cannot be made, if it cannot. The checks stand in the
    /// order in which they are made; the first that fails decides.
    pub open spec fn rejection(self, mv: Move) -> Option<SubmitMoveError> {
        if self.outcome is Some {
            Some(SubmitMoveError::GameOver)
        } else if self.next_player() != mv.player {
            Some(SubmitMoveError::OutOfTurn)
        } else if mv.source matches Some(source) && self.board[source.offset()].occupant(mv.size)
            != Some(mv.player) {
            Some(SubmitMoveError::PieceNotAtSource)
        } else if mv.source matches Some(source) && self.board[source.offset()].buries(mv.size) {
            Some(SubmitMoveError::PieceBlockedAtSource)
        } else if mv.source is None && in_play(self.board, mv.player, mv.size)
            >= STARTING_INVENTORY {
            Some(SubmitMoveError::PieceNotInInventory)
        } else if self.board[mv.target.offset()].blocks(mv.size) {
            Some(SubmitMoveError::TargetBlocked)
        } else {
            None
        }
    }

    /// The board once the piece has left its source, if it had one on the
    /// board, and lies at its target.
    pub open spec fn board_after(self, mv: Move) -> Seq<CellState> {
        let lifted = match mv.source {
            Some(source) => self.board.update(
                source.offset(),
                self.board[source.offset()].put(mv.size, None),
            ),
            None => self.board,
        };
        lifted.update(mv.target.offset(), lifted[mv.target.offset()].put(mv.size, Some(mv.player)))
    }

    /// The game once the move has been made.
    pub open spec fn after(self, mv: Move) -> GameState {
        GameState {
            board: self.board_after(mv),
            moves: self.moves.push(mv),
            outcome: victory_after(self.board_after(mv), mv.player),
        }
    }

    /// The game that the moves lead to from the opening, if each of them
    /// can be made in its turn.
    pub open spec fn play(moves: Seq<Move>) -> Option<GameState>
        decreases moves.len(),
    {
        if moves.len() == 0 {
            Some(GameState::opening())
        } else {
            match GameState::play(moves.drop_last()) {
                Some(before) => if moves.last().on_board() && before.rejection(moves.last())
                    is None {
                    Some(before.after(moves.last()))
                } else {
                    None
                },
                None => None,
            }
        }
    }

    /// The game is what its own moves lead to from the opening.
    pub open spec fn reachable(self) -> bool {
        GameState::play(self.moves) == Some(self)
    }
}

/// A game instance, which includes all moves up to the current point
/// in the game.
pub struct Game {
    board: Board,
    moves: Vec<Move>,
    victory: Option<Victory>,
}

impl View for Game {
    type V = GameState;

    closed spec fn view(&self) -> GameState {
        GameState { board: self.board@, moves: self.moves@, outcome: self.victory }
    }
}

impl Game {
    /// A game is always what its own moves lead to from the opening.
    #[verifier::type_invariant]
    pub open spec fn played(self) -> bool {
        self@.reachable()
    }

    /// Get the player whose turn it is.
    pub fn next_player(&self) -> (player: Player)
        ensures
            player == self@.next_player(),
    {
        let made = self.moves.len();
        if made == 0 {
            Player::One
        } else {
            self.moves[made - 1].player.not()
        }
    }

    /// Submit a move to the game.
    ///
    /// The move is checked against the rules, in the order in which
    /// [`GameState::rejection`] lists them. A move that breaks one is
    /// refused with the error of the first that it breaks, and the game
    /// stays as it was. Any other move is made: the piece leaves its source,
    /// if it had one on the board, and lies at its target; the move joins
    /// the history; and the victory that then stands on the board, if any,
    /// is returned and ends the game.
    pub fn submit(&mut self, mv: Move) -> (outcome: Result<Option<Victory>, SubmitMoveError>)
        ensures
            match outcome {
                Ok(victory) => {
                    &&& old(self)@.rejection(mv) is None
                    &&& final(self)@ == old(self)@.after(mv)
                    &&& victory == final(self)@.outcome
                },
                Err(error) => {
                    &&& old(self)@.rejection(mv) == Some(error)
                    &&& *final(self) == *old(self)
                },
            },
            final(self)@.reachable(),
    {
        proof {
            use_type_invariant(&*self);
            use_type_invariant(mv.target);
            self.board.lemma_nine_cells();
        }
        if self.victory.is_some() {
            return Err(SubmitMoveError::GameOver);
        }
        if self.next_player() != mv.player {
            return Err(SubmitMoveError::OutOfTurn);
        }
        if let Some(source) = mv.source {
            proof {
                use_type_invariant(source);
            }
            let source_state = self.board.index(source);
            if *source_state.index(mv.size) != Some(mv.player) {
                return Err(SubmitMoveError::PieceNotAtSource);
            }
            let buried = match source_state.size() {
                Some(src_size) => src_size > mv.size,
                None => false,
            };
            if buried {
                return Err(SubmitMoveError::PieceBlockedAtSource);
            }
        } else {
            let in_play = count_in_play(&self.board, mv.player, mv.size);
            if in_play >= STARTING_INVENTORY {
                return Err(SubmitMoveError::PieceNotInInventory);
            }
        }
        let blocked = match self.board.index(mv.target).size() {
            Some(dest_size) => dest_size >= mv.size,
            None => false,
        };
        if blocked {
            return Err(SubmitMoveError::TargetBlocked);
        }
        let mut taken = Game::default();
        std::mem::swap(self, &mut taken);
        let Game { mut board, mut moves, victory: _ } = taken;
        if let Some(source) = mv.source {
            board.write(source, mv.size, None);
        }
        board.write(mv.target, mv.size, Some(mv.player));

        let victory = look_for_victory(&board, mv.player);

        moves.push(mv);
        proof {
            assert(moves@.drop_last() =~= old(self)@.moves);
        }
        *self = Game { board, moves, victory };
        Ok(victory)
    }

    /// Get the current state of the board.
    pub fn board(&self) -> (board: &Board)
        ensures
            board@ == self@.board,
    {
        &self.board
    }

    /// Get the moves in order of submission.
    pub fn moves(&self) -> (moves: &[Move])
        ensures
            moves@ == self@.moves,
    {
        self.moves.as_slice()
    }

    /// Get the outcome of the game; if this is `None`, the game has not ended.
    pub fn outcome(&self) -> (outcome: Option<Victory>)
        ensures
            outcome == self@.outcome,
    {
        self.victory
    }
}

impl Default for Game {
    fn default() -> (game: Game)
        ensures
            game@ == GameState::opening(),
    {
        Game { board: Board::default(), moves: Vec::new(), victory: None }
    }
}

/// Count the cells in which the player has a piece of the given size.
fn count_in_play(board: &Board, player: Player, size: Size) -> (count: usize)
    ensures
        count == in_play(board@, player, size),
{
    let cells = board.cells();
    let mut count: usize = 0;
    proof {
        board.lemma_nine_cells();
    }
    for i in 0usize..9
        invariant
            board@.len() == 9,
            cells@.len() == 9,
            forall|j: int| 0 <= j < 9 ==> *(#[trigger] cells@[j]).1 == board@[j],
            count == in_play(board@.take(i as int), player, size),
            count <= i,
    {
        let state = cells[i].1;
        proof {
            assert(board@.take(i + 1).drop_last() =~= board@.take(i as int));
        }
        if *state.index(size) == Some(player) {
            count = count + 1;
        }
    }
    proof {
        assert(board@.take(9) =~= board@);
    }
    count
}

/// The player who controls every cell of the line, if there is one.
fn line_winner(board: &Board, line: Line) -> (winner: Option<Player>)
    ensures
        winner == line_owner(board@, line),
{
    let on = board.line(line);
    proof {
        line.lemma_three_cells();
    }
    if on.len() == 0 {
        return None;
    }
    let ghost first = board@[line.offsets()[0]].controller();
    let mut shared = on[0].1.controlled_by();
    for k in 1usize..on.len()
        invariant
            on@.len() == line.offsets().len(),
            on@.len() == 3,
            forall|j: int|
                0 <= j < on@.len() ==> *(#[trigger] on@[j]).1 == board@[line.offsets()[j]],
            first == board@[line.offsets()[0]].controller(),
            shared is Some ==> shared == first && forall|j: int|
                0 <= j < k ==> board@[#[trigger] line.offsets()[j]].controller() == shared,
            shared is None ==> first is None || exists|j: int|
                0 <= j < k && board@[#[trigger] line.offsets()[j]].controller() != first,
    {
        let current = on[k].1.controlled_by();
        if shared != current {
            shared = None;
        }
    }
    proof {
        let cells = line.offsets();
        match shared {
            Some(player) => {
                assert forall|i: int| 0 <= i < 9 && #[trigger] line.covers(i) implies board@[i].controller()
                    == Some(player) by {
                    assert(cells.contains(i));
                    let j = choose|j: int| 0 <= j < cells.len() && cells[j] == i;
                    assert(board@[cells[j]].controller() == shared);
                }
                assert(completes(board@, player, line));
                assert(line.covers(cells[0]));
            },
            None => {
                assert(line.covers(cells[0]));
                if first is Some {
                    let j = choose|j: int|
                        0 <= j < 3 && board@[#[trigger] cells[j]].controller() != first;
                    assert(line.covers(cells[j]));
                }
            },
        }
    }
    shared
}

/// Look for a victory state in a given board.
///
/// The rules of the game say that if a player's move results in both players
/// having a completed line, the player who just moved loses. This avoids a
/// situation in which player one wins by uncovering a complete line for player
/// two and completing their own line at the same time.
pub fn look_for_victory(board: &Board, last_moving_player: Player) -> (victory: Option<Victory>)
    ensures
        victory == victory_after(board@, last_moving_player),
{
    let mut win_for_last_moving_player: Option<Line> = None;
    let first_choice_winner = last_moving_player.not();
    let lines = Line::all();
    for i in 0usize..8
        invariant
            lines@ == Line::every(),
            first_choice_winner == last_moving_player.other(),
            first_completed(board@, first_choice_winner, i as nat) is None,
            win_for_last_moving_player == first_completed(board@, last_moving_player, i as nat),
    {
        let line = lines[i];
        proof {
            lemma_one_owner(board@, line);
        }
        match line_winner(board, line) {
            None => {},
            Some(winner) => {
                if winner == first_choice_winner {
                    proof {
                        lemma_first_completed_stays(board@, first_choice_winner, (i + 1) as nat, 8);
                    }
                    return Some(Victory { player: first_choice_winner, line });
                } else if win_for_last_moving_player.is_none() {
                    win_for_last_moving_player = Some(line);
                }
            },
        }
    }
    // If there is no victory for the first-choice winner, then the
    // victory will be that of the last-moving player - or None, if
    // the last-moving player also doesn't have a victory.
    match win_for_last_moving_player {
        Some(line) => Some(Victory { player: last_moving_player, line }),
        None => None,
    }
}

/// Replacing one cell changes the number of pieces in play by what the new
/// cell holds more than the old one.
pub proof fn lemma_in_play_update(
    board: Seq<CellState>,
    at: int,
    state: CellState,
    player: Player,
    size: Size,
)
    requires
        0 <= at < board.len(),
    ensures
        in_play(board.update(at, state), player, size) + (if board[at].holds(player, size) {
            1nat
        } else {
            0nat
        }) == in_play(board, player, size) + (if state.holds(player, size) {
            1nat
        } else {
            0nat
        }),
    decreases board.len(),
{
    let changed = board.update(at, state);
    if at == board.len() - 1 {
        assert(changed.drop_last() =~= board.drop_last());
    } else {
        lemma_in_play_update(board.drop_last(), at, state, player, size);
        assert(changed.drop_last() =~= board.drop_last().update(at, state));
    }
}

/// Where no cell holds such a piece, none is in play.
pub proof fn lemma_in_play_none(board: Seq<CellState>, player: Player, size: Size)
    requires
        forall|i: int| 0 <= i < board.len() ==> !(#[trigger] board[i]).holds(player, size),
    ensures
        in_play(board, player, size) == 0,
    decreases board.len(),
{
    if board.len() > 0 {
        lemma_in_play_none(board.drop_last(), player, size);
    }
}

/// A move that is made keeps the inventory: a piece that comes from the
/// inventory was still in it, and a piece that is moved on the board
/// neither adds nor removes one.
pub proof fn lemma_move_keeps_inventory(state: GameState, mv: Move)
    requires
        state.board.len() == 9,
        mv.on_board(),
        state.rejection(mv) is None,
        inventory_kept(state.board),
    ensures
        inventory_kept(state.board_after(mv)),
        state.board_after(mv).len() == 9,
        mv.source matches Some(source) ==> source != mv.target,
        forall|player: Player, size: Size|
            mv.source is Some ==> #[trigger] in_play(state.board_after(mv), player, size)
                == in_play(state.board, player, size),
{
    let target = mv.target.offset();
    let lifted = match mv.source {
        Some(source) => state.board.update(
            source.offset(),
            state.board[source.offset()].put(mv.size, None),
        ),
        None => state.board,
    };
    let landed = state.board_after(mv);
    state.board[target].lemma_controller();
    assert(state.board[target].occupant(mv.size) is None);
    if let Some(source) = mv.source {
        assert(source.offset() != target);
    }
    assert forall|player: Player, size: Size| #[trigger]
        in_play(landed, player, size) <= STARTING_INVENTORY && (mv.source is Some ==> in_play(
            landed,
            player,
            size,
        ) == in_play(state.board, player, size)) by {
        assert(in_play(state.board, player, size) <= STARTING_INVENTORY);
        if let Some(source) = mv.source {
            lemma_in_play_update(
                state.board,
                source.offset(),
                state.board[source.offset()].put(mv.size, None),
                player,
                size,
            );
        }
        lemma_in_play_update(lifted, target, lifted[target].put(mv.size, Some(mv.player)), player, size);
    }
}

/// What holds of every game that can be reached by play: it keeps its
/// moves, its board has nine cells, the inventory is kept, the players
/// took turns starting with player one, and every move names cells of the
/// board.
pub proof fn lemma_play(moves: Seq<Move>)
    requires
        GameState::play(moves) is Some,
    ensures
        GameState::play(moves)->Some_0.moves == moves,
        GameState::play(moves)->Some_0.board.len() == 9,
        inventory_kept(GameState::play(moves)->Some_0.board),
        forall|i: int| 0 <= i < moves.len() ==> (#[trigger] moves[i]).player == Player::on_turn(i as nat),
        forall|i: int| 0 <= i < moves.len() ==> (#[trigger] moves[i]).on_board(),
        forall|i: int| 0 <= i <= moves.len() ==> (#[trigger] GameState::play(moves.take(i))) is Some,
        forall|i: int|
            0 <= i < moves.len() ==> (#[trigger] GameState::play(moves.take(i)))->Some_0.outcome
                is None,
    decreases moves.len(),
{
    if moves.len() == 0 {
        assert forall|player: Player, size: Size| #[trigger]
            in_play(Board::vacant(), player, size) <= STARTING_INVENTORY by {
            lemma_in_play_none(Board::vacant(), player, size);
        }
        assert(moves.take(0) =~= moves);
    } else {
        let earlier = moves.drop_last();
        let before = GameState::play(earlier)->Some_0;
        lemma_play(earlier);
        lemma_move_keeps_inventory(before, moves.last());
        assert(before.after(moves.last()).moves =~= moves);
        assert forall|i: int| 0 <= i <= moves.len() implies (#[trigger] GameState::play(
            moves.take(i),
        )) is Some && (i < moves.len() ==> GameState::play(moves.take(i))->Some_0.outcome
            is None) by {
            if i == moves.len() {
                assert(moves.take(i) =~= moves);
            } else {
                assert(moves.take(i) =~= earlier.take(i));
                if i == earlier.len() {
                    assert(earlier.take(i) =~= earlier);
                }
            }
        }
    }
}

/// The players take turns, and player one begins: in a game reached by
/// play, the move with number `i`, counted from 0, was made by player one
/// if `i` is even and by player two if it is odd, and the next move is due
/// from the player whose number of moves made so far says so. Each move
/// that is made hands the turn to the other player.
pub proof fn lemma_turns_alternate(state: GameState)
    requires
        state.reachable(),
    ensures
        GameState::opening().next_player() == Player::One,
        state.next_player() == Player::on_turn(state.moves.len()),
        forall|i: int|
            0 <= i < state.moves.len() ==> (#[trigger] state.moves[i]).player == Player::on_turn(
                i as nat,
            ),
        forall|mv: Move|
            state.rejection(mv) is None ==> mv.player == state.next_player() && (
            #[trigger] state.after(mv)).next_player() == state.next_player().other(),
{
    lemma_play(state.moves);
}

/// In a game reached by play, no player has more than
/// [`STARTING_INVENTORY`] pieces of one size on the board.
pub proof fn lemma_inventory_kept(state: GameState, player: Player, size: Size)
    requires
        state.reachable(),
    ensures
        in_play(state.board, player, size) <= STARTING_INVENTORY,
{
    lemma_play(state.moves);
}

/// A game that is reached by play and a move that it accepts lead to a
/// game that is reached by play.
pub proof fn lemma_reachable_after(state: GameState, mv: Move)
    requires
        state.reachable(),
        mv.on_board(),
        state.rejection(mv) is None,
    ensures
        state.after(mv).reachable(),
{
    lemma_play(state.moves);
    assert(state.after(mv).moves.drop_last() =~= state.moves);
}

/// A game that has ended accepts no move, and a game reached by play has
/// ended with its last move or not at all.
pub proof fn lemma_ended_is_final(state: GameState, mv: Move)
    ensures
        state.outcome is Some ==> state.rejection(mv) == Some(SubmitMoveError::GameOver),
        state.reachable() ==> forall|i: int|
            0 <= i < state.moves.len() ==> (#[trigger] GameState::play(
                state.moves.take(i),
            ))->Some_0.outcome is None,
{
    if state.reachable() {
        lemma_play(state.moves);
    }
}

/// A piece that lies under a larger one cannot be moved: the move is
/// refused, and where the game is on, it is the player's turn and the piece
/// is the player's, it is refused as blocked at its source.
pub proof fn lemma_buried_piece_stays(state: GameState, mv: Move)
    requires
        mv.source matches Some(source) && state.board[source.offset()].buries(mv.size),
    ensures
        state.rejection(mv) is Some,
        state.outcome is None && state.next_player() == mv.player
            && state.board[mv.source->Some_0.offset()].holds(mv.player, mv.size)
            ==> state.rejection(mv) == Some(SubmitMoveError::PieceBlockedAtSource),
{
}

/// Whoever completes a line is found: the first completed line among all
/// eight is a line that the player completes.
pub proof fn lemma_first_completed(board: Seq<CellState>, player: Player, among: nat)
    requires
        among <= 8,
    ensures
        first_completed(board, player, among) matches Some(line) ==> completes(board, player, line)
            && Line::every().contains(line),
        first_completed(board, player, among) is None <==> forall|k: int|
            0 <= k < among ==> !completes(board, player, #[trigger] Line::every()[k]),
    decreases among,
{
    if among > 0 {
        lemma_first_completed(board, player, (among - 1) as nat);
    }
}

/// The victory on a board goes to the player who did not move last
/// whenever that player has a completed line, whatever the mover has
/// completed; to the mover where only the mover has one; and to nobody
/// where neither has. The line of a victory is one that the winner
/// completes.
pub proof fn lemma_victory_after(board: Seq<CellState>, mover: Player)
    ensures
        (exists|line: Line| completes(board, mover.other(), line)) ==> victory_after(board, mover)
            is Some && victory_after(board, mover)->Some_0.player == mover.other(),
        !(exists|line: Line| completes(board, mover.other(), line)) && (exists|line: Line|
            completes(board, mover, line)) ==> victory_after(board, mover) is Some
            && victory_after(board, mover)->Some_0.player == mover,
        !(exists|line: Line| completes(board, mover.other(), line)) && !(exists|line: Line|
            completes(board, mover, line)) ==> victory_after(board, mover) is None,
        victory_after(board, mover) matches Some(victory) ==> completes(
            board,
            victory.player,
            victory.line,
        ),
{
    lemma_first_completed(board, mover, 8);
    lemma_first_completed(board, mover.other(), 8);
    Line::lemma_every_crosses_board();
    assert forall|player: Player, line: Line| #[trigger]
        completes(board, player, line) implies first_completed(board, player, 8) is Some by {
        let k = choose|k: int| 0 <= k < 8 && Line::every()[k] == line;
        assert(completes(board, player, Line::every()[k]));
    }
}

/// A move that both uncovers a line of the other player and completes a
/// line of the mover is won by the other player: where both players have a
/// completed line on the board after a move, the game ends with the victory
/// of the player who did not move, on a line that this player completes.
pub proof fn lemma_uncovered_line_wins(state: GameState, mv: Move, uncovered: Line, completed: Line)
    requires
        completes(state.board_after(mv), mv.player.other(), uncovered),
        completes(state.board_after(mv), mv.player, completed),
    ensures
        victory_after(state.board_after(mv), mv.player) == state.after(mv).outcome,
        state.after(mv).outcome is Some,
        state.after(mv).outcome->Some_0.player == mv.player.other(),
        completes(state.board_after(mv), mv.player.other(), state.after(mv).outcome->Some_0.line),
{
    lemma_victory_after(state.board_after(mv), mv.player);
}

/// No line is completed by both players.
pub proof fn lemma_one_owner(board: Seq<CellState>, line: Line)
    ensures
        !(completes(board, Player::One, line) && completes(board, Player::Two, line)),
        forall|player: Player|
            line_owner(board, line) == Some(player) <==> #[trigger] completes(board, player, line),
{
    line.lemma_three_cells();
    if line.crosses_board() {
        assert(line.covers(line.offsets()[0]));
    }
}

/// Once a line is found among the first lines, looking at more lines finds
/// the same one.
pub proof fn lemma_first_completed_stays(
    board: Seq<CellState>,
    player: Player,
    among: nat,
    more: nat,
)
    requires
        among <= more,
        first_completed(board, player, among) is Some,
    ensures
        first_completed(board, player, more) == first_completed(board, player, among),
    decreases more,
{
    if among < more {
        lemma_first_completed_stays(board, player, among, (more - 1) as nat);
    }
}

} // verus!
