use std::ops::Not;
use vstd::prelude::*;

verus! {

/// An agent which can submit moves in the game.
#[derive(Debug, Copy, Clone, PartialEq, Eq, Structural, PartialOrd, Ord)]
pub enum Player {
    /// The first player to move in the game.
    One,
    /// The second player to move in the game.
    Two,
}

impl Player {
    /// The other player.
    pub open spec fn other(self) -> Player {
        match self {
            Player::One => Player::Two,
            Player::Two => Player::One,
        }
    }

    /// The player who makes the move with the given number, counted from 0.
    pub open spec fn on_turn(turn: nat) -> Player {
        if turn % 2 == 0 {
            Player::One
        } else {
            Player::Two
        }
    }

    /// The digit that identifies the player in text.
    pub open spec fn number_text(self) -> Seq<char> {
        match self {
            Player::One => "1"@,
            Player::Two => "2"@,
        }
    }

    /// The digit that identifies the player in text.
    pub fn player_number(&self) -> (digit: &'static str)
        ensures
            digit@ == self.number_text(),
    {
        match self {
            Player::One => "1",
            Player::Two => "2",
        }
    }
}

impl Player {
    /// The full name of the player, such as `Player 1`.
    pub open spec fn text(self) -> Seq<char> {
        "Player "@ + self.number_text()
    }

    /// The short name of the player, such as `P1`.
    pub open spec fn abbrev_text(self) -> Seq<char> {
        "P"@ + self.number_text()
    }

    /// The full name of the player, such as `Player 1`.
    pub fn to_string(&self) -> (text: String)
        ensures
            text@ == self.text(),
    {
        let mut text = "Player ".to_owned();
        text.append(self.player_number());
        text
    }

    /// The short name of the player, such as `P1`.
    pub fn abbrev(&self) -> (text: String)
        ensures
            text@ == self.abbrev_text(),
    {
        let mut text = "P".to_owned();
        text.append(self.player_number());
        text
    }
}

impl Not for Player {
    type Output = Player;

    /// Get the other player.
    fn not(self) -> (other: Player) {
        match self {
            Player::One => Player::Two,
            Player::Two => Player::One,
        }
    }
}

impl vstd::std_specs::ops::NotSpecImpl for Player {
    open spec fn obeys_not_spec() -> bool {
        true
    }

    open spec fn not_req(self) -> bool {
        true
    }

    open spec fn not_spec(self) -> Player {
        self.other()
    }
}

} // verus!
