//! Player identity and the whose-turn marker.
use vstd::prelude::*;

verus! {

/// One of the two players.
#[derive(Clone, Copy, Debug, PartialEq, Eq, Structural)]
pub enum PlayerType {
    Player1,
    Player2,
}

/// Whose turn it is: either player during setup, neither once the game is over.
#[derive(Clone, Copy, Debug, PartialEq, Eq, Structural)]
pub enum PlayerTurn {
    Player1,
    Player2,
    Either,
    Neither,
}

pub open spec fn other_player(p: PlayerType) -> PlayerType {
    match p {
        PlayerType::Player1 => PlayerType::Player2,
        PlayerType::Player2 => PlayerType::Player1,
    }
}

pub open spec fn turn_of(p: PlayerType) -> PlayerTurn {
    match p {
        PlayerType::Player1 => PlayerTurn::Player1,
        PlayerType::Player2 => PlayerTurn::Player2,
    }
}

/// How a player is named in messages.
pub open spec fn player_name(p: PlayerType) -> Seq<char> {
    match p {
        PlayerType::Player1 => "Player 1"@,
        PlayerType::Player2 => "Player 2"@,
    }
}

pub open spec fn turn_name(t: PlayerTurn) -> Seq<char> {
    match t {
        PlayerTurn::Player1 => "Player 1"@,
        PlayerTurn::Player2 => "Player 2"@,
        PlayerTurn::Either => "Either Player"@,
        PlayerTurn::Neither => "Neither Player"@,
    }
}

impl PlayerType {
    /// The opponent of `player`.
    pub fn other(player: &PlayerType) -> (r: PlayerType)
        ensures
            r == other_player(*player),
            r != *player,
    {
        match player {
            PlayerType::Player1 => PlayerType::Player2,
            PlayerType::Player2 => PlayerType::Player1,
        }
    }

    pub fn name(&self) -> (r: String)
        ensures
            r@ == player_name(*self),
    {
        match self {
            PlayerType::Player1 => String::from_str("Player 1"),
            PlayerType::Player2 => String::from_str("Player 2"),
        }
    }
}

impl PlayerTurn {
    /// The turn marker that lets `player` fire.
    pub fn from(player: &PlayerType) -> (r: PlayerTurn)
        ensures
            r == turn_of(*player),
    {
        match player {
            PlayerType::Player1 => PlayerTurn::Player1,
            PlayerType::Player2 => PlayerTurn::Player2,
        }
    }

    pub fn name(&self) -> (r: String)
        ensures
            r@ == turn_name(*self),
    {
        match self {
            PlayerTurn::Player1 => String::from_str("Player 1"),
            PlayerTurn::Player2 => String::from_str("Player 2"),
            PlayerTurn::Either => String::from_str("Either Player"),
            PlayerTurn::Neither => String::from_str("Neither Player"),
        }
    }
}

} // verus!
