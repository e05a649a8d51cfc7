//! Errors the engine reports.

use crate::board::{PawnId, PlayerId, SpaceId};
use crate::text::{decimal, joined, usize_text};
use vstd::prelude::*;

verus! {

#[allow(inconsistent_fields)]
#[derive(Debug, Clone, PartialEq, Eq)]
pub enum SorryError {
    NotEnoughPlayers { min: usize, got: usize },
    TooManyPlayers { max: usize, got: usize },
    StrategyCountMismatch { expected: usize, got: usize },
    EmptyDeck,
    InvalidMove(String),
    InvalidPawn(PlayerId, PawnId),
    InvalidSpace(SpaceId),
    GameAlreadyOver,
    TurnLimitExceeded,
    /// A proposed move is not in the legal-move set for the current card.
    IllegalMove,
    /// A `ChooseCard` index past the end of the hand.
    InvalidHandIndex { got: usize, hand_size: usize },
    /// A `ChooseCard` index the rules do not allow right now.
    IllegalCardChoice,
    /// The action does not answer the decision the game is waiting on.
    UnexpectedAction { expected: &'static str, got: &'static str },
}

/// The human-readable text of an error.
pub open spec fn error_text(e: SorryError) -> Seq<char> {
    match e {
        SorryError::NotEnoughPlayers { min, got } => "need at least "@ + decimal(min as nat) + " players, got "@
            + decimal(got as nat),
        SorryError::TooManyPlayers { max, got } => "at most "@ + decimal(max as nat) + " players allowed, got "@
            + decimal(got as nat),
        SorryError::StrategyCountMismatch { expected, got } => "expected "@ + decimal(expected as nat)
            + " strategies, got "@ + decimal(got as nat),
        SorryError::EmptyDeck => "deck is empty and reshuffle is disabled"@,
        SorryError::InvalidMove(msg) => "invalid move: "@ + msg@,
        SorryError::InvalidPawn(p, pw) => "invalid pawn PawnId("@ + decimal(pw.0 as nat) + ") for player PlayerId("@
            + decimal(p.0 as nat) + ")"@,
        SorryError::InvalidSpace(s) => "invalid space SpaceId("@ + decimal(s.0 as nat) + ")"@,
        SorryError::GameAlreadyOver => "game is already over"@,
        SorryError::TurnLimitExceeded => "turn limit exceeded"@,
        SorryError::IllegalMove => "move is not in the legal set"@,
        SorryError::InvalidHandIndex { got, hand_size } => "hand index "@ + decimal(got as nat)
            + " is out of range for a hand of "@ + decimal(hand_size as nat),
        SorryError::IllegalCardChoice => "that card may not be played now"@,
        SorryError::UnexpectedAction { expected, got } => "expected a "@ + expected@ + " action, got "@ + got@,
    }
}

fn join3(a: &str, b: &str, c: &str) -> (r: String)
    ensures
        r@ == a@ + b@ + c@,
{
    let ab = joined(a, b);
    joined(ab.as_str(), c)
}

fn join4(a: &str, b: &str, c: &str, d: &str) -> (r: String)
    ensures
        r@ == a@ + b@ + c@ + d@,
{
    let abc = join3(a, b, c);
    joined(abc.as_str(), d)
}

fn join5(a: &str, b: &str, c: &str, d: &str, e: &str) -> (r: String)
    ensures
        r@ == a@ + b@ + c@ + d@ + e@,
{
    let abcd = join4(a, b, c, d);
    joined(abcd.as_str(), e)
}

impl SorryError {
    /// The error's message, as shown to players.
    pub fn message(&self) -> (r: String)
        ensures
            r@ == error_text(*self),
    {
        match self {
            SorryError::NotEnoughPlayers { min, got } => join4(
                "need at least ",
                usize_text(*min).as_str(),
                " players, got ",
                usize_text(*got).as_str(),
            ),
            SorryError::TooManyPlayers { max, got } => join4(
                "at most ",
                usize_text(*max).as_str(),
                " players allowed, got ",
                usize_text(*got).as_str(),
            ),
            SorryError::StrategyCountMismatch { expected, got } => join4(
                "expected ",
                usize_text(*expected).as_str(),
                " strategies, got ",
                usize_text(*got).as_str(),
            ),
            SorryError::EmptyDeck => "deck is empty and reshuffle is disabled".to_owned(),
            SorryError::InvalidMove(msg) => joined("invalid move: ", msg.as_str()),
            SorryError::InvalidPawn(p, pw) => join5(
                "invalid pawn PawnId(",
                usize_text(pw.0 as usize).as_str(),
                ") for player PlayerId(",
                usize_text(p.0 as usize).as_str(),
                ")",
            ),
            SorryError::InvalidSpace(s) => join3("invalid space SpaceId(", usize_text(s.0 as usize).as_str(), ")"),
            SorryError::GameAlreadyOver => "game is already over".to_owned(),
            SorryError::TurnLimitExceeded => "turn limit exceeded".to_owned(),
            SorryError::IllegalMove => "move is not in the legal set".to_owned(),
            SorryError::InvalidHandIndex { got, hand_size } => join4(
                "hand index ",
                usize_text(*got).as_str(),
                " is out of range for a hand of ",
                usize_text(*hand_size).as_str(),
            ),
            SorryError::IllegalCardChoice => "that card may not be played now".to_owned(),
            SorryError::UnexpectedAction { expected, got } => join4("expected a ", expected, " action, got ", got),
        }
    }
}

} // verus!
