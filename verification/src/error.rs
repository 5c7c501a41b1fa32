//! The ways an operation of the library can be refused.

use vstd::prelude::*;

verus! {

/// Why an operation was refused.
#[derive(Debug, PartialEq, Eq)]
pub enum GameError {
    /// A character that is not a decimal digit stood where a digit was expected.
    InvalidDigit(char),
    /// A digit sequence stands for a number that the machine word cannot hold.
    NumberTooLarge,
    /// An effect segment ended on a key without a value; holds that key.
    MissingValue(String),
    /// The item name is not in the catalog.
    UnknownItem,
    /// The item is not in the inventory.
    NotOwned,
    /// No party member carries the target name.
    TargetNotInParty,
    /// The party already holds as many members as it can.
    PartyFull,
    /// A move's attack type is not on the list of known types.
    InvalidAttackType,
}

/// An error as plain values: the dangling key of `MissingValue` by its
/// characters.
pub enum GameErrorView {
    InvalidDigit(char),
    NumberTooLarge,
    MissingValue(Seq<char>),
    UnknownItem,
    NotOwned,
    TargetNotInParty,
    PartyFull,
    InvalidAttackType,
}

impl View for GameError {
    type V = GameErrorView;

    open spec fn view(&self) -> GameErrorView {
        match *self {
            GameError::InvalidDigit(c) => GameErrorView::InvalidDigit(c),
            GameError::NumberTooLarge => GameErrorView::NumberTooLarge,
            GameError::MissingValue(key) => GameErrorView::MissingValue(key@),
            GameError::UnknownItem => GameErrorView::UnknownItem,
            GameError::NotOwned => GameErrorView::NotOwned,
            GameError::TargetNotInParty => GameErrorView::TargetNotInParty,
            GameError::PartyFull => GameErrorView::PartyFull,
            GameError::InvalidAttackType => GameErrorView::InvalidAttackType,
        }
    }
}

} // verus!
