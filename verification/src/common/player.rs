//! What a player hands to a game and what a game tells a player.
use crate::catan::element::{GameAct, GameMsg};
use vstd::prelude::*;

verus! {

/// An action of a player.
pub enum GamePlayerAction {
    Catan(GameAct),
    PlaceHolder,
}

/// A message to a player.
#[derive(Debug, PartialEq, Eq)]
pub enum GamePlayerMessage {
    Catan(GameMsg),
    PlaceHolder,
}

impl Clone for GamePlayerMessage {
    fn clone(&self) -> (c: Self) {
        match self {
            GamePlayerMessage::Catan(m) => GamePlayerMessage::Catan(m.clone()),
            GamePlayerMessage::PlaceHolder => GamePlayerMessage::PlaceHolder,
        }
    }
}

} // verus!
