//! What the games share with their players: the messages sent over the
//! network and what a player hands to a game and receives from it.
pub mod network;
pub mod player;
