//! The game with sea: ocean and gold tiles, boats beside roads, and the
//! messages that the networked players exchange about it.
pub mod element;
pub mod network;
pub mod player;
pub mod view;
pub mod input;
