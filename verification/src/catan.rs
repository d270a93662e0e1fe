pub mod data;
pub mod element;
pub mod game;
pub mod laws;
pub mod moves;
pub mod rules;
pub mod turn;
