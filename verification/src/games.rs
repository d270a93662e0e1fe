//! Small games beside Catan.
pub mod greedy_snake;
