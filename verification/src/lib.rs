pub mod element;
pub mod geometry;
pub mod trail;
pub mod model;
pub mod catan;
pub mod common;
pub mod seafarers;
pub mod random;
pub mod games;
