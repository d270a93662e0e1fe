//! The messages between the game server and its clients.
use crate::seafarers::element::{GameAct, GameMsg};
use vstd::prelude::*;

verus! {

/// A message from the server to a client.
#[derive(Clone, Debug)]
pub enum ServerMsg {
    Catan(GameMsg),
}

/// A message from a client to the server.
#[derive(Clone, Debug)]
pub enum ClientMsg {
    Catan(GameAct),
}

/// The channel that carries these messages: clients connect with nothing,
/// send `ClientMsg`, and receive `ServerMsg`; there are no requests.
#[derive(Debug, Clone, Copy)]
pub struct NetworkChannel;

} // verus!
