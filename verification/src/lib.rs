//! The core of a line-oriented TCP chat and party-game server: four
//! services — socket, login, chat, game — each a single consumer of its
//! input queue, owning private state and communicating only by messages.
//! This crate holds each service's state and its step functions: from
//! state and input to the next state and the actions to carry out
//! (prompts and lines to write, connections to close, events for the
//! next service up). The byte framing of connections, the grammar of
//! chat lines, the authentication machine and the delivery rules are
//! specified exactly and proved; the accept loop, the threads and the
//! wire I/O around them are left to the program that runs the services.
pub mod chat;
pub mod clock;
pub mod framing;
pub mod game;
pub mod login;
pub mod message;
pub mod order;
pub mod socket;
pub mod table;
pub mod text;
pub mod timer;
pub mod traces;

use vstd::prelude::*;

verus! {

/// Identifier of a live connection; unique among connections that are
/// open at the same time.
pub type SocketId = u64;

} // verus!
