//! Engine side of a line-oriented chess control protocol: a command parser,
//! a board-position model with its compact text encoding, a move codec, and
//! the session state machine that dispatches parsed commands.

pub mod board;
pub mod command;
pub mod engine;
pub mod fen;
pub mod moves;
pub mod session;
pub mod text;
