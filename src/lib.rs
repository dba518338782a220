//! Coordination hub of a multi-room chat and two-player game matchmaking
//! server: sessions, rooms and game seats, with the fan-out of every
//! notification that a state change produces.

pub mod game;
pub mod laws;
pub mod models;
pub mod message;
pub mod server;
pub mod session;
pub mod text;
