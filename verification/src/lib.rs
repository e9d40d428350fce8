//! A verified session registry for a two-player, 3x3 board game served over
//! persistent duplex connections.
//!
//! The library owns the logic of the system: the map of active boards, the
//! rules that govern how a client joins or rejoins a board, how moves mutate
//! shared cells, how seats are vacated, and which participants an update is
//! fanned out to.  Transport, sockets and JSON framing live outside; they hand
//! this crate plain values and take plain values back.

pub mod board;
pub mod game;
pub mod handler;
pub mod laws;
pub mod player;
pub mod protocol;
pub mod registry;

pub use board::Board;
pub use game::{Cell, EventKind, GameError, Label};
pub use handler::{handle_frame, Action};
pub use player::{Player, PlayerId, resolve_identity};
pub use protocol::{parse_frame, Frame};
pub use registry::State;
