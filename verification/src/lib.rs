//! Turn-based multiplayer: an authoritative turn engine that drives a pluggable
//! game one validated move at a time, and the length-prefixed framing that
//! carries a seat's messages over a byte stream.

pub mod channel;
pub mod engine;
pub mod frame;
pub mod game;
pub mod script;

pub use crate::channel::AgentCore;
pub use crate::engine::{new_game, EngineError, Phase, TurnEngine};
pub use crate::game::{Game, GameEvent, MoveResult, PlayerID, ValidationError};
