//! A verified Mancala engine: the board value type, the move-resolution
//! rules (sowing, capture, extra turn, terminal detection), a text renderer
//! for the board, and a `Game` wrapper that keeps an append-only history.

pub mod board;
pub mod engine;
pub mod game;
pub mod render;
