//! Replays of a grid-based strategy game: the replay text format, the turns
//! it holds, and the state of a viewer that plays them back.
pub mod board;
pub mod error;
pub mod format;
pub mod game_data;
pub mod graphics;
pub mod grid;
pub mod insight;
pub mod palette;
pub mod projection;
pub mod text;
