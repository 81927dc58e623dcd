//! Monitor layout engine: output arrangement with collision handling, and the
//! compositor config dialects that save and restore it.
pub mod compositor;
pub mod config;
pub mod extract;
pub mod format;
pub mod output;
pub mod parse;
pub mod round_trip;
pub mod setup;
pub mod state;
pub mod sway_round_trip;
pub mod text;
pub mod utils;
pub mod workspace_config;
