//! The logic of a viewer for Codex session traces.
//!
//! [`parser`] reads what Codex records, [`state`] keeps the list of sessions, [`commands`] and
//! [`tui`] are the interfaces, and the other modules hold what these have in common.

pub mod commands;
pub mod decimal;
pub mod json;
pub mod order;
pub mod pair_set;
pub mod parser;
pub mod state;
pub mod state_laws;
pub mod text;
pub mod text_laws;
pub mod text_map;
pub mod tui;
