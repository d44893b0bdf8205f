//! Parsers for what Codex records.

pub mod cache;
pub mod diff;
pub mod diff_laws;
pub mod discover;
pub mod entry;
pub mod patch;
pub mod patch_laws;
pub mod patch_text_laws;
pub mod session;
pub mod title_laws;
pub mod titles;
pub mod toolcall;
pub mod turn;
pub mod word_laws;
