//! The terminal interface.

pub mod app;
pub mod app_laws;
pub mod item;
pub mod key_laws;
pub mod open_session;
pub mod picker;
pub mod picker_laws;
pub mod row_laws;
pub mod rows;
pub mod show;
pub mod shown_laws;
pub mod styled;
pub mod ui;
pub mod ui_laws;
