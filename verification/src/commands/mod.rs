//! The commands that the interface sends.

pub mod session;
