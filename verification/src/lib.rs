//! Verified core of the Disaity Discord music bot: the parsing, formatting,
//! validation and state logic behind its commands and event handlers.

pub mod text;
pub mod timestamp;
pub mod chat;
pub mod config;
pub mod checks;
pub mod handlers;
pub mod commands;
pub mod extract;
pub mod spotify;
pub mod binaries;
