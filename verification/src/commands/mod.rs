//! The decisions behind the bot's commands.

pub mod queue;
pub mod playback;
pub mod play;
pub mod help;
pub mod subscription;
