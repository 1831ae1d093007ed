//! The texts, colours and statuses the bot uses when it talks.

use vstd::prelude::*;

verus! {

/// The logos of the music providers.
pub struct ProviderLogUrls {
    pub youtube: String,
    pub soundcloud: String,
    pub spotify: String,
}

/// The embed colours.
pub struct Colors {
    pub help: u32,
    pub error: u32,
    pub default: u32,
    pub blurple: u32,
    pub action: u32,
}

/// The error texts.
pub struct Errors {
    pub general: Vec<String>,
    pub direct: Vec<String>,
}

/// The messages for joining, leaving, and the help footer quotes.
pub struct Messages {
    pub join: Vec<String>,
    pub leave: Vec<String>,
    pub built: Vec<String>,
}

/// A presence status of the bot.
pub struct Status {
    pub name: String,
    pub activity_type: u8,
}

/// The bot's interaction texts.
pub struct InteractionsRegistry {
    pub ready: String,
    pub status: Vec<Status>,
    pub messages: Messages,
    pub errors: Errors,
    pub colors: Colors,
    pub provider_logo_urls: ProviderLogUrls,
}

} // verus!
