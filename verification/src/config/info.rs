//! Information about the bot and its owner.

use vstd::prelude::*;

verus! {

/// The bot's owner.
pub struct Owner {
    pub username: String,
    pub id: u64,
    pub url: String,
    pub icon_url: String,
}

/// The permission texts shown to users.
pub struct Permission {
    pub send_message: String,
    pub admin: String,
    pub voice_join: String,
}

/// The bot's own information.
pub struct InfoRegistry {
    pub prefix: String,
    pub client_id: u64,
    pub owner: Owner,
    pub permission: Permission,
    pub invite_ul: String,
    pub author_icon: String,
}

} // verus!
