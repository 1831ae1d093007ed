//! The bot's configuration: command and character registries, bot
//! information, interaction texts and the environment.

pub mod assoc;
pub mod characters;
pub mod commands;
pub mod env;
pub mod info;
pub mod interactions;

use vstd::prelude::*;

verus! {

/// The whole configuration of the bot.
pub struct Config {
    pub characters_registry: characters::CharacterRegistry,
    pub commands_registry: commands::CommandRegistry,
    pub info_registry: info::InfoRegistry,
    pub interactions_registry: interactions::InteractionsRegistry,
    pub env: env::Env,
}

impl Config {
    /// Gathers the loaded registries and the environment into one
    /// configuration.
    pub fn new(
        characters_registry: characters::CharacterRegistry,
        commands_registry: commands::CommandRegistry,
        info_registry: info::InfoRegistry,
        interactions_registry: interactions::InteractionsRegistry,
        env: env::Env,
    ) -> (r: Self)
        ensures
            r.characters_registry == characters_registry,
            r.commands_registry == commands_registry,
            r.info_registry == info_registry,
            r.interactions_registry == interactions_registry,
            r.env == env,
    {
        Config {
            characters_registry,
            commands_registry,
            info_registry,
            interactions_registry,
            env,
        }
    }
}

} // verus!
