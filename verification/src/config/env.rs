//! The secrets and paths the bot reads from its environment.

use vstd::prelude::*;

verus! {

/// The values the bot takes from the environment (`CLIENT_TOKEN`,
/// `GEMINI_API_KEY`, `DB_PATH`).
pub struct Env {
    pub client_token: String,
    pub gemini_api_key: String,
    pub db_path: String,
}

impl Env {
    /// The environment made of the three values read.
    pub fn new(client_token: String, gemini_api_key: String, db_path: String) -> (r: Self)
        ensures
            r.client_token == client_token,
            r.gemini_api_key == gemini_api_key,
            r.db_path == db_path,
    {
        Env { client_token, gemini_api_key, db_path }
    }
}

} // verus!
