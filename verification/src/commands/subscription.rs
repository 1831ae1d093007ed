//! Prayer-time subscriptions: the per-guild table, where it is stored, and
//! what the `prayer` and `clear_prayer` commands decide and reply.

use vstd::prelude::*;
use vstd::string::*;
use std::collections::HashMap;
use crate::text::{chars_of, push_str, string_of, trim_chars, trim_seq};

verus! {

broadcast use vstd::string::group_string_axioms, vstd::std_specs::hash::group_hash_axioms;

/// A guild's subscription: where to post, whom to ping, and for which place.
pub struct PrayerSubscriptionInfo {
    pub channel_id: u64,
    pub role_id: Option<u64>,
    pub city: String,
    pub country: String,
}

/// The subscriptions of all guilds, keyed by guild id, and the file they are
/// kept in.
pub struct PrayerSubscription {
    path: String,
    pub subscription: HashMap<u64, PrayerSubscriptionInfo>,
}

/// The file that holds the subscriptions, inside directory `db_path`.
pub open spec fn db_file(db_path: Seq<char>) -> Seq<char> {
    db_path + "/prayer_subscriptions.json"@
}

impl PrayerSubscription {
    /// The file the subscriptions are saved to.
    pub closed spec fn path_spec(&self) -> Seq<char> {
        self.path@
    }

    /// The table of subscriptions by guild.
    pub closed spec fn table(&self) -> Map<u64, PrayerSubscriptionInfo> {
        self.subscription@
    }

    /// The subscriptions kept under directory `db_path`: those `loaded` from
    /// its file, or none when the file is missing or unreadable.
    pub fn new(db_path: &str, loaded: Option<HashMap<u64, PrayerSubscriptionInfo>>) -> (r: Self)
        ensures
            r.path_spec() == db_file(db_path@),
            r.table() == match loaded {
                Some(m) => m@,
                None => Map::<u64, PrayerSubscriptionInfo>::empty(),
            },
    {
        let mut p: Vec<char> = Vec::new();
        push_str(&mut p, db_path);
        push_str(&mut p, "/prayer_subscriptions.json");
        let subscription = match loaded {
            Some(m) => m,
            None => HashMap::new(),
        };
        PrayerSubscription { path: string_of(p.as_slice()), subscription }
    }

    /// The file the subscriptions are saved to.
    pub fn path(&self) -> (r: &String)
        ensures
            r@ == self.path_spec(),
    {
        &self.path
    }

    /// The temporary file a save writes before renaming it over the file.
    pub fn tmp_path(&self) -> (r: String)
        ensures
            r@ == self.path_spec() + ".tmp"@,
    {
        let mut p: Vec<char> = Vec::new();
        push_str(&mut p, self.path.as_str());
        push_str(&mut p, ".tmp");
        string_of(p.as_slice())
    }

    /// The subscription of guild `guild_id`, if any.
    pub fn get_subscription(&self, guild_id: u64) -> (r: Option<&PrayerSubscriptionInfo>)
        ensures
            match r {
                Some(info) => self.table().contains_key(guild_id) && *info == self.table()[guild_id],
                None => !self.table().contains_key(guild_id),
            },
    {
        self.subscription.get(&guild_id)
    }

    /// Subscribes guild `guild_id` with `info`, replacing any earlier
    /// subscription of the guild (the table is then saved).
    pub fn add_subscription(&mut self, guild_id: u64, info: PrayerSubscriptionInfo)
        ensures
            final(self).table() == old(self).table().insert(guild_id, info),
            final(self).path_spec() == old(self).path_spec(),
    {
        self.subscription.insert(guild_id, info);
    }

    /// Removes the subscription of guild `guild_id`, returning it; the table
    /// is saved only when there was one.
    pub fn remove_subscription(&mut self, guild_id: u64) -> (r: Option<PrayerSubscriptionInfo>)
        ensures
            final(self).table() == old(self).table().remove(guild_id),
            final(self).path_spec() == old(self).path_spec(),
            match r {
                Some(info) => old(self).table().contains_key(guild_id) && info == old(self).table()[guild_id],
                None => !old(self).table().contains_key(guild_id),
            },
    {
        self.subscription.remove(&guild_id)
    }
}

/// After subscribing a guild, its subscription is the one given, and every
/// other guild keeps its own.
pub proof fn lemma_add_then_get(
    before: Map<u64, PrayerSubscriptionInfo>,
    guild: u64,
    info: PrayerSubscriptionInfo,
    other: u64,
)
    requires
        other != guild,
    ensures
        before.insert(guild, info).contains_key(guild),
        before.insert(guild, info)[guild] == info,
        before.insert(guild, info).contains_key(other) == before.contains_key(other),
        before.contains_key(other) ==> before.insert(guild, info)[other] == before[other],
{
}

/// Clearing a guild's subscription right after subscribing it returns the
/// subscription just given, and leaves the guild unsubscribed with every
/// other guild as it was before.
pub proof fn lemma_add_then_remove(
    before: Map<u64, PrayerSubscriptionInfo>,
    guild: u64,
    info: PrayerSubscriptionInfo,
)
    ensures
        before.insert(guild, info).contains_key(guild),
        before.insert(guild, info)[guild] == info,
        before.insert(guild, info).remove(guild) == before.remove(guild),
        !before.insert(guild, info).remove(guild).contains_key(guild),
{
    assert(before.insert(guild, info).remove(guild) =~= before.remove(guild));
}

/// Clearing a guild that has no subscription changes nothing.
pub proof fn lemma_remove_absent(before: Map<u64, PrayerSubscriptionInfo>, guild: u64)
    requires
        !before.contains_key(guild),
    ensures
        before.remove(guild) == before,
{
    assert(before.remove(guild) =~= before);
}

/// The subscription that `prayer` stores: the given channel and role, with
/// the city and country trimmed.
pub fn new_subscription_info(channel_id: u64, role_id: Option<u64>, city: &str, country: &str) -> (r:
    PrayerSubscriptionInfo)
    ensures
        r.channel_id == channel_id,
        r.role_id == role_id,
        r.city@ == trim_seq(city@),
        r.country@ == trim_seq(country@),
{
    let c = chars_of(city);
    let k = chars_of(country);
    let tc = trim_chars(c.as_slice());
    let tk = trim_chars(k.as_slice());
    PrayerSubscriptionInfo {
        channel_id,
        role_id,
        city: string_of(tc.as_slice()),
        country: string_of(tk.as_slice()),
    }
}

/// The kinds of guild channels that matter to `prayer`.
#[derive(Clone, Copy, Debug, PartialEq, Eq, Structural)]
pub enum ChannelKind {
    Text,
    Other,
}

/// What `prayer` decides from what the guild holds: `Ok` with the role to
/// ping (checked to exist), or the refusal. `in_guild` tells whether the
/// command runs in a guild, `channel` the kind of the chosen channel
/// (`None` if the guild has no such channel), `role` the role asked for and
/// `role_exists` whether the guild has it.
pub fn prayer_decision(
    in_guild: bool,
    channel: Option<ChannelKind>,
    role: Option<u64>,
    role_exists: bool,
) -> (r: Result<Option<u64>, String>)
    ensures
        !in_guild ==> (r matches Err(m) && m@ == "must be in guild to use that command"@),
        in_guild && channel is None ==> (r matches Err(m) && m@ == "failed to find the channel."@),
        in_guild && channel is Some && role is Some && !role_exists ==> (r matches Err(m) && m@
            == "failed to find the role."@),
        in_guild && channel is Some && channel != Some(ChannelKind::Text) && (role is None
            || role_exists) ==> (r matches Err(m) && m@ == "you can subscribe only on a text channel"@),
        in_guild && channel == Some(ChannelKind::Text) && (role is None || role_exists) ==> r == Ok::<
            Option<u64>,
            String,
        >(role),
{
    if !in_guild {
        return Err(String::from_str("must be in guild to use that command"));
    }
    let kind = match channel {
        Some(k) => k,
        None => return Err(String::from_str("failed to find the channel.")),
    };
    if role.is_some() && !role_exists {
        return Err(String::from_str("failed to find the role."));
    }
    if kind != ChannelKind::Text {
        return Err(String::from_str("you can subscribe only on a text channel"));
    }
    Ok(role)
}

/// The announcement `prayer` posts in the chosen channel (city and country
/// as given).
pub fn prayer_announcement(city: &str, country: &str) -> (r: String)
    ensures
        r@ == "🕌 Prayer notifications successfully configured for **"@ + city@ + ", "@ + country@
            + "** in this channel!"@,
{
    let mut m: Vec<char> = Vec::new();
    push_str(&mut m, "🕌 Prayer notifications successfully configured for **");
    push_str(&mut m, city);
    push_str(&mut m, ", ");
    push_str(&mut m, country);
    push_str(&mut m, "** in this channel!");
    string_of(m.as_slice())
}

/// The reply of `prayer` to its caller.
pub fn prayer_reply(channel_name: &str) -> (r: String)
    ensures
        r@ == "subscribed the prayer time on **"@ + channel_name@ + "**"@,
{
    let mut m: Vec<char> = Vec::new();
    push_str(&mut m, "subscribed the prayer time on **");
    push_str(&mut m, channel_name);
    push_str(&mut m, "**");
    string_of(m.as_slice())
}

/// The reply of `clear_prayer`, by whether a subscription was removed.
pub fn clear_prayer_reply(removed: bool) -> (r: String)
    ensures
        removed ==> r@ == "❌ Successfully disabled and cleared prayer time notifications for this server."@,
        !removed ==> r@ == "⚠️ There is no active prayer time subscription configured for this server."@,
{
    if removed {
        String::from_str("❌ Successfully disabled and cleared prayer time notifications for this server.")
    } else {
        String::from_str("⚠️ There is no active prayer time subscription configured for this server.")
    }
}

} // verus!
