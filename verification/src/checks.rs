//! The checks that guard commands, and the voice-channel gate that the
//! playback commands apply before they act.

use vstd::prelude::*;
use vstd::string::*;

verus! {

broadcast use vstd::string::group_string_axioms;

/// A member's voice state in a guild.
#[derive(Clone, Copy, Debug)]
pub struct VoiceState {
    /// The voice channel the member is in, if any.
    pub channel_id: Option<u64>,
    pub deaf: bool,
    pub self_deaf: bool,
    pub mute: bool,
    pub self_mute: bool,
}

/// The voice states that matter to a command in its guild: the author's and
/// the bot's (each absent when the member has none).
#[derive(Clone, Copy, Debug)]
pub struct GuildVoice {
    pub user: Option<VoiceState>,
    pub bot: Option<VoiceState>,
}

/// The voice channel of an optional voice state.
pub open spec fn channel_of(s: Option<VoiceState>) -> Option<u64> {
    match s {
        Some(v) => v.channel_id,
        None => None,
    }
}

fn channel(s: Option<VoiceState>) -> (r: Option<u64>)
    ensures
        r == channel_of(s),
{
    match s {
        Some(v) => v.channel_id,
        None => None,
    }
}

/// The outcome of a check: `Ok(true)` to let the command run, or the
/// message that stops it.
pub open spec fn check_is(r: Result<bool, String>, spec: Result<bool, Seq<char>>) -> bool {
    match r {
        Ok(b) => spec == Ok::<bool, Seq<char>>(b),
        Err(e) => spec == Err::<bool, Seq<char>>(e@),
    }
}

pub open spec fn dm_with_auth_spec(in_guild: bool, author: u64, owner: u64) -> Result<bool, Seq<char>> {
    if in_guild && author != owner {
        Err("You are not authorized to use this command in DMs."@)
    } else {
        Ok(true)
    }
}

/// Refuses a command invoked in a guild by anyone but the owner.
pub fn dm_with_auth(in_guild: bool, author_id: u64, owner_id: u64) -> (r: Result<bool, String>)
    ensures
        check_is(r, dm_with_auth_spec(in_guild, author_id, owner_id)),
{
    if in_guild && author_id != owner_id {
        return Err(String::from_str("You are not authorized to use this command in DMs."));
    }
    Ok(true)
}

pub open spec fn same_vc_spec(guild: Option<GuildVoice>) -> Result<bool, Seq<char>> {
    match guild {
        None => Err("This command only works in servers."@),
        Some(g) => {
            let u = channel_of(g.user);
            let c = channel_of(g.bot);
            if u is Some && c is Some && u == c {
                Ok(true)
            } else if u is None {
                Err("You must be in a voice channel"@)
            } else if c is None {
                Err("I'm not in any channel"@)
            } else {
                Err("We must be in the same voice channel"@)
            }
        },
    }
}

/// Lets a command run only when the author and the bot are in the same
/// voice channel of the guild.
pub fn same_vc(guild: Option<GuildVoice>) -> (r: Result<bool, String>)
    ensures
        check_is(r, same_vc_spec(guild)),
{
    let g = match guild {
        Some(g) => g,
        None => return Err(String::from_str("This command only works in servers.")),
    };
    let u = channel(g.user);
    let c = channel(g.bot);
    match (u, c) {
        (Some(a), Some(b)) if a == b => Ok(true),
        (None, _) => Err(String::from_str("You must be in a voice channel")),
        (_, None) => Err(String::from_str("I'm not in any channel")),
        _ => Err(String::from_str("We must be in the same voice channel")),
    }
}

pub open spec fn diff_vc_spec(guild: Option<GuildVoice>) -> Result<bool, Seq<char>> {
    match guild {
        None => Err("This command only works in servers."@),
        Some(g) => {
            let u = channel_of(g.user);
            let c = channel_of(g.bot);
            if u is None {
                Err("You need to be in a voice channel for me to join you!"@)
            } else if c is Some && u == c {
                Err("I'm already in your voice channel!"@)
            } else {
                Ok(true)
            }
        },
    }
}

/// Lets a command run only when the author is in a voice channel that the
/// bot is not in.
pub fn diff_vc(guild: Option<GuildVoice>) -> (r: Result<bool, String>)
    ensures
        check_is(r, diff_vc_spec(guild)),
{
    let g = match guild {
        Some(g) => g,
        None => return Err(String::from_str("This command only works in servers.")),
    };
    let u = channel(g.user);
    let c = channel(g.bot);
    match (u, c) {
        (None, _) => Err(String::from_str("You need to be in a voice channel for me to join you!")),
        (Some(b), Some(a)) if a == b => Err(String::from_str("I'm already in your voice channel!")),
        _ => Ok(true),
    }
}

pub open spec fn not_empty_queue_spec(in_guild: bool, songbird_mounted: bool, queue_len: Option<nat>) -> Result<
    bool,
    Seq<char>,
> {
    if !in_guild {
        Err("this commad only works in servers."@)
    } else if !songbird_mounted {
        Err("failed to mount songbird"@)
    } else {
        match queue_len {
            None => Err("Not in a voice channel!"@),
            Some(n) => if n == 0 {
                Err("The queue is already empty!"@)
            } else {
                Ok(true)
            },
        }
    }
}

/// Lets a command run only when the bot's call in the guild has a
/// non-empty queue; `queue_len` is the queue's length, absent when the bot
/// has no call there.
pub fn not_empty_queue(in_guild: bool, songbird_mounted: bool, queue_len: Option<usize>) -> (r: Result<bool, String>)
    ensures
        check_is(r, not_empty_queue_spec(in_guild, songbird_mounted, match queue_len {
            Some(n) => Some(n as nat),
            None => None,
        })),
{
    if !in_guild {
        return Err(String::from_str("this commad only works in servers."));
    }
    if !songbird_mounted {
        return Err(String::from_str("failed to mount songbird"));
    }
    match queue_len {
        None => Err(String::from_str("Not in a voice channel!")),
        Some(n) => if n == 0 {
            Err(String::from_str("The queue is already empty!"))
        } else {
            Ok(true)
        },
    }
}

pub open spec fn user_not_deafen_spec(user: Option<VoiceState>) -> Result<bool, Seq<char>> {
    match user {
        Some(s) => if s.deaf || s.self_deaf {
            Err("You must be not deaffen to use that command"@)
        } else {
            Ok(true)
        },
        None => Ok(true),
    }
}

/// Refuses a command from an author who is deafened (by the server or by
/// themselves); `user` is the author's voice state in the guild, absent
/// outside a guild or without one.
pub fn user_not_deafen(user: Option<VoiceState>) -> (r: Result<bool, String>)
    ensures
        check_is(r, user_not_deafen_spec(user)),
{
    let is_deaf = match user {
        Some(s) => s.deaf || s.self_deaf,
        None => false,
    };
    if is_deaf {
        return Err(String::from_str("You must be not deaffen to use that command"));
    }
    Ok(true)
}

/// An author deafened by the server or by themselves is refused; an author
/// who is neither, or who has no voice state, passes.
pub proof fn lemma_deafened_author_refused(user: Option<VoiceState>)
    ensures
        user_not_deafen_spec(user) is Err <==> (user matches Some(s) && (s.deaf || s.self_deaf)),
        user_not_deafen_spec(user) is Ok ==> user_not_deafen_spec(user) == Ok::<bool, Seq<char>>(true),
{
}

pub open spec fn not_mute_spec(bot: Option<VoiceState>) -> Result<bool, Seq<char>> {
    match bot {
        Some(s) => if s.mute || s.self_mute {
            Err("🔇 **I'm currently muted.** Please unmute the me to use this command."@)
        } else {
            Ok(true)
        },
        None => Ok(true),
    }
}

/// Refuses a command while the bot is muted; `bot` is the bot's voice state
/// in the guild, absent outside a guild or without one.
pub fn not_mute(bot: Option<VoiceState>) -> (r: Result<bool, String>)
    ensures
        check_is(r, not_mute_spec(bot)),
{
    let is_muted = match bot {
        Some(s) => s.mute || s.self_mute,
        None => false,
    };
    if is_muted {
        return Err(
            String::from_str("🔇 **I'm currently muted.** Please unmute the me to use this command."),
        );
    }
    Ok(true)
}

/// How the bot gets into the author's voice channel.
#[derive(Clone, Copy, Debug, PartialEq, Eq, Structural)]
pub enum JoinPlan {
    /// Move the guild's existing call to the channel.
    Rejoin { channel_id: u64 },
    /// Join the channel with a new call, then register the event handlers.
    JoinNew { channel_id: u64 },
}

/// How the bot joins (or why it cannot): it needs a guild, the author in a
/// voice channel there, and the voice manager; an existing call of the
/// guild is moved, otherwise a new one is made.
pub fn join_plan(in_guild: bool, user_channel: Option<u64>, songbird_mounted: bool, has_call: bool) -> (r:
    Result<JoinPlan, String>)
    ensures
        !in_guild ==> (r matches Err(m) && m@ == "This command only works in servers."@),
        in_guild && user_channel is None ==> (r matches Err(m) && m@
            == "You must be in a voice channel!"@),
        in_guild && user_channel is Some && !songbird_mounted ==> (r matches Err(m) && m@
            == "Failed to mount songbird"@),
        in_guild && songbird_mounted && user_channel is Some ==> r == if has_call {
            Ok::<JoinPlan, String>(JoinPlan::Rejoin { channel_id: user_channel->Some_0 })
        } else {
            Ok::<JoinPlan, String>(JoinPlan::JoinNew { channel_id: user_channel->Some_0 })
        },
{
    if !in_guild {
        return Err(String::from_str("This command only works in servers."));
    }
    let c = match user_channel {
        Some(c) => c,
        None => return Err(String::from_str("You must be in a voice channel!")),
    };
    if !songbird_mounted {
        return Err(String::from_str("Failed to mount songbird"));
    }
    if has_call {
        Ok(JoinPlan::Rejoin { channel_id: c })
    } else {
        Ok(JoinPlan::JoinNew { channel_id: c })
    }
}


/// The bot is refused while muted by the server or by itself; otherwise, or
/// without a voice state, the command passes.
pub proof fn lemma_muted_bot_refused(bot: Option<VoiceState>)
    ensures
        not_mute_spec(bot) is Err <==> (bot matches Some(s) && (s.mute || s.self_mute)),
        not_mute_spec(bot) is Ok ==> not_mute_spec(bot) == Ok::<bool, Seq<char>>(true),
{
}

} // verus!
