//! The `play` command: how long loading may take, whether the bot deafens
//! itself, and what it replies once the tracks are queued.

use vstd::prelude::*;
use vstd::string::*;
use crate::text::{decimal, push_decimal, push_str, string_of, starts_with, starts_with_str, chars_of};

verus! {

broadcast use vstd::string::group_string_axioms;

/// The seconds `play` waits for the tracks to load: the configured timeout
/// of the command, or 30.
pub fn play_timeout(configured: Option<u64>) -> (r: u64)
    ensures
        r == match configured {
            Some(t) => t,
            None => 30,
        },
{
    match configured {
        Some(t) => t,
        None => 30,
    }
}

/// The error when loading takes longer than `secs` seconds.
pub fn timeout_message(secs: u64) -> (r: String)
    ensures
        r@ == "The playlist or song took too long to load ("@ + decimal(secs as nat)
            + "s limit). Try a shorter query!"@,
{
    let mut m: Vec<char> = Vec::new();
    push_str(&mut m, "The playlist or song took too long to load (");
    push_decimal(&mut m, secs);
    push_str(&mut m, "s limit). Try a shorter query!");
    string_of(m.as_slice())
}

/// Whether the bot deafens itself before queueing: when someone other than
/// the owner asks and nothing is queued yet.
pub fn should_deafen(author_id: u64, owner_id: u64, queue_len: usize) -> (r: bool)
    ensures
        r == (author_id != owner_id && queue_len == 0),
{
    author_id != owner_id && queue_len <= 0
}

/// The reply once the tracks are queued, for the first track's title
/// (`None` when no track loaded) and the number of tracks.
pub open spec fn fetched_text(first_title: Option<Seq<char>>, count: nat) -> Seq<char> {
    let t = match first_title {
        Some(t) => t,
        None => "Unknown"@,
    };
    if count > 1 {
        "**Fetched** "@ + t + " and its playlist"@
    } else {
        "**Fetched** "@ + t
    }
}

/// The reply once the tracks are queued, for the first track's title
/// (`None` when no track loaded) and the number of tracks.
pub fn fetched_reply(first_title: Option<&str>, count: usize) -> (r: String)
    ensures
        r@ == fetched_text(match first_title {
            Some(t) => Some(t@),
            None => None,
        }, count as nat),
{
    let mut m: Vec<char> = Vec::new();
    push_str(&mut m, "**Fetched** ");
    match first_title {
        Some(t) => push_str(&mut m, t),
        None => push_str(&mut m, "Unknown"),
    }
    if count > 1 {
        push_str(&mut m, " and its playlist");
    }
    string_of(m.as_slice())
}

/// Whether a query is searched for rather than opened as a link: it does
/// not start with `http`.
pub fn needs_search(query: &str) -> (r: bool)
    ensures
        r == !starts_with(query@, "http"@),
{
    let q = chars_of(query);
    !starts_with_str(q.as_slice(), "http")
}

} // verus!
