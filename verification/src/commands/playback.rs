//! The playback commands (`skip`, `stop`, `shuffle`, `volume`, `pause`,
//! `resume`, `seek`, `repeat`, `jump`, `clear`): what each decides from the
//! voice channels, the queue and the current track.

use vstd::prelude::*;
use vstd::string::*;
use rand::seq::SliceRandom;
use crate::checks::{channel_of, GuildVoice, VoiceState};
use crate::config::commands::Command;
use crate::text::{decimal, push_decimal, push_str, string_of};
use crate::timestamp::{
    format_duration_human, human_clock, normalized_time, parse_timestamp_checked, secs_result_is,
    timestamp_fits, timestamp_secs, is_ascii_text, ascii_time,
};

verus! {

broadcast use vstd::string::group_string_axioms;

/// The reply that stops a playback command at the voice-channel gate, or
/// `None` to let it act: it needs a guild, the author and the bot in one
/// voice channel, the voice manager, and the bot's call in the guild.
pub open spec fn voice_gate_spec(
    cmd: Command,
    guild: Option<GuildVoice>,
    songbird_mounted: bool,
    has_call: bool,
) -> Option<Seq<char>> {
    match guild {
        None => Some(
            if cmd == Command::Skip {
                "This command only works in servers."@
            } else {
                "this commad ont works in servers."@
            },
        ),
        Some(g) => if channel_of(g.user) is None {
            Some("you must be in a voice channel"@)
        } else if channel_of(g.bot) is None {
            Some("I'm not in any channel"@)
        } else if channel_of(g.user) != channel_of(g.bot) {
            Some("You must be in the same voice channel"@)
        } else if !songbird_mounted {
            Some("failed to mount songbird"@)
        } else if !has_call {
            Some("Not in a voice channel!"@)
        } else {
            None
        },
    }
}

/// Whether the exec reply `r` is the spec reply `spec`.
pub open spec fn reply_is(r: Option<String>, spec: Option<Seq<char>>) -> bool {
    match r {
        Some(m) => spec == Some(m@),
        None => spec is None,
    }
}

/// The voice-channel gate of the `skip`, `stop`, `shuffle` and `volume`
/// commands (`cmd`); `None` lets the command act.
pub fn voice_gate(cmd: Command, guild: Option<GuildVoice>, songbird_mounted: bool, has_call: bool) -> (r:
    Option<String>)
    ensures
        reply_is(r, voice_gate_spec(cmd, guild, songbird_mounted, has_call)),
{
    let g = match guild {
        None => {
            return Some(
                if cmd == Command::Skip {
                    String::from_str("This command only works in servers.")
                } else {
                    String::from_str("this commad ont works in servers.")
                },
            );
        },
        Some(g) => g,
    };
    let u = match g.user {
        Some(s) => s.channel_id,
        None => None,
    };
    let b = match g.bot {
        Some(s) => s.channel_id,
        None => None,
    };
    match (u, b) {
        (None, _) => Some(String::from_str("you must be in a voice channel")),
        (_, None) => Some(String::from_str("I'm not in any channel")),
        (Some(x), Some(y)) => if x != y {
            Some(String::from_str("You must be in the same voice channel"))
        } else if !songbird_mounted {
            Some(String::from_str("failed to mount songbird"))
        } else if !has_call {
            Some(String::from_str("Not in a voice channel!"))
        } else {
            None
        },
    }
}

/// The reply of `skip` once the skip was tried.
pub fn skip_reply(skipped: bool) -> (r: String)
    ensures
        r@ == (if skipped {
            "skipped"@
        } else {
            "failed to skip"@
        }),
{
    if skipped {
        String::from_str("skipped")
    } else {
        String::from_str("failed to skip")
    }
}

/// What `stop` does with a queue of `queue_len` tracks: `Err` with the reply
/// when there is nothing to stop, `Ok` with the reply after clearing the
/// queue and stopping.
pub fn stop_decision(queue_len: usize) -> (r: Result<String, String>)
    ensures
        queue_len == 0 ==> (r matches Err(m) && m@ == "Nothing is currently in queue to stop."@),
        queue_len > 0 ==> (r matches Ok(m) && m@ == "⏹ Stopped playback!"@),
{
    if queue_len == 0 {
        Err(String::from_str("Nothing is currently in queue to stop."))
    } else {
        Ok(String::from_str("⏹ Stopped playback!"))
    }
}

/// What `shuffle` does with a queue of `queue_len` tracks: `Err` with the
/// reply when at most one track is queued, `Ok` with the reply after
/// shuffling the tracks behind the current one.
pub fn shuffle_decision(queue_len: usize) -> (r: Result<String, String>)
    ensures
        queue_len <= 1 ==> (r matches Err(m) && m@ == "Nothing is currently in queue to shuffle."@),
        queue_len > 1 ==> (r matches Ok(m) && m@ == "Shuffled the queue."@),
{
    if queue_len <= 1 {
        Err(String::from_str("Nothing is currently in queue to shuffle."))
    } else {
        Ok(String::from_str("Shuffled the queue."))
    }
}

/// `SliceRandom::shuffle` with the thread's generator. Claimed: the result is
/// a rearrangement of the same items (the same multiset); which one is
/// chance and is not stated.
#[verifier::external_body]
fn shuffle_indices(v: &mut Vec<usize>)
    ensures
        final(v)@.len() == old(v)@.len(),
        final(v)@.to_multiset() == old(v)@.to_multiset(),
{
    v.shuffle(&mut rand::rng());
}

/// The positions `0..n`.
pub open spec fn positions(n: nat) -> Seq<usize> {
    Seq::new(n, |i: int| i as usize)
}

/// The new order of a queue of `len` tracks after `shuffle`: the current
/// track (position 0) stays first, the others come in a random order. The
/// result is the list of old positions in their new order.
pub fn shuffle_order(len: usize) -> (r: Vec<usize>)
    ensures
        r@.len() == len,
        len > 0 ==> r@[0] == 0,
        r@.to_multiset() == positions(len as nat).to_multiset(),
{
    if len == 0 {
        let r: Vec<usize> = Vec::new();
        assert(r@ =~= positions(0));
        return r;
    }
    let mut rest: Vec<usize> = Vec::new();
    let mut i: usize = 1;
    while i < len
        invariant
            1 <= i <= len,
            rest@ == positions(len as nat).subrange(1, i as int),
        decreases len - i,
    {
        rest.push(i);
        assert(positions(len as nat).subrange(1, i + 1) =~= positions(len as nat).subrange(1, i as int).push(i));
        i += 1;
    }
    let ghost before = rest@;
    shuffle_indices(&mut rest);
    let mut r: Vec<usize> = Vec::new();
    r.push(0);
    let mut j: usize = 0;
    while j < rest.len()
        invariant
            j <= rest@.len(),
            r@ == seq![0usize] + rest@.take(j as int),
        decreases rest@.len() - j,
    {
        r.push(rest[j]);
        assert(rest@.take(j + 1) == rest@.take(j as int).push(rest@[j as int]));
        assert(seq![0usize] + rest@.take(j + 1) =~= (seq![0usize] + rest@.take(j as int)).push(rest@[j as int]));
        j += 1;
    }
    assert(rest@.take(rest@.len() as int) == rest@);
    proof {
        vstd::seq_lib::lemma_multiset_commutative(seq![0usize], rest@);
        vstd::seq_lib::lemma_multiset_commutative(seq![0usize], before);
        assert(positions(len as nat) =~= seq![0usize] + before);
    }
    r
}

/// A sequence with the same items as `0..n` is an arrangement of `0..n`:
/// of length `n`, each entry below `n`, none twice.
proof fn lemma_arrangement(order: Seq<usize>, n: nat)
    requires
        order.to_multiset() == positions(n).to_multiset(),
        n <= usize::MAX + 1,
    ensures
        order.len() == n,
        forall|i: int| 0 <= i < order.len() ==> (#[trigger] order[i]) < n,
        order.no_duplicates(),
{
    broadcast use vstd::seq_lib::to_multiset_len, vstd::seq_lib::to_multiset_contains;

    let p = positions(n);
    assert(order.to_multiset().len() == p.to_multiset().len());
    assert forall|i: int| 0 <= i < order.len() implies (#[trigger] order[i]) < n by {
        let x = order[i];
        assert(order.contains(x));
        assert(order.to_multiset().count(x) > 0);
        assert(p.to_multiset().count(x) > 0);
        assert(p.contains(x));
        let j = choose|j: int| 0 <= j < p.len() && p[j] == x;
    }
    assert forall|i: int, j: int| 0 <= i < p.len() && 0 <= j < p.len() && i != j implies p[i]
        != p[j] by {
        assert(p[i] as int == i && p[j] as int == j);
    }
    p.lemma_multiset_has_no_duplicates();
    order.lemma_multiset_has_no_duplicates_conv();
}

/// The queue `items` rearranged by `order`, a rearrangement of its positions
/// (as `shuffle_order` draws it): the item at old position `order[i]` comes
/// `i`-th.
pub fn apply_order<T>(items: Vec<T>, order: &Vec<usize>) -> (r: Vec<T>)
    requires
        order@.to_multiset() == positions(items@.len()).to_multiset(),
    ensures
        r@.len() == items@.len(),
        forall|i: int| 0 <= i < r@.len() ==> r@[i] == items@[order@[i] as int],
{
    let ghost orig = items@;
    assert(items.len() == orig.len());
    proof {
        lemma_arrangement(order@, orig.len());
    }
    let n = items.len();
    let mut rev: Vec<Option<T>> = Vec::new();
    let mut rest = items;
    while rest.len() > 0
        invariant
            rest@.len() + rev@.len() == n,
            n == orig.len(),
            forall|k: int| 0 <= k < rest@.len() ==> rest@[k] == orig[k],
            forall|k: int| 0 <= k < rev@.len() ==> rev@[k] == Some(orig[n - 1 - k]),
        decreases rest@.len(),
    {
        let x = rest.pop().unwrap();
        rev.push(Some(x));
    }
    let mut slots: Vec<Option<T>> = Vec::new();
    while rev.len() > 0
        invariant
            slots@.len() + rev@.len() == n,
            n == orig.len(),
            forall|k: int| 0 <= k < rev@.len() ==> rev@[k] == Some(orig[n - 1 - k]),
            forall|k: int| 0 <= k < slots@.len() ==> slots@[k] == Some(orig[k]),
        decreases rev@.len(),
    {
        let x = rev.pop().unwrap();
        slots.push(x);
    }
    let mut r: Vec<T> = Vec::new();
    let mut k: usize = 0;
    while k < order.len()
        invariant
            k <= order@.len(),
            order@.len() == n,
            slots@.len() == n,
            n == orig.len(),
            r@.len() == k,
            order@.no_duplicates(),
            forall|i: int| 0 <= i < order@.len() ==> (#[trigger] order@[i]) < n,
            forall|i: int| 0 <= i < k ==> r@[i] == orig[order@[i] as int],
            forall|p: int|
                0 <= p < n ==> (#[trigger] slots@[p] == Some(orig[p]) || exists|i: int|
                    0 <= i < k && order@[i] == p),
        decreases order@.len() - k,
    {
        let p = order[k];
        assert(order@[k as int] == p);
        assert(slots@[p as int] == Some(orig[p as int])) by {
            if slots@[p as int] != Some(orig[p as int]) {
                let i = choose|i: int| 0 <= i < k && order@[i] == p as int;
                assert(order@[i] == order@[k as int]);
            }
        }
        let mut tmp: Option<T> = None;
        std::mem::swap(&mut tmp, &mut slots[p]);
        let x = tmp.unwrap();
        r.push(x);
        proof {
            assert forall|q: int| 0 <= q < n implies (#[trigger] slots@[q] == Some(orig[q])
                || exists|i: int| 0 <= i < k + 1 && order@[i] == q) by {
                if q == p as int {
                    assert(order@[k as int] == q);
                } else if slots@[q] != Some(orig[q]) {
                    let i = choose|i: int| 0 <= i < k && order@[i] == q;
                    assert(0 <= i < k + 1 && order@[i] == q);
                }
            }
        }
        k += 1;
    }
    r
}

/// The play mode of a track.
#[derive(Clone, Copy, Debug, PartialEq, Eq, Structural)]
pub enum PlayMode {
    Play,
    Pause,
    Stop,
    End,
    Errored,
}

/// What `clear` does: it needs a guild, the voice manager and the bot's
/// call there; `Ok` with the reply after emptying the queue, or `Err` with
/// the refusal.
pub fn clear_decision(in_guild: bool, songbird_mounted: bool, has_call: bool) -> (r: Result<
    String,
    String,
>)
    ensures
        !in_guild ==> (r matches Err(m) && m@ == "This command only works in servers."@),
        in_guild && !songbird_mounted ==> (r matches Err(m) && m@ == "failed to mount songbird"@),
        in_guild && songbird_mounted && !has_call ==> (r matches Err(m) && m@
            == "Not in a voice channel!"@),
        in_guild && songbird_mounted && has_call ==> (r matches Ok(m) && m@ == "🗑️ Queue cleared!"@),
{
    if !in_guild {
        Err(String::from_str("This command only works in servers."))
    } else if !songbird_mounted {
        Err(String::from_str("failed to mount songbird"))
    } else if !has_call {
        Err(String::from_str("Not in a voice channel!"))
    } else {
        Ok(String::from_str("🗑️ Queue cleared!"))
    }
}

/// What `join` does: it needs a guild and the voice manager; `Ok` with the
/// reply once the bot joined, or `Err` with the refusal.
pub fn join_decision(in_guild: bool, songbird_mounted: bool) -> (r: Result<String, String>)
    ensures
        !in_guild ==> (r matches Err(m) && m@ == "This command only works in servers."@),
        in_guild && !songbird_mounted ==> (r matches Err(m) && m@ == "failed to mount songbird"@),
        in_guild && songbird_mounted ==> (r matches Ok(m) && m@ == "Yes?"@),
{
    if !in_guild {
        Err(String::from_str("This command only works in servers."))
    } else if !songbird_mounted {
        Err(String::from_str("failed to mount songbird"))
    } else {
        Ok(String::from_str("Yes?"))
    }
}

/// What `pause` does with the current track (`None` when there is none):
/// `Ok` with the reply after pausing it, or `Err` with the refusal.
pub fn pause_decision(current: Option<PlayMode>) -> (r: Result<String, String>)
    ensures
        current is None ==> (r matches Err(m) && m@ == "Failed to get currrent queue"@),
        current == Some(PlayMode::Pause) ==> (r matches Err(m) && m@ == "The music is not playing"@),
        current matches Some(p) && p != PlayMode::Pause ==> (r matches Ok(m) && m@ == "⏸️ paused"@),
{
    match current {
        None => Err(String::from_str("Failed to get currrent queue")),
        Some(PlayMode::Pause) => Err(String::from_str("The music is not playing")),
        Some(_) => Ok(String::from_str("⏸️ paused")),
    }
}

/// What `resume` does with the current track (`None` when there is none):
/// `Ok` with the reply after resuming it, or `Err` with the refusal.
pub fn resume_decision(current: Option<PlayMode>) -> (r: Result<String, String>)
    ensures
        current is None ==> (r matches Err(m) && m@ == "Nothing is in the queue to resume."@),
        current == Some(PlayMode::Play) ==> (r matches Err(m) && m@ == "The music is already playing!"@),
        current matches Some(p) && p != PlayMode::Play ==> (r matches Ok(m) && m@ == "▶️ Resumed!"@),
{
    match current {
        None => Err(String::from_str("Nothing is in the queue to resume.")),
        Some(PlayMode::Play) => Err(String::from_str("The music is already playing!")),
        Some(_) => Ok(String::from_str("▶️ Resumed!")),
    }
}

/// The refusal of `volume` for the current track (`None` when there is
/// none), or `None` to change the volume.
pub fn volume_decision(current: Option<PlayMode>) -> (r: Option<String>)
    ensures
        current is None ==> (r matches Some(m) && m@ == "Nothing is in the queue to change volume."@),
        current matches Some(p) && p != PlayMode::Play ==> (r matches Some(m) && m@
            == "The music is must be already playing to change it's volume."@),
        current == Some(PlayMode::Play) ==> r is None,
{
    match current {
        None => Some(String::from_str("Nothing is in the queue to change volume.")),
        Some(PlayMode::Play) => None,
        Some(_) => Some(String::from_str("The music is must be already playing to change it's volume.")),
    }
}

/// The refusal `seek` gives for an unreadable time with message `msg`.
pub open spec fn invalid_time_msg(msg: Seq<char>) -> Seq<char> {
    "Invalid time: "@ + msg + ". Examples: `1:20`, `90`, `1m20s`, `1:02:30`"@
}

/// What `seek` decides for the current track (`None` when there is none)
/// and the time text `time`: the position in seconds to seek to, or the
/// refusal; `None` when the time, in the colon form, denotes more seconds
/// than 64 bits hold (where the time cannot be read).
pub fn seek_decision(current: Option<PlayMode>, time: &str) -> (r: Option<Result<u64, String>>)
    ensures
        current is None ==> (r matches Some(Err(m)) && m@ == "Nothing is in the queue to seek."@),
        current matches Some(p) && p != PlayMode::Play ==> (r matches Some(Err(m)) && m@
            == "The music is must be already playing to seek a time frame in it"@),
        current == Some(PlayMode::Play) ==> {
            &&& r is None <==> !timestamp_fits(normalized_time(time@))
            &&& r matches Some(res) ==> match timestamp_secs(normalized_time(time@)) {
                Ok(v) => res matches Ok(t) && t == v,
                Err(e) => res matches Err(m) && m@ == invalid_time_msg(e),
            }
        },
        current == Some(PlayMode::Play) && is_ascii_text(time@) ==> {
            &&& r is None <==> !timestamp_fits(ascii_time(time@))
            &&& r matches Some(res) ==> match timestamp_secs(ascii_time(time@)) {
                Ok(v) => res matches Ok(t) && t == v,
                Err(e) => res matches Err(m) && m@ == invalid_time_msg(e),
            }
        },
{
    match current {
        None => Some(Err(String::from_str("Nothing is in the queue to seek."))),
        Some(PlayMode::Play) => match parse_timestamp_checked(time) {
            None => None,
            Some(Ok(t)) => Some(Ok(t)),
            Some(Err(e)) => {
                let mut m: Vec<char> = Vec::new();
                push_str(&mut m, "Invalid time: ");
                push_str(&mut m, e.as_str());
                push_str(&mut m, ". Examples: `1:20`, `90`, `1m20s`, `1:02:30`");
                assert(m@ =~= invalid_time_msg(e@));
                Some(Err(string_of(m.as_slice())))
            },
        },
        Some(_) => Some(
            Err(String::from_str("The music is must be already playing to seek a time frame in it")),
        ),
    }
}

/// The reply after seeking: the position reached, as `H:MM:SS` or `M:SS`.
pub fn seek_reply(secs: u64) -> (r: String)
    ensures
        r@ == "Seeked to "@ + human_clock(secs as nat),
{
    let t = format_duration_human(secs);
    let mut m: Vec<char> = Vec::new();
    push_str(&mut m, "Seeked to ");
    push_str(&mut m, t.as_str());
    string_of(m.as_slice())
}

/// The modes of `repeat`.
#[derive(Clone, Copy, Debug, PartialEq, Eq, Structural)]
pub enum RepeatMode {
    Song,
    Toggle,
    Disable,
}

/// What `repeat` does to the current track's looping.
#[derive(Clone, Copy, Debug, PartialEq, Eq, Structural)]
pub enum LoopAction {
    Enable,
    Disable,
    /// Leave it, and mark the command as failed.
    Keep,
}

/// What `repeat` does for `mode` when the current track loops forever or
/// not (`looping` is read only for `Toggle`): the change, and the reply.
pub open spec fn repeat_spec(mode: Option<RepeatMode>, looping: bool) -> (LoopAction, Seq<char>) {
    match mode {
        Some(RepeatMode::Song) => (LoopAction::Enable, "🔁 **Loop enabled** for the current track."@),
        Some(RepeatMode::Disable) => (LoopAction::Disable, "➡️ **Loop disabled**"@),
        Some(RepeatMode::Toggle) => if looping {
            (LoopAction::Disable, "➡️ **Loop disabled*."@)
        } else {
            (LoopAction::Enable, "🔁 **Loop enabled**."@)
        },
        None => (
            LoopAction::Keep,
            "Invalid option! Use `song`, `disable`, `toggle`, or leave empty to toggle."@,
        ),
    }
}

/// What `repeat` does for `mode`; `looping` (whether the current track loops
/// forever) matters only for `Toggle`.
pub fn repeat_decision(mode: Option<RepeatMode>, looping: bool) -> (r: (LoopAction, String))
    ensures
        r.0 == repeat_spec(mode, looping).0,
        r.1@ == repeat_spec(mode, looping).1,
{
    match mode {
        Some(RepeatMode::Song) => (
            LoopAction::Enable,
            String::from_str("🔁 **Loop enabled** for the current track."),
        ),
        Some(RepeatMode::Disable) => (LoopAction::Disable, String::from_str("➡️ **Loop disabled**")),
        Some(RepeatMode::Toggle) => if looping {
            (LoopAction::Disable, String::from_str("➡️ **Loop disabled*."))
        } else {
            (LoopAction::Enable, String::from_str("🔁 **Loop enabled**."))
        },
        None => (
            LoopAction::Keep,
            String::from_str(
                "Invalid option! Use `song`, `disable`, `toggle`, or leave empty to toggle.",
            ),
        ),
    }
}

/// The refusal of `repeat` when nothing is playing.
pub fn repeat_no_track() -> (r: String)
    ensures
        r@ == "Nothing is currently playing to repeat."@,
{
    String::from_str("Nothing is currently playing to repeat.")
}

/// How `jump` reaches a track.
#[derive(Clone, Copy, Debug, PartialEq, Eq, Structural)]
pub enum JumpAction {
    /// Skip the current track.
    Skip,
    /// Stop and remove this many tracks from the front of the queue.
    DropFront(usize),
}

/// What `jump` does for track number `order` (from 1) in a queue of
/// `queue_len` tracks.
pub open spec fn jump_spec(order: nat, queue_len: nat) -> Result<JumpAction, Seq<char>> {
    if order == 0 {
        Err("Track numbers start from 1."@)
    } else if order - 1 >= queue_len {
        Err("That track number does not exist in the queue."@)
    } else if order - 1 != 0 {
        Ok(JumpAction::DropFront((order - 1) as usize))
    } else {
        Ok(JumpAction::Skip)
    }
}

/// What `jump` does for track number `order` (from 1) in a queue of
/// `queue_len` tracks.
pub fn jump_decision(order: usize, queue_len: usize) -> (r: Result<JumpAction, String>)
    ensures
        match r {
            Ok(a) => jump_spec(order as nat, queue_len as nat) == Ok::<JumpAction, Seq<char>>(a),
            Err(m) => jump_spec(order as nat, queue_len as nat) == Err::<JumpAction, Seq<char>>(m@),
        },
{
    if order == 0 {
        return Err(String::from_str("Track numbers start from 1."));
    }
    let index = order - 1;
    if index >= queue_len {
        return Err(String::from_str("That track number does not exist in the queue."));
    }
    if index != 0 {
        Ok(JumpAction::DropFront(index))
    } else {
        Ok(JumpAction::Skip)
    }
}

/// The queue left after dropping `n` tracks from its front.
pub open spec fn after_drop<T>(queue: Seq<T>, n: nat) -> Seq<T> {
    queue.skip(n as int)
}

/// Jumping to track `order` beyond the first puts that track at the front
/// of the queue, followed by the tracks that were behind it.
pub proof fn lemma_jump_brings_track_forward<T>(queue: Seq<T>, order: nat)
    requires
        1 < order <= queue.len(),
    ensures
        jump_spec(order, queue.len()) == Ok::<JumpAction, Seq<char>>(JumpAction::DropFront((order - 1) as usize)),
        after_drop(queue, (order - 1) as nat)[0] == queue[order - 1],
        after_drop(queue, (order - 1) as nat) == queue.subrange(order - 1, queue.len() as int),
{
}

/// The reply after jumping to track `order`.
pub fn jump_reply(order: usize) -> (r: String)
    ensures
        r@ == "▶️ Jumped to track "@ + decimal(order as nat) + "!"@,
{
    let mut m: Vec<char> = Vec::new();
    push_str(&mut m, "▶️ Jumped to track ");
    push_decimal(&mut m, order as u64);
    push_str(&mut m, "!");
    string_of(m.as_slice())
}

} // verus!
