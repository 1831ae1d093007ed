//! The now-playing messages: what they show when a track starts, the queue
//! summary beside it, and the message that is deleted when the track ends.

use vstd::prelude::*;
use vstd::string::*;
use crate::handlers::{SongMetadata, TrackLength};
use crate::text::{decimal, push_decimal, push_str, string_of};
use crate::timestamp::{format_duration, track_length_text};

verus! {

broadcast use vstd::string::group_string_axioms;

/// The embed posted when a track starts.
pub struct NowPlayingEmbed {
    pub title: String,
    pub url: String,
    pub thumbnail: String,
    pub color: u32,
    /// The value of the "Duration" field.
    pub duration: String,
    /// The name shown as the embed's author: the track's channel.
    pub author: String,
    pub footer: String,
    /// The icon beside the footer: the requester's avatar.
    pub footer_icon: String,
}

/// The whole seconds of an optional track length.
pub open spec fn secs_of(d: Option<TrackLength>) -> Option<nat> {
    match d {
        Some(l) => Some(l.secs as nat),
        None => None,
    }
}

/// The embed announcing that the track `song` started: its title, link and
/// thumbnail in blue, its length in backticks, its channel, and who asked
/// for it.
pub fn now_playing_embed(song: &SongMetadata) -> (r: NowPlayingEmbed)
    ensures
        r.title@ == song.title@,
        r.url@ == song.url@,
        r.thumbnail@ == song.thumbnail@,
        r.color == 0x0099ff,
        r.duration@ == "`"@ + track_length_text(secs_of(song.duration)) + "`"@,
        r.author@ == song.author@,
        r.footer@ == "Requested by "@ + song.request_by@,
        r.footer_icon@ == song.request_by_avatar@,
{
    let secs: Option<u64> = match song.duration {
        Some(l) => Some(l.secs),
        None => None,
    };
    let len = format_duration(secs);
    let mut d: Vec<char> = Vec::new();
    push_str(&mut d, "`");
    push_str(&mut d, len.as_str());
    push_str(&mut d, "`");
    let mut f: Vec<char> = Vec::new();
    push_str(&mut f, "Requested by ");
    push_str(&mut f, song.request_by.as_str());
    NowPlayingEmbed {
        title: song.title.clone(),
        url: song.url.clone(),
        thumbnail: song.thumbnail.clone(),
        color: 0x0099ff,
        duration: string_of(d.as_slice()),
        author: song.author.clone(),
        footer: string_of(f.as_slice()),
        footer_icon: song.request_by_avatar.clone(),
    }
}

/// Nanoseconds in a second.
pub const NANOS_PER_SEC: u32 = 1_000_000_000;

/// The total length, in nanoseconds, of the tracks with a known length.
pub open spec fn total_nanos(ls: Seq<Option<TrackLength>>) -> nat
    decreases ls.len(),
{
    if ls.len() == 0 {
        0
    } else {
        total_nanos(ls.drop_last()) + match ls.last() {
            Some(l) => l.secs as nat * 1_000_000_000 + l.nanos as nat,
            None => 0,
        }
    }
}

/// Whether every known length is a valid `Duration` (nanoseconds below a
/// second).
pub open spec fn valid_lengths(ls: Seq<Option<TrackLength>>) -> bool {
    forall|i: int| 0 <= i < ls.len() ==> (#[trigger] ls[i] matches Some(l) ==> l.nanos < NANOS_PER_SEC)
}

proof fn lemma_total_nanos_mono(ls: Seq<Option<TrackLength>>, i: int, j: int)
    requires
        0 <= i <= j <= ls.len(),
    ensures
        total_nanos(ls.take(i)) <= total_nanos(ls.take(j)),
    decreases j - i,
{
    if i < j {
        lemma_total_nanos_mono(ls, i, j - 1);
        assert(ls.take(j).drop_last() == ls.take(j - 1));
    }
}

/// The whole seconds of the summed lengths of the tracks with a known
/// length (as summing `Duration`s gives them).
pub fn total_secs(ls: &Vec<Option<TrackLength>>) -> (r: u64)
    requires
        valid_lengths(ls@),
        total_nanos(ls@) / 1_000_000_000 <= u64::MAX,
    ensures
        r == total_nanos(ls@) / 1_000_000_000,
{
    let mut secs: u64 = 0;
    let mut nanos: u32 = 0;
    let mut i: usize = 0;
    while i < ls.len()
        invariant
            i <= ls@.len(),
            valid_lengths(ls@),
            total_nanos(ls@) / 1_000_000_000 <= u64::MAX,
            nanos < NANOS_PER_SEC,
            secs as nat * 1_000_000_000 + nanos as nat == total_nanos(ls@.take(i as int)),
        decreases ls@.len() - i,
    {
        assert(ls@.take(i + 1).drop_last() == ls@.take(i as int));
        assert(ls@.take(i + 1).last() == ls@[i as int]);
        proof {
            lemma_total_nanos_mono(ls@, i + 1, ls@.len() as int);
            assert(ls@.take(ls@.len() as int) == ls@);
        }
        match ls[i] {
            Some(l) => {
                assert(l.nanos < NANOS_PER_SEC);
                let sum_nanos: u32 = nanos + l.nanos;
                if sum_nanos >= NANOS_PER_SEC {
                    secs = secs + l.secs + 1;
                    nanos = sum_nanos - NANOS_PER_SEC;
                } else {
                    secs = secs + l.secs;
                    nanos = sum_nanos;
                }
            },
            None => {},
        }
        i += 1;
    }
    assert(ls@.take(ls@.len() as int) == ls@);
    secs
}

/// The "Tracks" field beside a started track: how many tracks are queued
/// and for how long in all.
pub fn queue_summary(ls: &Vec<Option<TrackLength>>) -> (r: String)
    requires
        valid_lengths(ls@),
        total_nanos(ls@) / 1_000_000_000 <= u64::MAX,
    ensures
        r@ == "`"@ + decimal(ls@.len()) + " for "@ + track_length_text(
            Some(total_nanos(ls@) / 1_000_000_000),
        ) + "`"@,
{
    let total = total_secs(ls);
    let t = format_duration(Some(total));
    let mut m: Vec<char> = Vec::new();
    push_str(&mut m, "`");
    push_decimal(&mut m, ls.len() as u64);
    push_str(&mut m, " for ");
    push_str(&mut m, t.as_str());
    push_str(&mut m, "`");
    string_of(m.as_slice())
}

/// The message announcing the current track, kept so that it can be
/// deleted when the track ends.
#[derive(Clone, Copy, Debug, PartialEq, Eq, Structural)]
pub struct NowPlayingMessage {
    pub message_id: Option<u64>,
}

impl NowPlayingMessage {
    /// No message posted.
    pub fn new() -> (r: Self)
        ensures
            r.message_id is None,
    {
        NowPlayingMessage { message_id: None }
    }

    /// Records the outcome of posting the announcement: the message's id, or
    /// `None` when sending failed.
    pub fn started(&mut self, sent: Option<u64>)
        ensures
            final(self).message_id == sent,
    {
        self.message_id = sent;
    }

    /// When a track ends: the announcement to delete, if one is recorded;
    /// none is recorded afterwards.
    pub fn ended(&mut self) -> (r: Option<u64>)
        ensures
            r == old(self).message_id,
            final(self).message_id is None,
    {
        let r = self.message_id;
        self.message_id = None;
        r
    }
}

} // verus!
