//! What the voice event handlers decide: the track metadata they show, the
//! now-playing messages, the idle timer and the status rotation.

use vstd::prelude::*;

verus! {

/// A length of time with nanosecond precision, as `std::time::Duration`
/// holds it: whole seconds and the nanoseconds beyond them.
#[derive(Clone, Copy, Debug)]
pub struct TrackLength {
    pub secs: u64,
    /// Below one second (`< 1_000_000_000`).
    pub nanos: u32,
}

/// The metadata kept with each queued track.
#[derive(Clone, Debug)]
pub struct SongMetadata {
    pub title: String,
    pub url: String,
    pub thumbnail: String,
    pub duration: Option<TrackLength>,
    pub request_by: String,
    /// The avatar of the member who asked for it.
    pub request_by_avatar: String,
    /// The channel or artist that published it.
    pub author: String,
}

} // verus!

pub mod idle;
pub mod playing;
pub mod ready;
