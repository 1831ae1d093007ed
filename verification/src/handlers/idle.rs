//! The idle timer of a voice call: the bot leaves a call that has had
//! nothing to play for a minute.

use vstd::prelude::*;

verus! {

/// Seconds of silence after which the bot leaves the call.
pub const IDLE_TIMEOUT_SECS: u64 = 60;

/// The state of a call's idle timer.
#[derive(Clone, Copy, Debug, PartialEq, Eq, Structural)]
pub struct IdleTimer {
    /// Whether a leave timer is running.
    pub armed: bool,
}

/// What happens to a call, as the idle timer sees it.
#[derive(Clone, Copy, Debug, PartialEq, Eq, Structural)]
pub enum IdleEvent {
    /// The handlers were just registered on the call.
    Registered,
    /// A track started playing.
    TrackPlay,
    /// A track ended; `queue_empty` is whether the guild's call has an empty
    /// queue (`None` when the guild has no call).
    TrackEnd { queue_empty: Option<bool> },
    /// The running timer ran out.
    TimerFired,
}

/// What the caller of the timer must do.
#[derive(Clone, Copy, Debug, PartialEq, Eq, Structural)]
pub enum IdleAction {
    /// Cancel any running timer, then start one of `IDLE_TIMEOUT_SECS`.
    Restart,
    /// Cancel any running timer.
    Cancel,
    /// Leave the guild's call.
    Leave,
    /// Nothing.
    Nothing,
}

/// The timer's next state and action on `event`.
pub open spec fn idle_step_spec(t: IdleTimer, event: IdleEvent) -> (IdleTimer, IdleAction) {
    match event {
        IdleEvent::Registered => (IdleTimer { armed: true }, IdleAction::Restart),
        IdleEvent::TrackPlay => (IdleTimer { armed: false }, IdleAction::Cancel),
        IdleEvent::TrackEnd { queue_empty } => if queue_empty == Some(true) {
            (IdleTimer { armed: true }, IdleAction::Restart)
        } else {
            (t, IdleAction::Nothing)
        },
        IdleEvent::TimerFired => (IdleTimer { armed: false }, IdleAction::Leave),
    }
}

impl IdleTimer {
    /// No timer running.
    pub fn new() -> (r: Self)
        ensures
            !r.armed,
    {
        IdleTimer { armed: false }
    }

    /// Advances the timer on `event` and tells what to do: registering the
    /// handlers starts the timer; a track starting cancels it; a track ending
    /// with the queue empty restarts it; the timer running out leaves the
    /// call.
    pub fn step(&mut self, event: IdleEvent) -> (a: IdleAction)
        ensures
            (*final(self), a) == idle_step_spec(*old(self), event),
    {
        match event {
            IdleEvent::Registered => {
                self.armed = true;
                IdleAction::Restart
            },
            IdleEvent::TrackPlay => {
                self.armed = false;
                IdleAction::Cancel
            },
            IdleEvent::TrackEnd { queue_empty } => {
                if queue_empty == Some(true) {
                    self.armed = true;
                    IdleAction::Restart
                } else {
                    IdleAction::Nothing
                }
            },
            IdleEvent::TimerFired => {
                self.armed = false;
                IdleAction::Leave
            },
        }
    }
}

/// The timer's state after the events `es`, from `t`.
pub open spec fn idle_run(t: IdleTimer, es: Seq<IdleEvent>) -> IdleTimer
    decreases es.len(),
{
    if es.len() == 0 {
        t
    } else {
        idle_step_spec(idle_run(t, es.drop_last()), es.last()).0
    }
}

/// A playing call is never left: after a track starts, the timer stays
/// stopped until a track ends on an empty queue (or the handlers are
/// registered again); and the bot leaves only when a timer runs out.
pub proof fn lemma_play_disarms(t: IdleTimer, es: Seq<IdleEvent>)
    requires
        forall|i: int|
            0 <= i < es.len() ==> match #[trigger] es[i] {
                IdleEvent::TrackEnd { queue_empty } => queue_empty != Some(true),
                IdleEvent::Registered => false,
                IdleEvent::TimerFired => false,
                IdleEvent::TrackPlay => true,
            },
    ensures
        !idle_run(idle_step_spec(t, IdleEvent::TrackPlay).0, es).armed,
    decreases es.len(),
{
    if es.len() > 0 {
        assert forall|i: int| 0 <= i < es.drop_last().len() implies match #[trigger] es.drop_last()[i] {
            IdleEvent::TrackEnd { queue_empty } => queue_empty != Some(true),
            IdleEvent::Registered => false,
            IdleEvent::TimerFired => false,
            IdleEvent::TrackPlay => true,
        } by {
            assert(es.drop_last()[i] == es[i]);
        }
        lemma_play_disarms(t, es.drop_last());
        let l = es.last();
        assert(l == es[es.len() - 1]);
    }
}

/// Only a timer running out makes the bot leave; a track ending on an empty
/// queue always leaves a timer running.
pub proof fn lemma_leave_only_on_fire(t: IdleTimer, e: IdleEvent)
    ensures
        idle_step_spec(t, e).1 == IdleAction::Leave <==> e == IdleEvent::TimerFired,
        e == (IdleEvent::TrackEnd { queue_empty: Some(true) }) ==> idle_step_spec(t, e).0.armed,
{
}

} // verus!
