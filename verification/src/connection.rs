//! The dashboard's connection to the monitor server: connecting, connected, or broken
//! and waiting to retry. Each frame of the user interface takes one step.
use vstd::prelude::*;

verus! {

/// How long a connection attempt may take, and how long a broken connection waits before
/// the next attempt, in milliseconds.
pub const MAX_WAIT_MS: u64 = 5000;

/// Where the connection stands; times are in milliseconds.
#[derive(Debug, Clone, Copy, PartialEq, Eq, Structural)]
pub enum ConnectionState {
    /// No attempt running.
    Uninit,
    /// An attempt started at `since`.
    Connecting { since: u64 },
    /// Connected.
    Active,
    /// Broken at `since`; a new attempt follows after the wait.
    Broken { since: u64 },
}

/// What became of the running attempt since the last frame.
#[derive(Debug, Clone, Copy, PartialEq, Eq, Structural)]
pub enum AttemptPoll {
    /// It succeeded.
    Connected,
    /// It failed.
    Failed,
    /// No answer yet.
    Pending,
    /// It is gone without an answer.
    Closed,
}

/// What the frame is to do besides drawing.
#[derive(Debug, Clone, Copy, PartialEq, Eq, Structural)]
pub struct FrameActions {
    /// Start a connection attempt.
    pub start_attempt: bool,
    /// Draw again soon, without waiting for input.
    pub repaint: bool,
}

/// Time passed since `since`, at `now`; none where the clock went back.
pub open spec fn elapsed(since: u64, now: u64) -> int {
    if now >= since {
        now - since
    } else {
        0
    }
}

/// The state after one frame at `now`; `can_connect` tells whether this build starts
/// attempts itself (it does on the web); `poll` is what became of the running attempt.
pub open spec fn next_state(s: ConnectionState, now: u64, can_connect: bool, poll: AttemptPoll) -> ConnectionState {
    match s {
        ConnectionState::Uninit => if can_connect {
            ConnectionState::Connecting { since: now }
        } else {
            ConnectionState::Uninit
        },
        ConnectionState::Connecting { since } => match poll {
            AttemptPoll::Connected => ConnectionState::Active,
            AttemptPoll::Failed => ConnectionState::Broken { since: now },
            AttemptPoll::Closed => ConnectionState::Broken { since: now },
            AttemptPoll::Pending => if elapsed(since, now) > MAX_WAIT_MS {
                ConnectionState::Broken { since: now }
            } else {
                s
            },
        },
        ConnectionState::Active => s,
        ConnectionState::Broken { since } => if elapsed(since, now) > MAX_WAIT_MS {
            ConnectionState::Uninit
        } else {
            s
        },
    }
}

/// The milliseconds from `since` to `now`, or 0 where the clock went back.
fn elapsed_ms(since: u64, now: u64) -> (r: u64)
    ensures
        r == elapsed(since, now),
{
    if now >= since {
        now - since
    } else {
        0
    }
}

/// One frame: moves the connection on and tells what to do. A running attempt is given
/// up after [`MAX_WAIT_MS`]; a broken connection is retried after as long.
pub fn step(state: &mut ConnectionState, now: u64, can_connect: bool, poll: AttemptPoll) -> (r: FrameActions)
    ensures
        *final(state) == next_state(*old(state), now, can_connect, poll),
        r.start_attempt == (*old(state) == ConnectionState::Uninit && can_connect),
        r.repaint == (match *old(state) {
            ConnectionState::Connecting { .. } => poll == AttemptPoll::Pending,
            ConnectionState::Broken { .. } => true,
            _ => false,
        }),
{
    match *state {
        ConnectionState::Uninit => {
            if can_connect {
                *state = ConnectionState::Connecting { since: now };
                FrameActions { start_attempt: true, repaint: false }
            } else {
                FrameActions { start_attempt: false, repaint: false }
            }
        },
        ConnectionState::Connecting { since } => match poll {
            AttemptPoll::Connected => {
                *state = ConnectionState::Active;
                FrameActions { start_attempt: false, repaint: false }
            },
            AttemptPoll::Failed | AttemptPoll::Closed => {
                *state = ConnectionState::Broken { since: now };
                FrameActions { start_attempt: false, repaint: false }
            },
            AttemptPoll::Pending => {
                if elapsed_ms(since, now) > MAX_WAIT_MS {
                    *state = ConnectionState::Broken { since: now };
                }
                FrameActions { start_attempt: false, repaint: true }
            },
        },
        ConnectionState::Active => FrameActions { start_attempt: false, repaint: false },
        ConnectionState::Broken { since } => {
            if elapsed_ms(since, now) > MAX_WAIT_MS {
                *state = ConnectionState::Uninit;
            }
            FrameActions { start_attempt: false, repaint: true }
        },
    }
}

/// The milliseconds left before a broken connection is retried, at `now`.
pub fn retry_in_ms(since: u64, now: u64) -> (r: u64)
    ensures
        r == if elapsed(since, now) >= MAX_WAIT_MS {
            0
        } else {
            MAX_WAIT_MS - elapsed(since, now)
        },
{
    let e = elapsed_ms(since, now);
    if e >= MAX_WAIT_MS {
        0
    } else {
        MAX_WAIT_MS - e
    }
}

/// An attempt that keeps answering nothing is given up within [`MAX_WAIT_MS`], and a
/// broken connection is retried after as long, whatever the clock reads.
pub proof fn lemma_no_endless_wait(since: u64, now: u64, can_connect: bool)
    requires
        elapsed(since, now) > MAX_WAIT_MS,
    ensures
        (next_state(ConnectionState::Connecting { since }, now, can_connect, AttemptPoll::Pending)
            == ConnectionState::Broken { since: now }),
        (next_state(ConnectionState::Broken { since }, now, can_connect, AttemptPoll::Pending)
            == ConnectionState::Uninit),
{
}

} // verus!
