//! A watch on updates: a sender counts its notifications in a fence, and a receiver
//! remembers the fence it has seen.
//!
//! The sender's fence starts at 1 and grows by 2, so it is always odd and never 0; a
//! receiver that holds 0 therefore always sees an update.
use vstd::prelude::*;

verus! {

/// The notifying side.
#[derive(Debug, Clone, Copy)]
pub struct Sender {
    pub fence: usize,
}

/// The observing side. The sender it watches is handed to each call; `None` stands for
/// a sender that is gone.
#[derive(Debug, Clone, Copy)]
pub struct Receiver {
    pub fence: usize,
}

/// Why waiting for an update ended without one.
#[derive(Debug, Clone, Copy, PartialEq, Eq)]
pub enum TryWaitError {
    /// The sender is gone.
    Closed,
    /// There is no update.
    Empty,
}

impl Sender {
    /// Every sender keeps its fence odd.
    pub open spec fn wf(self) -> bool {
        self.fence % 2 == 1
    }

    /// A sender whose fence is 1.
    pub fn new() -> (r: Sender)
        ensures
            r.fence == 1,
            r.wf(),
    {
        Sender { fence: 1 }
    }

    /// Announces an update: the fence moves on by 2, wrapping around.
    pub fn notify(&mut self)
        requires
            old(self).wf(),
        ensures
            final(self).wf(),
            final(self).fence == (old(self).fence + 2) % (usize::MAX as int + 1),
            final(self).fence != old(self).fence,
            final(self).fence != 0,
    {
        proof {
            assert(usize::MAX == 0xffff_ffff || usize::MAX == 0xffff_ffff_ffff_ffff);
        }
        self.fence = self.fence.wrapping_add(2);
    }

    /// A receiver of this sender: a fresh one sees an update at once, another one sees
    /// updates from now on.
    pub fn receiver(&self, fresh: bool) -> (r: Receiver)
        ensures
            r.fence == if fresh {
                0
            } else {
                self.fence
            },
    {
        Receiver { fence: if fresh { 0 } else { self.fence } }
    }
}

impl Receiver {
    /// The fence this receiver has seen.
    pub fn fence(&self) -> (r: usize)
        ensures
            r == self.fence,
    {
        self.fence
    }

    /// Takes the sender's fence; `None` when the sender is gone, and then nothing changes.
    pub fn update(&mut self, sender: Option<&Sender>) -> (r: Option<()>)
        ensures
            match sender {
                Some(s) => r is Some && final(self).fence == s.fence,
                None => r is None && final(self).fence == old(self).fence,
            },
    {
        match sender {
            Some(s) => {
                self.fence = s.fence;
                Some(())
            },
            None => None,
        }
    }

    /// Forgets the seen fence, so that the next check sees an update.
    pub fn invalidate(&mut self)
        ensures
            final(self).fence == 0,
    {
        self.fence = 0;
    }

    /// Whether the sender has notified since this receiver last looked; `None` when the
    /// sender is gone.
    pub fn is_dirty(&self, sender: Option<&Sender>) -> (r: Option<bool>)
        ensures
            match sender {
                Some(s) => r == Some(s.fence != self.fence),
                None => r is None,
            },
    {
        match sender {
            Some(s) => Some(s.fence != self.fence),
            None => None,
        }
    }

    /// Starts waiting for the next update; the receiver itself is left as it is.
    pub fn wait(&mut self) -> (r: Wait)
        ensures
            r.state == WaitState::Created,
            *final(self) == *old(self),
    {
        Wait { state: WaitState::Created }
    }
}

/// Where a wait stands.
#[derive(Debug, Clone, Copy, PartialEq, Eq, Structural)]
pub enum WaitState {
    Created,
    Registered,
    Expired,
}

/// A wait for the next update of a sender.
#[derive(Debug)]
pub struct Wait {
    pub state: WaitState,
}

/// What a poll of a wait asks its caller to do with the waker, and what it returns.
#[derive(Debug, Clone, Copy)]
pub enum WaitPoll {
    /// The wait is over: `Some` for an update, `None` when the sender is gone or the
    /// wait had already ended.
    Ready(Option<()>),
    /// Not yet: the caller's waker is to be added to the sender's waiters.
    Register,
    /// Woken without an update: the caller's waker is to be taken out of the sender's
    /// waiters and added again; the wait stays registered.
    Reregister,
}

impl Wait {
    /// One poll of the wait, given the receiver it belongs to and its sender.
    pub fn poll(&mut self, rx: &mut Receiver, sender: Option<&Sender>) -> (r: WaitPoll)
        ensures
            match (old(self).state, sender) {
                (WaitState::Expired, _) => r == WaitPoll::Ready(None) && final(self).state
                    == WaitState::Expired && final(rx).fence == old(rx).fence,
                (_, None) => r == WaitPoll::Ready(None) && final(self).state == WaitState::Expired
                    && final(rx).fence == old(rx).fence,
                (WaitState::Created, Some(s)) => if s.fence != old(rx).fence {
                    r == WaitPoll::Ready(Some(())) && final(rx).fence == s.fence && final(self).state
                        == WaitState::Created
                } else {
                    r == WaitPoll::Register && final(rx).fence == old(rx).fence && final(self).state
                        == WaitState::Registered
                },
                (WaitState::Registered, Some(s)) => if s.fence != old(rx).fence {
                    r == WaitPoll::Ready(Some(())) && final(rx).fence == s.fence && final(self).state
                        == WaitState::Expired
                } else {
                    r == WaitPoll::Reregister && final(rx).fence == old(rx).fence && final(self).state
                        == WaitState::Registered
                },
            },
    {
        match self.state {
            WaitState::Created => {
                match sender {
                    None => {
                        self.state = WaitState::Expired;
                        WaitPoll::Ready(None)
                    },
                    Some(s) => {
                        if s.fence != rx.fence {
                            rx.fence = s.fence;
                            WaitPoll::Ready(Some(()))
                        } else {
                            self.state = WaitState::Registered;
                            WaitPoll::Register
                        }
                    },
                }
            },
            WaitState::Registered => {
                match sender {
                    None => {
                        self.state = WaitState::Expired;
                        WaitPoll::Ready(None)
                    },
                    Some(s) => {
                        if s.fence != rx.fence {
                            self.state = WaitState::Expired;
                            rx.fence = s.fence;
                            WaitPoll::Ready(Some(()))
                        } else {
                            WaitPoll::Reregister
                        }
                    },
                }
            },
            WaitState::Expired => WaitPoll::Ready(None),
        }
    }

    /// Whether dropping the wait must take its waker out of the sender's waiters.
    pub fn must_unregister_on_drop(&self) -> (r: bool)
        ensures
            r == (self.state == WaitState::Registered),
    {
        match self.state {
            WaitState::Registered => true,
            _ => false,
        }
    }
}

/// A receiver that holds 0 sees an update from any sender, whatever it has notified.
pub proof fn lemma_cleared_receiver_is_dirty(s: Sender, r: Receiver)
    requires
        s.wf(),
        r.fence == 0,
    ensures
        s.fence != r.fence,
{
}

/// A receiver that has taken the sender's fence sees the sender's next notification.
pub proof fn lemma_notified_receiver_is_dirty(s0: Sender, s1: Sender, r: Receiver)
    requires
        s0.wf(),
        r.fence == s0.fence,
        s1.fence == (s0.fence + 2) % (usize::MAX as int + 1),
    ensures
        s1.fence != r.fence,
        s1.wf(),
{
    let m = usize::MAX as int + 1;
    let f = s0.fence as int;
    assert(usize::MAX == 0xffff_ffff || usize::MAX == 0xffff_ffff_ffff_ffff);
    if f + 2 < m {
        vstd::arithmetic::div_mod::lemma_small_mod((f + 2) as nat, m as nat);
    } else {
        vstd::arithmetic::div_mod::lemma_mod_add_multiples_vanish(f + 2 - m, m);
        vstd::arithmetic::div_mod::lemma_small_mod((f + 2 - m) as nat, m as nat);
    }
}

} // verus!
