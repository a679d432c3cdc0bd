//! Reading a byte stream out of websocket messages, for the monitor's RPC channel.
//!
//! Messages queue up as they arrive; reads copy bytes out of the binary message at the
//! front, from a cursor into it. A close message ends the stream; other messages are
//! skipped. Where the queue runs dry, the caller waits for the next message and pushes
//! it.
use vstd::prelude::*;

verus! {

/// A websocket message, as far as the reader cares.
#[derive(Debug)]
pub enum Frame {
    /// A binary message and its bytes.
    Binary(Vec<u8>),
    /// The peer closed the connection.
    Close,
    /// Any other message.
    Other,
}

/// The result of a read.
#[derive(Debug, Clone, Copy, PartialEq, Eq, Structural)]
pub enum ReadPoll {
    /// This many bytes were copied; 0 at the end of the stream.
    Ready(usize),
    /// The queue ran dry; a message must arrive first.
    NeedFrame,
}

/// The messages received and not read yet, and the cursor into the front one.
#[derive(Debug)]
pub struct FrameSource {
    pub inbounds: Vec<Frame>,
    /// Cursor for the front binary message.
    pub head_cursor: usize,
}

/// The number of messages that are neither binary nor a close at the front of `q`.
pub open spec fn leading_others(q: Seq<Frame>) -> nat
    decreases q.len(),
{
    if q.len() > 0 && q[0] is Other {
        1 + leading_others(q.drop_first())
    } else {
        0
    }
}

/// What a read with room for `room` bytes does: the queue after it, the cursor after it,
/// what it returns, and the bytes it copies.
pub open spec fn spec_read(q: Seq<Frame>, cursor: usize, room: nat) -> (Seq<Frame>, usize, ReadPoll, Seq<u8>) {
    let rest = q.skip(leading_others(q) as int);
    if rest.len() == 0 {
        (rest, cursor, ReadPoll::NeedFrame, seq![])
    } else {
        match rest[0] {
            Frame::Binary(h) => {
                let remaining = h@.len() - cursor;
                let n = if remaining <= room {
                    remaining
                } else {
                    room as int
                };
                let copied = h@.subrange(cursor as int, cursor + n);
                if cursor + n == h@.len() {
                    (rest.drop_first(), 0usize, ReadPoll::Ready(n as usize), copied)
                } else {
                    (rest, (cursor + n) as usize, ReadPoll::Ready(n as usize), copied)
                }
            },
            _ => (rest, cursor, ReadPoll::Ready(0), seq![]),
        }
    }
}

impl FrameSource {
    /// The cursor lies within the front binary message, and is 0 where the front is no
    /// binary message.
    pub open spec fn wf(self) -> bool {
        if self.inbounds@.len() > 0 && self.inbounds@[0] is Binary {
            self.head_cursor <= self.inbounds@[0]->Binary_0@.len()
        } else {
            self.head_cursor == 0
        }
    }

    /// An empty queue.
    pub fn new() -> (r: FrameSource)
        ensures
            r.wf(),
            r.inbounds@.len() == 0,
            r.head_cursor == 0,
    {
        FrameSource { inbounds: Vec::new(), head_cursor: 0 }
    }

    /// Queues a message that arrived.
    pub fn push_frame(&mut self, f: Frame)
        requires
            old(self).wf(),
        ensures
            final(self).wf(),
            final(self).inbounds@ == old(self).inbounds@.push(f),
            final(self).head_cursor == old(self).head_cursor,
    {
        let ghost before = self.inbounds@;
        self.inbounds.push(f);
        proof {
            if before.len() > 0 {
                assert(self.inbounds@[0] == before[0]);
            }
        }
    }

    /// Reads into `buf`: skips the messages that are neither binary nor a close; at a
    /// close, returns 0 and keeps it; at a binary message, copies as many of its bytes
    /// from the cursor as fit, moves the cursor on, and drops the message once the
    /// cursor has reached its end, that is once all its bytes are read.
    pub fn read(&mut self, buf: &mut [u8]) -> (r: ReadPoll)
        requires
            old(self).wf(),
        ensures
            final(self).wf(),
            ({
                let (q, c, res, copied) = spec_read(old(self).inbounds@, old(self).head_cursor, old(buf)@.len());
                &&& final(self).inbounds@ == q
                &&& final(self).head_cursor == c
                &&& r == res
                &&& final(buf)@.len() == old(buf)@.len()
                &&& final(buf)@ == copied + old(buf)@.skip(copied.len() as int)
            }),
    {
        let ghost q0 = self.inbounds@;
        let ghost mut skipped: int = 0;
        loop
            invariant
                q0 == old(self).inbounds@,
                self.head_cursor == old(self).head_cursor,
                buf@ == old(buf)@,
                0 <= skipped <= q0.len(),
                self.inbounds@ == q0.skip(skipped),
                forall|j: int| 0 <= j < skipped ==> (#[trigger] q0[j]) is Other,
                skipped > 0 ==> self.head_cursor == 0,
                old(self).wf(),
            ensures
                self.inbounds@ == q0.skip(leading_others(q0) as int),
                self.head_cursor == old(self).head_cursor,
                buf@ == old(buf)@,
                self.inbounds@.len() > 0 ==> !(self.inbounds@[0] is Other),
                leading_others(q0) > 0 ==> self.head_cursor == 0,
            decreases self.inbounds@.len(),
        {
            let is_other = self.inbounds.len() > 0 && match &self.inbounds[0] {
                Frame::Other => true,
                _ => false,
            };
            if !is_other {
                proof {
                    lemma_leading_others(q0, skipped);
                }
                break;
            }
            let ghost before = self.inbounds@;
            self.inbounds.remove(0);
            proof {
                assert(q0[skipped] == before[0]);
                assert(self.inbounds@ =~= q0.skip(skipped + 1));
                if old(self).inbounds@.len() > 0 && skipped == 0 {
                    assert(!(q0[0] is Binary));
                }
                skipped = skipped + 1;
            }
        }
        if self.inbounds.len() == 0 {
            return ReadPoll::NeedFrame;
        }
        let cursor = self.head_cursor;
        let (n, done) = match &self.inbounds[0] {
            Frame::Binary(head) => {
                proof {
                    if leading_others(q0) == 0 {
                        assert(self.inbounds@ =~= q0);
                    }
                }
                let hl = head.len();
                let remaining = hl - cursor;
                let n = if remaining <= buf.len() {
                    remaining
                } else {
                    buf.len()
                };
                let mut i: usize = 0;
                while i < n
                    invariant
                        i <= n,
                        n <= remaining,
                        remaining == head@.len() - cursor,
                        hl == head@.len(),
                        cursor <= head@.len(),
                        n <= buf@.len(),
                        buf@.len() == old(buf)@.len(),
                        forall|j: int| 0 <= j < i ==> buf@[j] == head@[cursor + j],
                        forall|j: int| i <= j < buf@.len() ==> buf@[j] == old(buf)@[j],
                    decreases n - i,
                {
                    buf[i] = head[cursor + i];
                    i = i + 1;
                }
                proof {
                    assert(buf@ =~= head@.subrange(cursor as int, cursor + n) + old(buf)@.skip(n as int));
                }
                (n, cursor + n == hl)
            },
            _ => {
                proof {
                    assert(buf@ =~= Seq::<u8>::empty() + old(buf)@.skip(0));
                }
                return ReadPoll::Ready(0);
            },
        };
        if done {
            self.inbounds.remove(0);
            self.head_cursor = 0;
        } else {
            self.head_cursor = cursor + n;
        }
        ReadPoll::Ready(n)
    }
}

/// Where the loop over the queue stops: after the leading messages that are neither
/// binary nor a close.
proof fn lemma_leading_others(q: Seq<Frame>, k: int)
    requires
        0 <= k <= q.len(),
        forall|j: int| 0 <= j < k ==> (#[trigger] q[j]) is Other,
        k == q.len() || !(q[k] is Other),
    ensures
        leading_others(q) == k,
    decreases k,
{
    if k > 0 {
        assert forall|j: int| 0 <= j < k - 1 implies (#[trigger] q.drop_first()[j]) is Other by {
            assert(q.drop_first()[j] == q[j + 1]);
        }
        if k < q.len() {
            assert(q.drop_first()[k - 1] == q[k]);
        }
        lemma_leading_others(q.drop_first(), k - 1);
    } else if q.len() > 0 {
        assert(!(q[0] is Other));
    }
}

} // verus!
