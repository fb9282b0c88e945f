//! The scheduler: one consumer that owns the ready queue and the delayed set,
//! fed by any number of producers over a channel.
use vstd::prelude::*;
use tokio::sync::mpsc::{UnboundedReceiver, UnboundedSender};
use crate::channel::{buffered, channel, channel_send, try_receive, PollUpdate};
use crate::delays::{is_earliest, Delays};
use crate::expired::ExpiredQueue;
use crate::handle::{AddrPair, Clock, PollAt};
use crate::model::{
    after_all, after_insert, after_remove, after_send, empty_view, holds, lemma_insert_wf,
    lemma_remove_wf, sched_wf, update_for, SchedView,
};

verus! {

/// What the driver loop is to do next.
#[derive(Clone, Copy, Debug, PartialEq, Eq, Structural)]
pub enum Step {
    /// Poll this connection now.
    Dispatch(AddrPair),
    /// Nothing is due yet: wait until this scheduler instant, or until an
    /// update arrives, whichever comes first.
    WaitUntil(u64),
    /// Nothing is pending that may be dispatched: wait for an update.
    WaitForUpdate,
}

/// The update that `poll_at` stands for, for `socket`; `None` for no change.
pub fn update_for_instruction(clock: &Clock, socket: AddrPair, poll_at: PollAt) -> (r: Option<
    PollUpdate,
>)
    ensures
        match update_for(*clock, poll_at) {
            Some(t) => r == Some((socket, t)),
            None => r is None,
        },
{
    match poll_at {
        PollAt::Now => Some((socket, None)),
        PollAt::Time(millis) => Some((socket, Some(clock.resolve(millis)))),
        PollAt::Ingress => None,
    }
}

/// A producer's handle: sends updated polling times to the scheduler.
///
/// The scheduler must outlive every producer that still sends: a send to a
/// closed scheduler is a broken invariant of the stack, not a recoverable
/// condition, and `send` reports it so that the caller can stop.
#[derive(Clone, Debug)]
pub struct QueueUpdater {
    clock: Clock,
    sender: UnboundedSender<PollUpdate>,
}

impl QueueUpdater {
    pub closed spec fn clock(&self) -> Clock {
        self.clock
    }

    /// Sends the update that `poll_at` stands for. `Ingress` sends nothing and
    /// succeeds. The error holds the update that could not be delivered
    /// because the scheduler is gone.
    pub fn send(&mut self, socket: AddrPair, poll_at: PollAt) -> (r: Result<(), PollUpdate>)
        ensures
            final(self).clock() == old(self).clock(),
            match update_for(old(self).clock(), poll_at) {
                Some(t) => r matches Err(m) ==> m == (socket, t),
                None => r is Ok,
            },
    {
        match update_for_instruction(&self.clock, socket, poll_at) {
            Some(update) => channel_send(&self.sender, update),
            None => Ok(()),
        }
    }
}

/// The single consumer of scheduling updates.
///
/// Its view holds the connections that are ready now, in the order they
/// became ready, and the deadline of each delayed connection. Ready
/// connections are always dispatched before delayed ones.
pub struct DispatchQueue {
    clock: Clock,
    delayed: Delays,
    expired: ExpiredQueue,
    /// The receiving end of the updates that producers send. A driver loop
    /// waits on it while nothing can be dispatched.
    pub receiver: UnboundedReceiver<PollUpdate>,
}

impl View for DispatchQueue {
    type V = SchedView;

    closed spec fn view(&self) -> SchedView {
        SchedView { ready: self.expired@, delayed: self.delayed@ }
    }
}

impl DispatchQueue {
    pub closed spec fn wf(&self) -> bool {
        &&& self.delayed.wf()
        &&& self.expired.wf()
        &&& sched_wf(self@)
    }

    pub closed spec fn clock(&self) -> Clock {
        self.clock
    }

    /// A scheduler with nothing pending, and the first producer handle that
    /// feeds it; both use `clock`.
    pub fn new(clock: Clock) -> (r: (DispatchQueue, QueueUpdater))
        ensures
            r.0.wf(),
            r.0@ == empty_view(),
            r.0.clock() == clock,
            r.1.clock() == clock,
    {
        let (sender, receiver) = channel();
        let queue = DispatchQueue {
            clock,
            delayed: Delays::new(),
            expired: ExpiredQueue::new(),
            receiver,
        };
        let updater = QueueUpdater { clock, sender };
        proof {
            assert(queue@.ready == Seq::<AddrPair>::empty());
            assert(queue@.delayed == Map::<AddrPair, u64>::empty());
        }
        (queue, updater)
    }

    /// Applies the instruction `poll_at` for `socket` at once, bypassing the
    /// channel.
    pub fn send(&mut self, socket: AddrPair, poll_at: PollAt)
        requires
            old(self).wf(),
        ensures
            final(self).wf(),
            final(self).clock() == old(self).clock(),
            final(self)@ == after_send(old(self)@, old(self).clock(), socket, poll_at),
    {
        match update_for_instruction(&self.clock, socket, poll_at) {
            Some(update) => self.insert(update.0, update.1),
            None => {},
        }
    }

    /// Applies one update: `None` makes `socket` ready now, `Some(t)`
    /// (re)schedules it at `t`. Either way any other pending poll of it goes.
    pub fn insert(&mut self, socket: AddrPair, time: Option<u64>)
        requires
            old(self).wf(),
        ensures
            final(self).wf(),
            final(self).clock() == old(self).clock(),
            final(self)@ == after_insert(old(self)@, socket, time),
    {
        proof {
            lemma_insert_wf(self@, socket, time);
        }
        match time {
            Some(t) => {
                self.expired.remove(&socket);
                self.delayed.insert(socket, t);
            },
            None => {
                self.delayed.remove(&socket);
                self.expired.push(socket);
            },
        }
    }

    /// Applies the updates that are buffered in the channel now, in the order
    /// they were sent, without waiting for more.
    pub fn receive_poll_times(&mut self)
        requires
            old(self).wf(),
        ensures
            final(self).wf(),
            final(self).clock() == old(self).clock(),
            exists|us: Seq<PollUpdate>| final(self)@ == after_all(old(self)@, us),
    {
        let n = buffered(&self.receiver);
        let mut i: usize = 0;
        let ghost mut us: Seq<PollUpdate> = Seq::empty();
        while i < n
            invariant
                self.wf(),
                self.clock() == old(self).clock(),
                self@ == after_all(old(self)@, us),
                i <= n,
            decreases n - i,
        {
            match try_receive(&mut self.receiver) {
                Some(update) => {
                    self.insert(update.0, update.1);
                    proof {
                        let us2 = us.push(update);
                        assert(us2.drop_last() =~= us);
                        us = us2;
                    }
                },
                None => {
                    break ;
                },
            }
            i = i + 1;
        }
        proof {
            assert(self@ == after_all(old(self)@, us));
        }
    }

    /// Decides what the driver loop does next, at scheduler instant `now`.
    ///
    /// With `get_dispatch` false nothing is dispatched and nothing changes.
    /// Otherwise the front of the ready queue goes first; only when no
    /// connection is ready does a delayed one with the earliest deadline go,
    /// once that deadline is not after `now`.
    pub fn poll_next(&mut self, get_dispatch: bool, now: u64) -> (r: Step)
        requires
            old(self).wf(),
        ensures
            final(self).wf(),
            final(self).clock() == old(self).clock(),
            r matches Step::Dispatch(h) ==> holds(old(self)@, h) && !holds(final(self)@, h),
            r matches Step::Dispatch(h) && old(self)@.delayed.contains_key(h) ==> old(
                self,
            )@.ready.len() == 0,
            !get_dispatch ==> r == Step::WaitForUpdate && final(self)@ == old(self)@,
            get_dispatch && old(self)@.ready.len() > 0 ==> {
                &&& r == Step::Dispatch(old(self)@.ready[0])
                &&& final(self)@ == SchedView {
                    ready: old(self)@.ready.drop_first(),
                    delayed: old(self)@.delayed,
                }
            },
            get_dispatch && old(self)@.ready.len() == 0 && old(self)@.delayed.len() == 0 ==> r
                == Step::WaitForUpdate && final(self)@ == old(self)@,
            get_dispatch && old(self)@.ready.len() == 0 && old(self)@.delayed.len() > 0 ==> match r {
                Step::Dispatch(h) => {
                    &&& old(self)@.delayed.contains_key(h)
                    &&& is_earliest(old(self)@.delayed, old(self)@.delayed[h])
                    &&& old(self)@.delayed[h] <= now
                    &&& final(self)@ == SchedView {
                        ready: old(self)@.ready,
                        delayed: old(self)@.delayed.remove(h),
                    }
                },
                Step::WaitUntil(d) => {
                    &&& is_earliest(old(self)@.delayed, d)
                    &&& now < d
                    &&& final(self)@ == old(self)@
                },
                Step::WaitForUpdate => false,
            },
    {
        if !get_dispatch {
            return Step::WaitForUpdate;
        }
        match self.expired.pop() {
            Some(ready) => {
                proof {
                    let s = old(self)@.ready;
                    assert(s.drop_first().no_duplicates());
                    assert forall|j: int| 0 <= j < s.drop_first().len() implies s.drop_first()[j]
                        != ready by {
                        assert(s.drop_first()[j] == s[j + 1]);
                    }
                    assert(!self@.ready.contains(ready));
                    assert(s.contains(ready));
                    assert(!self@.delayed.contains_key(ready));
                    assert forall|h: AddrPair| self@.ready.contains(h) implies !#[trigger] self@.delayed.contains_key(h) by {
                        let k = choose|k: int| 0 <= k < self@.ready.len() && self@.ready[k] == h;
                        assert(s[k + 1] == h);
                    }
                }
                return Step::Dispatch(ready);
            },
            None => {},
        }
        match self.delayed.next(now) {
            Some(s) => {
                proof {
                    assert(self@.delayed =~= old(self)@.delayed.remove(s));
                }
                Step::Dispatch(s)
            },
            None => {
                match self.delayed.next_deadline() {
                    Some(d) => Step::WaitUntil(d),
                    None => Step::WaitForUpdate,
                }
            },
        }
    }

    /// Cancels every pending poll of `socket`: it will not be dispatched until
    /// a new instruction brings it back.
    pub fn remove(&mut self, socket: &AddrPair)
        requires
            old(self).wf(),
        ensures
            final(self).wf(),
            final(self).clock() == old(self).clock(),
            final(self)@ == after_remove(old(self)@, *socket),
            !holds(final(self)@, *socket),
    {
        proof {
            lemma_remove_wf(self@, *socket);
        }
        self.expired.remove(socket);
        self.delayed.remove(socket);
    }

    /// Whether `socket` has a pending poll, delayed or ready.
    pub fn contains(&self, socket: &AddrPair) -> (r: bool)
        requires
            self.wf(),
        ensures
            r == holds(self@, *socket),
    {
        self.expired.contains(socket) || self.delayed.contains_key(socket)
    }
}

} // verus!
