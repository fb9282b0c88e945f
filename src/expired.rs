//! The queue of connections that are ready to be polled with no delay.
use vstd::prelude::*;
use std::collections::VecDeque;
use crate::handle::AddrPair;

verus! {

/// `s` with the entry equal to `h` taken out, if there is one; where `s` holds
/// no duplicates that entry is unique and the others keep their order.
pub open spec fn seq_without(s: Seq<AddrPair>, h: AddrPair) -> Seq<AddrPair> {
    if s.contains(h) {
        s.remove(choose|i: int| 0 <= i < s.len() && s[i] == h)
    } else {
        s
    }
}

/// Taking `h` out of a duplicate-free sequence leaves no `h` and no duplicate,
/// and takes out nothing else.
pub proof fn lemma_seq_without(s: Seq<AddrPair>, h: AddrPair)
    requires
        s.no_duplicates(),
    ensures
        seq_without(s, h).no_duplicates(),
        !seq_without(s, h).contains(h),
        forall|x: AddrPair| x != h ==> (seq_without(s, h).contains(x) <==> s.contains(x)),
{
    if s.contains(h) {
        let i = choose|i: int| 0 <= i < s.len() && s[i] == h;
        let r = s.remove(i);
        assert forall|a: int, b: int| 0 <= a < r.len() && 0 <= b < r.len() && a != b implies r[a]
            != r[b] by {
            let a2 = if a < i { a } else { a + 1 };
            let b2 = if b < i { b } else { b + 1 };
            assert(r[a] == s[a2] && r[b] == s[b2]);
        }
        assert forall|j: int| 0 <= j < r.len() implies r[j] != h by {
            let j2 = if j < i { j } else { j + 1 };
            assert(r[j] == s[j2]);
        }
        assert forall|x: AddrPair| x != h implies (r.contains(x) <==> s.contains(x)) by {
            if s.contains(x) {
                let k = choose|k: int| 0 <= k < s.len() && s[k] == x;
                let k2 = if k < i { k } else { k - 1 };
                assert(r[k2] == x);
            }
            if r.contains(x) {
                let k = choose|k: int| 0 <= k < r.len() && r[k] == x;
                let k2 = if k < i { k } else { k + 1 };
                assert(s[k2] == x);
            }
        }
    }
}

/// A deduplicated FIFO of connection handles.
///
/// Its view is the sequence of handles from front to back; a well-formed
/// queue holds each handle at most once.
pub struct ExpiredQueue {
    /// Connections that likely have something to send immediately.
    dispatch_queue: VecDeque<AddrPair>,
}

impl View for ExpiredQueue {
    type V = Seq<AddrPair>;

    closed spec fn view(&self) -> Seq<AddrPair> {
        self.dispatch_queue@
    }
}

impl ExpiredQueue {
    pub open spec fn wf(&self) -> bool {
        self@.no_duplicates()
    }

    pub fn new() -> (r: ExpiredQueue)
        ensures
            r.wf(),
            r@ == Seq::<AddrPair>::empty(),
    {
        ExpiredQueue { dispatch_queue: VecDeque::new() }
    }

    /// The position of `socket` in the queue, if it is there.
    fn position(&self, socket: &AddrPair) -> (r: Option<usize>)
        ensures
            match r {
                Some(i) => i < self@.len() && self@[i as int] == *socket,
                None => !self@.contains(*socket),
            },
    {
        let n = self.dispatch_queue.len();
        let mut i: usize = 0;
        while i < n
            invariant
                n == self@.len(),
                i <= n,
                forall|j: int| 0 <= j < i ==> self@[j] != *socket,
            decreases n - i,
        {
            if self.dispatch_queue[i] == *socket {
                return Some(i);
            }
            i = i + 1;
        }
        None
    }

    pub fn contains(&self, socket: &AddrPair) -> (r: bool)
        ensures
            r == self@.contains(*socket),
    {
        self.position(socket).is_some()
    }

    /// Appends `addr` at the back, unless it is queued already: a repeated
    /// push keeps the position of the first.
    pub fn push(&mut self, addr: AddrPair)
        requires
            old(self).wf(),
        ensures
            final(self).wf(),
            final(self)@ == if old(self)@.contains(addr) {
                old(self)@
            } else {
                old(self)@.push(addr)
            },
    {
        if !self.contains(&addr) {
            self.dispatch_queue.push_back(addr);
        }
    }

    /// Takes the front entry out and returns it; `None` when the queue is
    /// empty.
    pub fn pop(&mut self) -> (r: Option<AddrPair>)
        requires
            old(self).wf(),
        ensures
            final(self).wf(),
            match r {
                Some(x) => old(self)@.len() > 0 && x == old(self)@[0] && final(self)@ == old(
                    self,
                )@.drop_first(),
                None => old(self)@.len() == 0 && final(self)@ == old(self)@,
            },
    {
        let r = self.dispatch_queue.pop_front();
        assert(self@.len() > 0 ==> self@ =~= old(self)@.drop_first());
        r
    }

    /// Takes `socket` out of the queue if it is there; the others keep their
    /// order.
    pub fn remove(&mut self, socket: &AddrPair)
        requires
            old(self).wf(),
        ensures
            final(self).wf(),
            final(self)@ == seq_without(old(self)@, *socket),
    {
        proof {
            lemma_seq_without(self@, *socket);
        }
        match self.position(socket) {
            Some(i) => {
                let _ = self.dispatch_queue.remove(i);
                proof {
                    let s = old(self)@;
                    let c = choose|k: int| 0 <= k < s.len() && s[k] == *socket;
                    assert(c == i);
                }
            },
            None => {},
        }
    }
}

} // verus!
