//! Connections waiting to be polled at a later instant.
use vstd::prelude::*;
use crate::handle::AddrPair;

verus! {

/// A pending poll: a connection and the scheduler instant it is due at.
#[derive(Clone, Copy, Debug, PartialEq, Eq, Structural)]
pub struct Entry {
    pub socket: AddrPair,
    pub deadline: u64,
}

/// A deadline-ordered set of pending polls, at most one per connection.
///
/// Its view maps each waiting connection to its deadline. Among entries with
/// equal deadlines the one scheduled first leaves first.
pub struct Delays {
    entries: Vec<Entry>,
    deadlines: Ghost<Map<AddrPair, u64>>,
}

impl View for Delays {
    type V = Map<AddrPair, u64>;

    closed spec fn view(&self) -> Map<AddrPair, u64> {
        self.deadlines@
    }
}

impl Delays {
    /// The entries and the map agree, and no connection has two entries.
    pub closed spec fn wf(&self) -> bool {
        &&& self.deadlines@.dom().finite()
        &&& forall|i: int, j: int|
            0 <= i < self.entries@.len() && 0 <= j < self.entries@.len() && i != j
                ==> self.entries@[i].socket != self.entries@[j].socket
        &&& forall|i: int|
            0 <= i < self.entries@.len() ==> {
                &&& self.deadlines@.contains_key(#[trigger] self.entries@[i].socket)
                &&& self.deadlines@[self.entries@[i].socket] == self.entries@[i].deadline
            }
        &&& forall|s: AddrPair|
            #[trigger] self.deadlines@.contains_key(s) ==> exists|i: int|
                0 <= i < self.entries@.len() && self.entries@[i].socket == s
    }

    pub fn new() -> (r: Delays)
        ensures
            r.wf(),
            r@ == Map::<AddrPair, u64>::empty(),
    {
        Delays { entries: Vec::new(), deadlines: Ghost(Map::empty()) }
    }

    pub fn is_empty(&self) -> (r: bool)
        requires
            self.wf(),
        ensures
            r == (self@.len() == 0),
    {
        proof {
            self.lemma_len();
        }
        self.entries.len() == 0
    }

    proof fn lemma_len(&self)
        requires
            self.wf(),
        ensures
            self@.dom().finite(),
            self@.len() == 0 <==> self.entries@.len() == 0,
    {
        let m = self.deadlines@;
        let e = self.entries@;
        if e.len() == 0 {
            assert(m.dom() =~= Set::empty());
        } else {
            assert(m.dom().contains(e[0].socket));
            assert(m.dom().remove(e[0].socket).len() + 1 == m.dom().len());
        }
    }

    /// The index of the entry of `socket`, if it has one.
    fn position(&self, socket: &AddrPair) -> (r: Option<usize>)
        requires
            self.wf(),
        ensures
            match r {
                Some(i) => i < self.entries@.len() && self.entries@[i as int].socket == *socket,
                None => !self@.contains_key(*socket),
            },
    {
        let n = self.entries.len();
        let mut i: usize = 0;
        while i < n
            invariant
                n == self.entries@.len(),
                i <= n,
                forall|j: int| 0 <= j < i ==> self.entries@[j].socket != *socket,
            decreases n - i,
        {
            if self.entries[i].socket == *socket {
                return Some(i);
            }
            i = i + 1;
        }
        None
    }

    pub fn contains_key(&self, socket: &AddrPair) -> (r: bool)
        requires
            self.wf(),
        ensures
            r == self@.contains_key(*socket),
    {
        self.position(socket).is_some()
    }

    /// Schedules `socket` at `instant`. A connection that is waiting already
    /// is rescheduled in place: it never gets a second entry.
    pub fn insert(&mut self, socket: AddrPair, instant: u64)
        requires
            old(self).wf(),
        ensures
            final(self).wf(),
            final(self)@ == old(self)@.insert(socket, instant),
    {
        let entry = Entry { socket, deadline: instant };
        match self.position(&socket) {
            Some(i) => {
                self.entries.set(i, entry);
            },
            None => {
                self.entries.push(entry);
            },
        }
        self.deadlines = Ghost(self.deadlines@.insert(socket, instant));
        proof {
            let e = self.entries@;
            let oe = old(self).entries@;
            assert forall|s: AddrPair| #[trigger] self.deadlines@.contains_key(s) implies exists|
                i: int,
            | 0 <= i < e.len() && e[i].socket == s by {
                if s == socket {
                    if oe.len() < e.len() {
                        assert(e[e.len() - 1].socket == s);
                    } else {
                        let k = choose|k: int| 0 <= k < oe.len() && oe[k].socket == socket;
                        assert(e[k].socket == s);
                    }
                } else {
                    let k = choose|k: int| 0 <= k < oe.len() && oe[k].socket == s;
                    assert(e[k].socket == s);
                }
            }
        }
    }

    /// Takes the entry of `socket` out, if it has one.
    pub fn remove(&mut self, socket: &AddrPair)
        requires
            old(self).wf(),
        ensures
            final(self).wf(),
            final(self)@ == old(self)@.remove(*socket),
    {
        match self.position(socket) {
            Some(i) => {
                self.remove_at(i);
            },
            None => {
                proof {
                    assert(self.deadlines@ =~= old(self).deadlines@.remove(*socket));
                }
            },
        }
    }

    fn remove_at(&mut self, i: usize) -> (r: Entry)
        requires
            old(self).wf(),
            i < old(self).entries@.len(),
        ensures
            final(self).wf(),
            r == old(self).entries@[i as int],
            old(self)@.contains_key(r.socket),
            old(self)@[r.socket] == r.deadline,
            final(self)@ == old(self)@.remove(r.socket),
    {
        let r = self.entries.remove(i);
        self.deadlines = Ghost(self.deadlines@.remove(r.socket));
        proof {
            let e = self.entries@;
            let oe = old(self).entries@;
            assert(oe[i as int] == r);
            assert forall|a: int, b: int|
                0 <= a < e.len() && 0 <= b < e.len() && a != b implies e[a].socket
                != e[b].socket by {
                let a2 = if a < i { a } else { a + 1 };
                let b2 = if b < i { b } else { b + 1 };
                assert(e[a] == oe[a2] && e[b] == oe[b2]);
            }
            assert forall|j: int| 0 <= j < e.len() implies {
                &&& self.deadlines@.contains_key(#[trigger] e[j].socket)
                &&& self.deadlines@[e[j].socket] == e[j].deadline
            } by {
                let j2 = if j < i { j } else { j + 1 };
                assert(e[j] == oe[j2]);
                assert(oe[j2].socket != oe[i as int].socket);
            }
            assert forall|s: AddrPair| #[trigger] self.deadlines@.contains_key(s) implies exists|
                j: int,
            | 0 <= j < e.len() && e[j].socket == s by {
                let k = choose|k: int| 0 <= k < oe.len() && oe[k].socket == s;
                assert(k != i);
                let k2 = if k < i { k } else { k - 1 };
                assert(e[k2].socket == s);
            }
        }
        r
    }

    /// The index of an entry with the earliest deadline; the first such one.
    fn earliest(&self) -> (r: usize)
        requires
            self.wf(),
            self.entries@.len() > 0,
        ensures
            r < self.entries@.len(),
            forall|j: int|
                0 <= j < self.entries@.len() ==> self.entries@[r as int].deadline
                    <= self.entries@[j].deadline,
    {
        let n = self.entries.len();
        let mut best: usize = 0;
        let mut i: usize = 1;
        while i < n
            invariant
                n == self.entries@.len(),
                1 <= i <= n,
                best < i,
                forall|j: int| 0 <= j < i ==> self.entries@[best as int].deadline <= self.entries@[j].deadline,
            decreases n - i,
        {
            if self.entries[i].deadline < self.entries[best].deadline {
                best = i;
            }
            i = i + 1;
        }
        best
    }

    /// The earliest deadline that a connection waits for; `None` when none
    /// waits.
    pub fn next_deadline(&self) -> (r: Option<u64>)
        requires
            self.wf(),
        ensures
            match r {
                Some(d) => is_earliest(self@, d),
                None => self@.len() == 0,
            },
    {
        proof {
            self.lemma_len();
        }
        if self.entries.len() == 0 {
            None
        } else {
            let i = self.earliest();
            proof {
                self.lemma_earliest(i as int);
            }
            Some(self.entries[i].deadline)
        }
    }

    proof fn lemma_earliest(&self, i: int)
        requires
            self.wf(),
            0 <= i < self.entries@.len(),
            forall|j: int|
                0 <= j < self.entries@.len() ==> self.entries@[i].deadline
                    <= self.entries@[j].deadline,
        ensures
            is_earliest(self@, self.entries@[i].deadline),
            self@.contains_key(self.entries@[i].socket),
    {
        let e = self.entries@;
        assert(self@.contains_key(e[i].socket));
        assert forall|s: AddrPair| #[trigger] self@.contains_key(s) implies e[i].deadline
            <= self@[s] by {
            let k = choose|k: int| 0 <= k < e.len() && e[k].socket == s;
        }
    }

    /// Takes out and returns a connection with the earliest deadline, if that
    /// deadline is not after `now`; otherwise nothing changes.
    pub fn next(&mut self, now: u64) -> (r: Option<AddrPair>)
        requires
            old(self).wf(),
        ensures
            final(self).wf(),
            match r {
                Some(s) => {
                    &&& old(self)@.contains_key(s)
                    &&& is_earliest(old(self)@, old(self)@[s])
                    &&& old(self)@[s] <= now
                    &&& final(self)@ == old(self)@.remove(s)
                },
                None => {
                    &&& final(self)@ == old(self)@
                    &&& forall|s: AddrPair| #[trigger] old(self)@.contains_key(s) ==> now < old(self)@[s]
                },
            },
    {
        proof {
            self.lemma_len();
        }
        if self.entries.len() == 0 {
            return None;
        }
        let i = self.earliest();
        proof {
            self.lemma_earliest(i as int);
        }
        if self.entries[i].deadline <= now {
            let e = self.remove_at(i);
            Some(e.socket)
        } else {
            None
        }
    }
}

/// `d` is the deadline of some entry of `m` and no entry of `m` is due
/// earlier.
pub open spec fn is_earliest(m: Map<AddrPair, u64>, d: u64) -> bool {
    &&& exists|s: AddrPair| #[trigger] m.contains_key(s) && m[s] == d
    &&& forall|s: AddrPair| #[trigger] m.contains_key(s) ==> d <= m[s]
}

} // verus!
