//! The abstract scheduling state and how each instruction changes it, with
//! the laws that hold of those changes.
use vstd::prelude::*;
use crate::channel::PollUpdate;
use crate::expired::{lemma_seq_without, seq_without};
use crate::handle::{AddrPair, Clock, PollAt};

verus! {

/// What the scheduler holds: the connections ready now, front first, and the
/// deadline of each delayed connection.
pub struct SchedView {
    pub ready: Seq<AddrPair>,
    pub delayed: Map<AddrPair, u64>,
}

/// Each connection is ready at most once, and never both ready and delayed.
pub open spec fn sched_wf(v: SchedView) -> bool {
    &&& v.ready.no_duplicates()
    &&& v.delayed.dom().finite()
    &&& forall|h: AddrPair| v.ready.contains(h) ==> !#[trigger] v.delayed.contains_key(h)
}

pub open spec fn empty_view() -> SchedView {
    SchedView { ready: Seq::empty(), delayed: Map::empty() }
}

/// The scheduler has some pending poll for `h`.
pub open spec fn holds(v: SchedView, h: AddrPair) -> bool {
    v.ready.contains(h) || v.delayed.contains_key(h)
}

/// The update that an instruction stands for: `None` for no change, else the
/// instant it asks for (`None` for at once).
pub open spec fn update_for(clock: Clock, poll_at: PollAt) -> Option<Option<u64>> {
    match poll_at {
        PollAt::Now => Some(None),
        PollAt::Time(t) => Some(Some(clock.spec_resolve(t))),
        PollAt::Ingress => None,
    }
}

/// Applying one update: "at once" leaves the delayed set and joins the back of
/// the ready queue unless already there; "at `t`" leaves the ready queue and
/// is (re)scheduled at `t`.
pub open spec fn after_insert(v: SchedView, h: AddrPair, time: Option<u64>) -> SchedView {
    match time {
        None => SchedView {
            ready: if v.ready.contains(h) {
                v.ready
            } else {
                v.ready.push(h)
            },
            delayed: v.delayed.remove(h),
        },
        Some(t) => SchedView { ready: seq_without(v.ready, h), delayed: v.delayed.insert(h, t) },
    }
}

/// Applying the updates `us` in order.
pub open spec fn after_all(v: SchedView, us: Seq<PollUpdate>) -> SchedView
    decreases us.len(),
{
    if us.len() == 0 {
        v
    } else {
        after_insert(after_all(v, us.drop_last()), us.last().0, us.last().1)
    }
}

/// Applying one instruction of the protocol engine.
pub open spec fn after_send(v: SchedView, clock: Clock, h: AddrPair, poll_at: PollAt) -> SchedView {
    match update_for(clock, poll_at) {
        Some(t) => after_insert(v, h, t),
        None => v,
    }
}

/// Cancelling every pending poll of `h`.
pub open spec fn after_remove(v: SchedView, h: AddrPair) -> SchedView {
    SchedView { ready: seq_without(v.ready, h), delayed: v.delayed.remove(h) }
}

/// Every update keeps the scheduling state well formed, and afterwards the
/// scheduler holds the connection it was about.
pub proof fn lemma_insert_wf(v: SchedView, h: AddrPair, time: Option<u64>)
    requires
        sched_wf(v),
    ensures
        sched_wf(after_insert(v, h, time)),
        holds(after_insert(v, h, time), h),
        forall|g: AddrPair| g != h ==> (holds(after_insert(v, h, time), g) <==> holds(v, g)),
{
    lemma_seq_without(v.ready, h);
    let r = after_insert(v, h, time);
    match time {
        None => {
            assert(r.ready.contains(h)) by {
                if !v.ready.contains(h) {
                    assert(r.ready[v.ready.len() as int] == h);
                }
            }
            assert forall|g: AddrPair| g != h implies (r.ready.contains(g) <==> v.ready.contains(g)) by {
                if !v.ready.contains(h) && r.ready.contains(g) {
                    let k = choose|k: int| 0 <= k < r.ready.len() && r.ready[k] == g;
                    assert(v.ready[k] == g);
                }
                if v.ready.contains(g) {
                    let k = choose|k: int| 0 <= k < v.ready.len() && v.ready[k] == g;
                    assert(r.ready[k] == g);
                }
            }
        },
        Some(t) => {},
    }
}

/// Every cancellation keeps the scheduling state well formed and leaves
/// nothing pending for the cancelled connection; the others keep theirs.
pub proof fn lemma_remove_wf(v: SchedView, h: AddrPair)
    requires
        sched_wf(v),
    ensures
        sched_wf(after_remove(v, h)),
        !holds(after_remove(v, h), h),
        forall|g: AddrPair| g != h ==> (holds(after_remove(v, h), g) <==> holds(v, g)),
{
    lemma_seq_without(v.ready, h);
}

/// Rescheduling a delayed connection keeps a single entry for it: two timed
/// instructions in a row leave exactly what the second alone leaves, the
/// connection is held after each, and its deadline is the latest one asked.
pub proof fn lemma_reschedule_single_entry(v: SchedView, clock: Clock, h: AddrPair, a: u64, b: u64)
    requires
        sched_wf(v),
    ensures
        after_send(after_send(v, clock, h, PollAt::Time(a)), clock, h, PollAt::Time(b))
            == after_send(v, clock, h, PollAt::Time(b)),
        holds(after_send(v, clock, h, PollAt::Time(a)), h),
        holds(after_send(after_send(v, clock, h, PollAt::Time(a)), clock, h, PollAt::Time(b)), h),
        after_send(after_send(v, clock, h, PollAt::Time(a)), clock, h, PollAt::Time(b)).delayed[h]
            == clock.spec_resolve(b),
        !after_send(after_send(v, clock, h, PollAt::Time(a)), clock, h, PollAt::Time(b)).ready.contains(h),
{
    lemma_seq_without(v.ready, h);
    let once = after_send(v, clock, h, PollAt::Time(a));
    let twice = after_send(once, clock, h, PollAt::Time(b));
    let direct = after_send(v, clock, h, PollAt::Time(b));
    assert(twice.ready == direct.ready);
    assert(twice.delayed =~= direct.delayed);
}

/// Marking a connection ready twice before it is dispatched changes nothing
/// the second time, and a connection that is ready already keeps its place in
/// the queue.
pub proof fn lemma_ready_push_idempotent(v: SchedView, clock: Clock, h: AddrPair)
    requires
        sched_wf(v),
    ensures
        after_send(after_send(v, clock, h, PollAt::Now), clock, h, PollAt::Now) == after_send(
            v,
            clock,
            h,
            PollAt::Now,
        ),
        v.ready.contains(h) ==> after_send(v, clock, h, PollAt::Now) == v,
{
    lemma_insert_wf(v, h, None);
    let once = after_send(v, clock, h, PollAt::Now);
    let twice = after_send(once, clock, h, PollAt::Now);
    assert(twice.delayed =~= once.delayed);
    if v.ready.contains(h) {
        assert(!v.delayed.contains_key(h));
        assert(once.delayed =~= v.delayed);
    }
}

/// After a cancellation the scheduler holds nothing for the connection, and
/// updates and cancellations of other connections do not bring it back.
pub proof fn lemma_removed_stays_out(v: SchedView, h: AddrPair, g: AddrPair, time: Option<u64>)
    requires
        sched_wf(v),
        g != h,
    ensures
        !holds(after_remove(v, h), h),
        !holds(after_insert(after_remove(v, h), g, time), h),
        !holds(after_remove(after_remove(v, h), g), h),
{
    lemma_remove_wf(v, h);
    lemma_insert_wf(after_remove(v, h), g, time);
    lemma_remove_wf(after_remove(v, h), g);
}

} // verus!
