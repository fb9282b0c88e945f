use ustunet::{AddrPair, Clock, Delays, DispatchQueue, Endpoint, ExpiredQueue, PollAt, Step};
use ustunet::dispatch::update_for_instruction;

fn conn(port: u16) -> AddrPair {
    AddrPair {
        local: Endpoint { ip: 0xffff_0a00_0001, port: 80 },
        peer: Endpoint { ip: 0xffff_0a00_0002, port },
    }
}

#[test]
fn clock_resolves_from_origin() {
    let clock = Clock::new(1000);
    assert_eq!(clock.resolve(0), 1000);
    assert_eq!(clock.resolve(250), 1250);
    assert_eq!(clock.resolve(u64::MAX), u64::MAX);
}

#[test]
fn instruction_translation() {
    let clock = Clock::new(5);
    let a = conn(1);
    assert_eq!(update_for_instruction(&clock, a, PollAt::Now), Some((a, None)));
    assert_eq!(update_for_instruction(&clock, a, PollAt::Time(10)), Some((a, Some(15))));
    assert_eq!(update_for_instruction(&clock, a, PollAt::Ingress), None);
}

#[test]
fn expired_queue_is_fifo_and_deduplicated() {
    let mut q = ExpiredQueue::new();
    assert_eq!(q.pop(), None);
    q.push(conn(1));
    q.push(conn(2));
    q.push(conn(1));
    q.push(conn(3));
    assert!(q.contains(&conn(2)));
    assert_eq!(q.pop(), Some(conn(1)));
    assert!(!q.contains(&conn(1)));
    assert_eq!(q.pop(), Some(conn(2)));
    assert_eq!(q.pop(), Some(conn(3)));
    assert_eq!(q.pop(), None);
}

#[test]
fn expired_queue_remove_keeps_order() {
    let mut q = ExpiredQueue::new();
    q.push(conn(1));
    q.push(conn(2));
    q.push(conn(3));
    q.remove(&conn(2));
    q.remove(&conn(9));
    assert!(!q.contains(&conn(2)));
    assert_eq!(q.pop(), Some(conn(1)));
    assert_eq!(q.pop(), Some(conn(3)));
    assert_eq!(q.pop(), None);
}

#[test]
fn delays_reschedule_in_place() {
    let mut d = Delays::new();
    assert!(d.is_empty());
    assert_eq!(d.next_deadline(), None);
    d.insert(conn(1), 10);
    d.insert(conn(2), 20);
    d.insert(conn(1), 30);
    assert!(d.contains_key(&conn(1)));
    assert_eq!(d.next_deadline(), Some(20));
    assert_eq!(d.next(19), None);
    assert_eq!(d.next(30), Some(conn(2)));
    assert_eq!(d.next(29), None);
    assert_eq!(d.next(30), Some(conn(1)));
    assert_eq!(d.next(100), None);
    assert!(d.is_empty());
}

#[test]
fn delays_equal_deadlines_leave_in_schedule_order() {
    let mut d = Delays::new();
    d.insert(conn(3), 50);
    d.insert(conn(1), 50);
    d.insert(conn(2), 40);
    assert_eq!(d.next(60), Some(conn(2)));
    assert_eq!(d.next(60), Some(conn(3)));
    assert_eq!(d.next(60), Some(conn(1)));
}

#[test]
fn delays_remove() {
    let mut d = Delays::new();
    d.insert(conn(1), 10);
    d.insert(conn(2), 20);
    d.remove(&conn(1));
    d.remove(&conn(7));
    assert!(!d.contains_key(&conn(1)));
    assert_eq!(d.next_deadline(), Some(20));
    assert_eq!(d.next(100), Some(conn(2)));
    assert!(d.is_empty());
}

#[test]
fn ready_then_earliest_deadline_first() {
    let (mut q, _updater) = DispatchQueue::new(Clock::new(0));
    let (a, b, c) = (conn(1), conn(2), conn(3));
    q.send(a, PollAt::Time(100));
    q.send(b, PollAt::Time(50));
    q.send(c, PollAt::Now);
    assert_eq!(q.poll_next(true, 1000), Step::Dispatch(c));
    assert_eq!(q.poll_next(true, 1000), Step::Dispatch(b));
    assert_eq!(q.poll_next(true, 1000), Step::Dispatch(a));
    assert_eq!(q.poll_next(true, 1000), Step::WaitForUpdate);
}

#[test]
fn reschedule_later_is_not_dispatched_early() {
    let (mut q, _updater) = DispatchQueue::new(Clock::new(0));
    let x = conn(1);
    q.send(x, PollAt::Time(10));
    q.send(x, PollAt::Time(1000));
    assert!(q.contains(&x));
    assert_eq!(q.poll_next(true, 10), Step::WaitUntil(1000));
    assert_eq!(q.poll_next(true, 999), Step::WaitUntil(1000));
    assert_eq!(q.poll_next(true, 1000), Step::Dispatch(x));
    assert!(!q.contains(&x));
    assert_eq!(q.poll_next(true, 2000), Step::WaitForUpdate);
}

#[test]
fn ready_beats_an_already_due_deadline() {
    let (mut q, _updater) = DispatchQueue::new(Clock::new(0));
    q.send(conn(1), PollAt::Time(0));
    q.send(conn(2), PollAt::Now);
    assert_eq!(q.poll_next(true, 500), Step::Dispatch(conn(2)));
    assert_eq!(q.poll_next(true, 500), Step::Dispatch(conn(1)));
}

#[test]
fn ready_twice_keeps_first_position() {
    let (mut q, _updater) = DispatchQueue::new(Clock::new(0));
    q.send(conn(1), PollAt::Now);
    q.send(conn(2), PollAt::Now);
    q.send(conn(1), PollAt::Now);
    assert_eq!(q.poll_next(true, 0), Step::Dispatch(conn(1)));
    assert_eq!(q.poll_next(true, 0), Step::Dispatch(conn(2)));
    assert_eq!(q.poll_next(true, 0), Step::WaitForUpdate);
}

#[test]
fn timed_instruction_moves_a_ready_connection() {
    let (mut q, _updater) = DispatchQueue::new(Clock::new(0));
    q.send(conn(1), PollAt::Now);
    q.send(conn(1), PollAt::Time(40));
    assert!(q.contains(&conn(1)));
    assert_eq!(q.poll_next(true, 0), Step::WaitUntil(40));
    q.send(conn(1), PollAt::Now);
    assert_eq!(q.poll_next(true, 0), Step::Dispatch(conn(1)));
    assert_eq!(q.poll_next(true, 100), Step::WaitForUpdate);
}

#[test]
fn removed_connection_is_never_dispatched() {
    let (mut q, _updater) = DispatchQueue::new(Clock::new(0));
    q.send(conn(1), PollAt::Now);
    q.send(conn(2), PollAt::Time(5));
    q.send(conn(3), PollAt::Now);
    q.remove(&conn(1));
    q.remove(&conn(2));
    assert!(!q.contains(&conn(1)));
    assert!(!q.contains(&conn(2)));
    assert_eq!(q.poll_next(true, 100), Step::Dispatch(conn(3)));
    assert_eq!(q.poll_next(true, 100), Step::WaitForUpdate);
    q.send(conn(1), PollAt::Now);
    assert_eq!(q.poll_next(true, 100), Step::Dispatch(conn(1)));
}

#[test]
fn no_dispatch_wanted_changes_nothing() {
    let (mut q, _updater) = DispatchQueue::new(Clock::new(0));
    q.send(conn(1), PollAt::Now);
    q.send(conn(2), PollAt::Time(0));
    assert_eq!(q.poll_next(false, 100), Step::WaitForUpdate);
    assert!(q.contains(&conn(1)));
    assert!(q.contains(&conn(2)));
    assert_eq!(q.poll_next(true, 100), Step::Dispatch(conn(1)));
}

#[test]
fn ingress_changes_nothing() {
    let (mut q, mut updater) = DispatchQueue::new(Clock::new(0));
    q.send(conn(1), PollAt::Ingress);
    assert!(!q.contains(&conn(1)));
    assert_eq!(updater.send(conn(2), PollAt::Ingress), Ok(()));
    q.receive_poll_times();
    assert!(!q.contains(&conn(2)));
    assert_eq!(q.poll_next(true, 0), Step::WaitForUpdate);
}

#[test]
fn updates_over_the_channel_are_applied_in_order() {
    let (mut q, mut updater) = DispatchQueue::new(Clock::new(100));
    let mut other = updater.clone();
    assert_eq!(updater.send(conn(1), PollAt::Time(50)), Ok(()));
    assert_eq!(other.send(conn(2), PollAt::Now), Ok(()));
    assert_eq!(updater.send(conn(1), PollAt::Time(80)), Ok(()));
    assert!(!q.contains(&conn(1)));
    assert_eq!(q.poll_next(false, 0), Step::WaitForUpdate);
    q.receive_poll_times();
    assert!(q.contains(&conn(1)));
    assert_eq!(q.poll_next(true, 0), Step::Dispatch(conn(2)));
    assert_eq!(q.poll_next(true, 150), Step::WaitUntil(180));
    assert_eq!(q.poll_next(true, 180), Step::Dispatch(conn(1)));
}

#[test]
fn send_after_scheduler_is_gone_hands_update_back() {
    let (q, mut updater) = DispatchQueue::new(Clock::new(7));
    drop(q);
    assert_eq!(updater.send(conn(1), PollAt::Time(3)), Err((conn(1), Some(10))));
    assert_eq!(updater.send(conn(1), PollAt::Now), Err((conn(1), None)));
    assert_eq!(updater.send(conn(1), PollAt::Ingress), Ok(()));
}
