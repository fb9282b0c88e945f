//! Connection handles, polling instructions and the scheduler clock.
use vstd::prelude::*;

verus! {

/// One end of a connection: an IP address (IPv4 addresses are held in their
/// IPv4-mapped IPv6 form) and a port.
#[derive(Clone, Copy, Debug, PartialEq, Eq, Hash, Structural)]
pub struct Endpoint {
    pub ip: u128,
    pub port: u16,
}

/// The handle of a live connection: its local and its remote endpoint.
#[derive(Clone, Copy, Debug, PartialEq, Eq, Hash, Structural)]
pub struct AddrPair {
    pub local: Endpoint,
    pub peer: Endpoint,
}

/// The polling decision that the protocol engine makes for one connection.
#[derive(Clone, Copy, Debug, PartialEq, Eq, Structural)]
pub enum PollAt {
    /// Poll as soon as possible.
    Now,
    /// Poll at the given engine timestamp, in milliseconds.
    Time(u64),
    /// Poll only when a packet arrives: no scheduling change.
    Ingress,
}

/// Maps engine timestamps onto scheduler time, both in milliseconds.
///
/// Scheduler time `origin + t` corresponds to engine timestamp `t`. A
/// simulated clock is a clock whose origin the caller picks.
#[derive(Clone, Copy, Debug, PartialEq, Eq, Structural)]
pub struct Clock {
    pub origin: u64,
}

/// `a + b`, held at `u64::MAX` where the sum does not fit.
pub open spec fn saturating_sum(a: u64, b: u64) -> u64 {
    if a + b <= u64::MAX {
        (a + b) as u64
    } else {
        u64::MAX
    }
}

impl Clock {
    pub fn new(origin: u64) -> (r: Clock)
        ensures
            r.origin == origin,
    {
        Clock { origin }
    }

    pub open spec fn spec_resolve(self, millis: u64) -> u64 {
        saturating_sum(self.origin, millis)
    }

    /// The scheduler instant at which engine timestamp `millis` falls.
    pub fn resolve(&self, millis: u64) -> (r: u64)
        ensures
            r == self.spec_resolve(millis),
    {
        self.origin.saturating_add(millis)
    }
}

} // verus!
