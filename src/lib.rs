//! Polling scheduler of a user-space TCP/IP stack.
//!
//! The scheduler decides, for every live connection, when its protocol state
//! machine should next be driven. Connections that must be polled at once wait
//! in a deduplicated FIFO ([`ExpiredQueue`]); connections that must be polled
//! at a later instant wait in a deadline-ordered set ([`Delays`]). A single
//! consumer ([`DispatchQueue`]) owns both and is fed by any number of
//! producers ([`QueueUpdater`]) over an unbounded channel.

pub mod handle;
pub mod expired;
pub mod delays;
pub mod channel;
pub mod model;
pub mod dispatch;

pub use handle::{AddrPair, Clock, Endpoint, PollAt};
pub use expired::ExpiredQueue;
pub use delays::Delays;
pub use dispatch::{DispatchQueue, QueueUpdater, Step};
pub use channel::PollUpdate;
