use vstd::prelude::*;

pub mod bypass;
pub mod dialer;
pub mod dispatch;
pub mod frontend;
pub mod handshake;
pub mod ipv4;
pub mod ipv6;
pub mod supervisor;
pub mod text;

verus! {

/// How many workers each keep one authenticated session.
pub const WORKER_COUNT: u64 = 6;

/// The time budget of one dial and handshake, in seconds.
pub const DIAL_AUTH_TIMEOUT_SECS: u64 = 15;

/// How long a worker sleeps after a failed or ended session, in seconds.
pub const RETRY_SECS: u64 = 1;

/// How often the multiplexer pings its peer, in seconds.
pub const PING_INTERVAL_SECS: u64 = 300;

/// How long a ping may go unanswered before the multiplexer is dead, in seconds.
pub const PING_TIMEOUT_SECS: u64 = 10;

} // verus!
