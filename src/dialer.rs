use vstd::prelude::*;

verus! {

/// How long a fetched dialer snapshot stays fresh, in seconds.
pub const REFRESH_SECS: u64 = 600;

/// Relies on rand::Rng::gen_range over rand::thread_rng: a value drawn from
/// `lo..=hi` (it panics only on an empty range, which `lo <= hi` rules out).
#[verifier::external_body]
fn uniform_between(lo: u64, hi: u64) -> (r: u64)
    requires
        lo <= hi,
    ensures
        lo <= r <= hi,
{
    rand::Rng::gen_range(&mut rand::thread_rng(), lo..=hi)
}

/// The random pause before the first dialer fetch, in milliseconds: under one second.
pub fn startup_jitter_ms() -> (r: u64)
    ensures
        r < 1000,
{
    uniform_between(0, 999)
}

/// The pause before retrying a failed dialer fetch, in milliseconds: drawn
/// between the previous pause and one and a half times it.
pub fn retry_delay_ms(prev_ms: u64) -> (r: u64)
    requires
        prev_ms + prev_ms / 2 <= u64::MAX,
    ensures
        prev_ms <= r <= prev_ms + prev_ms / 2,
{
    uniform_between(prev_ms, prev_ms + prev_ms / 2)
}

/// Whether a snapshot fetched at `fetched_at` (seconds) is due for refresh at `now`.
pub fn needs_refresh(fetched_at: u64, now: u64) -> (r: bool)
    ensures
        r == (now >= fetched_at && now - fetched_at >= REFRESH_SECS),
{
    now >= fetched_at && now - fetched_at >= REFRESH_SECS
}

} // verus!
