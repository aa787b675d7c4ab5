use vstd::prelude::*;

verus! {

/// The longest pause, in seconds, after which accepting is still retried.
pub const MAX_BACKOFF: u64 = 64;

/// After a failed accept that followed a pause of `backoff` seconds (1 at
/// first): the pause before the next try and the one after it, or `None` once
/// the pause has grown past its limit and the listener gives up.
pub fn accept_retry(backoff: u64) -> (r: Option<(u64, u64)>)
    ensures
        backoff > MAX_BACKOFF ==> r is None,
        backoff <= MAX_BACKOFF ==> r == Some((backoff, (2 * backoff) as u64)),
{
    if backoff > MAX_BACKOFF {
        None
    } else {
        Some((backoff, backoff * 2))
    }
}

} // verus!
