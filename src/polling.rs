//! Decisions of the polling loops that run at the edge of the library:
//! waiting for a TCP endpoint, and cutting a fetched chunk of source
//! messages at the split's stopping offset.

use vstd::prelude::*;

verus! {

/// What to do after one connection attempt.
#[derive(Clone, Copy, Debug, PartialEq, Eq)]
pub enum WaitStep {
    /// The endpoint accepted the connection.
    Online,
    /// Sleep and try again.
    Retry,
    /// The timeout has passed.
    TimedOut,
    /// The watched process left its exit marker.
    Exited,
}

/// The step after an attempt: online when it connected; else timed out once
/// `elapsed` reaches the timeout; else exited where failure detection is on
/// and the exit marker exists; else retry.
pub open spec fn wait_step_spec(
    connected: bool,
    elapsed_ms: u64,
    timeout_ms: Option<u64>,
    detect_failure: bool,
    marker_exists: bool,
) -> WaitStep {
    if connected {
        WaitStep::Online
    } else if timeout_ms matches Some(t) && elapsed_ms >= t {
        WaitStep::TimedOut
    } else if detect_failure && marker_exists {
        WaitStep::Exited
    } else {
        WaitStep::Retry
    }
}

pub fn wait_tcp_step(
    connected: bool,
    elapsed_ms: u64,
    timeout_ms: Option<u64>,
    detect_failure: bool,
    marker_exists: bool,
) -> (r: WaitStep)
    ensures
        r == wait_step_spec(connected, elapsed_ms, timeout_ms, detect_failure, marker_exists),
{
    if connected {
        return WaitStep::Online;
    }
    if let Some(t) = timeout_ms {
        if elapsed_ms >= t {
            return WaitStep::TimedOut;
        }
    }
    if detect_failure && marker_exists {
        WaitStep::Exited
    } else {
        WaitStep::Retry
    }
}

/// How many leading messages of a chunk to keep, and whether the stopping
/// offset was reached: messages are kept up to the first whose offset is at
/// or past `stop`.
pub fn take_until_stop(offsets: &[i64], stop: Option<i64>) -> (r: (usize, bool))
    ensures
        r.0 <= offsets@.len(),
        forall|j: int| 0 <= j < r.0 ==> (stop matches Some(s) ==> #[trigger] offsets@[j] < s),
        r.1 <==> r.0 < offsets@.len(),
        r.1 ==> (stop matches Some(s) && offsets@[r.0 as int] >= s),
{
    let s = match stop {
        Some(s) => s,
        None => { return (offsets.len(), false); },
    };
    let mut i: usize = 0;
    while i < offsets.len()
        invariant
            i <= offsets@.len(),
            stop == Some(s),
            forall|j: int| 0 <= j < i ==> #[trigger] offsets@[j] < s,
        decreases offsets@.len() - i,
    {
        if offsets[i] >= s {
            return (i, true);
        }
        i = i + 1;
    }
    (i, false)
}

} // verus!
