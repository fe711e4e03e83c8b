//! The cancellation token: a flag that the caller raises to ask a running
//! search to stop early.

use vstd::prelude::*;
use std::sync::Arc;
use std::sync::atomic::AtomicBool;

verus! {

/// A shared flag. Raising it is a request, not an interrupt: a search
/// looks at it between candidates and, once it sees it raised, returns
/// what it has ranked so far.
///
/// The flag is one of std's atomics, shared between threads. Its value
/// can change under a shared reference at any moment, so no contract
/// here speaks of it: what is proved of a search is proved for every
/// answer that the flag may give.
#[derive(Clone)]
pub struct CancellationToken {
    flag: Arc<AtomicBool>,
}

impl CancellationToken {
    /// A fresh token, not raised. That it is not raised is the word of
    /// std's `AtomicBool::new`, not a clause: see the type.
    pub fn new() -> (token: Self) {
        CancellationToken { flag: Arc::new(AtomicBool::new(false)) }
    }

    /// Raises the token. Every holder of a clone sees it raised from
    /// then on.
    pub fn raise(&self) {
        self.flag.store(true, std::sync::atomic::Ordering::Relaxed);
    }

    /// Whether the token is raised at this moment. Another thread may
    /// raise it between two calls, so nothing is promised of the answer:
    /// either answer may come, and a search is proved for both.
    pub fn is_raised(&self) -> (raised: bool) {
        self.flag.load(std::sync::atomic::Ordering::Relaxed)
    }
}

} // verus!
