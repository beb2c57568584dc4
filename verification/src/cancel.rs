//! Cooperative cancellation. The token is a shared flag that a signal handler
//! (or any other thread) may set at any moment; the pipeline polls it once
//! per message. A poll's result is therefore pinned by nothing: the
//! dispatcher's contracts say what holds of a run whatever was observed.

use vstd::prelude::*;

use std::sync::atomic::{AtomicBool, Ordering};
use std::sync::Arc;

verus! {

/// A shared cancellation flag, polled cooperatively.
#[derive(Clone)]
pub struct CancelToken {
    flag: Arc<AtomicBool>,
}

impl CancelToken {
    /// A fresh token, not yet cancelled (though another holder of a clone may
    /// set it at any time).
    pub fn new() -> CancelToken {
        CancelToken { flag: Arc::new(AtomicBool::new(false)) }
    }

    /// Requests cancellation: every later poll of any clone observes it.
    pub fn cancel(&self) {
        self.flag.store(true, Ordering::Relaxed);
    }

    /// Polls the flag. Another thread owns the other end, so nothing is
    /// promised of the result.
    pub fn is_cancelled(&self) -> bool {
        self.flag.load(Ordering::Relaxed)
    }
}

} // verus!
