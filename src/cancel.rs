//! A cancellation flag shared between a sync job and the command that stops it.
use vstd::prelude::*;
use std::sync::Arc;
use std::sync::atomic::{AtomicBool, Ordering};

verus! {

/// A shared flag: once raised, every clone sees it raised. Its value is
/// another thread's to change, so no contract speaks of it.
#[derive(Clone)]
pub struct CancelToken {
    flag: Arc<AtomicBool>,
}

impl CancelToken {
    /// A token that is not cancelled.
    pub fn new() -> (r: Self) {
        CancelToken { flag: Arc::new(AtomicBool::new(false)) }
    }

    /// Raises the flag. Raising it again changes nothing.
    pub fn cancel(&self) {
        self.flag.store(true, Ordering::Relaxed);
    }

    pub fn is_cancelled(&self) -> (r: bool) {
        self.flag.load(Ordering::Relaxed)
    }

    /// The shared flag itself, for a job that polls it.
    pub fn flag(&self) -> (r: Arc<AtomicBool>) {
        self.flag.clone()
    }
}

} // verus!
