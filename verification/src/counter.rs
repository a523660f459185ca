//! Identifiers for code cells. A counter hands out numbers to all renderers
//! that share it, whichever thread they run on.

use std::sync::atomic::AtomicUsize;
use std::sync::atomic::Ordering;
use vstd::prelude::*;

verus! {

/// A source of identifiers that many renderers can share.
///
/// The counter advances in one indivisible step for each identifier, so no two
/// calls receive the same number until the counter has run through all of
/// `usize`. Nothing is known of the number itself: other threads may have
/// drawn from the counter in between.
pub struct IdCounter {
    next: AtomicUsize,
}

impl IdCounter {
    /// A counter whose first identifier is `first`.
    pub fn new(first: usize) -> Self {
        IdCounter { next: AtomicUsize::new(first) }
    }

    /// An identifier that no other call of this counter receives.
    pub fn get_id(&self) -> usize {
        self.next.fetch_add(1, Ordering::Relaxed)
    }
}

/// An identifier from `counter` that no other call of it receives.
pub fn get_id(counter: &IdCounter) -> usize {
    counter.get_id()
}

} // verus!
