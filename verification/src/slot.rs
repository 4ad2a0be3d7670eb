//! The one-shot vertical-blank rendezvous slot.
//!
//! At most one callback is pending at a time. Foreground code registers it
//! and then polls until the slot is empty; the interrupt handler consumes it
//! exactly once and clears the slot, which is the only synchronization point
//! between the two contexts. A callback is identified by a caller-chosen
//! handle; the runtime shell that drives the machine maps handles back to
//! the actual code to run.

use vstd::prelude::*;

verus! {

/// A "register once, complete once" cell of capacity one.
pub struct VintSlot {
    pending: Option<u16>,
}

impl VintSlot {
    /// The registered-but-not-yet-consumed callback handle, if any.
    pub closed spec fn spec_pending(&self) -> Option<u16> {
        self.pending
    }

    /// An empty slot: nothing registered.
    pub fn new() -> (r: Self)
        ensures
            r.spec_pending() is None,
    {
        VintSlot { pending: None }
    }

    /// Register a callback handle. The slot must be free: a pending callback
    /// is never overwritten or cancelled.
    pub fn register(&mut self, handle: u16)
        requires
            old(self).spec_pending() is None,
        ensures
            final(self).spec_pending() == Some(handle),
    {
        self.pending = Some(handle);
    }

    /// Consume the pending callback, clearing the slot. Run by the interrupt
    /// handler; together with `register`'s precondition this makes the
    /// callback run exactly once.
    pub fn take(&mut self) -> (r: Option<u16>)
        ensures
            final(self).spec_pending() is None,
            r == old(self).spec_pending(),
    {
        let r = self.pending;
        self.pending = None;
        r
    }

    /// True while a callback is registered and not yet consumed. Foreground
    /// code spins on this after registering; the interrupt clears it.
    pub fn is_pending(&self) -> (r: bool)
        ensures
            r == (self.spec_pending() is Some),
    {
        match self.pending {
            Some(_) => true,
            None => false,
        }
    }
}

} // verus!
