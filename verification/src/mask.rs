//! The interrupt-priority lock.
//!
//! Mutual exclusion between foreground code and interrupt handlers comes
//! from the processor's interrupt mask: a handler at or below the current
//! mask level cannot preempt. A scoped acquisition raises the mask to a
//! fixed "inner" level, and on release restores it to a fixed "restore"
//! level named at the call site — not to the previously observed level.
//!
//! Because the restore level is a constant of the call site, nesting two
//! acquisitions restores the wrong level on the way out. Nesting is
//! therefore forbidden: [`IntMask::acquire`] requires that no section is
//! active, which every lock-guarded entry point inherits as a precondition.

use vstd::prelude::*;

verus! {

/// The modelled state of the processor's interrupt mask (levels 0..=7).
pub struct IntMask {
    level: u8,
    active: bool,
}

/// Witness of an acquired section; carries the level the release restores.
pub struct Section {
    restore: u8,
}

impl Section {
    /// The mask level that releasing this section will restore.
    pub closed spec fn spec_restore(&self) -> u8 {
        self.restore
    }

    pub fn restore_level(&self) -> (r: u8)
        ensures
            r == self.spec_restore(),
    {
        self.restore
    }
}

impl IntMask {
    /// The current mask level.
    pub closed spec fn spec_level(&self) -> u8 {
        self.level
    }

    /// True while a critical section is active.
    pub closed spec fn spec_active(&self) -> bool {
        self.active
    }

    /// The mask as the machine boots: all interrupts held off, no section.
    pub fn new() -> (r: Self)
        ensures
            r.spec_level() == 7,
            !r.spec_active(),
    {
        IntMask { level: 7, active: false }
    }

    pub fn level(&self) -> (r: u8)
        ensures
            r == self.spec_level(),
    {
        self.level
    }

    pub fn is_active(&self) -> (r: bool)
        ensures
            r == self.spec_active(),
    {
        self.active
    }

    /// Enter a critical section: raise the mask to `inner`. The returned
    /// witness records the `restore` level fixed at the call site. Sections
    /// must not nest: the restore level is a constant, not the saved prior
    /// mask, so a nested release would restore the wrong level.
    pub fn acquire(&mut self, inner: u8, restore: u8) -> (s: Section)
        requires
            !old(self).spec_active(),
            inner <= 7,
            restore <= 7,
        ensures
            final(self).spec_level() == inner,
            final(self).spec_active(),
            s.spec_restore() == restore,
    {
        self.level = inner;
        self.active = true;
        Section { restore }
    }

    /// Leave a critical section: lower the mask to the level fixed when the
    /// section was entered, on every exit path.
    pub fn release(&mut self, s: Section)
        requires
            old(self).spec_active(),
        ensures
            final(self).spec_level() == s.spec_restore(),
            !final(self).spec_active(),
    {
        self.level = s.restore_level();
        self.active = false;
    }
}

} // verus!
