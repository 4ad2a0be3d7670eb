//! The abstract memory-mapped sink.
//!
//! The real machine exposes a 16/32-bit control port and a data port for the
//! video coprocessor. The library models every register access as an entry
//! appended to a [`PortLog`], so the exact wire protocol (which port, which
//! width, which value, in which order) is part of each function's contract
//! and can be checked without the hardware.

use vstd::prelude::*;

verus! {

/// One write to a memory-mapped port of the video coprocessor.
#[derive(Clone, Copy, Debug, PartialEq, Eq, Structural)]
pub enum PortWrite {
    /// 16-bit write to the control port.
    Ctrl16(u16),
    /// 32-bit write to the control port.
    Ctrl32(u32),
    /// 16-bit write to the data port.
    Data16(u16),
    /// 32-bit write to the data port (a word pair; high half first on the wire).
    Data32(u32),
}

/// The ordered record of all port writes the machine has issued.
pub struct PortLog {
    pub writes: Vec<PortWrite>,
}

impl View for PortLog {
    type V = Seq<PortWrite>;

    open spec fn view(&self) -> Seq<PortWrite> {
        self.writes@
    }
}

impl PortLog {
    /// An empty log: no register has been touched yet.
    pub fn new() -> (r: Self)
        ensures
            r@ == Seq::<PortWrite>::empty(),
    {
        PortLog { writes: Vec::new() }
    }

    /// Record one port write.
    pub fn put(&mut self, w: PortWrite)
        ensures
            final(self)@ == old(self)@.push(w),
    {
        self.writes.push(w);
    }

    /// How many writes have been issued.
    pub fn len(&self) -> (n: usize)
        ensures
            n == self@.len(),
    {
        self.writes.len()
    }

    /// The `i`-th write issued.
    pub fn get(&self, i: usize) -> (w: PortWrite)
        requires
            i < self@.len(),
        ensures
            w == self@[i as int],
    {
        self.writes[i]
    }
}

} // verus!
