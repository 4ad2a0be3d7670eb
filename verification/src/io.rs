//! System identification and controller state.
//!
//! The hardware version register and the three-button / six-button
//! controller protocol. The port reads themselves are machine I/O and live
//! with the runtime shell; this module holds the decoding logic: what the
//! version bits mean, and how the bytes sampled during the polling sequence
//! compose into one button word.

use vstd::prelude::*;

verus! {

/// The console's version register.
#[derive(Debug, Clone, Copy, PartialEq, Eq, Structural)]
pub struct SystemVersion(pub u8);

impl SystemVersion {
    pub fn new(raw: u8) -> (r: Self)
        ensures
            r.0 == raw,
    {
        SystemVersion(raw)
    }

    /// Hardware revision, low nibble.
    pub fn revision(&self) -> (r: u8)
        ensures
            r == self.0 & 0xF,
    {
        self.0 & 0xF
    }

    pub fn has_fdd(&self) -> (r: bool)
        ensures
            r == (self.0 & 0x20 != 0),
    {
        self.0 & 0x20 != 0
    }

    pub fn is_pal(&self) -> (r: bool)
        ensures
            r == (self.0 & 0x40 != 0),
    {
        self.0 & 0x40 != 0
    }

    pub fn is_ntsc(&self) -> (r: bool)
        ensures
            r == (self.0 & 0x40 == 0),
    {
        self.0 & 0x40 == 0
    }

    pub fn is_overseas(&self) -> (r: bool)
        ensures
            r == (self.0 & 0x80 != 0),
    {
        self.0 & 0x80 != 0
    }
}

/// The button word assembled from one polling pass: `first` sampled with
/// the select line high, `second` with it low, and — when the `probe` read
/// reports a six-button pad (low nibble zero) — `third` carrying the extra
/// buttons. Buttons read active-low on the wire, so the word is inverted.
pub open spec fn spec_compose_sample(first: u8, second: u8, probe: u8, third: u8) -> u16 {
    let extra: u16 = if probe & 0xF == 0 {
        (((third & 0xF) as u16) << 8u16) as u16
    } else {
        0u16
    };
    !((((first & 0x3F) as u16) | ((((second & 0x30) as u16) << 2u16) as u16) | extra) as u16)
}

/// One controller's sampled state: the current button word and the word
/// from the previous frame.
#[derive(Debug, Clone, Copy, PartialEq, Eq, Structural)]
pub struct ControllerState {
    current: u16,
    previous: u16,
}

impl ControllerState {
    pub closed spec fn spec_current(&self) -> u16 {
        self.current
    }

    pub closed spec fn spec_previous(&self) -> u16 {
        self.previous
    }

    /// A controller that has not been sampled yet: no button held.
    pub fn new() -> (r: Self)
        ensures
            r.spec_current() == 0,
            r.spec_previous() == 0,
    {
        ControllerState { current: 0, previous: 0 }
    }

    /// Prepare the controller for polling. The state is unchanged; the
    /// runtime shell configures the port's select line for output before
    /// the first sample is taken.
    pub fn init(self) -> (r: Self)
        ensures
            r == self,
    {
        self
    }

    /// Fold one polling pass into the state: the old sample becomes the
    /// previous frame's word, and the bytes read during the pass compose
    /// into the new one.
    pub fn update(self, first: u8, second: u8, probe: u8, third: u8) -> (r: Self)
        ensures
            r.spec_previous() == self.spec_current(),
            r.spec_current() == spec_compose_sample(first, second, probe, third),
    {
        let extra: u16 = if probe & 0xF == 0 {
            ((third & 0xF) as u16) << 8u16
        } else {
            0u16
        };
        let word: u16 = !(((first & 0x3F) as u16) | ((((second & 0x30) as u16) << 2u16) as u16)
            | extra);
        ControllerState { current: word, previous: self.current }
    }

    pub fn start(&self) -> (r: bool)
        ensures
            r == (self.spec_current() & 0x080 != 0),
    {
        self.current & 0x080 != 0
    }

    pub fn a(&self) -> (r: bool)
        ensures
            r == (self.spec_current() & 0x040 != 0),
    {
        self.current & 0x040 != 0
    }

    pub fn b(&self) -> (r: bool)
        ensures
            r == (self.spec_current() & 0x010 != 0),
    {
        self.current & 0x010 != 0
    }

    pub fn c(&self) -> (r: bool)
        ensures
            r == (self.spec_current() & 0x020 != 0),
    {
        self.current & 0x020 != 0
    }

    pub fn up(&self) -> (r: bool)
        ensures
            r == (self.spec_current() & 0x001 != 0),
    {
        self.current & 0x001 != 0
    }

    pub fn down(&self) -> (r: bool)
        ensures
            r == (self.spec_current() & 0x002 != 0),
    {
        self.current & 0x002 != 0
    }

    pub fn left(&self) -> (r: bool)
        ensures
            r == (self.spec_current() & 0x004 != 0),
    {
        self.current & 0x004 != 0
    }

    pub fn right(&self) -> (r: bool)
        ensures
            r == (self.spec_current() & 0x008 != 0),
    {
        self.current & 0x008 != 0
    }

    pub fn mode(&self) -> (r: bool)
        ensures
            r == (self.spec_current() & 0x800 != 0),
    {
        self.current & 0x800 != 0
    }

    pub fn x(&self) -> (r: bool)
        ensures
            r == (self.spec_current() & 0x400 != 0),
    {
        self.current & 0x400 != 0
    }

    pub fn y(&self) -> (r: bool)
        ensures
            r == (self.spec_current() & 0x200 != 0),
    {
        self.current & 0x200 != 0
    }

    pub fn z(&self) -> (r: bool)
        ensures
            r == (self.spec_current() & 0x100 != 0),
    {
        self.current & 0x100 != 0
    }
}

} // verus!
