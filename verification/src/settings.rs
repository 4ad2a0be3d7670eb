//! The display-settings register image.
//!
//! The coprocessor's mode registers are write-only, so the machine keeps a
//! cached image of what was last programmed. Applying a new image diffs it
//! against the cache and writes only the registers that changed (or all of
//! them when forced), then replaces the cache. The exact register numbers,
//! byte splits, and write order are part of the contract.

use vstd::prelude::*;

use crate::ports::PortLog;
use crate::ports::PortWrite;
use crate::vdp::VRAMAddress;
use crate::vdp::WordCmd;
use crate::vdp::spec_set_reg;

verus! {

/// Where the window is drawn instead of plane A on one axis: before or
/// after the given tile column/row.
#[derive(Debug, Copy, Clone, PartialEq, Eq, Structural)]
pub enum WindowClip {
    Before(u8),
    After(u8),
}

impl WindowClip {
    pub open spec fn spec_raw_value(self) -> u8 {
        match self {
            WindowClip::Before(v) => v & 0x1F,
            WindowClip::After(v) => (0x80 | (v & 0x1F)) as u8,
        }
    }

    /// The register encoding: direction in the top bit, tile count in the
    /// low five bits.
    pub fn raw_value(self) -> (r: u8)
        ensures
            r == self.spec_raw_value(),
    {
        match self {
            WindowClip::Before(v) => v & 0x1F,
            WindowClip::After(v) => 0x80 | (v & 0x1F),
        }
    }
}

impl Default for WindowClip {
    fn default() -> (r: Self)
        ensures
            r == WindowClip::Before(0u8),
    {
        WindowClip::Before(0)
    }
}

/// How vertical scrolling is applied.
#[derive(Debug, Clone, Copy, PartialEq, Eq, Structural)]
pub enum VScrollMode {
    FullScroll,
    DoubleCellScroll,
}

impl VScrollMode {
    pub open spec fn spec_raw_value(self) -> u8 {
        match self {
            VScrollMode::FullScroll => 0,
            VScrollMode::DoubleCellScroll => 1,
        }
    }

    pub fn raw_value(self) -> (r: u8)
        ensures
            r == self.spec_raw_value(),
    {
        match self {
            VScrollMode::FullScroll => 0,
            VScrollMode::DoubleCellScroll => 1,
        }
    }
}

/// How horizontal scrolling is applied.
#[derive(Debug, Clone, Copy, PartialEq, Eq, Structural)]
pub enum HScrollMode {
    FullScroll,
    CellScroll,
    LineScroll,
}

impl HScrollMode {
    pub open spec fn spec_raw_value(self) -> u8 {
        match self {
            HScrollMode::FullScroll => 0,
            HScrollMode::CellScroll => 2,
            HScrollMode::LineScroll => 3,
        }
    }

    pub fn raw_value(self) -> (r: u8)
        ensures
            r == self.spec_raw_value(),
    {
        match self {
            HScrollMode::FullScroll => 0,
            HScrollMode::CellScroll => 2,
            HScrollMode::LineScroll => 3,
        }
    }
}

/// The interlacing rendering mode.
#[derive(Debug, Clone, Copy, PartialEq, Eq, Structural)]
pub enum InterlaceMode {
    Off,
    Interlace,
    DoubleRes,
}

impl InterlaceMode {
    pub open spec fn spec_raw_value(self) -> u8 {
        match self {
            InterlaceMode::Off => 0,
            InterlaceMode::Interlace => 1,
            InterlaceMode::DoubleRes => 3,
        }
    }

    pub fn raw_value(self) -> (r: u8)
        ensures
            r == self.spec_raw_value(),
    {
        match self {
            InterlaceMode::Off => 0,
            InterlaceMode::Interlace => 1,
            InterlaceMode::DoubleRes => 3,
        }
    }
}

/// The plane sizes the hardware supports, in tiles.
#[derive(Debug, Clone, Copy, PartialEq, Eq, Structural)]
pub enum PlaneSize {
    Size32x32,
    Size64x32,
    Size128x32,
    Size32x64,
    Size64x64,
    Size32x128,
}

impl PlaneSize {
    pub open spec fn spec_raw_value(self) -> u8 {
        match self {
            PlaneSize::Size32x32 => 0x00,
            PlaneSize::Size64x32 => 0x01,
            PlaneSize::Size128x32 => 0x02,
            PlaneSize::Size32x64 => 0x10,
            PlaneSize::Size64x64 => 0x12,
            PlaneSize::Size32x128 => 0x20,
        }
    }

    /// The plane-size register encoding.
    pub fn raw_value(self) -> (r: u8)
        ensures
            r == self.spec_raw_value(),
    {
        match self {
            PlaneSize::Size32x32 => 0x00,
            PlaneSize::Size64x32 => 0x01,
            PlaneSize::Size128x32 => 0x02,
            PlaneSize::Size32x64 => 0x10,
            PlaneSize::Size64x64 => 0x12,
            PlaneSize::Size32x128 => 0x20,
        }
    }

    pub open spec fn spec_width_shift(self) -> u8 {
        match self {
            PlaneSize::Size32x32 | PlaneSize::Size32x64 | PlaneSize::Size32x128 => 5,
            PlaneSize::Size64x32 | PlaneSize::Size64x64 => 6,
            PlaneSize::Size128x32 => 7,
        }
    }

    pub open spec fn spec_height_shift(self) -> u8 {
        match self {
            PlaneSize::Size32x32 | PlaneSize::Size64x32 | PlaneSize::Size128x32 => 5,
            PlaneSize::Size32x64 | PlaneSize::Size64x64 => 6,
            PlaneSize::Size32x128 => 7,
        }
    }

    /// Log2 of the plane width in tiles.
    pub fn width_shift(&self) -> (r: u8)
        ensures
            r == self.spec_width_shift(),
    {
        match self {
            PlaneSize::Size32x32 | PlaneSize::Size32x64 | PlaneSize::Size32x128 => 5,
            PlaneSize::Size64x32 | PlaneSize::Size64x64 => 6,
            PlaneSize::Size128x32 => 7,
        }
    }

    /// Log2 of the plane height in tiles.
    pub fn height_shift(&self) -> (r: u8)
        ensures
            r == self.spec_height_shift(),
    {
        match self {
            PlaneSize::Size32x32 | PlaneSize::Size64x32 | PlaneSize::Size128x32 => 5,
            PlaneSize::Size32x64 | PlaneSize::Size64x64 => 6,
            PlaneSize::Size32x128 => 7,
        }
    }

    pub open spec fn spec_width_tiles(self) -> u8 {
        match self {
            PlaneSize::Size32x32 | PlaneSize::Size32x64 | PlaneSize::Size32x128 => 32,
            PlaneSize::Size64x32 | PlaneSize::Size64x64 => 64,
            PlaneSize::Size128x32 => 128,
        }
    }

    pub open spec fn spec_height_tiles(self) -> u8 {
        match self {
            PlaneSize::Size32x32 | PlaneSize::Size64x32 | PlaneSize::Size128x32 => 32,
            PlaneSize::Size32x64 | PlaneSize::Size64x64 => 64,
            PlaneSize::Size32x128 => 128,
        }
    }

    /// The plane width in tiles.
    pub fn width_tiles(&self) -> (r: u8)
        ensures
            r == self.spec_width_tiles(),
    {
        match self {
            PlaneSize::Size32x32 | PlaneSize::Size32x64 | PlaneSize::Size32x128 => 32,
            PlaneSize::Size64x32 | PlaneSize::Size64x64 => 64,
            PlaneSize::Size128x32 => 128,
        }
    }

    /// The plane height in tiles.
    pub fn height_tiles(&self) -> (r: u8)
        ensures
            r == self.spec_height_tiles(),
    {
        match self {
            PlaneSize::Size32x32 | PlaneSize::Size64x32 | PlaneSize::Size128x32 => 32,
            PlaneSize::Size32x64 | PlaneSize::Size64x64 => 64,
            PlaneSize::Size32x128 => 128,
        }
    }

    pub open spec fn spec_x_mask(self) -> u8 {
        (self.spec_width_tiles() - 1) as u8
    }

    pub open spec fn spec_y_mask(self) -> u8 {
        (self.spec_height_tiles() - 1) as u8
    }

    pub fn x_mask(&self) -> (r: u8)
        ensures
            r == self.spec_x_mask(),
    {
        self.width_tiles() - 1
    }

    pub fn y_mask(&self) -> (r: u8)
        ensures
            r == self.spec_y_mask(),
    {
        self.height_tiles() - 1
    }

    /// Tiles per row for address arithmetic; equals the width shift.
    pub fn pitch_shift(&self) -> (r: u8)
        ensures
            r == self.spec_width_shift(),
    {
        self.width_shift()
    }

    /// Word offset of tile (x, y) inside a plane of this size, with both
    /// coordinates wrapped to the plane.
    pub open spec fn spec_tile_offset(self, x: u8, y: u8) -> u16 {
        ((((y & self.spec_y_mask()) as u16) << self.spec_width_shift()) + ((x
            & self.spec_x_mask()) as u16)) as u16
    }

    pub fn tile_offset(&self, x: u8, y: u8) -> (r: u16)
        ensures
            r == self.spec_tile_offset(x, y),
            r <= 16383,
    {
        let xm = self.x_mask();
        let ym = self.y_mask();
        let s = self.width_shift();
        let xx: u16 = (x & xm) as u16;
        let yy: u16 = (y & ym) as u16;
        proof {
            assert(xx <= 127 && yy <= 127 && (yy << s) <= 16256) by (bit_vector)
                requires
                    xm <= 127u8 && ym <= 127u8 && s <= 7u8 && xx == (x & xm) as u16 && yy == (y
                        & ym) as u16,
            ;
        }
        (yy << s) + xx
    }

    /// The address of tile (x, y) in a plane of this size based at `base`.
    pub fn tile_offset_from(&self, base: VRAMAddress, x: u8, y: u8) -> (r: VRAMAddress)
        requires
            base.0 + self.spec_tile_offset(x, y) <= 0xFFFF,
        ensures
            r.0 == base.0 + self.spec_tile_offset(x, y),
    {
        VRAMAddress(base.word_addr() + self.tile_offset(x, y))
    }
}

/// The cached image of the coprocessor's writable settings registers.
#[derive(Debug, Clone, Copy, PartialEq, Eq, Structural)]
pub struct Settings {
    pub mode: u32,
    pub sprites_base: u8,
    pub plane_a_base: u8,
    pub plane_b_base: u8,
    pub window_base: u8,
    pub hscroll_base: u8,
    pub plane_size: PlaneSize,
    pub window_x_clip: WindowClip,
    pub window_y_clip: WindowClip,
    pub background_color: u8,
    pub hint_interval: u8,
}

/// The settings the machine boots with.
pub open spec fn spec_boot_settings() -> Settings {
    Settings {
        mode: 0x81007404,
        plane_a_base: 0x30,
        plane_b_base: 0x07,
        window_base: 0x34,
        sprites_base: 0x78,
        hscroll_base: 0x3D,
        window_x_clip: WindowClip::Before(0u8),
        window_y_clip: WindowClip::Before(0u8),
        plane_size: PlaneSize::Size64x32,
        background_color: 0,
        hint_interval: 0xFF,
    }
}

impl Default for Settings {
    fn default() -> (r: Self)
        ensures
            r == spec_boot_settings(),
    {
        Settings {
            mode: 0x81007404,
            plane_a_base: 0x30,
            plane_b_base: 0x07,
            window_base: 0x34,
            sprites_base: 0x78,
            hscroll_base: 0x3D,
            window_x_clip: WindowClip::Before(0),
            window_y_clip: WindowClip::Before(0),
            plane_size: PlaneSize::Size64x32,
            background_color: 0,
            hint_interval: 0xFF,
        }
    }
}

/// The mode bits that have an effect on the hardware.
pub const MODE_MASK: u32 = 0xFF0FFC37;

/// One conditional register write.
pub open spec fn spec_cond_reg(c: bool, reg: u8, val: u8) -> Seq<PortWrite> {
    if c {
        seq![PortWrite::Ctrl16(spec_set_reg(reg, val))]
    } else {
        Seq::empty()
    }
}

/// The writes that bring the four mode registers from `orig` to `goal`:
/// nothing when the mode words agree (unless forced), else one write per
/// byte that differs in an effective bit.
pub open spec fn spec_mode_writes(orig: u32, goal: u32, force: bool) -> Seq<PortWrite> {
    let mask = (goal ^ orig) & MODE_MASK;
    if force || goal != orig {
        spec_cond_reg(force || mask & 0xFF != 0, 0, goal as u8) + spec_cond_reg(
            force || mask & 0xFF00 != 0,
            1,
            (goal >> 8u32) as u8,
        ) + spec_cond_reg(force || mask & 0xFF0000 != 0, 11, (goal >> 16u32) as u8)
            + spec_cond_reg(force || mask & 0xFF000000u32 != 0, 12, (goal >> 24u32) as u8)
    } else {
        Seq::empty()
    }
}

/// The full register-diff traffic from `orig` to `goal`, in the fixed order
/// the hardware is programmed: mode bytes, then plane bases, sprite table,
/// window base, scroll base, plane size, window clips, background color,
/// and the horizontal-interrupt interval.
pub open spec fn spec_apply_writes(orig: Settings, goal: Settings, force: bool) -> Seq<PortWrite> {
    spec_mode_writes(orig.mode, goal.mode, force) + spec_cond_reg(
        force || goal.plane_a_base != orig.plane_a_base,
        2,
        goal.plane_a_base,
    ) + spec_cond_reg(force || goal.plane_b_base != orig.plane_b_base, 4, goal.plane_b_base)
        + spec_cond_reg(force || goal.sprites_base != orig.sprites_base, 5, goal.sprites_base)
        + spec_cond_reg(force || goal.window_base != orig.window_base, 3, goal.window_base)
        + spec_cond_reg(force || goal.hscroll_base != orig.hscroll_base, 13, goal.hscroll_base)
        + spec_cond_reg(
        force || goal.plane_size != orig.plane_size,
        16,
        goal.plane_size.spec_raw_value(),
    ) + spec_cond_reg(
        force || goal.window_x_clip != orig.window_x_clip,
        17,
        goal.window_x_clip.spec_raw_value(),
    ) + spec_cond_reg(
        force || goal.window_y_clip != orig.window_y_clip,
        18,
        goal.window_y_clip.spec_raw_value(),
    ) + spec_cond_reg(
        force || goal.background_color != orig.background_color,
        7,
        goal.background_color,
    ) + spec_cond_reg(force || goal.hint_interval != orig.hint_interval, 10, goal.hint_interval)
}

/// Write the mode-register bytes that differ between the two mode words in
/// an effective bit (or all four when forced).
fn write_mode_regs(orig_mode: u32, goal_mode: u32, force: bool, log: &mut PortLog)
    ensures
        final(log)@ == old(log)@ + spec_mode_writes(orig_mode, goal_mode, force),
{
    if force || goal_mode != orig_mode {
        let mask: u32 = (goal_mode ^ orig_mode) & MODE_MASK;
        write_reg_if(force || mask & 0xFF != 0, 0, goal_mode as u8, log);
        write_reg_if(force || mask & 0xFF00 != 0, 1, (goal_mode >> 8u32) as u8, log);
        write_reg_if(force || mask & 0xFF0000 != 0, 11, (goal_mode >> 16u32) as u8, log);
        write_reg_if(force || mask & 0xFF000000u32 != 0, 12, (goal_mode >> 24u32) as u8, log);
        proof {
            assert(log@ =~= old(log)@ + spec_mode_writes(orig_mode, goal_mode, force));
        }
    } else {
        proof {
            assert(log@ =~= old(log)@ + spec_mode_writes(orig_mode, goal_mode, force));
        }
    }
}

/// Folding one more write group into the running total only reassociates
/// the concatenation.
proof fn lemma_fold_write(
    base: Seq<PortWrite>,
    acc: Seq<PortWrite>,
    step: Seq<PortWrite>,
    l: Seq<PortWrite>,
)
    requires
        l == (base + acc) + step,
    ensures
        l == base + (acc + step),
{
    assert(l =~= base + (acc + step));
}

/// Write `val` to register `reg` exactly when `c` holds.
fn write_reg_if(c: bool, reg: u8, val: u8, log: &mut PortLog)
    ensures
        final(log)@ == old(log)@ + spec_cond_reg(c, reg, val),
{
    if c {
        WordCmd::set_reg(reg, val).execute(log);
    }
    proof {
        assert(log@ =~= old(log)@ + spec_cond_reg(c, reg, val));
    }
}

impl Settings {
    /// Replace the masked mode bits.
    pub fn modify_mode(&mut self, mode: u32, mask: u32)
        ensures
            *final(self) == (Settings { mode: ((old(self).mode & !mask) | (mode & mask)) as u32, ..*old(self) }),
    {
        self.mode = (self.mode & !mask) | (mode & mask);
    }

    pub fn set_scroll_mode(&mut self, hscroll: HScrollMode, vscroll: VScrollMode)
        ensures
            *final(self) == (Settings {
                mode: ((old(self).mode & !0x30000u32) | ((((hscroll.spec_raw_value() as u32)
                    << 16u32) | ((vscroll.spec_raw_value() as u32) << 18u32)) & 0x30000))
                    as u32,
                ..*old(self)
            }),
    {
        let bits: u32 = ((hscroll.raw_value() as u32) << 16u32) | ((vscroll.raw_value() as u32)
            << 18u32);
        self.modify_mode(bits, 0x30000);
    }

    pub fn set_interlace_mode(&mut self, mode: InterlaceMode)
        ensures
            *final(self) == (Settings {
                mode: ((old(self).mode & !0x6000000u32) | (((mode.spec_raw_value() as u32)
                    << 25u32) & 0x6000000)) as u32,
                ..*old(self)
            }),
    {
        self.modify_mode((mode.raw_value() as u32) << 25u32, 0x6000000);
    }

    /// Background color: palette line in the high nibble, index in the low.
    pub fn set_background_color(&mut self, line: u8, index: u8)
        ensures
            *final(self) == (Settings {
                background_color: (((line & 0x3) << 4u8) | (index & 0xF)) as u8,
                ..*old(self)
            }),
    {
        self.background_color = ((line & 0x3) << 4u8) | (index & 0xF);
    }

    pub fn enable_display(&mut self, enable: bool)
        ensures
            *final(self) == (Settings {
                mode: ((old(self).mode & !0x4000u32) | (if enable {
                    0x4000u32
                } else {
                    0u32
                })) as u32,
                ..*old(self)
            }),
    {
        self.modify_mode(
            if enable {
                0x4000
            } else {
                0
            },
            0x4000,
        );
        proof {
            assert(0x4000u32 & 0x4000u32 == 0x4000u32 && 0u32 & 0x4000u32 == 0u32) by (bit_vector);
        }
    }

    pub fn enable_interrupts(&mut self, vint: bool, hint: bool, xint: bool)
        ensures
            *final(self) == (Settings {
                mode: ((old(self).mode & !0x82010u32) | ((if vint {
                    0x2000u32
                } else {
                    0u32
                } | if hint {
                    0x10u32
                } else {
                    0u32
                } | if xint {
                    0x80000u32
                } else {
                    0u32
                }) & 0x82010)) as u32,
                ..*old(self)
            }),
    {
        let bits: u32 = if vint {
            0x2000
        } else {
            0
        } | if hint {
            0x10
        } else {
            0
        } | if xint {
            0x80000
        } else {
            0
        };
        self.modify_mode(bits, 0x82010);
    }

    pub fn stop_hv_on_xint(&mut self, stop: bool)
        ensures
            *final(self) == (Settings {
                mode: ((old(self).mode & !0x2u32) | (if stop {
                    0x2u32
                } else {
                    0u32
                })) as u32,
                ..*old(self)
            }),
    {
        self.modify_mode(
            if stop {
                0x2
            } else {
                0
            },
            0x2,
        );
        proof {
            assert(0x2u32 & 0x2u32 == 0x2u32 && 0u32 & 0x2u32 == 0u32) by (bit_vector);
        }
    }

    pub fn enable_dma(&mut self, enable: bool)
        ensures
            *final(self) == (Settings {
                mode: ((old(self).mode & !0x1000u32) | (if enable {
                    0x1000u32
                } else {
                    0u32
                })) as u32,
                ..*old(self)
            }),
    {
        self.modify_mode(
            if enable {
                0x1000
            } else {
                0
            },
            0x1000,
        );
        proof {
            assert(0x1000u32 & 0x1000u32 == 0x1000u32 && 0u32 & 0x1000u32 == 0u32) by (bit_vector);
        }
    }

    pub fn enable_h40(&mut self, enable: bool)
        ensures
            *final(self) == (Settings {
                mode: ((old(self).mode & !0x81000000u32) | (if enable {
                    0x81000000u32
                } else {
                    0u32
                })) as u32,
                ..*old(self)
            }),
    {
        self.modify_mode(
            if enable {
                0x81000000
            } else {
                0
            },
            0x81000000,
        );
        proof {
            assert(0x81000000u32 & 0x81000000u32 == 0x81000000u32 && 0u32 & 0x81000000u32 == 0u32) by (bit_vector);
        }
    }

    pub fn enable_v30(&mut self, enable: bool)
        ensures
            *final(self) == (Settings {
                mode: ((old(self).mode & !0x800u32) | (if enable {
                    0x800u32
                } else {
                    0u32
                })) as u32,
                ..*old(self)
            }),
    {
        self.modify_mode(
            if enable {
                0x800
            } else {
                0
            },
            0x800,
        );
        proof {
            assert(0x800u32 & 0x800u32 == 0x800u32 && 0u32 & 0x800u32 == 0u32) by (bit_vector);
        }
    }

    pub fn enable_shadow_highlight(&mut self, enable: bool)
        ensures
            *final(self) == (Settings {
                mode: ((old(self).mode & !0x8000000u32) | (if enable {
                    0x8000000u32
                } else {
                    0u32
                })) as u32,
                ..*old(self)
            }),
    {
        self.modify_mode(
            if enable {
                0x8000000
            } else {
                0
            },
            0x8000000,
        );
        proof {
            assert(0x8000000u32 & 0x8000000u32 == 0x8000000u32 && 0u32 & 0x8000000u32 == 0u32) by (bit_vector);
        }
    }

    pub fn set_hint_interval(&mut self, interval: u8)
        ensures
            *final(self) == (Settings { hint_interval: interval, ..*old(self) }),
    {
        self.hint_interval = interval;
    }

    pub fn set_plane_a_base(&mut self, addr: VRAMAddress)
        ensures
            *final(self) == (Settings {
                plane_a_base: (((addr.0 >> 9u16) as u8) & 0x78) as u8,
                ..*old(self)
            }),
    {
        self.plane_a_base = ((addr.word_addr() >> 9u16) as u8) & 0x78;
    }

    pub fn plane_a_base(&self) -> (r: VRAMAddress)
        ensures
            r.0 == ((self.plane_a_base as u16) << 9u16) as u16,
    {
        VRAMAddress::from_word_addr((self.plane_a_base as u16) << 9u16)
    }

    pub fn set_plane_b_base(&mut self, addr: VRAMAddress)
        ensures
            *final(self) == (Settings {
                plane_b_base: (((addr.0 >> 12u16) as u8) & 0xF) as u8,
                ..*old(self)
            }),
    {
        self.plane_b_base = ((addr.word_addr() >> 12u16) as u8) & 0xF;
    }

    pub fn plane_b_base(&self) -> (r: VRAMAddress)
        ensures
            r.0 == ((self.plane_b_base as u16) << 12u16) as u16,
    {
        VRAMAddress::from_word_addr((self.plane_b_base as u16) << 12u16)
    }

    pub fn set_sprites_base(&mut self, addr: VRAMAddress)
        ensures
            *final(self) == (Settings { sprites_base: (addr.0 >> 8u16) as u8, ..*old(self) }),
    {
        self.sprites_base = ((addr.word_addr() >> 8u16) as u8) & 0xFF;
        proof {
            let v = (addr.0 >> 8u16) as u8;
            assert(v & 0xFF == v) by (bit_vector);
        }
    }

    pub fn sprites_base(&self) -> (r: VRAMAddress)
        ensures
            r.0 == ((self.sprites_base as u16) << 8u16) as u16,
    {
        VRAMAddress::from_word_addr((self.sprites_base as u16) << 8u16)
    }

    pub fn set_window_base(&mut self, addr: VRAMAddress)
        ensures
            *final(self) == (Settings {
                window_base: (((addr.0 >> 9u16) as u8) & 0x7E) as u8,
                ..*old(self)
            }),
    {
        self.window_base = ((addr.word_addr() >> 9u16) as u8) & 0x7E;
    }

    pub fn window_base(&self) -> (r: VRAMAddress)
        ensures
            r.0 == ((self.window_base as u16) << 9u16) as u16,
    {
        VRAMAddress::from_word_addr((self.window_base as u16) << 9u16)
    }

    pub fn set_hscroll_base(&mut self, addr: VRAMAddress)
        ensures
            *final(self) == (Settings {
                hscroll_base: (((addr.0 >> 9u16) as u8) & 0x7F) as u8,
                ..*old(self)
            }),
    {
        self.hscroll_base = ((addr.word_addr() >> 9u16) as u8) & 0x7F;
    }

    pub fn hscroll_base(&self) -> (r: VRAMAddress)
        ensures
            r.0 == ((self.hscroll_base as u16) << 9u16) as u16,
    {
        VRAMAddress::from_word_addr((self.hscroll_base as u16) << 9u16)
    }

    pub fn set_plane_size(&mut self, size: PlaneSize)
        ensures
            *final(self) == (Settings { plane_size: size, ..*old(self) }),
    {
        self.plane_size = size;
    }

    pub fn plane_size(&self) -> (r: PlaneSize)
        ensures
            r == self.plane_size,
    {
        self.plane_size
    }

    pub fn set_window_clip(&mut self, x_clip: WindowClip, y_clip: WindowClip)
        ensures
            *final(self) == (Settings {
                window_x_clip: x_clip,
                window_y_clip: y_clip,
                ..*old(self)
            }),
    {
        self.window_x_clip = x_clip;
        self.window_y_clip = y_clip;
    }

    pub fn window_x_clip(&self) -> (r: WindowClip)
        ensures
            r == self.window_x_clip,
    {
        self.window_x_clip
    }

    pub fn window_y_clip(&self) -> (r: WindowClip)
        ensures
            r == self.window_y_clip,
    {
        self.window_y_clip
    }

    /// Address of tile (x, y) on plane A.
    pub fn plane_a_tile(&self, x: u8, y: u8) -> (r: VRAMAddress)
        requires
            ((self.plane_a_base as u16) << 9u16) + self.plane_size.spec_tile_offset(x, y)
                <= 0xFFFF,
        ensures
            r.0 == ((self.plane_a_base as u16) << 9u16) + self.plane_size.spec_tile_offset(x, y),
    {
        self.plane_size.tile_offset_from(self.plane_a_base(), x, y)
    }

    /// Address of tile (x, y) on plane B.
    pub fn plane_b_tile(&self, x: u8, y: u8) -> (r: VRAMAddress)
        requires
            ((self.plane_b_base as u16) << 12u16) + self.plane_size.spec_tile_offset(x, y)
                <= 0xFFFF,
        ensures
            r.0 == ((self.plane_b_base as u16) << 12u16) + self.plane_size.spec_tile_offset(x, y),
    {
        self.plane_size.tile_offset_from(self.plane_b_base(), x, y)
    }

    /// Address of tile (x, y) on the window plane.
    pub fn window_tile(&self, x: u8, y: u8) -> (r: VRAMAddress)
        requires
            ((self.window_base as u16) << 9u16) + self.plane_size.spec_tile_offset(x, y)
                <= 0xFFFF,
        ensures
            r.0 == ((self.window_base as u16) << 9u16) + self.plane_size.spec_tile_offset(x, y),
    {
        self.plane_size.tile_offset_from(self.window_base(), x, y)
    }

    /// Program this image into the hardware: diff against the cached image,
    /// write exactly the registers that differ (all of them when `force`),
    /// and replace the cache.
    pub fn apply(self, cache: &mut Settings, log: &mut PortLog, force: bool)
        ensures
            *final(cache) == self,
            final(log)@ == old(log)@ + spec_apply_writes(*old(cache), self, force),
    {
        let ghost orig = *old(cache);
        write_mode_regs(cache.mode, self.mode, force, log);
        let ghost mut acc: Seq<PortWrite> = spec_mode_writes(orig.mode, self.mode, force);
        let c2 = force || self.plane_a_base != cache.plane_a_base;
        write_reg_if(c2, 2, self.plane_a_base, log);
        proof {
            lemma_fold_write(old(log)@, acc, spec_cond_reg(c2, 2, self.plane_a_base), log@);
            acc = acc + spec_cond_reg(c2, 2, self.plane_a_base);
        }
        let c4 = force || self.plane_b_base != cache.plane_b_base;
        write_reg_if(c4, 4, self.plane_b_base, log);
        proof {
            lemma_fold_write(old(log)@, acc, spec_cond_reg(c4, 4, self.plane_b_base), log@);
            acc = acc + spec_cond_reg(c4, 4, self.plane_b_base);
        }
        let c5 = force || self.sprites_base != cache.sprites_base;
        write_reg_if(c5, 5, self.sprites_base, log);
        proof {
            lemma_fold_write(old(log)@, acc, spec_cond_reg(c5, 5, self.sprites_base), log@);
            acc = acc + spec_cond_reg(c5, 5, self.sprites_base);
        }
        let c3 = force || self.window_base != cache.window_base;
        write_reg_if(c3, 3, self.window_base, log);
        proof {
            lemma_fold_write(old(log)@, acc, spec_cond_reg(c3, 3, self.window_base), log@);
            acc = acc + spec_cond_reg(c3, 3, self.window_base);
        }
        let c13 = force || self.hscroll_base != cache.hscroll_base;
        write_reg_if(c13, 13, self.hscroll_base, log);
        proof {
            lemma_fold_write(old(log)@, acc, spec_cond_reg(c13, 13, self.hscroll_base), log@);
            acc = acc + spec_cond_reg(c13, 13, self.hscroll_base);
        }
        let c16 = force || !(self.plane_size == cache.plane_size);
        write_reg_if(c16, 16, self.plane_size.raw_value(), log);
        proof {
            lemma_fold_write(
                old(log)@,
                acc,
                spec_cond_reg(c16, 16, self.plane_size.spec_raw_value()),
                log@,
            );
            acc = acc + spec_cond_reg(c16, 16, self.plane_size.spec_raw_value());
        }
        let c17 = force || !(self.window_x_clip == cache.window_x_clip);
        write_reg_if(c17, 17, self.window_x_clip.raw_value(), log);
        proof {
            lemma_fold_write(
                old(log)@,
                acc,
                spec_cond_reg(c17, 17, self.window_x_clip.spec_raw_value()),
                log@,
            );
            acc = acc + spec_cond_reg(c17, 17, self.window_x_clip.spec_raw_value());
        }
        let c18 = force || !(self.window_y_clip == cache.window_y_clip);
        write_reg_if(c18, 18, self.window_y_clip.raw_value(), log);
        proof {
            lemma_fold_write(
                old(log)@,
                acc,
                spec_cond_reg(c18, 18, self.window_y_clip.spec_raw_value()),
                log@,
            );
            acc = acc + spec_cond_reg(c18, 18, self.window_y_clip.spec_raw_value());
        }
        let c7 = force || self.background_color != cache.background_color;
        write_reg_if(c7, 7, self.background_color, log);
        proof {
            lemma_fold_write(old(log)@, acc, spec_cond_reg(c7, 7, self.background_color), log@);
            acc = acc + spec_cond_reg(c7, 7, self.background_color);
        }
        let c10 = force || self.hint_interval != cache.hint_interval;
        write_reg_if(c10, 10, self.hint_interval, log);
        proof {
            lemma_fold_write(old(log)@, acc, spec_cond_reg(c10, 10, self.hint_interval), log@);
            acc = acc + spec_cond_reg(c10, 10, self.hint_interval);
            assert(acc == spec_apply_writes(orig, self, force));
        }
        *cache = self;
    }
}

} // verus!
