//! Video coprocessor primitives: VRAM addressing, register commands, tile
//! and sprite descriptors, the status word, and the direct (non-queued)
//! port writer.
//!
//! Every command constructor states the exact bit layout it produces, and
//! every `execute` states the exact port traffic it appends to the sink.

use vstd::prelude::*;

use crate::ports::PortLog;
use crate::ports::PortWrite;

verus! {

// ---------------------------------------------------------------------------
// Addresses
// ---------------------------------------------------------------------------

/// A video-memory address, stored as a 16-bit word address.
#[derive(Debug, Clone, Copy, PartialEq, Eq, Structural)]
pub struct VRAMAddress(pub u16);

impl VRAMAddress {
    /// Word address of a byte address (the low bit is dropped).
    pub fn from_byte_addr(addr: u32) -> (r: Self)
        ensures
            r.0 == (addr >> 1u32) as u16,
    {
        VRAMAddress((addr >> 1u32) as u16)
    }

    pub fn from_word_addr(addr: u16) -> (r: Self)
        ensures
            r.0 == addr,
    {
        VRAMAddress(addr)
    }

    /// The byte address; the top bit of the word address is shifted out.
    pub fn byte_addr(self) -> (r: u32)
        ensures
            r == self.spec_byte_addr(),
    {
        ((self.0 << 1u16) as u32)
    }

    pub open spec fn spec_byte_addr(self) -> u32 {
        ((self.0 << 1u16) as u32)
    }

    pub fn word_addr(self) -> (r: u16)
        ensures
            r == self.0,
    {
        self.0
    }

    /// Address of a tile slot: 32 bytes per tile, index wrapped to 11 bits.
    pub fn from_tile_index(index: u16) -> (r: Self)
        ensures
            r.0 == ((index & 0x7FF) << 5u16) as u16,
    {
        VRAMAddress((index & 0x7FF) << 5u16)
    }
}

/// One of the coprocessor's three address spaces.
#[derive(Debug, Clone, Copy, PartialEq, Eq, Structural)]
pub enum Address {
    VRAM(VRAMAddress),
    CRAM(u8),
    VSRAM(u8),
}

impl Address {
    pub open spec fn spec_byte_addr(self) -> u32 {
        match self {
            Address::VRAM(addr) => addr.spec_byte_addr(),
            Address::CRAM(addr) => addr as u32,
            Address::VSRAM(addr) => addr as u32,
        }
    }

    pub fn byte_addr(self) -> (r: u32)
        ensures
            r == self.spec_byte_addr(),
    {
        match self {
            Address::VRAM(addr) => addr.byte_addr(),
            Address::CRAM(addr) => addr as u32,
            Address::VSRAM(addr) => addr as u32,
        }
    }

    pub fn word_addr(self) -> (r: u16)
        ensures
            r == match self {
                Address::VRAM(addr) => addr.0,
                Address::CRAM(addr) => (addr >> 1u8) as u16,
                Address::VSRAM(addr) => (addr >> 1u8) as u16,
            },
    {
        match self {
            Address::VRAM(addr) => addr.word_addr(),
            Address::CRAM(addr) => (addr >> 1u8) as u16,
            Address::VSRAM(addr) => (addr >> 1u8) as u16,
        }
    }

    /// Start of one 16-entry palette line in color memory.
    pub fn cram_line(line: u8) -> (r: Self)
        ensures
            r == Address::CRAM(((line & 0x3) << 4u8) as u8),
    {
        Address::CRAM((line & 0x3) << 4u8)
    }
}

// ---------------------------------------------------------------------------
// Port commands
// ---------------------------------------------------------------------------

/// A 16-bit control-port command: sets one of the coprocessor's registers.
#[derive(Clone, Copy, Debug, PartialEq, Eq, Structural)]
pub struct WordCmd(pub u16);

/// The register-write encoding: `0x8000 | (reg & 0x1F) << 8 | val`.
pub open spec fn spec_set_reg(reg: u8, val: u8) -> u16 {
    (0x8000u16 | (((reg & 0x1F) as u16) << 8u16) | (val as u16)) as u16
}

impl WordCmd {
    /// Encode a register write: top bit set, register number in bits 8..13,
    /// value in the low byte.
    pub fn set_reg(reg: u8, val: u8) -> (r: Self)
        ensures
            r.0 == spec_set_reg(reg, val),
    {
        WordCmd(0x8000u16 | (((reg & 0x1F) as u16) << 8u16) | (val as u16))
    }

    /// Issue this command: one 16-bit write to the control port.
    pub fn execute(self, log: &mut PortLog)
        ensures
            final(log)@ == old(log)@.push(PortWrite::Ctrl16(self.0)),
    {
        log.put(PortWrite::Ctrl16(self.0));
    }
}

/// A 32-bit control-port command: an address set-up, possibly starting DMA.
#[derive(Clone, Copy, Debug, PartialEq, Eq, Structural)]
pub struct LongCmd(pub u32);

/// The write-address command word for `addr`, with the DMA-start and
/// VRAM-copy bits as requested.
pub open spec fn spec_set_addr_w(addr: Address, dma: bool, copy: bool) -> u32 {
    let ctrl: u32 = match addr {
        Address::VRAM(_) => 0x40000000u32,
        Address::CRAM(_) => 0xC0000000u32,
        Address::VSRAM(_) => 0x40000010u32,
    };
    let ctrl = if dma {
        ctrl | 0x80
    } else {
        ctrl
    };
    let ctrl = if copy {
        ctrl | 0x40
    } else {
        ctrl
    };
    let a = addr.spec_byte_addr();
    (((a & 0x1C000) >> 14u32) | ((a & 0x3FFF) << 16u32) | ctrl) as u32
}

/// The read-address command word for `addr`.
pub open spec fn spec_set_addr_r(addr: Address, dma: bool, copy: bool) -> u32 {
    let ctrl: u32 = match addr {
        Address::VRAM(_) => 0x00000000u32,
        Address::CRAM(_) => 0x00000020u32,
        Address::VSRAM(_) => 0x00000010u32,
    };
    let ctrl = if dma {
        ctrl | 0x80
    } else {
        ctrl
    };
    let ctrl = if copy {
        ctrl | 0x40
    } else {
        ctrl
    };
    let a = addr.spec_byte_addr();
    (((a & 0x1C000) >> 14u32) | ((a & 0x3FFF) << 16u32) | ctrl) as u32
}

/// Two register-write words packed into one 32-bit command, first word in
/// the high half.
pub open spec fn spec_pack_words(first: u16, second: u16) -> u32 {
    (((first as u32) << 16u32) | (second as u32)) as u32
}

impl LongCmd {
    /// Encode a set-write-address command.
    pub fn set_addr_w(addr: Address, dma: bool, copy: bool) -> (r: Self)
        ensures
            r.0 == spec_set_addr_w(addr, dma, copy),
    {
        let ctrl: u32 = match addr {
            Address::VRAM(_) => 0x40000000u32,
            Address::CRAM(_) => 0xC0000000u32,
            Address::VSRAM(_) => 0x40000010u32,
        };
        let ctrl: u32 = if dma {
            ctrl | 0x80
        } else {
            ctrl
        };
        let ctrl: u32 = if copy {
            ctrl | 0x40
        } else {
            ctrl
        };
        let a = addr.byte_addr();
        LongCmd(((a & 0x1C000) >> 14u32) | ((a & 0x3FFF) << 16u32) | ctrl)
    }

    /// Encode a set-read-address command.
    pub fn set_addr_r(addr: Address, dma: bool, copy: bool) -> (r: Self)
        ensures
            r.0 == spec_set_addr_r(addr, dma, copy),
    {
        let ctrl: u32 = match addr {
            Address::VRAM(_) => 0x00000000u32,
            Address::CRAM(_) => 0x00000020u32,
            Address::VSRAM(_) => 0x00000010u32,
        };
        let ctrl: u32 = if dma {
            ctrl | 0x80
        } else {
            ctrl
        };
        let ctrl: u32 = if copy {
            ctrl | 0x40
        } else {
            ctrl
        };
        let a = addr.byte_addr();
        LongCmd(((a & 0x1C000) >> 14u32) | ((a & 0x3FFF) << 16u32) | ctrl)
    }

    /// Pack two 16-bit commands into one 32-bit command.
    pub fn from_words(first: WordCmd, second: WordCmd) -> (r: Self)
        ensures
            r.0 == spec_pack_words(first.0, second.0),
    {
        LongCmd(((first.0 as u32) << 16u32) | (second.0 as u32))
    }

    /// Issue this command: one 32-bit write to the control port.
    pub fn execute(self, log: &mut PortLog)
        ensures
            final(log)@ == old(log)@.push(PortWrite::Ctrl32(self.0)),
    {
        log.put(PortWrite::Ctrl32(self.0));
    }

    /// Issue a DMA-starting command. On the hardware the value must be
    /// staged in work memory and written from there; as port traffic it is
    /// still a single 32-bit control write.
    pub fn execute_dma(self, log: &mut PortLog)
        ensures
            final(log)@ == old(log)@.push(PortWrite::Ctrl32(self.0)),
    {
        log.put(PortWrite::Ctrl32(self.0));
    }
}

// ---------------------------------------------------------------------------
// Tiles and sprites
// ---------------------------------------------------------------------------

pub const TILE_PRIORITY_FLAG: u16 = 0x8000;
pub const TILE_H_FLIP_FLAG: u16 = 0x0800;
pub const TILE_V_FLIP_FLAG: u16 = 0x1000;
pub const TILE_INDEX_MASK: u16 = 0x07FF;
pub const TILE_PALETTE_MASK: u16 = 0x6000;

/// The display flags of a single tile, shared between sprite definitions and
/// the render planes: priority, palette line, flips, and tile index.
#[derive(Clone, Copy, Debug, Default, PartialEq, Eq, Hash, Structural)]
pub struct TileFlags(pub u16);

impl TileFlags {
    pub fn zeroed() -> (r: Self)
        ensures
            r.0 == 0,
    {
        TileFlags(0)
    }

    /// Create a new flag set for a given tile index and palette line.
    pub fn for_tile(tile_index: u16, palette: u8) -> (r: Self)
        ensures
            r.0 == ((tile_index & TILE_INDEX_MASK) | (((palette & 3) as u16) << 13u16)) as u16,
    {
        let r = TileFlags(0).with_tile_index(tile_index).with_palette(palette);
        proof {
            let v: u16 = r.0;
            assert(v == ((tile_index & 0x07FFu16) | (((palette & 3u8) as u16) << 13u16))
                as u16) by (bit_vector)
                requires
                    v == ((((0u16 & !0x07FFu16) | (tile_index & 0x07FFu16)) & !0x6000u16) | ((
                    (palette & 3u8) as u16) << 13u16)) as u16,
            ;
        }
        r
    }

    /// The tile index these flags refer to.
    pub fn tile_index(&self) -> (r: u16)
        ensures
            r == self.0 & TILE_INDEX_MASK,
    {
        self.0 & TILE_INDEX_MASK
    }

    /// Set the tile index, wrapped to 11 bits.
    pub fn set_tile_index(&mut self, tile_index: u16)
        ensures
            final(self).0 == ((old(self).0 & !TILE_INDEX_MASK) | (tile_index
                & TILE_INDEX_MASK)) as u16,
    {
        self.0 = (self.0 & !TILE_INDEX_MASK) | (tile_index & TILE_INDEX_MASK);
    }

    pub fn with_tile_index(self, tile_index: u16) -> (r: Self)
        ensures
            r.0 == ((self.0 & !TILE_INDEX_MASK) | (tile_index & TILE_INDEX_MASK)) as u16,
    {
        let mut s = self;
        s.set_tile_index(tile_index);
        s
    }

    /// The palette line these flags use.
    pub fn palette(&self) -> (r: u8)
        ensures
            r == ((self.0 >> 13u16) & 3) as u8,
    {
        ((self.0 >> 13u16) & 3) as u8
    }

    /// Set the palette line, wrapped to 2 bits.
    pub fn set_palette(&mut self, palette: u8)
        ensures
            final(self).0 == ((old(self).0 & !TILE_PALETTE_MASK) | (((palette & 3) as u16)
                << 13u16)) as u16,
    {
        self.0 = (self.0 & !TILE_PALETTE_MASK) | (((palette & 3) as u16) << 13u16);
    }

    pub fn with_palette(self, palette: u8) -> (r: Self)
        ensures
            r.0 == ((self.0 & !TILE_PALETTE_MASK) | (((palette & 3) as u16) << 13u16)) as u16,
    {
        let mut s = self;
        s.set_palette(palette);
        s
    }

    /// True if this tile renders with priority.
    pub fn priority(&self) -> (r: bool)
        ensures
            r == (self.0 & TILE_PRIORITY_FLAG != 0),
    {
        self.0 & TILE_PRIORITY_FLAG != 0
    }

    pub fn set_priority(&mut self, priority: bool)
        ensures
            final(self).0 == if priority {
                (old(self).0 | TILE_PRIORITY_FLAG) as u16
            } else {
                (old(self).0 & !TILE_PRIORITY_FLAG) as u16
            },
    {
        if priority {
            self.0 = self.0 | TILE_PRIORITY_FLAG;
        } else {
            self.0 = self.0 & !TILE_PRIORITY_FLAG;
        }
    }

    pub fn with_priority(self, priority: bool) -> (r: Self)
        ensures
            r.0 == if priority {
                (self.0 | TILE_PRIORITY_FLAG) as u16
            } else {
                (self.0 & !TILE_PRIORITY_FLAG) as u16
            },
    {
        let mut s = self;
        s.set_priority(priority);
        s
    }

    /// True if this tile is flipped horizontally.
    pub fn flip_h(&self) -> (r: bool)
        ensures
            r == (self.0 & TILE_H_FLIP_FLAG != 0),
    {
        self.0 & TILE_H_FLIP_FLAG != 0
    }

    pub fn set_flip_h(&mut self, flip: bool)
        ensures
            final(self).0 == if flip {
                (old(self).0 | TILE_H_FLIP_FLAG) as u16
            } else {
                (old(self).0 & !TILE_H_FLIP_FLAG) as u16
            },
    {
        if flip {
            self.0 = self.0 | TILE_H_FLIP_FLAG;
        } else {
            self.0 = self.0 & !TILE_H_FLIP_FLAG;
        }
    }

    pub fn with_flip_h(self, flip: bool) -> (r: Self)
        ensures
            r.0 == if flip {
                (self.0 | TILE_H_FLIP_FLAG) as u16
            } else {
                (self.0 & !TILE_H_FLIP_FLAG) as u16
            },
    {
        let mut s = self;
        s.set_flip_h(flip);
        s
    }

    /// True if this tile is flipped vertically.
    pub fn flip_v(&self) -> (r: bool)
        ensures
            r == (self.0 & TILE_V_FLIP_FLAG != 0),
    {
        self.0 & TILE_V_FLIP_FLAG != 0
    }

    pub fn set_flip_v(&mut self, flip: bool)
        ensures
            final(self).0 == if flip {
                (old(self).0 | TILE_V_FLIP_FLAG) as u16
            } else {
                (old(self).0 & !TILE_V_FLIP_FLAG) as u16
            },
    {
        if flip {
            self.0 = self.0 | TILE_V_FLIP_FLAG;
        } else {
            self.0 = self.0 & !TILE_V_FLIP_FLAG;
        }
    }

    pub fn with_flip_v(self, flip: bool) -> (r: Self)
        ensures
            r.0 == if flip {
                (self.0 | TILE_V_FLIP_FLAG) as u16
            } else {
                (self.0 & !TILE_V_FLIP_FLAG) as u16
            },
    {
        let mut s = self;
        s.set_flip_v(flip);
        s
    }
}

/// Sprite sizes in tiles, 1x1 up to 4x4.
#[derive(Copy, Clone, Debug, PartialEq, Eq, Structural)]
pub enum SpriteSize {
    Size1x1,
    Size2x1,
    Size3x1,
    Size4x1,
    Size1x2,
    Size2x2,
    Size3x2,
    Size4x2,
    Size1x3,
    Size2x3,
    Size3x3,
    Size4x3,
    Size1x4,
    Size2x4,
    Size3x4,
    Size4x4,
}

impl SpriteSize {
    pub open spec fn spec_width(self) -> u8 {
        match self {
            SpriteSize::Size1x1 | SpriteSize::Size1x2 | SpriteSize::Size1x3
                | SpriteSize::Size1x4 => 1,
            SpriteSize::Size2x1 | SpriteSize::Size2x2 | SpriteSize::Size2x3
                | SpriteSize::Size2x4 => 2,
            SpriteSize::Size3x1 | SpriteSize::Size3x2 | SpriteSize::Size3x3
                | SpriteSize::Size3x4 => 3,
            SpriteSize::Size4x1 | SpriteSize::Size4x2 | SpriteSize::Size4x3
                | SpriteSize::Size4x4 => 4,
        }
    }

    pub open spec fn spec_height(self) -> u8 {
        match self {
            SpriteSize::Size1x1 | SpriteSize::Size2x1 | SpriteSize::Size3x1
                | SpriteSize::Size4x1 => 1,
            SpriteSize::Size1x2 | SpriteSize::Size2x2 | SpriteSize::Size3x2
                | SpriteSize::Size4x2 => 2,
            SpriteSize::Size1x3 | SpriteSize::Size2x3 | SpriteSize::Size3x3
                | SpriteSize::Size4x3 => 3,
            SpriteSize::Size1x4 | SpriteSize::Size2x4 | SpriteSize::Size3x4
                | SpriteSize::Size4x4 => 4,
        }
    }

    /// The size for a given width and height in tiles.
    pub fn for_size(w: u8, h: u8) -> (r: SpriteSize)
        requires
            1 <= w <= 4,
            1 <= h <= 4,
        ensures
            r.spec_width() == w,
            r.spec_height() == h,
    {
        match (w, h) {
            (1, 1) => SpriteSize::Size1x1,
            (2, 1) => SpriteSize::Size2x1,
            (3, 1) => SpriteSize::Size3x1,
            (4, 1) => SpriteSize::Size4x1,
            (1, 2) => SpriteSize::Size1x2,
            (2, 2) => SpriteSize::Size2x2,
            (3, 2) => SpriteSize::Size3x2,
            (4, 2) => SpriteSize::Size4x2,
            (1, 3) => SpriteSize::Size1x3,
            (2, 3) => SpriteSize::Size2x3,
            (3, 3) => SpriteSize::Size3x3,
            (4, 3) => SpriteSize::Size4x3,
            (1, 4) => SpriteSize::Size1x4,
            (2, 4) => SpriteSize::Size2x4,
            (3, 4) => SpriteSize::Size3x4,
            _ => SpriteSize::Size4x4,
        }
    }

    pub fn width(&self) -> (r: u8)
        ensures
            r == self.spec_width(),
    {
        match self {
            SpriteSize::Size1x1 | SpriteSize::Size1x2 | SpriteSize::Size1x3
                | SpriteSize::Size1x4 => 1,
            SpriteSize::Size2x1 | SpriteSize::Size2x2 | SpriteSize::Size2x3
                | SpriteSize::Size2x4 => 2,
            SpriteSize::Size3x1 | SpriteSize::Size3x2 | SpriteSize::Size3x3
                | SpriteSize::Size3x4 => 3,
            SpriteSize::Size4x1 | SpriteSize::Size4x2 | SpriteSize::Size4x3
                | SpriteSize::Size4x4 => 4,
        }
    }

    pub fn height(&self) -> (r: u8)
        ensures
            r == self.spec_height(),
    {
        match self {
            SpriteSize::Size1x1 | SpriteSize::Size2x1 | SpriteSize::Size3x1
                | SpriteSize::Size4x1 => 1,
            SpriteSize::Size1x2 | SpriteSize::Size2x2 | SpriteSize::Size3x2
                | SpriteSize::Size4x2 => 2,
            SpriteSize::Size1x3 | SpriteSize::Size2x3 | SpriteSize::Size3x3
                | SpriteSize::Size4x3 => 3,
            SpriteSize::Size1x4 | SpriteSize::Size2x4 | SpriteSize::Size3x4
                | SpriteSize::Size4x4 => 4,
        }
    }
}

/// A hardware sprite: position, size, link to the next sprite, and tile flags.
#[derive(Clone, Copy, Debug, PartialEq, Eq, Structural)]
pub struct Sprite {
    pub y: u16,
    pub size: SpriteSize,
    pub link: u8,
    pub flags: TileFlags,
    pub x: u16,
}

impl Sprite {
    pub fn zeroed() -> (r: Self)
        ensures
            r == (Sprite {
                y: 0,
                size: SpriteSize::Size1x1,
                link: 0,
                flags: TileFlags(0),
                x: 0,
            }),
    {
        Sprite { y: 0, size: SpriteSize::Size1x1, link: 0, flags: TileFlags(0), x: 0 }
    }

    /// A sprite at the origin with the given rendering flags and size.
    pub fn with_flags(flags: TileFlags, size: SpriteSize) -> (r: Self)
        ensures
            r == (Sprite { y: 0, size, link: 0, flags, x: 0 }),
    {
        Sprite { y: 0, size, link: 0, flags, x: 0 }
    }

    /// The rendering flags of this sprite.
    pub fn flags(&self) -> (r: TileFlags)
        ensures
            r == self.flags,
    {
        self.flags
    }

    /// A mutable reference to this sprite's rendering flags.
    pub fn flags_mut(&mut self) -> (r: &mut TileFlags)
        ensures
            *r == old(self).flags,
            *final(self) == (Sprite { flags: *final(r), ..*old(self) }),
    {
        &mut self.flags
    }

    /// Replace the rendering flags of this sprite.
    pub fn set_flags(&mut self, flags: TileFlags)
        ensures
            *final(self) == (Sprite { flags, ..*old(self) }),
    {
        self.flags = flags;
    }
}

// ---------------------------------------------------------------------------
// Status
// ---------------------------------------------------------------------------

/// The coprocessor's 16-bit status word, as read from the control port.
#[derive(Debug, Clone, Copy, PartialEq, Eq, Structural)]
pub struct Status(pub u16);

impl Status {
    pub fn new(raw: u16) -> (r: Self)
        ensures
            r.0 == raw,
    {
        Status(raw)
    }

    pub open spec fn spec_dma_in_progress(self) -> bool {
        self.0 & 0x2 != 0
    }

    pub open spec fn spec_in_vblank(self) -> bool {
        self.0 & 0x8 != 0
    }

    pub fn is_pal(&self) -> (r: bool)
        ensures
            r == (self.0 & 0x1 != 0),
    {
        self.0 & 0x1 != 0
    }

    /// True while the single in-flight DMA transfer occupies the port.
    pub fn dma_in_progress(&self) -> (r: bool)
        ensures
            r == self.spec_dma_in_progress(),
    {
        self.0 & 0x2 != 0
    }

    pub fn in_hblank(&self) -> (r: bool)
        ensures
            r == (self.0 & 0x4 != 0),
    {
        self.0 & 0x4 != 0
    }

    /// True while the beam is inside the vertical blanking window, the only
    /// time video memory may be bulk-updated.
    pub fn in_vblank(&self) -> (r: bool)
        ensures
            r == self.spec_in_vblank(),
    {
        self.0 & 0x8 != 0
    }

    pub fn odd_interlace_frame(&self) -> (r: bool)
        ensures
            r == (self.0 & 0x10 != 0),
    {
        self.0 & 0x10 != 0
    }

    pub fn sprite_collision(&self) -> (r: bool)
        ensures
            r == (self.0 & 0x20 != 0),
    {
        self.0 & 0x20 != 0
    }

    pub fn sprite_limit_hit(&self) -> (r: bool)
        ensures
            r == (self.0 & 0x40 != 0),
    {
        self.0 & 0x40 != 0
    }

    pub fn vint_occurred(&self) -> (r: bool)
        ensures
            r == (self.0 & 0x80 != 0),
    {
        self.0 & 0x80 != 0
    }

    pub fn fifo_full(&self) -> (r: bool)
        ensures
            r == (self.0 & 0x100 != 0),
    {
        self.0 & 0x100 != 0
    }

    pub fn fifo_empty(&self) -> (r: bool)
        ensures
            r == (self.0 & 0x200 != 0),
    {
        self.0 & 0x200 != 0
    }
}

// ---------------------------------------------------------------------------
// Direct writer
// ---------------------------------------------------------------------------

/// The direct, synchronous writer: sets an address (and optionally the
/// autoincrement register) and then streams words through the data port,
/// bypassing the DMA queue.
#[derive(Clone, Copy)]
pub struct Writer {
    pub addr: Address,
    pub autoinc: Option<u8>,
}

/// The set-up traffic of a writer: the optional autoincrement register
/// write, then the write-address command.
pub open spec fn spec_begin_writes(addr: Address, autoinc: Option<u8>) -> Seq<PortWrite> {
    let setup = seq![PortWrite::Ctrl32(spec_set_addr_w(addr, false, false))];
    match autoinc {
        Some(inc) => seq![PortWrite::Ctrl16(spec_set_reg(0xF, inc))] + setup,
        None => setup,
    }
}

/// The data traffic for a word slice starting at index `i`: full pairs as
/// 32-bit writes, a trailing single word as a 16-bit write.
pub open spec fn spec_data_writes(w: Seq<u16>, i: int) -> Seq<PortWrite>
    decreases w.len() - i,
    when 0 <= i <= w.len()
{
    if i + 2 <= w.len() {
        seq![PortWrite::Data32(spec_pack_words(w[i], w[i + 1]))] + spec_data_writes(w, i + 2)
    } else if i + 1 == w.len() {
        seq![PortWrite::Data16(w[i])]
    } else {
        Seq::empty()
    }
}

impl Writer {
    pub fn new(addr: Address) -> (r: Self)
        ensures
            r.addr == addr,
            r.autoinc is None,
    {
        Writer { addr, autoinc: None }
    }

    pub fn with_autoinc(self, autoinc: Option<u8>) -> (r: Self)
        ensures
            r.addr == self.addr,
            r.autoinc == autoinc,
    {
        Writer { addr: self.addr, autoinc }
    }

    /// Program the autoincrement (if requested) and the write address.
    pub fn begin(&self, log: &mut PortLog)
        ensures
            final(log)@ == old(log)@ + spec_begin_writes(self.addr, self.autoinc),
    {
        if let Some(inc) = self.autoinc {
            WordCmd::set_reg(0xF, inc).execute(log);
        }
        LongCmd::set_addr_w(self.addr, false, false).execute(log);
        proof {
            assert(log@ =~= old(log)@ + spec_begin_writes(self.addr, self.autoinc));
        }
    }

    /// Stream `words` to the data port after the set-up commands: pairs as
    /// 32-bit writes, with a lone trailing word written 16-bit.
    pub fn write(self, log: &mut PortLog, words: &Vec<u16>)
        ensures
            final(log)@ == old(log)@ + spec_begin_writes(self.addr, self.autoinc)
                + spec_data_writes(words@, 0),
    {
        self.begin(log);
        let ghost mid = log@;
        let mut i: usize = 0;
        while i < words.len() && i + 1 < words.len()
            invariant
                i <= words@.len(),
                log@ == mid + spec_data_writes(words@, 0).take(
                    spec_data_writes(words@, 0).len() - spec_data_writes(words@, i as int).len(),
                ),
                spec_data_writes(words@, 0).len() - spec_data_writes(words@, i as int).len()
                    >= 0,
                spec_data_writes(words@, 0) == spec_data_writes(words@, 0).take(
                    spec_data_writes(words@, 0).len() - spec_data_writes(words@, i as int).len(),
                ) + spec_data_writes(words@, i as int),
            decreases words@.len() - i,
        {
            let d = LongCmd::from_words(WordCmd(words[i]), WordCmd(words[i + 1]));
            log.put(PortWrite::Data32(d.0));
            proof {
                let full = spec_data_writes(words@, 0);
                let restb = spec_data_writes(words@, i as int);
                let resta = spec_data_writes(words@, i + 2);
                assert(restb == seq![PortWrite::Data32(spec_pack_words(words@[i as int], words@[
                i + 1]))] + resta);
                assert(full.take(full.len() - resta.len()) =~= full.take(full.len()
                    - restb.len()).push(PortWrite::Data32(spec_pack_words(words@[i as int],
                words@[i + 1]))));
            }
            i = i + 2;
        }
        if i < words.len() {
            log.put(PortWrite::Data16(words[i]));
            proof {
                let full = spec_data_writes(words@, 0);
                let restb = spec_data_writes(words@, i as int);
                assert(restb == seq![PortWrite::Data16(words@[i as int])]);
                assert(full.take(full.len() - restb.len()).push(PortWrite::Data16(words@[
                i as int])) =~= full);
                assert(log@ =~= mid + full);
            }
        } else {
            proof {
                let full = spec_data_writes(words@, 0);
                assert(spec_data_writes(words@, i as int) =~= Seq::<PortWrite>::empty());
                assert(full.take(full.len() - 0) =~= full);
            }
        }
    }
}

} // verus!
