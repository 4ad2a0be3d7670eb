//! The DMA command encoder.
//!
//! A [`DMACommand`] is an immutable bundle of four 32-bit register writes
//! that programs one hardware transfer: autoincrement set-up, source address
//! split across three registers (transfers and copies only), length split
//! across two registers, and a final address command that also asserts the
//! DMA-start bit.
//!
//! Fill commands reuse the final slot for the fill value instead of an
//! address command: its placeholder half is zero, and executing it must emit
//! a 16-bit data-port write instead of the usual 32-bit control write.

use vstd::prelude::*;

use crate::ports::PortLog;
use crate::ports::PortWrite;
use crate::vdp::Address;
use crate::vdp::LongCmd;
use crate::vdp::VRAMAddress;
use crate::vdp::WordCmd;
use crate::vdp::spec_pack_words;
use crate::vdp::spec_set_addr_w;
use crate::vdp::spec_set_reg;

verus! {

/// One encoded DMA request: four 32-bit slots, issued in order.
#[derive(Clone, Copy, Debug, PartialEq, Eq, Structural)]
pub struct DMACommand {
    pub c0: LongCmd,
    pub c1: LongCmd,
    pub c2: LongCmd,
    pub c3: LongCmd,
}

/// The encoding of a memory-to-video transfer: source word address `src`,
/// `len` words, destination `dst`, post-write autoincrement `inc`.
pub open spec fn spec_transfer_cmd(src: u32, dst: Address, len: u16, inc: u8) -> DMACommand {
    DMACommand {
        c0: LongCmd(spec_pack_words(spec_set_reg(0x0F, inc), spec_set_reg(0x17, (src >> 16u32) as u8))),
        c1: LongCmd(spec_pack_words(spec_set_reg(0x16, (src >> 8u32) as u8), spec_set_reg(0x15, src as u8))),
        c2: LongCmd(spec_pack_words(spec_set_reg(0x14, (len >> 8u16) as u8), spec_set_reg(0x13, len as u8))),
        c3: LongCmd(spec_set_addr_w(dst, true, false)),
    }
}

/// The encoding of a video-memory fill: destination `dst`, `len` bytes,
/// fill byte `val`, autoincrement `inc`. The final slot carries a zero
/// placeholder word and the fill byte in the high half of its low word.
pub open spec fn spec_fill_cmd(dst: VRAMAddress, len: u16, val: u8, inc: u8) -> DMACommand {
    DMACommand {
        c0: LongCmd(spec_pack_words(spec_set_reg(0x0F, inc), spec_set_reg(0x17, 0x80))),
        c1: LongCmd(spec_pack_words(spec_set_reg(0x14, (len >> 8u16) as u8), spec_set_reg(0x13, len as u8))),
        c2: LongCmd(spec_set_addr_w(Address::VRAM(dst), true, false)),
        c3: LongCmd(spec_pack_words(0, ((val as u16) << 8u16) as u16)),
    }
}

/// The encoding of a video-memory-to-video-memory copy: `len` words from
/// `src` to `dst`, autoincrement `inc`.
pub open spec fn spec_copy_cmd(src: VRAMAddress, dst: VRAMAddress, len: u16, inc: u8) -> DMACommand {
    DMACommand {
        c0: LongCmd(spec_pack_words(spec_set_reg(0x0F, inc), spec_set_reg(0x17, 0xC0))),
        c1: LongCmd(spec_pack_words(spec_set_reg(0x16, (src.0 >> 8u16) as u8), spec_set_reg(0x15, src.0 as u8))),
        c2: LongCmd(spec_pack_words(spec_set_reg(0x14, (len >> 8u16) as u8), spec_set_reg(0x13, len as u8))),
        c3: LongCmd(spec_set_addr_w(Address::VRAM(dst), true, true)),
    }
}

/// The port traffic of executing one command: the first three slots as
/// 32-bit control writes, then either a 16-bit data write of the fill word
/// (when the final slot's placeholder half is zero) or a 32-bit control
/// write of the address command.
pub open spec fn spec_execute_writes(c: DMACommand) -> Seq<PortWrite> {
    seq![
        PortWrite::Ctrl32(c.c0.0),
        PortWrite::Ctrl32(c.c1.0),
        PortWrite::Ctrl32(c.c2.0),
    ] + if c.c3.0 >> 16u32 == 0 {
        seq![PortWrite::Data16(c.c3.0 as u16)]
    } else {
        seq![PortWrite::Ctrl32(c.c3.0)]
    }
}

/// Every write-address command has its placeholder half nonzero, so a
/// transfer or copy command always ends in a 32-bit control write; only a
/// fill command takes the 16-bit path.
pub proof fn lemma_addr_cmd_final_slot(addr: Address, dma: bool, copy: bool)
    ensures
        spec_set_addr_w(addr, dma, copy) >> 16u32 != 0,
{
    let base: u32 = match addr {
        Address::VRAM(_) => 0x40000000u32,
        Address::CRAM(_) => 0xC0000000u32,
        Address::VSRAM(_) => 0x40000010u32,
    };
    let c: u32 = if dma {
        base | 0x80
    } else {
        base
    };
    let c: u32 = if copy {
        c | 0x40
    } else {
        c
    };
    let a = addr.spec_byte_addr();
    assert((((a & 0x1C000) >> 14u32 | ((a & 0x3FFF) << 16u32) | c) as u32) >> 16u32 != 0)
        by (bit_vector)
        requires
            (base == 0x40000000u32 || base == 0xC0000000u32 || base == 0x40000010u32) && (c == base
                || c == base | 0x80 || c == base | 0x40 || c == (base | 0x80) | 0x40),
    ;
}

impl DMACommand {
    /// Encode a transfer from main memory into `dst`. `src` is the source
    /// address in words, `len` the transfer length in words; the source
    /// buffer must stay valid until the command executes.
    pub fn new_transfer(src: u32, dst: Address, len: u16, autoinc: Option<u8>) -> (r: Self)
        ensures
            r == spec_transfer_cmd(
                src,
                dst,
                len,
                match autoinc {
                    Some(v) => v,
                    None => 2,
                },
            ),
    {
        let inc: u8 = match autoinc {
            Some(v) => v,
            None => 2,
        };
        DMACommand {
            c0: LongCmd::from_words(
                WordCmd::set_reg(0x0F, inc),
                WordCmd::set_reg(0x17, (src >> 16u32) as u8),
            ),
            c1: LongCmd::from_words(
                WordCmd::set_reg(0x16, (src >> 8u32) as u8),
                WordCmd::set_reg(0x15, src as u8),
            ),
            c2: LongCmd::from_words(
                WordCmd::set_reg(0x14, (len >> 8u16) as u8),
                WordCmd::set_reg(0x13, len as u8),
            ),
            c3: LongCmd::set_addr_w(dst, true, false),
        }
    }

    /// Encode a fill of `len` bytes of video memory at `dst` with `val`.
    pub fn new_fill(dst: VRAMAddress, len: u16, val: u8, autoinc: Option<u8>) -> (r: Self)
        ensures
            r == spec_fill_cmd(
                dst,
                len,
                val,
                match autoinc {
                    Some(v) => v,
                    None => 1,
                },
            ),
    {
        let inc: u8 = match autoinc {
            Some(v) => v,
            None => 1,
        };
        DMACommand {
            c0: LongCmd::from_words(WordCmd::set_reg(0x0F, inc), WordCmd::set_reg(0x17, 0x80)),
            c1: LongCmd::from_words(
                WordCmd::set_reg(0x14, (len >> 8u16) as u8),
                WordCmd::set_reg(0x13, len as u8),
            ),
            c2: LongCmd::set_addr_w(Address::VRAM(dst), true, false),
            c3: LongCmd::from_words(WordCmd(0), WordCmd((val as u16) << 8u16)),
        }
    }

    /// Encode a copy of `len` words inside video memory, `src` to `dst`.
    pub fn new_copy(src: VRAMAddress, dst: VRAMAddress, len: u16, autoinc: Option<u8>) -> (r: Self)
        ensures
            r == spec_copy_cmd(
                src,
                dst,
                len,
                match autoinc {
                    Some(v) => v,
                    None => 1,
                },
            ),
    {
        let inc: u8 = match autoinc {
            Some(v) => v,
            None => 1,
        };
        let addr = src.word_addr();
        DMACommand {
            c0: LongCmd::from_words(WordCmd::set_reg(0x0F, inc), WordCmd::set_reg(0x17, 0xC0)),
            c1: LongCmd::from_words(
                WordCmd::set_reg(0x16, (addr >> 8u16) as u8),
                WordCmd::set_reg(0x15, addr as u8),
            ),
            c2: LongCmd::from_words(
                WordCmd::set_reg(0x14, (len >> 8u16) as u8),
                WordCmd::set_reg(0x13, len as u8),
            ),
            c3: LongCmd::set_addr_w(Address::VRAM(dst), true, true),
        }
    }

    /// Issue this command's register writes. The final slot is sent as a
    /// 16-bit data write when its placeholder half is zero (a fill), and as
    /// a 32-bit control write otherwise.
    pub fn execute(self, log: &mut PortLog)
        ensures
            final(log)@ == old(log)@ + spec_execute_writes(self),
    {
        log.put(PortWrite::Ctrl32(self.c0.0));
        log.put(PortWrite::Ctrl32(self.c1.0));
        log.put(PortWrite::Ctrl32(self.c2.0));
        if self.c3.0 >> 16u32 == 0 {
            log.put(PortWrite::Data16(self.c3.0 as u16));
        } else {
            log.put(PortWrite::Ctrl32(self.c3.0));
        }
        proof {
            assert(log@ =~= old(log)@ + spec_execute_writes(self));
        }
    }
}

} // verus!
