use megadrive_rt::io::ControllerState;
use megadrive_rt::io::SystemVersion;
use megadrive_rt::ports::PortLog;
use megadrive_rt::ports::PortWrite;
use megadrive_rt::settings::PlaneSize;
use megadrive_rt::settings::WindowClip;
use megadrive_rt::vdp::Address;
use megadrive_rt::vdp::LongCmd;
use megadrive_rt::vdp::SpriteSize;
use megadrive_rt::vdp::Sprite;
use megadrive_rt::vdp::Status;
use megadrive_rt::vdp::TileFlags;
use megadrive_rt::vdp::VRAMAddress;
use megadrive_rt::vdp::WordCmd;
use megadrive_rt::vdp::Writer;

#[test]
fn vram_address_conversions() {
    assert_eq!(VRAMAddress::from_byte_addr(0x202).word_addr(), 0x101);
    assert_eq!(VRAMAddress::from_word_addr(0x101).byte_addr(), 0x202);
    assert_eq!(VRAMAddress::from_tile_index(5).word_addr(), 5 << 5);
    assert_eq!(VRAMAddress::from_tile_index(0x805).word_addr(), 5 << 5);
}

#[test]
fn address_spaces() {
    assert_eq!(Address::VRAM(VRAMAddress::from_word_addr(0x80)).byte_addr(), 0x100);
    assert_eq!(Address::CRAM(0x20).byte_addr(), 0x20);
    assert_eq!(Address::VSRAM(0x10).word_addr(), 0x08);
    assert_eq!(Address::cram_line(2), Address::CRAM(0x20));
}

#[test]
fn word_cmd_register_encoding() {
    assert_eq!(WordCmd::set_reg(0, 0x04).0, 0x8004);
    assert_eq!(WordCmd::set_reg(0x0F, 2).0, 0x8F02);
    assert_eq!(WordCmd::set_reg(30, 0x61).0, 0x9E61);
    // Register numbers wrap to five bits.
    assert_eq!(WordCmd::set_reg(0x3F, 0).0, 0x9F00);
}

#[test]
fn long_cmd_address_encoding() {
    let a = Address::VRAM(VRAMAddress::from_word_addr(0x0100));
    assert_eq!(LongCmd::set_addr_w(a, false, false).0, 0x4200_0000);
    assert_eq!(LongCmd::set_addr_w(a, true, false).0, 0x4200_0080);
    assert_eq!(LongCmd::set_addr_w(Address::CRAM(0x20), false, false).0, 0xC020_0000);
    assert_eq!(LongCmd::set_addr_r(a, false, false).0, 0x0200_0000);
    assert_eq!(LongCmd::from_words(WordCmd(0x1234), WordCmd(0x5678)).0, 0x1234_5678);
    // The top address bits move into the low half of the command.
    let high = Address::VRAM(VRAMAddress::from_word_addr(0xA000));
    assert_eq!(LongCmd::set_addr_w(high, false, false).0, 0x4000_0001);
}

#[test]
fn tile_flags_bit_fields() {
    let f = TileFlags::for_tile(0x123, 2);
    assert_eq!(f.0, 0x4123);
    assert_eq!(f.tile_index(), 0x123);
    assert_eq!(f.palette(), 2);
    assert!(!f.priority());
    let f = f.with_priority(true);
    assert!(f.priority());
    assert_eq!(f.0, 0xC123);
    let f = f.with_flip_h(true).with_flip_v(true);
    assert!(f.flip_h() && f.flip_v());
    let f = f.with_flip_h(false);
    assert!(!f.flip_h() && f.flip_v());
    let f = f.with_tile_index(0x7FF);
    assert_eq!(f.tile_index(), 0x7FF);
    let mut g = TileFlags::zeroed();
    g.set_palette(7); // wraps to two bits
    assert_eq!(g.palette(), 3);
}

#[test]
fn sprite_sizes() {
    assert_eq!(SpriteSize::for_size(3, 2).width(), 3);
    assert_eq!(SpriteSize::for_size(3, 2).height(), 2);
    assert_eq!(SpriteSize::Size4x4.width(), 4);
    assert_eq!(SpriteSize::Size1x1.height(), 1);
}

#[test]
fn sprite_flag_accessors() {
    let mut s = Sprite::with_flags(TileFlags::for_tile(7, 1), SpriteSize::Size2x2);
    assert_eq!(s.flags().tile_index(), 7);
    s.set_flags(TileFlags::for_tile(9, 0));
    assert_eq!(s.flags().tile_index(), 9);
    s.flags_mut().set_priority(true);
    assert!(s.flags().priority());
}

#[test]
fn status_bits() {
    let s = Status::new(0x3FF);
    assert!(s.is_pal());
    assert!(s.dma_in_progress());
    assert!(s.in_hblank());
    assert!(s.in_vblank());
    assert!(s.odd_interlace_frame());
    assert!(s.sprite_collision());
    assert!(s.sprite_limit_hit());
    assert!(s.vint_occurred());
    assert!(s.fifo_full());
    assert!(s.fifo_empty());
    let z = Status::new(0);
    assert!(!z.in_vblank() && !z.dma_in_progress() && !z.is_pal());
}

#[test]
fn plane_size_geometry() {
    assert_eq!(PlaneSize::Size64x32.width_tiles(), 64);
    assert_eq!(PlaneSize::Size64x32.height_tiles(), 32);
    assert_eq!(PlaneSize::Size64x32.raw_value(), 0x01);
    assert_eq!(PlaneSize::Size64x64.raw_value(), 0x12);
    assert_eq!(PlaneSize::Size128x32.x_mask(), 127);
    assert_eq!(PlaneSize::Size32x128.y_mask(), 127);
    assert_eq!(PlaneSize::Size64x32.tile_offset(2, 3), (3 << 6) + 2);
    // Coordinates wrap to the plane.
    assert_eq!(PlaneSize::Size32x32.tile_offset(33, 0), 1);
    let base = VRAMAddress::from_word_addr(0xC000);
    assert_eq!(PlaneSize::Size64x32.tile_offset_from(base, 1, 1).word_addr(), 0xC041);
}

#[test]
fn window_clip_encoding() {
    assert_eq!(WindowClip::Before(10).raw_value(), 10);
    assert_eq!(WindowClip::After(10).raw_value(), 0x8A);
    assert_eq!(WindowClip::Before(0x3F).raw_value(), 0x1F);
}

#[test]
fn writer_streams_word_pairs() {
    let w = Writer::new(Address::VSRAM(0)).with_autoinc(Some(2));
    let mut log = PortLog::new();
    let words: Vec<u16> = vec![1, 2, 3];
    w.write(&mut log, &words);
    assert_eq!(log.len(), 4);
    assert_eq!(log.get(0), PortWrite::Ctrl16(0x8F02));
    assert_eq!(log.get(1), PortWrite::Ctrl32(0x4000_0010));
    assert_eq!(log.get(2), PortWrite::Data32(0x0001_0002));
    assert_eq!(log.get(3), PortWrite::Data16(3));
}

#[test]
fn writer_without_autoinc() {
    let w = Writer::new(Address::VRAM(VRAMAddress::from_word_addr(0)));
    let mut log = PortLog::new();
    let words: Vec<u16> = vec![7, 8];
    w.write(&mut log, &words);
    assert_eq!(log.len(), 2);
    assert_eq!(log.get(0), PortWrite::Ctrl32(0x4000_0000));
    assert_eq!(log.get(1), PortWrite::Data32(0x0007_0008));
}

#[test]
fn system_version_bits() {
    let v = SystemVersion::new(0xA3);
    assert_eq!(v.revision(), 3);
    assert!(v.has_fdd());
    assert!(!v.is_pal());
    assert!(v.is_ntsc());
    assert!(v.is_overseas());
    let w = SystemVersion::new(0x40);
    assert!(w.is_pal() && !w.is_ntsc());
}

#[test]
fn controller_sample_composition() {
    // Three-button pad: probe's low nibble stays high, so the extra
    // buttons read as pressed after inversion.
    let c = ControllerState::new().init();
    let c = c.update(0x3E, 0x30, 0x0F, 0);
    assert!(c.up());
    assert!(!c.down() && !c.left() && !c.right());
    assert!(!c.start() && !c.a() && !c.b() && !c.c());
    assert!(c.x() && c.y() && c.z() && c.mode());
    // Six-button pad: probe's low nibble drops, the third byte carries
    // mode/x/y/z (active low).
    let c = c.update(0x3F, 0x30, 0x00, 0x0E);
    assert!(!c.up());
    assert!(c.z());
    assert!(!c.x() && !c.y() && !c.mode());
}
