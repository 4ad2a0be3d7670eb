use megadrive_rt::dma::DMACommand;
use megadrive_rt::machine::Machine;
use megadrive_rt::mask::IntMask;
use megadrive_rt::machine::VDP;
use megadrive_rt::ports::PortWrite;
use megadrive_rt::settings::HScrollMode;
use megadrive_rt::settings::InterlaceMode;
use megadrive_rt::settings::PlaneSize;
use megadrive_rt::settings::VScrollMode;
use megadrive_rt::settings::WindowClip;
use megadrive_rt::vdp::Address;
use megadrive_rt::vdp::Status;
use megadrive_rt::vdp::VRAMAddress;

fn fill(tag: u8) -> DMACommand {
    DMACommand::new_fill(VRAMAddress::from_word_addr(tag as u16), 0x10, tag, None)
}

// A status word with the blank window open and no transfer in flight.
fn open_window() -> Status {
    Status::new(0x8)
}

// Window open, but a transfer occupies the port.
fn busy_window() -> Status {
    Status::new(0x8 | 0x2)
}

// The beam is drawing again.
fn closed_window() -> Status {
    Status::new(0)
}

fn zero_pads() -> (u8, u8, u8, u8) {
    (0, 0, 0x0F, 0)
}

#[test]
fn schedule_backpressure_and_drain_step() {
    // Ring capacity 4: four schedules succeed, the fifth hands back the
    // identical command; one drain step then makes the retry succeed.
    let mut m = Machine::new(64, 4);
    critical_section::with(|cs| {
        for i in 0..4u8 {
            assert!(m.schedule(cs, fill(i)).is_ok());
        }
        let fifth = fill(9);
        assert_eq!(m.schedule(cs, fifth), Err(fifth));
        // Simulate one drain step: one idle poll inside the window, then
        // the window closes.
        let samples = vec![open_window(), open_window(), closed_window()];
        let ran = m.vblank_interrupt(cs, zero_pads(), zero_pads(), &samples);
        assert_eq!(ran, None);
        assert_eq!(m.schedule(cs, fifth), Ok(()));
    });
}

#[test]
fn vblank_rendezvous_runs_callback_exactly_once() {
    // A callback registered before the wait has run exactly once by the
    // time the wait returns, observed through a counter.
    let mut m = Machine::new(64, 4);
    let mut counter = 0u32;
    m.wait_for_vblank_begin(7);
    assert!(m.vint_pending());
    critical_section::with(|cs| {
        let samples = vec![open_window()];
        if let Some(handle) = m.vblank_interrupt(cs, zero_pads(), zero_pads(), &samples) {
            assert_eq!(handle, 7);
            counter += 1;
        }
        // The wait's poll now observes the cleared slot and returns.
        assert!(!m.vint_pending());
        assert_eq!(counter, 1);
        // A second interrupt finds nothing to run: exactly once.
        let samples = vec![open_window()];
        assert_eq!(m.vblank_interrupt(cs, zero_pads(), zero_pads(), &samples), None);
        assert_eq!(counter, 1);
    });
}

#[test]
fn vblank_drains_fifo_while_window_open() {
    let mut m = Machine::new(64, 8);
    critical_section::with(|cs| {
        assert!(m.schedule(cs, fill(1)).is_ok());
        assert!(m.schedule(cs, fill(2)).is_ok());
        assert!(m.schedule(cs, fill(3)).is_ok());
        // Enough idle polls to drain everything.
        let samples = vec![open_window(); 8];
        m.vblank_interrupt(cs, zero_pads(), zero_pads(), &samples);
    });
    // All three commands executed, oldest first: 12 writes, and the first
    // command's final slot is its fill word.
    assert_eq!(m.vdp.ports.len(), 12);
    assert_eq!(m.vdp.ports.get(3), PortWrite::Data16(0x0100));
    assert_eq!(m.vdp.ports.get(7), PortWrite::Data16(0x0200));
    assert_eq!(m.vdp.ports.get(11), PortWrite::Data16(0x0300));
}

#[test]
fn vblank_waits_out_busy_polls() {
    let mut m = Machine::new(64, 8);
    critical_section::with(|cs| {
        assert!(m.schedule(cs, fill(1)).is_ok());
        assert!(m.schedule(cs, fill(2)).is_ok());
        // First poll busy, one idle poll, then the window closes: exactly
        // one command drains.
        let samples = vec![open_window(), busy_window(), open_window(), closed_window()];
        m.vblank_interrupt(cs, zero_pads(), zero_pads(), &samples);
    });
    assert_eq!(m.vdp.ports.len(), 4);
}

#[test]
fn vblank_in_flight_transfer_defers_everything() {
    // If a transfer is still in flight when the interrupt samples the
    // status, neither the callback nor the queue is touched.
    let mut m = Machine::new(64, 4);
    m.wait_for_vblank_begin(3);
    critical_section::with(|cs| {
        assert!(m.schedule(cs, fill(1)).is_ok());
        let samples = vec![busy_window()];
        assert_eq!(m.vblank_interrupt(cs, zero_pads(), zero_pads(), &samples), None);
    });
    assert!(m.vint_pending());
    assert_eq!(m.vdp.ports.len(), 0);
}

#[test]
fn vblank_samples_controllers() {
    let mut m = Machine::new(64, 4);
    critical_section::with(|cs| {
        let samples = vec![open_window()];
        // Player two's pad reads idle: all lines high, inverted to nothing
        // pressed.
        m.vblank_interrupt(cs, (0x3E, 0x30, 0x0F, 0), (0x3F, 0x30, 0x0F, 0), &samples);
        let p1 = m.controller_1(cs);
        assert!(p1.up());
        assert!(!p1.start());
        let p2 = m.controller_2(cs);
        assert!(!p2.up() && !p2.start() && !p2.a());
    });
}

#[test]
fn allocator_entry_points_under_the_lock() {
    let mut m = Machine::new(1024, 4);
    critical_section::with(|cs| {
        let p = m.allocate(cs, 100, 2);
        assert_eq!(p, Some(924));
        assert_eq!(m.allocate(cs, 2000, 2), None);
        m.deallocate(cs, 924, 100, 2);
        assert_eq!(m.allocate(cs, 1022, 2), Some(2));
        m.deallocate(cs, 2, 1022, 2);
        let z = m.allocate_zeroed(cs, 8, 2).unwrap();
        for i in 0..8 {
            assert_eq!(m.heap.read_byte(z + i), 0);
        }
        let moved = m.reallocate(cs, z, 8, 2, 16).unwrap();
        for i in 0..8 {
            assert_eq!(m.heap.read_byte(moved + i), 0);
        }
    });
    assert_eq!(m.mask.level(), 1);
    assert!(!m.mask.is_active());
}

#[test]
fn settings_apply_writes_only_the_diff() {
    let mut m = Machine::new(64, 4);
    critical_section::with(|cs| {
        let unchanged = m.current_settings(cs);
        m.apply_settings(cs, unchanged, false);
        assert_eq!(m.vdp.ports.len(), 0);
        let mut s = m.current_settings(cs);
        s.set_background_color(1, 2);
        m.apply_settings(cs, s, false);
        assert_eq!(m.vdp.ports.len(), 1);
        assert_eq!(m.vdp.ports.get(0), PortWrite::Ctrl16(0x8712));
        assert_eq!(m.current_settings(cs).background_color, 0x12);
    });
}

#[test]
fn settings_apply_forced_writes_every_register() {
    let mut m = Machine::new(64, 4);
    critical_section::with(|cs| {
        let boot = m.current_settings(cs);
        m.apply_settings(cs, boot, true);
    });
    assert_eq!(m.vdp.ports.len(), 14);
    assert_eq!(m.vdp.ports.get(0), PortWrite::Ctrl16(0x8004)); // mode low byte
    assert_eq!(m.vdp.ports.get(1), PortWrite::Ctrl16(0x8174));
    assert_eq!(m.vdp.ports.get(2), PortWrite::Ctrl16(0x8B00));
    assert_eq!(m.vdp.ports.get(3), PortWrite::Ctrl16(0x8C81));
    assert_eq!(m.vdp.ports.get(4), PortWrite::Ctrl16(0x8230)); // plane A base
    assert_eq!(m.vdp.ports.get(5), PortWrite::Ctrl16(0x8407)); // plane B base
    assert_eq!(m.vdp.ports.get(6), PortWrite::Ctrl16(0x8578)); // sprite table
    assert_eq!(m.vdp.ports.get(7), PortWrite::Ctrl16(0x8334)); // window base
    assert_eq!(m.vdp.ports.get(8), PortWrite::Ctrl16(0x8D3D)); // hscroll base
    assert_eq!(m.vdp.ports.get(9), PortWrite::Ctrl16(0x9001)); // plane size
    assert_eq!(m.vdp.ports.get(10), PortWrite::Ctrl16(0x9100)); // window x clip
    assert_eq!(m.vdp.ports.get(11), PortWrite::Ctrl16(0x9200)); // window y clip
    assert_eq!(m.vdp.ports.get(12), PortWrite::Ctrl16(0x8700)); // background
    assert_eq!(m.vdp.ports.get(13), PortWrite::Ctrl16(0x8AFF)); // hint interval
}

#[test]
fn settings_field_round_trips() {
    let mut m = Machine::new(64, 4);
    critical_section::with(|cs| {
        let mut s = m.current_settings(cs);
        s.set_plane_a_base(VRAMAddress::from_word_addr(0x6000));
        assert_eq!(s.plane_a_base().word_addr(), 0x6000);
        s.set_plane_b_base(VRAMAddress::from_word_addr(0x7000));
        assert_eq!(s.plane_b_base().word_addr(), 0x7000);
        s.set_sprites_base(VRAMAddress::from_word_addr(0x7800));
        assert_eq!(s.sprites_base().word_addr(), 0x7800);
        s.set_plane_size(PlaneSize::Size64x64);
        assert_eq!(s.plane_size(), PlaneSize::Size64x64);
        s.enable_display(true);
        assert_eq!(s.mode & 0x4000, 0x4000);
        s.enable_display(false);
        assert_eq!(s.mode & 0x4000, 0);
    });
}

#[test]
fn vdp_direct_commands() {
    let mut v = VDP::new(4);
    v.set_autoinc(2);
    v.set_address(Address::VRAM(VRAMAddress::from_word_addr(0x0100)));
    assert_eq!(v.ports.get(0), PortWrite::Ctrl16(0x8F02));
    assert_eq!(v.ports.get(1), PortWrite::Ctrl32(0x4200_0000));
}

#[test]
fn debug_alert_even_and_odd_messages() {
    let mut v = VDP::new(4);
    let msg: Vec<u8> = vec![0x61, 0x62];
    v.debug_alert(&msg);
    assert_eq!(v.ports.len(), 2);
    assert_eq!(v.ports.get(0), PortWrite::Ctrl32(0x9E61_9E62));
    assert_eq!(v.ports.get(1), PortWrite::Ctrl16(0x9E00));
    let mut v = VDP::new(4);
    let msg: Vec<u8> = vec![0x61, 0x62, 0x63];
    v.debug_alert(&msg);
    assert_eq!(v.ports.len(), 2);
    assert_eq!(v.ports.get(0), PortWrite::Ctrl32(0x9E61_9E62));
    assert_eq!(v.ports.get(1), PortWrite::Ctrl32(0x9E63_9E00));
    v.debug_halt();
    assert_eq!(v.ports.get(2), PortWrite::Ctrl16(0x9D00));
}

#[test]
fn mask_bracket_levels() {
    let mut mask = IntMask::new();
    assert_eq!(mask.level(), 7);
    assert!(!mask.is_active());
    let s = mask.acquire(7, 1);
    assert_eq!(mask.level(), 7);
    assert!(mask.is_active());
    assert_eq!(s.restore_level(), 1);
    mask.release(s);
    assert_eq!(mask.level(), 1);
    assert!(!mask.is_active());
}

#[test]
fn settings_mode_bit_setters() {
    let mut m = Machine::new(64, 4);
    critical_section::with(|cs| {
        let mut s = m.current_settings(cs);
        let base = s.mode;
        s.enable_interrupts(true, false, false);
        assert_eq!(s.mode & 0x82010, 0x2000);
        s.enable_interrupts(true, true, true);
        assert_eq!(s.mode & 0x82010, 0x82010);
        s.enable_interrupts(false, false, false);
        assert_eq!(s.mode & 0x82010, 0);
        s.set_scroll_mode(HScrollMode::CellScroll, VScrollMode::FullScroll);
        assert_eq!(s.mode & 0x30000, 0x20000);
        s.set_interlace_mode(InterlaceMode::DoubleRes);
        assert_eq!(s.mode & 0x6000000, 0x6000000);
        s.enable_dma(true);
        assert_eq!(s.mode & 0x1000, 0x1000);
        s.enable_shadow_highlight(true);
        assert_eq!(s.mode & 0x8000000, 0x8000000);
        s.enable_v30(true);
        assert_eq!(s.mode & 0x800, 0x800);
        s.enable_h40(true);
        assert_eq!(s.mode & 0x81000000, 0x81000000);
        s.stop_hv_on_xint(true);
        assert_eq!(s.mode & 0x2, 0x2);
        s.modify_mode(base, 0xFFFF_FFFF);
        assert_eq!(s.mode, base);
        s.set_hint_interval(5);
        assert_eq!(s.hint_interval, 5);
        s.set_window_clip(WindowClip::After(3), WindowClip::Before(4));
        assert_eq!(s.window_x_clip(), WindowClip::After(3));
        assert_eq!(s.window_y_clip(), WindowClip::Before(4));
        s.set_window_base(VRAMAddress::from_word_addr(0x6800));
        assert_eq!(s.window_base().word_addr(), 0x6800);
        s.set_hscroll_base(VRAMAddress::from_word_addr(0x7A00));
        assert_eq!(s.hscroll_base().word_addr(), 0x7A00);
    });
}

#[test]
fn settings_plane_tile_addresses() {
    let mut m = Machine::new(64, 4);
    critical_section::with(|cs| {
        let mut s = m.current_settings(cs);
        s.set_plane_a_base(VRAMAddress::from_word_addr(0x6000));
        s.set_plane_size(PlaneSize::Size64x32);
        assert_eq!(s.plane_a_tile(1, 2).word_addr(), 0x6000 + (2 << 6) + 1);
        s.set_plane_b_base(VRAMAddress::from_word_addr(0x7000));
        assert_eq!(s.plane_b_tile(0, 1).word_addr(), 0x7000 + (1 << 6));
        s.set_window_base(VRAMAddress::from_word_addr(0x6800));
        assert_eq!(s.window_tile(3, 0).word_addr(), 0x6803);
    });
}

#[test]
fn vblank_two_step_runs_callback_before_drain() {
    // The interrupt's order: sample input, run the callback, then drain.
    // With the split entry points the callback runs between the halves, so
    // work it schedules drains in the same frame.
    let mut m = Machine::new(64, 4);
    m.wait_for_vblank_begin(5);
    critical_section::with(|cs| {
        let ran = m.vblank_enter(cs, zero_pads(), zero_pads(), open_window());
        assert_eq!(ran, Some(5));
        // The shell runs the callback here; this one queues a command.
        assert!(m.schedule(cs, fill(4)).is_ok());
        let samples = vec![open_window(), open_window()];
        m.vblank_drain(cs, &samples);
    });
    assert!(!m.vint_pending());
    // The command the callback queued was executed this frame.
    assert_eq!(m.vdp.ports.len(), 4);
    assert_eq!(m.vdp.ports.get(3), PortWrite::Data16(0x0400));
}

#[test]
fn vblank_enter_busy_port_defers_callback() {
    let mut m = Machine::new(64, 4);
    m.wait_for_vblank_begin(6);
    critical_section::with(|cs| {
        assert_eq!(m.vblank_enter(cs, zero_pads(), zero_pads(), busy_window()), None);
    });
    // The callback stays registered for the next frame.
    assert!(m.vint_pending());
    critical_section::with(|cs| {
        assert_eq!(m.vblank_enter(cs, zero_pads(), zero_pads(), open_window()), Some(6));
    });
    assert!(!m.vint_pending());
}
