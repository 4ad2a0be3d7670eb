use megadrive_rt::dma::DMACommand;
use megadrive_rt::ports::PortLog;
use megadrive_rt::ports::PortWrite;
use megadrive_rt::vdp::Address;
use megadrive_rt::vdp::VRAMAddress;

#[test]
fn fill_encoding_exact_slots() {
    let c = DMACommand::new_fill(VRAMAddress::from_word_addr(0x0100), 0x100, 0x7, None);
    assert_eq!(c.c0.0, 0x8F01_9780); // autoinc 1, source-high register fill mode
    assert_eq!(c.c1.0, 0x9401_9300); // length 0x0100 split across two registers
    assert_eq!(c.c2.0, 0x4200_0080); // destination address with DMA-start bit
    assert_eq!(c.c3.0, 0x0000_0700); // null placeholder + fill byte in high half
}

#[test]
fn transfer_encoding_exact_slots() {
    let c = DMACommand::new_transfer(
        0x0001_1234,
        Address::VRAM(VRAMAddress::from_word_addr(0x0100)),
        0x100,
        None,
    );
    assert_eq!(c.c0.0, 0x8F02_9701); // autoinc 2, source address bits 16..22
    assert_eq!(c.c1.0, 0x9612_9534); // source address mid/low bytes
    assert_eq!(c.c2.0, 0x9401_9300); // length 0x0100
    assert_eq!(c.c3.0, 0x4200_0080); // destination + DMA-start
}

#[test]
fn copy_encoding_exact_slots() {
    let c = DMACommand::new_copy(
        VRAMAddress::from_word_addr(0x0234),
        VRAMAddress::from_word_addr(0x0100),
        0x40,
        None,
    );
    assert_eq!(c.c0.0, 0x8F01_97C0); // autoinc 1, copy mode
    assert_eq!(c.c1.0, 0x9602_9534); // source word address split
    assert_eq!(c.c2.0, 0x9400_9340); // length 0x0040
    assert_eq!(c.c3.0, 0x4200_00C0); // destination + DMA-start + VRAM-copy
}

#[test]
fn fill_execution_ends_in_16_bit_write() {
    // The fill quirk: the final slot's placeholder half is zero, so the
    // execution emits a 16-bit data-port write of the fill word, not the
    // usual 32-bit control write.
    let c = DMACommand::new_fill(VRAMAddress::from_word_addr(0x0100), 0x100, 0x7, None);
    let mut log = PortLog::new();
    c.execute(&mut log);
    assert_eq!(log.len(), 4);
    assert_eq!(log.get(0), PortWrite::Ctrl32(0x8F01_9780));
    assert_eq!(log.get(1), PortWrite::Ctrl32(0x9401_9300));
    assert_eq!(log.get(2), PortWrite::Ctrl32(0x4200_0080));
    assert_eq!(log.get(3), PortWrite::Data16(0x0700));
}

#[test]
fn transfer_execution_ends_in_32_bit_write() {
    // A transfer of the same length always ends in a 32-bit control write.
    let c = DMACommand::new_transfer(
        0x0001_1234,
        Address::VRAM(VRAMAddress::from_word_addr(0x0100)),
        0x100,
        None,
    );
    let mut log = PortLog::new();
    c.execute(&mut log);
    assert_eq!(log.len(), 4);
    assert!(matches!(log.get(3), PortWrite::Ctrl32(0x4200_0080)));
}

#[test]
fn copy_execution_ends_in_32_bit_write() {
    let c = DMACommand::new_copy(
        VRAMAddress::from_word_addr(0x0234),
        VRAMAddress::from_word_addr(0x0100),
        0x40,
        None,
    );
    let mut log = PortLog::new();
    c.execute(&mut log);
    assert_eq!(log.len(), 4);
    assert!(matches!(log.get(3), PortWrite::Ctrl32(0x4200_00C0)));
}

#[test]
fn explicit_autoincrement_is_used() {
    let c = DMACommand::new_fill(VRAMAddress::from_word_addr(0), 2, 0xFF, Some(4));
    assert_eq!(c.c0.0 >> 16, 0x8F04);
}
