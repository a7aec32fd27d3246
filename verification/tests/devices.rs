use snowflake::apic::Apic;
use snowflake::pic::{init, master, slave, Pic, PicAction, PicChip};
use snowflake::shell::{is_whitespace, parse_command, Command};
use snowflake::vbe::{load, VBEModeInfo};

#[test]
fn pic_ports() {
    assert_eq!(master(), Pic { cmd: 0x20, data: 0x21 });
    assert_eq!(slave(), Pic { cmd: 0xA0, data: 0xA1 });
    assert_eq!(Pic::new(0x30).data, 0x31);
}

#[test]
fn pic_masks() {
    assert_eq!(Pic::mask_set(0b0000_0001, 3), 0b0000_1001);
    assert_eq!(Pic::mask_clear(0b0000_1001, 3), 0b0000_0001);
    assert_eq!(Pic::mask_clear(Pic::mask_set(0x10, 7), 7), 0x10);
    assert_eq!(Pic::mask_clear(0, 0), 0);
}

#[test]
fn pic_init_sequence() {
    let w = init();
    assert_eq!(w.len(), 14);
    assert_eq!(w[0], (0x21, 0xff));
    assert_eq!(w[2], (0x20, 0x11));
    assert_eq!(w[5], (0xA1, 0x28));
    assert_eq!(w[13], (0xA0, 0x20));
}

#[test]
fn interrupt_handling_plan() {
    assert_eq!(snowflake::pic::trigger(1), vec![PicAction::MaskSet(PicChip::Master, 1), PicAction::Ack(PicChip::Master)]);
    assert_eq!(
        snowflake::pic::trigger(12),
        vec![PicAction::MaskSet(PicChip::Slave, 4), PicAction::Ack(PicChip::Master), PicAction::Ack(PicChip::Slave)]
    );
    assert_eq!(snowflake::pic::trigger(16), vec![]);
}

#[test]
fn apic_commands() {
    let x2 = Apic { address: 0, x2: true };
    let xa = Apic { address: 0, x2: false };
    assert_eq!(x2.ipi(3), 0x0000_0003_0000_4040);
    assert_eq!(xa.ipi(3), 0x0300_0000_0000_4040);
    assert_eq!(xa.ipi(0x1FF), 0xFF00_0000_0000_4040);
    assert_eq!(Apic::icr_from_registers(0x1234, 0x5678), 0x1234_0000_5678);
    assert_eq!(Apic::icr_to_registers(0x1234_0000_5678), (0x1234, 0x5678));
    assert!(Apic::icr_pending(0x1000));
    assert!(!Apic::icr_pending(0x0FFF));
    assert_eq!(Apic::base_address(0xFEE0_0900, 0x100), 0xFEE0_0100);
    assert_eq!(Apic::x2_enable(0xFEE0_0900), 0xFEE0_0D00);
}

#[test]
fn apic_registers_round_trip() {
    let v = 0xDEAD_BEEF_0123_4567u64;
    let (hi, lo) = Apic::icr_to_registers(v);
    assert_eq!(Apic::icr_from_registers(hi, lo), v);
}

#[test]
fn shell_commands() {
    assert_eq!(parse_command("help"), Command::Help);
    assert_eq!(parse_command("  exit now"), Command::Exit);
    assert_eq!(parse_command("\tstart\n"), Command::Start);
    assert_eq!(parse_command("starts"), Command::Unknown);
    assert_eq!(parse_command("\u{3000}help"), Command::Help);
    assert!(is_whitespace('\u{85}'));
    assert!(!is_whitespace('a'));
}

#[test]
fn vbe_info() {
    let mut b = vec![0u8; 56];
    b[16..18].copy_from_slice(&4096u16.to_le_bytes());
    b[18..20].copy_from_slice(&1024u16.to_le_bytes());
    b[20..22].copy_from_slice(&768u16.to_le_bytes());
    b[25] = 32;
    b[40..44].copy_from_slice(&0xE000_0000u32.to_le_bytes());
    let m = load(&b);
    assert_eq!(m.pitch(), 4096);
    assert_eq!(m.x_res(), 1024);
    assert_eq!(m.y_res(), 768);
    assert_eq!(m.bpp, 32);
    assert_eq!(m.physbase, 0xE000_0000);
    let k = VBEModeInfo::from_bytes(&b);
    assert_eq!(k.xresolution, 1024);
    assert_eq!(k.yresolution, 768);
    assert_eq!(k.physbaseptr, 0xE000_0000);
    assert_eq!(k.bytesperscanline, 4096);
}
