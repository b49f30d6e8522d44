use rustgames::msx::keyboard::{map_key, Keyboard};
use rustgames::msx::machine::MsxState;
use rustgames::msx::memory::Bus;
use rustgames::msx::ppi::Ppi;
use rustgames::msx::psg::Psg;
use rustgames::msx::vdp::{Vdp, FRAME_BYTES};
use rustgames::msx::z80::{BusAccess, Z80};

fn ram_bus(program: &[u8]) -> Bus {
    let mut bus = Bus::new();
    bus.slot_select = 0xFF;
    for (i, b) in program.iter().enumerate() {
        bus.ram[i] = *b;
    }
    bus
}

#[test]
fn z80_runs_a_small_program() {
    // LD A,5 ; ADD A,3 ; LD (0x8000),A ; HALT
    let mut bus = ram_bus(&[0x3E, 0x05, 0xC6, 0x03, 0x32, 0x00, 0x80, 0x76]);
    let mut cpu = Z80::new();
    assert_eq!(cpu.step(&mut bus), 7);
    assert_eq!(cpu.a, 5);
    assert_eq!(cpu.step(&mut bus), 7);
    assert_eq!(cpu.a, 8);
    assert_eq!(cpu.f & 0x01, 0);
    assert_eq!(cpu.f & 0x40, 0);
    assert_eq!(cpu.step(&mut bus), 13);
    assert_eq!(bus.ram[0x8000], 8);
    assert_eq!(cpu.step(&mut bus), 4);
    assert!(cpu.halted);
    assert_eq!(cpu.step(&mut bus), 4);
    assert_eq!(cpu.cycles, 35);
}

#[test]
fn z80_register_pairs() {
    let mut cpu = Z80::new();
    cpu.set_bc(0x1234);
    assert_eq!(cpu.b, 0x12);
    assert_eq!(cpu.c, 0x34);
    assert_eq!(cpu.bc(), 0x1234);
    cpu.set_de(0xBEEF);
    assert_eq!(cpu.de(), 0xBEEF);
    cpu.set_hl(0x0001);
    assert_eq!(cpu.hl(), 0x0001);
    cpu.set_af(0xFF00);
    assert_eq!(cpu.a, 0xFF);
    assert_eq!(cpu.af(), 0xFF00);
}

#[test]
fn z80_reset_and_interrupts() {
    let mut cpu = Z80::new();
    cpu.reset();
    assert_eq!(cpu.pc, 0);
    assert_eq!(cpu.sp, 0xFFFF);
    assert_eq!(cpu.a, 0xFF);
    assert_eq!(cpu.im, 1);
    let mut bus = ram_bus(&[]);
    // Interrupts disabled: nothing happens.
    cpu.interrupt(&mut bus, 0xFF);
    assert_eq!(cpu.pc, 0);
    // EI ; NOP
    let mut bus = ram_bus(&[0xFB, 0x00, 0x00]);
    let mut cpu = Z80::new();
    cpu.step(&mut bus);
    cpu.step(&mut bus);
    assert!(cpu.iff1);
    cpu.interrupt(&mut bus, 0xFF);
    assert_eq!(cpu.pc, 0x0038);
    assert!(!cpu.iff1);
    let mut cpu = Z80::new();
    let mut bus = ram_bus(&[]);
    cpu.nmi(&mut bus);
    assert_eq!(cpu.pc, 0x0066);
}

#[test]
fn vdp_ports() {
    let mut v = Vdp::new();
    v.write_ctrl(0x00);
    v.write_ctrl(0x40);
    v.write_data(0xAB);
    v.write_data(0xCD);
    assert_eq!(v.vram[0], 0xAB);
    assert_eq!(v.vram[1], 0xCD);
    v.write_ctrl(0x00);
    v.write_ctrl(0x00);
    assert_eq!(v.read_data(), 0xAB);
    assert_eq!(v.read_data(), 0xCD);
    v.write_ctrl(0x07);
    v.write_ctrl(0x87);
    assert_eq!(v.regs[7], 0x07);
    v.status = 0x9F;
    v.int_pending = true;
    assert!(!v.take_interrupt());
    assert_eq!(v.read_status(), 0x9F);
    assert_eq!(v.status, 0x1F);
    assert!(!v.int_pending);
}

#[test]
fn vdp_blank_frame_is_backdrop() {
    let mut v = Vdp::new();
    v.regs[7] = 0x07;
    let mut out = vec![1u8; FRAME_BYTES + 4];
    v.render_frame(&mut out);
    for q in [0usize, 1000, 49151] {
        assert_eq!(&out[q * 4..q * 4 + 4], &[66, 235, 245, 255]);
    }
    assert_eq!(&out[FRAME_BYTES..], &[1, 1, 1, 1]);
}

#[test]
fn vdp_graphic1_pattern_and_sprite() {
    let mut v = Vdp::new();
    // Display on, graphic 1 (no mode bits), 8x8 sprites.
    v.regs[1] = 0x40;
    v.regs[2] = 0x06; // names at 0x1800
    v.regs[3] = 0x80; // colours at 0x2000
    v.regs[4] = 0x00; // patterns at 0x0000
    v.regs[5] = 0x36; // sprite attributes at 0x1B00
    v.regs[6] = 0x07; // sprite patterns at 0x3800
    v.regs[7] = 0x04;
    // Character 1: top line 0x80 (leftmost pixel set); colours 0xF4 for chars 0-7.
    v.vram[8] = 0x80;
    v.vram[0x2000] = 0xF4;
    v.vram[0x1800] = 1;
    // Sprite 0 at x=16, y=10 (drawn from line 11), colour 8, pattern 0 = solid.
    v.vram[0x1B00] = 10;
    v.vram[0x1B01] = 16;
    v.vram[0x1B02] = 0;
    v.vram[0x1B03] = 8;
    for i in 0..8 {
        v.vram[0x3800 + i] = 0xFF;
    }
    v.vram[0x1B04] = 208;
    let mut out = vec![0u8; FRAME_BYTES];
    v.render_frame(&mut out);
    let px = |x: usize, y: usize| [out[(y * 256 + x) * 4], out[(y * 256 + x) * 4 + 1], out[(y * 256 + x) * 4 + 2]];
    assert_eq!(px(0, 0), [255, 255, 255]);
    assert_eq!(px(1, 0), [84, 85, 237]);
    assert_eq!(px(16, 11), [252, 85, 84]);
    assert_eq!(px(23, 18), [252, 85, 84]);
    assert_eq!(px(24, 18), [84, 85, 237]);
    assert_eq!(px(16, 10), [84, 85, 237]);
}

#[test]
fn keyboard_matrix() {
    assert_eq!(map_key("KeyA"), Some((2, 6)));
    assert_eq!(map_key("Digit0"), Some((0, 0)));
    assert_eq!(map_key("NoSuchKey"), None);
    let mut k = Keyboard::new();
    k.key_down("KeyA");
    assert_eq!(k.read_row(2), 0xBF);
    k.key_up("KeyA");
    assert_eq!(k.read_row(2), 0xFF);
    assert_eq!(k.read_row(11), 0xFF);
    let mut p = Ppi::new();
    k.key_down("KeyB");
    p.write(0xAA, 0x02, &k);
    assert_eq!(p.read(0xA9), 0x7F);
    assert_eq!(p.read(0xAA), 0x02);
    p.write(0xA8, 0xF0, &k);
    assert_eq!(p.read(0xA8), 0xF0);
    assert_eq!(p.read(0x10), 0xFF);
}

#[test]
fn psg_registers() {
    let mut p = Psg::new();
    p.write_addr(0x11);
    assert_eq!(p.addr, 1);
    p.write_data(0xFF);
    assert_eq!(p.read_data(), 0x0F);
    p.write_addr(7);
    p.write_data(0xB8);
    assert_eq!(p.read_data(), 0xB8);
    p.write_addr(14);
    p.write_data(0x3F);
    assert_eq!(p.port_a(), 0x3F);
    p.tick(81 * 3 + 5);
    assert_eq!(p.take_samples().len(), 3);
    assert_eq!(p.take_samples().len(), 0);
}

#[test]
fn psg_tone_levels() {
    let mut p = Psg::new();
    // Channel A tone only (mixer 0b111110), volume 12, period 1 (16 cycles).
    p.write_addr(7);
    p.write_data(0x3E);
    p.write_addr(8);
    p.write_data(12);
    p.write_addr(0);
    p.write_data(1);
    assert_eq!(p.mix_sample(), [0, 0, 0]);
    p.tick(16);
    assert_eq!(p.mix_sample(), [12, 0, 0]);
    p.tick(16);
    assert_eq!(p.mix_sample(), [0, 0, 0]);
}

#[test]
fn bus_slots_and_ports() {
    let mut bus = Bus::new();
    bus.load_bios(&[0x11, 0x22]);
    assert_eq!(bus.mem_read(0x0001), 0x22);
    assert_eq!(bus.mem_read(0x0002), 0xFF);
    bus.mem_write(0x0001, 0x99);
    assert_eq!(bus.mem_read(0x0001), 0x22);
    bus.io_write(0xA8, 0xFF);
    assert_eq!(bus.io_read(0xA8), 0xFF);
    assert_eq!(bus.ppi.port_a, 0xFF);
    bus.mem_write(0x1234, 0x56);
    assert_eq!(bus.mem_read(0x1234), 0x56);
    bus.io_write(0x01A0, 8);
    bus.io_write(0xA1, 0x3F);
    assert_eq!(bus.io_read(0xA2), 0x1F);
    bus.io_write(0x99, 0x00);
    bus.io_write(0x99, 0x40);
    bus.io_write(0x98, 0x42);
    assert_eq!(bus.vdp.vram[0], 0x42);
    bus.load_rom(&[0xAA, 0xBB]);
    bus.io_write(0xA8, 0x04);
    assert_eq!(bus.mem_read(0x4001), 0xBB);
    assert_eq!(bus.mem_read(0x4002), 0xFF);
}

#[test]
fn bios_boot_wait_is_shortened() {
    let mut image = vec![0u8; 0x2000];
    image[0x0DD3] = 0x06;
    image[0x0DD4] = 0x78;
    let mut bus = Bus::new();
    bus.load_bios(&image);
    assert_eq!(bus.bios[0x0DD4], 0x01);
    let mut other = vec![0u8; 0x2000];
    other[0x0DD4] = 0x78;
    bus.load_bios(&other);
    assert_eq!(bus.bios[0x0DD4], 0x78);
}

#[test]
fn machine_runs_a_frame() {
    let mut m = MsxState::new();
    assert_eq!(m.cpu.pc, 0);
    m.tick_frame();
    assert_eq!(m.audio_buffer.len(), 736);
    assert_eq!(m.bus.ram[0xFC9E], 1);
    assert!(m.cpu.cycles >= 59667);
    assert_eq!(&m.frame_buffer[0..4], &[0, 0, 0, 255]);
    m.tick_frame();
    assert_eq!(m.bus.ram[0xFC9E], 2);
}
