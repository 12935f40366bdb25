use chip8::chip8::Chip8;
use chip8::model::{HEIGHT, OFF_COLOR, ON_COLOR, WIDTH};

const START: u16 = 0x200;

fn machine(rom: &[u8]) -> Chip8 {
    let mut c = Chip8::new();
    c.load(rom);
    c
}

fn step(c: &mut Chip8) {
    assert!(c.can_step());
    c.execute(0);
}

fn steps(c: &mut Chip8, n: usize) {
    for _ in 0..n {
        step(c);
    }
}

fn pixel(c: &Chip8, x: usize, y: usize) -> u32 {
    c.get_buffer()[y * WIDTH + x]
}

#[test]
fn new_machine_is_blank() {
    let c = Chip8::new();
    assert_eq!(c.pc(), START);
    assert_eq!(c.index(), 0);
    assert_eq!(c.delay(), 0);
    for n in 0..16 {
        assert_eq!(c.get_reg(n), 0);
    }
    assert_eq!(c.keys, vec![false; 16]);
    assert_eq!(c.get_buffer().len(), WIDTH * HEIGHT);
    assert!(c.get_buffer().iter().all(|p| *p == OFF_COLOR));
}

#[test]
fn font_is_at_address_zero() {
    // A000: I = 0; F465: V0..=V4 = memory[0..5]
    let mut c = machine(&[0xA0, 0x00, 0xF4, 0x65]);
    steps(&mut c, 2);
    let zero = [0xF0, 0x90, 0x90, 0x90, 0xF0];
    for k in 0..5 {
        assert_eq!(c.get_reg(k as u8), zero[k]);
    }
    assert_eq!(c.index(), 5);
}

#[test]
fn load_copies_rom_and_reports_length() {
    let mut c = Chip8::new();
    assert_eq!(c.load(&[0x60, 0x2A]), 2);
    step(&mut c);
    assert_eq!(c.get_reg(0), 0x2A);
}

#[test]
fn load_truncates_to_program_area() {
    let mut c = Chip8::new();
    let rom = vec![0x12u8; 5000];
    assert_eq!(c.load(&rom), 4096 - 0x200);
}

#[test]
fn empty_rom_leaves_memory_cleared() {
    let mut c = Chip8::new();
    assert_eq!(c.load(&[]), 0);
    assert!(!c.can_step());
}

#[test]
fn add_immediate_with_and_without_carry() {
    let mut c = machine(&[0x61, 0xFA, 0x71, 0x0A, 0x72, 0x05]);
    steps(&mut c, 2);
    assert_eq!(c.get_reg(1), 4);
    assert_eq!(c.get_reg(0xF), 1);
    step(&mut c);
    assert_eq!(c.get_reg(2), 5);
    assert_eq!(c.get_reg(0xF), 0);
}

#[test]
fn add_registers_keeps_the_carry() {
    // V1 = 200, V2 = 100, V1 += V2
    let mut c = machine(&[0x61, 200, 0x62, 100, 0x81, 0x24]);
    steps(&mut c, 3);
    assert_eq!(c.get_reg(1), 44);
    assert_eq!(c.get_reg(0xF), 1);
    assert_eq!(c.get_reg(1) as u32 + 256 * c.get_reg(0xF) as u32, 300);
}

#[test]
fn flag_wins_when_vf_is_the_destination() {
    // VF = 1, V1 = 2, VF += V1: sum 3 written, then the carry 0 overwrites it
    let mut c = machine(&[0x6F, 0x01, 0x61, 0x02, 0x8F, 0x14]);
    steps(&mut c, 3);
    assert_eq!(c.get_reg(0xF), 0);
}

#[test]
fn sub_sets_no_borrow_flag() {
    let mut c = machine(&[0x61, 5, 0x62, 10, 0x81, 0x25, 0x63, 10, 0x64, 5, 0x83, 0x45]);
    steps(&mut c, 3);
    assert_eq!(c.get_reg(1), 251);
    assert_eq!(c.get_reg(0xF), 0);
    steps(&mut c, 3);
    assert_eq!(c.get_reg(3), 5);
    assert_eq!(c.get_reg(0xF), 1);
}

#[test]
fn subn_sets_no_borrow_flag() {
    // V1 = 10, V2 = 5, V1 = V2 - V1
    let mut c = machine(&[0x61, 10, 0x62, 5, 0x81, 0x27]);
    steps(&mut c, 3);
    assert_eq!(c.get_reg(1), 251);
    assert_eq!(c.get_reg(0xF), 0);
}

#[test]
fn shifts_use_vy_and_report_the_lost_bit() {
    // V2 = 0x81; V1 = V2 >> 1; V3 = V2 << 1
    let mut c = machine(&[0x62, 0x81, 0x81, 0x26, 0x83, 0x2E]);
    steps(&mut c, 2);
    assert_eq!(c.get_reg(1), 0x40);
    assert_eq!(c.get_reg(0xF), 1);
    step(&mut c);
    assert_eq!(c.get_reg(3), 0x02);
    assert_eq!(c.get_reg(0xF), 1);
}

#[test]
fn logic_ops_reset_vf() {
    let mut c = machine(&[
        0x6F, 0x07, 0x61, 0x0C, 0x62, 0x0A, 0x81, 0x21, 0x6F, 0x07, 0x63, 0x0C, 0x83, 0x22,
        0x6F, 0x07, 0x64, 0x0C, 0x84, 0x23,
    ]);
    steps(&mut c, 4);
    assert_eq!(c.get_reg(1), 0x0E);
    assert_eq!(c.get_reg(0xF), 0);
    steps(&mut c, 3);
    assert_eq!(c.get_reg(3), 0x08);
    assert_eq!(c.get_reg(0xF), 0);
    steps(&mut c, 3);
    assert_eq!(c.get_reg(4), 0x06);
    assert_eq!(c.get_reg(0xF), 0);
}

#[test]
fn copy_register() {
    let mut c = machine(&[0x62, 0x33, 0x81, 0x20]);
    steps(&mut c, 2);
    assert_eq!(c.get_reg(1), 0x33);
}

#[test]
fn skips_advance_by_two_instructions() {
    // V1 = 5; 3105 skips; 4105 does not; 5120 with V2 = 0 does not; 9120 skips
    let mut c = machine(&[0x61, 0x05, 0x31, 0x05]);
    steps(&mut c, 2);
    assert_eq!(c.pc(), START + 6);
    let mut c = machine(&[0x61, 0x05, 0x41, 0x05]);
    steps(&mut c, 2);
    assert_eq!(c.pc(), START + 4);
    let mut c = machine(&[0x61, 0x05, 0x51, 0x20]);
    steps(&mut c, 2);
    assert_eq!(c.pc(), START + 4);
    let mut c = machine(&[0x61, 0x05, 0x91, 0x20]);
    steps(&mut c, 2);
    assert_eq!(c.pc(), START + 6);
}

#[test]
fn jumps() {
    let mut c = machine(&[0x12, 0x34]);
    step(&mut c);
    assert_eq!(c.pc(), 0x234);
    let mut c = machine(&[0x60, 0x04, 0xB3, 0x00]);
    steps(&mut c, 2);
    assert_eq!(c.pc(), 0x304);
}

#[test]
fn call_then_return_resumes_after_the_call() {
    // 0x200: call 0x206; 0x206: return
    let mut c = machine(&[0x22, 0x06, 0x00, 0x00, 0x00, 0x00, 0x00, 0xEE]);
    step(&mut c);
    assert_eq!(c.pc(), 0x206);
    step(&mut c);
    assert_eq!(c.pc(), START + 2);
}

#[test]
fn stack_overflow_and_underflow_are_refused() {
    // 0x200 calls itself forever
    let mut c = machine(&[0x22, 0x00]);
    steps(&mut c, 16);
    assert!(!c.can_step());
    // a return with nothing to return to
    let c = machine(&[0x00, 0xEE]);
    assert!(!c.can_step());
}

#[test]
fn unknown_opcodes_are_refused() {
    assert!(!machine(&[0x00, 0x00]).can_step());
    assert!(!machine(&[0x51, 0x21]).can_step());
    assert!(!machine(&[0x81, 0x28]).can_step());
    assert!(!machine(&[0xF1, 0xFF]).can_step());
}

#[test]
fn random_byte_is_masked() {
    let mut c = machine(&[0xC1, 0x0F, 0xC2, 0xF0]);
    assert!(c.can_step());
    c.execute(0xAB);
    assert_eq!(c.get_reg(1), 0x0B);
    c.run();
    assert_eq!(c.get_reg(2) & 0x0F, 0);
    assert_eq!(c.pc(), START + 4);
}

#[test]
fn draw_waits_for_a_frame() {
    // I = 0 (glyph 0); draw 5 rows at (V0, V1) = (0, 0)
    let mut c = machine(&[0xA0, 0x00, 0xD0, 0x15]);
    step(&mut c);
    step(&mut c);
    assert_eq!(c.pc(), START + 2);
    assert!(c.get_buffer().iter().all(|p| *p == OFF_COLOR));
    c.set_vblank();
    step(&mut c);
    assert_eq!(c.pc(), START + 4);
    assert_eq!(pixel(&c, 0, 0), ON_COLOR);
    assert_eq!(pixel(&c, 3, 0), ON_COLOR);
    assert_eq!(pixel(&c, 4, 0), OFF_COLOR);
    assert_eq!(pixel(&c, 1, 1), OFF_COLOR);
    assert_eq!(pixel(&c, 0, 1), ON_COLOR);
    assert_eq!(c.get_reg(0xF), 0);
}

#[test]
fn draw_consumes_the_frame() {
    // draw, then jump back to the same draw
    let mut c = machine(&[0xA0, 0x00, 0xD0, 0x15, 0x12, 0x02]);
    step(&mut c);
    c.set_vblank();
    steps(&mut c, 2);
    assert_eq!(c.pc(), START + 2);
    let before: Vec<u32> = c.get_buffer().to_vec();
    step(&mut c);
    assert_eq!(c.pc(), START + 2);
    assert_eq!(c.get_buffer(), &before[..]);
}

#[test]
fn redraw_erases_and_reports_collision() {
    let mut c = machine(&[0xA0, 0x00, 0xD0, 0x15, 0xD0, 0x15]);
    step(&mut c);
    c.set_vblank();
    step(&mut c);
    c.set_vblank();
    step(&mut c);
    assert!(c.get_buffer().iter().all(|p| *p == OFF_COLOR));
    assert_eq!(c.get_reg(0xF), 1);
}

#[test]
fn sprites_are_clipped_at_the_edges() {
    // V0 = 60, V1 = 30: glyph 0 at the bottom-right corner
    let mut c = machine(&[0x60, 60, 0x61, 30, 0xA0, 0x00, 0xD0, 0x15]);
    steps(&mut c, 3);
    c.set_vblank();
    step(&mut c);
    let lit = c.get_buffer().iter().filter(|p| **p == ON_COLOR).count();
    // rows 0xF0 and 0x90 of the glyph: 4 + 2 pixels
    assert_eq!(lit, 6);
    assert_eq!(pixel(&c, 0, 0), OFF_COLOR);
    assert_eq!(pixel(&c, 63, 30), ON_COLOR);
}

#[test]
fn sprite_position_wraps() {
    // V0 = 66 = 64 + 2, V1 = 33 = 32 + 1
    let mut c = machine(&[0x60, 66, 0x61, 33, 0xA0, 0x00, 0xD0, 0x11]);
    steps(&mut c, 3);
    c.set_vblank();
    step(&mut c);
    assert_eq!(pixel(&c, 2, 1), ON_COLOR);
    assert_eq!(pixel(&c, 5, 1), ON_COLOR);
    assert_eq!(pixel(&c, 6, 1), OFF_COLOR);
}

#[test]
fn clear_screen() {
    let mut c = machine(&[0xA0, 0x00, 0xD0, 0x15, 0x00, 0xE0]);
    step(&mut c);
    c.set_vblank();
    steps(&mut c, 2);
    assert!(c.get_buffer().iter().all(|p| *p == OFF_COLOR));
    assert_eq!(c.pc(), START + 6);
}

#[test]
fn bcd_spells_the_decimal_digits() {
    // V0 = 254; I = 0x300; BCD; V0..=V2 = memory[0x300..0x303]
    let mut c = machine(&[0x60, 254, 0xA3, 0x00, 0xF0, 0x33, 0xF2, 0x65]);
    steps(&mut c, 3);
    assert_eq!(c.index(), 0x300);
    step(&mut c);
    assert_eq!((c.get_reg(0), c.get_reg(1), c.get_reg(2)), (2, 5, 4));
}

#[test]
fn store_then_load_gives_registers_back() {
    let mut c = machine(&[
        0x60, 1, 0x61, 2, 0x62, 3, 0xA3, 0x00, 0xF2, 0x55, 0x60, 0, 0x61, 0, 0x62, 0, 0xA3, 0x00,
        0xF2, 0x65,
    ]);
    steps(&mut c, 5);
    assert_eq!(c.index(), 0x303);
    steps(&mut c, 5);
    assert_eq!((c.get_reg(0), c.get_reg(1), c.get_reg(2)), (1, 2, 3));
    assert_eq!(c.index(), 0x303);
}

#[test]
fn index_register_ops() {
    // I = 0x100; V1 = 0x20; I += V1; V2 = 0xA; I = font(V2)
    let mut c = machine(&[0xA1, 0x00, 0x61, 0x20, 0xF1, 0x1E, 0x62, 0x0A, 0xF2, 0x29]);
    steps(&mut c, 3);
    assert_eq!(c.index(), 0x120);
    steps(&mut c, 2);
    assert_eq!(c.index(), 50);
}

#[test]
fn index_overflow_is_refused() {
    // I = 0xFFF; V1 = 0xFF; I += V1 still fits in sixteen bits
    let mut c = machine(&[0xAF, 0xFF, 0x61, 0xFF, 0xF1, 0x1E]);
    steps(&mut c, 3);
    assert_eq!(c.index(), 0x10FE);
    // store past the end of memory is refused
    let c = machine(&[0xAF, 0xFF, 0xF1, 0x55]);
    let mut c = c;
    step(&mut c);
    assert!(!c.can_step());
}

#[test]
fn delay_timer_counts_down_to_zero() {
    let mut c = machine(&[0x61, 2, 0xF1, 0x15, 0xF2, 0x07]);
    steps(&mut c, 2);
    assert_eq!(c.delay(), 2);
    c.dec_delay();
    step(&mut c);
    assert_eq!(c.get_reg(2), 1);
    c.dec_delay();
    c.dec_delay();
    assert_eq!(c.delay(), 0);
}

#[test]
fn key_skips() {
    let mut c = machine(&[0x61, 0x03, 0xE1, 0x9E]);
    c.keys[3] = true;
    steps(&mut c, 2);
    assert_eq!(c.pc(), START + 6);
    let mut c = machine(&[0x61, 0x03, 0xE1, 0xA1]);
    steps(&mut c, 2);
    assert_eq!(c.pc(), START + 6);
    let mut c = machine(&[0x61, 0x03, 0xE1, 0xA1]);
    c.keys[3] = true;
    steps(&mut c, 2);
    assert_eq!(c.pc(), START + 4);
}

#[test]
fn key_out_of_range_is_refused() {
    let mut c = machine(&[0x61, 0x10, 0xE1, 0x9E]);
    step(&mut c);
    assert!(!c.can_step());
}

#[test]
fn wait_key_blocks_then_takes_lowest_key() {
    let mut c = machine(&[0xF5, 0x0A]);
    step(&mut c);
    assert_eq!(c.pc(), START);
    c.keys[9] = true;
    c.keys[4] = true;
    step(&mut c);
    assert_eq!(c.pc(), START + 2);
    assert_eq!(c.get_reg(5), 4);
}
