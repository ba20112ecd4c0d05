use chip8_core::Chip8;
use chip8_core::Fault;

fn put_op(c8: &mut Chip8, addr: usize, op: u16) {
    c8.ram[addr] = (op >> 8) as u8;
    c8.ram[addr + 1] = (op & 0xFF) as u8;
}

#[test]
fn draw_sets_pixels_and_clears_vf_without_collision() {
    let mut c8 = Chip8::new();
    c8.i_reg = 0x300;
    c8.ram[0x300] = 0b1010_0000;
    c8.v_reg[0] = 4; // x
    c8.v_reg[1] = 2; // y
    c8.v_reg[0xF] = 1;
    put_op(&mut c8, 0x200, 0xD011);
    c8.tick().unwrap();
    assert!(c8.screen[4 + 64 * 2]);
    assert!(!c8.screen[5 + 64 * 2]);
    assert!(c8.screen[6 + 64 * 2]);
    assert_eq!(c8.v_reg[0xF], 0);
}

#[test]
fn draw_twice_clears_pixels_and_reports_collision() {
    let mut c8 = Chip8::new();
    c8.i_reg = 0x300;
    c8.ram[0x300] = 0xFF;
    c8.ram[0x301] = 0x81;
    put_op(&mut c8, 0x200, 0xD012);
    put_op(&mut c8, 0x202, 0xD012);
    c8.tick().unwrap();
    assert!(c8.screen[0]);
    assert_eq!(c8.v_reg[0xF], 0);
    c8.tick().unwrap();
    // every pixel the first draw set is cleared again
    assert!(c8.screen.iter().all(|p| !p));
    assert_eq!(c8.v_reg[0xF], 1);
}

#[test]
fn draw_wraps_at_right_edge() {
    let mut c8 = Chip8::new();
    c8.i_reg = 0x300;
    c8.ram[0x300] = 0b1100_0000;
    c8.v_reg[0] = 63;
    c8.v_reg[1] = 0;
    put_op(&mut c8, 0x200, 0xD011);
    c8.tick().unwrap();
    assert!(c8.screen[63]); // first column at x = 63
    assert!(c8.screen[0]); // second column wraps to x = 0
    assert!(!c8.screen[1]);
}

#[test]
fn draw_wraps_at_bottom_edge() {
    let mut c8 = Chip8::new();
    c8.i_reg = 0x300;
    c8.ram[0x300] = 0b1000_0000;
    c8.ram[0x301] = 0b1000_0000;
    c8.v_reg[0] = 0;
    c8.v_reg[1] = 31;
    put_op(&mut c8, 0x200, 0xD012);
    c8.tick().unwrap();
    assert!(c8.screen[64 * 31]); // first row at y = 31
    assert!(c8.screen[0]); // second row wraps to y = 0
}

#[test]
fn draw_reading_past_memory_is_fatal() {
    let mut c8 = Chip8::new();
    c8.i_reg = 0xFFF;
    put_op(&mut c8, 0x200, 0xD012);
    assert_eq!(c8.tick(), Err(Fault::MemoryAccess(0x1000)));
    assert_eq!(c8.pc, 0x200);
    assert!(c8.screen.iter().all(|p| !p));
}

#[test]
fn draw_zero_rows_only_clears_vf() {
    let mut c8 = Chip8::new();
    c8.v_reg[0xF] = 1;
    put_op(&mut c8, 0x200, 0xD010);
    c8.tick().unwrap();
    assert_eq!(c8.v_reg[0xF], 0);
    assert!(c8.screen.iter().all(|p| !p));
}

#[test]
fn clear_screen_blanks_every_pixel() {
    let mut c8 = Chip8::new();
    c8.screen = vec![true; 64 * 32];
    put_op(&mut c8, 0x200, 0x00E0);
    c8.tick().unwrap();
    assert!(c8.screen.iter().all(|p| !p));
    assert_eq!(c8.pc, 0x202);
}

#[test]
fn display_view_matches_screen() {
    let mut c8 = Chip8::new();
    c8.i_reg = 0x300;
    c8.ram[0x300] = 0b1000_0000;
    put_op(&mut c8, 0x200, 0xD011);
    c8.tick().unwrap();
    let d = c8.get_display();
    assert_eq!(d.len(), 2048);
    assert!(d[0]);
    assert!(!d[1]);
}
