use chip8_core::key2btn;
use chip8_core::Chip8;
use chip8_core::Fault;

fn put_op(c8: &mut Chip8, addr: usize, op: u16) {
    c8.ram[addr] = (op >> 8) as u8;
    c8.ram[addr + 1] = (op & 0xFF) as u8;
}

#[test]
fn skip_if_key_pressed() {
    let mut c8 = Chip8::new();
    c8.v_reg[0] = 5;
    c8.keypress(5, true).unwrap();
    put_op(&mut c8, 0x200, 0xE09E);
    c8.tick().unwrap();
    assert_eq!(c8.pc, 0x204);

    let mut c8 = Chip8::new();
    c8.v_reg[0] = 5;
    put_op(&mut c8, 0x200, 0xE09E);
    c8.tick().unwrap();
    assert_eq!(c8.pc, 0x202);
}

#[test]
fn skip_if_key_not_pressed() {
    let mut c8 = Chip8::new();
    c8.v_reg[0] = 5;
    put_op(&mut c8, 0x200, 0xE0A1);
    c8.tick().unwrap();
    assert_eq!(c8.pc, 0x204);

    let mut c8 = Chip8::new();
    c8.v_reg[0] = 5;
    c8.keypress(5, true).unwrap();
    put_op(&mut c8, 0x200, 0xE0A1);
    c8.tick().unwrap();
    assert_eq!(c8.pc, 0x202);
}

#[test]
fn key_test_with_bad_register_value_is_fatal() {
    let mut c8 = Chip8::new();
    c8.v_reg[0] = 16;
    put_op(&mut c8, 0x200, 0xE09E);
    assert_eq!(c8.tick(), Err(Fault::KeyIndex(16)));
    assert_eq!(c8.pc, 0x200);
}

#[test]
fn wait_for_key_stalls_then_commits_lowest_key() {
    let mut c8 = Chip8::new();
    put_op(&mut c8, 0x200, 0xF30A);
    for _ in 0..100 {
        c8.tick().unwrap();
        assert_eq!(c8.pc, 0x200);
    }
    assert_eq!(c8.v_reg[3], 0);

    c8.keypress(9, true).unwrap();
    c8.keypress(4, true).unwrap();
    c8.tick().unwrap();
    assert_eq!(c8.pc, 0x202);
    assert_eq!(c8.v_reg[3], 4); // the lowest-indexed pressed key
}

#[test]
fn random_byte_is_masked() {
    // Cx00 masks the random byte to zero whatever was drawn
    let mut c8 = Chip8::new();
    c8.v_reg[0] = 0xAA;
    put_op(&mut c8, 0x200, 0xC000);
    c8.tick().unwrap();
    assert_eq!(c8.v_reg[0], 0);

    // Cx0F keeps only the low nibble
    for _ in 0..50 {
        let mut c8 = Chip8::new();
        put_op(&mut c8, 0x200, 0xC00F);
        c8.tick().unwrap();
        assert_eq!(c8.v_reg[0] & 0xF0, 0);
    }
}

#[test]
fn chosen_byte_lands_in_register() {
    let mut c8 = Chip8::new();
    put_op(&mut c8, 0x200, 0xC0FF);
    c8.tick_with_random(0xAB).unwrap();
    assert_eq!(c8.v_reg[0], 0xAB);

    let mut c8 = Chip8::new();
    put_op(&mut c8, 0x200, 0xC00F);
    c8.tick_with_random(0xAB).unwrap();
    assert_eq!(c8.v_reg[0], 0x0B);
}

#[test]
fn keyboard_layout_maps_to_keypad() {
    assert_eq!(key2btn('1'), Some(0x1));
    assert_eq!(key2btn('2'), Some(0x2));
    assert_eq!(key2btn('3'), Some(0x3));
    assert_eq!(key2btn('4'), Some(0xC));
    assert_eq!(key2btn('q'), Some(0x4));
    assert_eq!(key2btn('w'), Some(0x5));
    assert_eq!(key2btn('e'), Some(0x6));
    assert_eq!(key2btn('r'), Some(0xD));
    assert_eq!(key2btn('a'), Some(0x7));
    assert_eq!(key2btn('s'), Some(0x8));
    assert_eq!(key2btn('d'), Some(0x9));
    assert_eq!(key2btn('f'), Some(0xE));
    assert_eq!(key2btn('z'), Some(0xA));
    assert_eq!(key2btn('x'), Some(0x0));
    assert_eq!(key2btn('c'), Some(0xB));
    assert_eq!(key2btn('v'), Some(0xF));
    assert_eq!(key2btn('5'), None);
    assert_eq!(key2btn('g'), None);
}
