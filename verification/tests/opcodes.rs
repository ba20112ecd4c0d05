use chip8_core::Chip8;
use chip8_core::Fault;

fn put_op(c8: &mut Chip8, addr: usize, op: u16) {
    c8.ram[addr] = (op >> 8) as u8;
    c8.ram[addr + 1] = (op & 0xFF) as u8;
}

fn run_one(op: u16) -> Chip8 {
    let mut c8 = Chip8::new();
    put_op(&mut c8, 0x200, op);
    c8.tick().unwrap();
    c8
}

#[test]
fn jump_lands_exactly_on_target() {
    let c8 = run_one(0x1456);
    assert_eq!(c8.pc, 0x456);
}

#[test]
fn call_lands_exactly_on_target_and_pushes_return() {
    let c8 = run_one(0x2456);
    assert_eq!(c8.pc, 0x456);
    assert_eq!(c8.sp, 1);
    assert_eq!(c8.stack[0], 0x202);
}

#[test]
fn jump_with_offset_lands_exactly_on_target() {
    let mut c8 = Chip8::new();
    c8.v_reg[0] = 0x10;
    put_op(&mut c8, 0x200, 0xB456);
    c8.tick().unwrap();
    assert_eq!(c8.pc, 0x466);
}

#[test]
fn ret_pops_return_address() {
    let mut c8 = Chip8::new();
    put_op(&mut c8, 0x200, 0x2456);
    put_op(&mut c8, 0x456, 0x00EE);
    c8.tick().unwrap();
    c8.tick().unwrap();
    assert_eq!(c8.pc, 0x202);
    assert_eq!(c8.sp, 0);
}

#[test]
fn skips_advance_pc_by_4_when_taken_else_2() {
    // 3xnn: skip if Vx == nn
    let mut c8 = Chip8::new();
    c8.v_reg[0] = 0x42;
    put_op(&mut c8, 0x200, 0x3042);
    c8.tick().unwrap();
    assert_eq!(c8.pc, 0x204);

    let mut c8 = Chip8::new();
    c8.v_reg[0] = 0x42;
    put_op(&mut c8, 0x200, 0x3041);
    c8.tick().unwrap();
    assert_eq!(c8.pc, 0x202);

    // 4xnn: skip if Vx != nn
    let mut c8 = Chip8::new();
    c8.v_reg[0] = 0x42;
    put_op(&mut c8, 0x200, 0x4041);
    c8.tick().unwrap();
    assert_eq!(c8.pc, 0x204);

    let mut c8 = Chip8::new();
    c8.v_reg[0] = 0x42;
    put_op(&mut c8, 0x200, 0x4042);
    c8.tick().unwrap();
    assert_eq!(c8.pc, 0x202);

    // 5xy0: skip if Vx == Vy
    let mut c8 = Chip8::new();
    c8.v_reg[1] = 7;
    c8.v_reg[2] = 7;
    put_op(&mut c8, 0x200, 0x5120);
    c8.tick().unwrap();
    assert_eq!(c8.pc, 0x204);

    let mut c8 = Chip8::new();
    c8.v_reg[1] = 7;
    c8.v_reg[2] = 8;
    put_op(&mut c8, 0x200, 0x5120);
    c8.tick().unwrap();
    assert_eq!(c8.pc, 0x202);

    // 9xy0: skip if Vx != Vy
    let mut c8 = Chip8::new();
    c8.v_reg[1] = 7;
    c8.v_reg[2] = 8;
    put_op(&mut c8, 0x200, 0x9120);
    c8.tick().unwrap();
    assert_eq!(c8.pc, 0x204);

    let mut c8 = Chip8::new();
    c8.v_reg[1] = 7;
    c8.v_reg[2] = 7;
    put_op(&mut c8, 0x200, 0x9120);
    c8.tick().unwrap();
    assert_eq!(c8.pc, 0x202);
}

#[test]
fn load_immediate_and_add_immediate_wraps() {
    let mut c8 = Chip8::new();
    put_op(&mut c8, 0x200, 0x60AB);
    c8.tick().unwrap();
    assert_eq!(c8.v_reg[0], 0xAB);

    // 7xnn wraps and leaves VF alone
    let mut c8 = Chip8::new();
    c8.v_reg[0] = 0xFF;
    c8.v_reg[0xF] = 7;
    put_op(&mut c8, 0x200, 0x7002);
    c8.tick().unwrap();
    assert_eq!(c8.v_reg[0], 0x01);
    assert_eq!(c8.v_reg[0xF], 7);
}

#[test]
fn alu_moves_and_bitwise() {
    let mut c8 = Chip8::new();
    c8.v_reg[1] = 0b1100;
    c8.v_reg[2] = 0b1010;
    put_op(&mut c8, 0x200, 0x8120); // V1 = V2
    c8.tick().unwrap();
    assert_eq!(c8.v_reg[1], 0b1010);

    let mut c8 = Chip8::new();
    c8.v_reg[1] = 0b1100;
    c8.v_reg[2] = 0b1010;
    put_op(&mut c8, 0x200, 0x8121); // or
    c8.tick().unwrap();
    assert_eq!(c8.v_reg[1], 0b1110);

    let mut c8 = Chip8::new();
    c8.v_reg[1] = 0b1100;
    c8.v_reg[2] = 0b1010;
    put_op(&mut c8, 0x200, 0x8122); // and
    c8.tick().unwrap();
    assert_eq!(c8.v_reg[1], 0b1000);

    let mut c8 = Chip8::new();
    c8.v_reg[1] = 0b1100;
    c8.v_reg[2] = 0b1010;
    put_op(&mut c8, 0x200, 0x8123); // xor
    c8.tick().unwrap();
    assert_eq!(c8.v_reg[1], 0b0110);
}

#[test]
fn add_with_carry_sets_vf_exactly_on_overflow() {
    let mut c8 = Chip8::new();
    c8.v_reg[0] = 0xFF;
    c8.v_reg[1] = 0x01;
    put_op(&mut c8, 0x200, 0x8014);
    c8.tick().unwrap();
    assert_eq!(c8.v_reg[0], 0x00);
    assert_eq!(c8.v_reg[0xF], 1);

    let mut c8 = Chip8::new();
    c8.v_reg[0] = 0x01;
    c8.v_reg[1] = 0x01;
    put_op(&mut c8, 0x200, 0x8014);
    c8.tick().unwrap();
    assert_eq!(c8.v_reg[0], 0x02);
    assert_eq!(c8.v_reg[0xF], 0);
}

#[test]
fn sub_sets_vf_exactly_on_no_borrow() {
    let mut c8 = Chip8::new();
    c8.v_reg[0] = 0x05;
    c8.v_reg[1] = 0x03;
    put_op(&mut c8, 0x200, 0x8015);
    c8.tick().unwrap();
    assert_eq!(c8.v_reg[0], 0x02);
    assert_eq!(c8.v_reg[0xF], 1);

    let mut c8 = Chip8::new();
    c8.v_reg[0] = 0x03;
    c8.v_reg[1] = 0x05;
    put_op(&mut c8, 0x200, 0x8015);
    c8.tick().unwrap();
    assert_eq!(c8.v_reg[0], 0xFE);
    assert_eq!(c8.v_reg[0xF], 0);
}

#[test]
fn reverse_sub_sets_vf_exactly_on_no_borrow() {
    let mut c8 = Chip8::new();
    c8.v_reg[0] = 0x03;
    c8.v_reg[1] = 0x05;
    put_op(&mut c8, 0x200, 0x8017); // V0 = V1 - V0
    c8.tick().unwrap();
    assert_eq!(c8.v_reg[0], 0x02);
    assert_eq!(c8.v_reg[0xF], 1);

    let mut c8 = Chip8::new();
    c8.v_reg[0] = 0x05;
    c8.v_reg[1] = 0x03;
    put_op(&mut c8, 0x200, 0x8017);
    c8.tick().unwrap();
    assert_eq!(c8.v_reg[0], 0xFE);
    assert_eq!(c8.v_reg[0xF], 0);
}

#[test]
fn shifts_take_flag_from_pre_shift_value() {
    let mut c8 = Chip8::new();
    c8.v_reg[0] = 0b1000_0101;
    put_op(&mut c8, 0x200, 0x8006); // shr
    c8.tick().unwrap();
    assert_eq!(c8.v_reg[0], 0b0100_0010);
    assert_eq!(c8.v_reg[0xF], 1);

    let mut c8 = Chip8::new();
    c8.v_reg[0] = 0b1000_0101;
    put_op(&mut c8, 0x200, 0x800E); // shl
    c8.tick().unwrap();
    assert_eq!(c8.v_reg[0], 0b0000_1010);
    assert_eq!(c8.v_reg[0xF], 1);

    let mut c8 = Chip8::new();
    c8.v_reg[0] = 0b0100_0010;
    put_op(&mut c8, 0x200, 0x8006);
    c8.tick().unwrap();
    assert_eq!(c8.v_reg[0], 0b0010_0001);
    assert_eq!(c8.v_reg[0xF], 0);
}

#[test]
fn index_register_ops() {
    let mut c8 = Chip8::new();
    put_op(&mut c8, 0x200, 0xA456);
    c8.tick().unwrap();
    assert_eq!(c8.i_reg, 0x456);

    // Fx1E wraps within 16 bits
    let mut c8 = Chip8::new();
    c8.i_reg = 0xFFFF;
    c8.v_reg[0] = 2;
    put_op(&mut c8, 0x200, 0xF01E);
    c8.tick().unwrap();
    assert_eq!(c8.i_reg, 1);

    // Fx29 points at the 5-byte font glyph
    let mut c8 = Chip8::new();
    c8.v_reg[3] = 0xA;
    put_op(&mut c8, 0x200, 0xF329);
    c8.tick().unwrap();
    assert_eq!(c8.i_reg, 50);
    assert_eq!(c8.ram[50], 0xF0); // first row of the 'A' glyph
}

#[test]
fn timer_register_transfers() {
    let mut c8 = Chip8::new();
    c8.dt = 0x42;
    put_op(&mut c8, 0x200, 0xF307); // V3 = DT
    c8.tick().unwrap();
    assert_eq!(c8.v_reg[3], 0x42);

    let mut c8 = Chip8::new();
    c8.v_reg[3] = 0x21;
    put_op(&mut c8, 0x200, 0xF315); // DT = V3
    c8.tick().unwrap();
    assert_eq!(c8.dt, 0x21);

    let mut c8 = Chip8::new();
    c8.v_reg[3] = 0x34;
    put_op(&mut c8, 0x200, 0xF318); // ST = V3
    c8.tick().unwrap();
    assert_eq!(c8.st, 0x34);
}

#[test]
fn bcd_stores_decimal_digits() {
    let mut c8 = Chip8::new();
    c8.v_reg[0] = 156;
    c8.i_reg = 0x400;
    put_op(&mut c8, 0x200, 0xF033);
    c8.tick().unwrap();
    assert_eq!(c8.ram[0x400], 1);
    assert_eq!(c8.ram[0x401], 5);
    assert_eq!(c8.ram[0x402], 6);
}

#[test]
fn store_and_load_register_block() {
    let mut c8 = Chip8::new();
    c8.v_reg[0] = 10;
    c8.v_reg[1] = 20;
    c8.v_reg[2] = 30;
    c8.i_reg = 0x300;
    put_op(&mut c8, 0x200, 0xF255); // store V0..=V2
    c8.tick().unwrap();
    assert_eq!(c8.ram[0x300], 10);
    assert_eq!(c8.ram[0x301], 20);
    assert_eq!(c8.ram[0x302], 30);
    assert_eq!(c8.ram[0x303], 0);
    assert_eq!(c8.i_reg, 0x300); // I is not incremented

    put_op(&mut c8, 0x202, 0xF165); // load V0..=V1
    c8.v_reg[0] = 0;
    c8.v_reg[1] = 0;
    c8.v_reg[2] = 0;
    c8.tick().unwrap();
    assert_eq!(c8.v_reg[0], 10);
    assert_eq!(c8.v_reg[1], 20);
    assert_eq!(c8.v_reg[2], 0); // beyond x: untouched
}

#[test]
fn nop_only_advances_pc() {
    let c8 = run_one(0x0000);
    assert_eq!(c8.pc, 0x202);
}

#[test]
fn undefined_opcode_is_fatal_and_state_is_unchanged() {
    let mut c8 = Chip8::new();
    put_op(&mut c8, 0x200, 0xF0FF);
    let before_ram = c8.ram.clone();
    assert_eq!(c8.tick(), Err(Fault::UndefinedOpcode(0xF0FF)));
    assert_eq!(c8.pc, 0x200);
    assert_eq!(c8.ram, before_ram);

    let mut c8 = Chip8::new();
    put_op(&mut c8, 0x200, 0x5121); // 5xyN with N != 0 is undefined
    assert_eq!(c8.tick(), Err(Fault::UndefinedOpcode(0x5121)));
    assert_eq!(c8.pc, 0x200);
}

#[test]
fn return_with_empty_stack_is_fatal() {
    let mut c8 = Chip8::new();
    put_op(&mut c8, 0x200, 0x00EE);
    assert_eq!(c8.tick(), Err(Fault::StackUnderflow));
    assert_eq!(c8.pc, 0x200);
}

#[test]
fn call_with_full_stack_is_fatal() {
    let mut c8 = Chip8::new();
    for _ in 0..16 {
        c8.push(0x200).unwrap();
    }
    put_op(&mut c8, 0x200, 0x2456);
    assert_eq!(c8.tick(), Err(Fault::StackOverflow));
    assert_eq!(c8.pc, 0x200);
    assert_eq!(c8.sp, 16);
}

#[test]
fn fetch_outside_memory_is_fatal() {
    let mut c8 = Chip8::new();
    c8.pc = 0xFFF;
    assert_eq!(c8.tick(), Err(Fault::MemoryAccess(0x1000)));
    assert_eq!(c8.pc, 0xFFF);
}

#[test]
fn memory_window_past_end_is_fatal() {
    // BCD at the very end of memory
    let mut c8 = Chip8::new();
    c8.i_reg = 0xFFE;
    put_op(&mut c8, 0x200, 0xF033);
    assert_eq!(c8.tick(), Err(Fault::MemoryAccess(0x1000)));
    assert_eq!(c8.pc, 0x200);

    // register store running past the end
    let mut c8 = Chip8::new();
    c8.i_reg = 0xFFE;
    put_op(&mut c8, 0x200, 0xF255);
    assert_eq!(c8.tick(), Err(Fault::MemoryAccess(0x1000)));

    // register load running past the end
    let mut c8 = Chip8::new();
    c8.i_reg = 0xFFE;
    put_op(&mut c8, 0x200, 0xF265);
    assert_eq!(c8.tick(), Err(Fault::MemoryAccess(0x1000)));
}
