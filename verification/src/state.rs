//! The mathematical model of the machine state.
//!
//! `State` is a ghost mirror of the executable `Chip8` struct: every
//! contract in this crate speaks about values of this type.

use vstd::prelude::*;

verus! {

/// Size of the address space in bytes.
pub const MEM_SIZE: usize = 4096;
/// Display width in pixels.
pub const SCREEN_WIDTH: usize = 64;
/// Display height in pixels.
pub const SCREEN_HEIGHT: usize = 32;
/// Number of general-purpose registers V0..=VF.
pub const NUM_REGS: usize = 16;
/// Maximum call-stack depth.
pub const STACK_SIZE: usize = 16;
/// Number of keypad keys.
pub const NUM_KEYS: usize = 16;
/// Number of bytes of built-in font data (16 glyphs, 5 bytes each).
pub const FONTSET_SIZE: usize = 80;
/// Address at which programs are loaded and execution starts.
pub const START_ADDR: u16 = 0x200;

/// A fatal condition: executing further would corrupt state, so the
/// machine reports it and leaves its state untouched instead.
#[derive(Clone, Copy, Debug, PartialEq, Eq, Structural)]
pub enum Fault {
    /// The fetched word matches no defined opcode pattern.
    UndefinedOpcode(u16),
    /// A call was made with the stack already 16 entries deep.
    StackOverflow,
    /// A return was executed with an empty stack.
    StackUnderflow,
    /// A memory access outside 0x000..=0xFFF; carries the first bad address.
    MemoryAccess(u16),
    /// A key index outside 0..=15.
    KeyIndex(usize),
    /// A program too large for the memory above `START_ADDR`.
    OversizedProgram(usize),
}

/// Ghost mirror of the full machine state.
#[verifier::ext_equal]
pub ghost struct State {
    /// Program counter.
    pub pc: u16,
    /// The 4096-byte memory.
    pub ram: Seq<u8>,
    /// The 64x32 pixel grid, row-major: pixel (x, y) is `screen[x + 64 * y]`.
    pub screen: Seq<bool>,
    /// The sixteen 8-bit registers V0..=VF.
    pub v: Seq<u8>,
    /// The 16-bit index register I.
    pub i: u16,
    /// Stack pointer: number of live entries in `stack`.
    pub sp: u16,
    /// The 16-entry return-address stack; entries at index >= sp are dead.
    pub stack: Seq<u16>,
    /// Delay timer.
    pub dt: u8,
    /// Sound timer.
    pub st: u8,
    /// The sixteen key states.
    pub keys: Seq<bool>,
}

impl State {
    /// All components have their fixed sizes and the stack pointer is in range.
    pub open spec fn wf(self) -> bool {
        &&& self.ram.len() == MEM_SIZE
        &&& self.screen.len() == SCREEN_WIDTH * SCREEN_HEIGHT
        &&& self.v.len() == NUM_REGS
        &&& self.stack.len() == STACK_SIZE
        &&& self.keys.len() == NUM_KEYS
        &&& self.sp <= STACK_SIZE
    }
}

/// The built-in font: one 5-byte glyph for each hexadecimal digit.
pub open spec fn font() -> Seq<u8> {
    seq![
        0xF0u8, 0x90, 0x90, 0x90, 0xF0, // 0
        0x20, 0x60, 0x20, 0x20, 0x70, // 1
        0xF0, 0x10, 0xF0, 0x80, 0xF0, // 2
        0xF0, 0x10, 0xF0, 0x10, 0xF0, // 3
        0x90, 0x90, 0xF0, 0x10, 0x10, // 4
        0xF0, 0x80, 0xF0, 0x10, 0xF0, // 5
        0xF0, 0x80, 0xF0, 0x90, 0xF0, // 6
        0xF0, 0x10, 0x20, 0x40, 0x40, // 7
        0xF0, 0x90, 0xF0, 0x90, 0xF0, // 8
        0xF0, 0x90, 0xF0, 0x10, 0xF0, // 9
        0xF0, 0x90, 0xF0, 0x90, 0x90, // A
        0xE0, 0x90, 0xE0, 0x90, 0xE0, // B
        0xF0, 0x80, 0x80, 0x80, 0xF0, // C
        0xE0, 0x90, 0x90, 0x90, 0xE0, // D
        0xF0, 0x80, 0xF0, 0x80, 0xF0, // E
        0xF0, 0x80, 0xF0, 0x80, 0x80, // F
    ]
}

/// The state of a freshly constructed machine: everything zeroed except
/// the program counter (START_ADDR) and the font region of memory.
pub open spec fn initial_state() -> State {
    State {
        pc: START_ADDR,
        ram: Seq::new(MEM_SIZE as nat, |j: int| if j < FONTSET_SIZE { font()[j] } else { 0u8 }),
        screen: Seq::new((SCREEN_WIDTH * SCREEN_HEIGHT) as nat, |j: int| false),
        v: Seq::new(NUM_REGS as nat, |j: int| 0u8),
        i: 0,
        sp: 0,
        stack: Seq::new(STACK_SIZE as nat, |j: int| 0u16),
        dt: 0,
        st: 0,
        keys: Seq::new(NUM_KEYS as nat, |j: int| false),
    }
}

/// The state after pushing `val`: defined when `s.sp < STACK_SIZE`.
pub open spec fn pushed(s: State, val: u16) -> State {
    State { sp: (s.sp + 1) as u16, stack: s.stack.update(s.sp as int, val), ..s }
}

/// The state after popping: defined when `s.sp > 0`. The popped value
/// is `s.stack[s.sp - 1]`; the dead slot keeps its old contents.
pub open spec fn popped(s: State) -> State {
    State { sp: (s.sp - 1) as u16, ..s }
}

/// Memory after loading a program: `data` overlays the region starting
/// at `START_ADDR`, everything else keeps its old contents.
pub open spec fn loaded_ram(ram: Seq<u8>, data: Seq<u8>) -> Seq<u8> {
    Seq::new(
        ram.len(),
        |j: int|
            if START_ADDR <= j < START_ADDR + data.len() {
                data[j - START_ADDR]
            } else {
                ram[j]
            },
    )
}

/// Highest nibble of an opcode word.
pub open spec fn nib1(op: u16) -> u16 {
    (op >> 12) & 0xF
}

/// Second nibble: the x register operand.
pub open spec fn nib2(op: u16) -> u16 {
    (op >> 8) & 0xF
}

/// Third nibble: the y register operand.
pub open spec fn nib3(op: u16) -> u16 {
    (op >> 4) & 0xF
}

/// Lowest nibble of an opcode word.
pub open spec fn nib4(op: u16) -> u16 {
    op & 0xF
}

/// Low byte of an opcode word: the nn immediate.
pub open spec fn low_byte(op: u16) -> u8 {
    (op & 0xFF) as u8
}

/// Low 12 bits of an opcode word: the nnn address immediate.
pub open spec fn addr_of(op: u16) -> u16 {
    op & 0xFFF
}

/// Every nibble is below 16 and the address immediate below 4096.
pub proof fn lemma_opcode_field_bounds(op: u16)
    ensures
        nib1(op) < 16,
        nib2(op) < 16,
        nib3(op) < 16,
        nib4(op) < 16,
        addr_of(op) < 4096,
{
    assert((op >> 12) & 0xF < 16 && (op >> 8) & 0xF < 16 && (op >> 4) & 0xF < 16 && op & 0xF < 16
        && op & 0xFFF < 4096) by (bit_vector);
}

/// The big-endian 16-bit word at the program counter.
pub open spec fn fetch_word(s: State) -> u16 {
    ((s.ram[s.pc as int] as u16) << 8) | (s.ram[s.pc as int + 1] as u16)
}

} // verus!
