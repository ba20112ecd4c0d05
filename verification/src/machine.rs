//! The executable machine: state container and its housekeeping
//! operations (construction, reset, stack, program loading, input,
//! timers, display access).

use vstd::prelude::*;

use crate::state::Fault;
use crate::state::State;
use crate::state::font;
use crate::state::initial_state;
use crate::state::FONTSET_SIZE;
use crate::state::MEM_SIZE;
use crate::state::NUM_KEYS;
use crate::state::NUM_REGS;
use crate::state::SCREEN_HEIGHT;
use crate::state::SCREEN_WIDTH;
use crate::state::STACK_SIZE;
use crate::state::START_ADDR;

verus! {

/// The CHIP-8 machine. One value holds the complete CPU state; its
/// ghost view is a `State`, and `wf` says every component has its
/// fixed size.
pub struct Chip8 {
    /// Program counter.
    pub pc: u16,
    /// The 4096-byte memory.
    pub ram: Vec<u8>,
    /// The 64x32 pixel grid, row-major.
    pub screen: Vec<bool>,
    /// Registers V0..=VF.
    pub v_reg: Vec<u8>,
    /// Index register I.
    pub i_reg: u16,
    /// Stack pointer: number of live stack entries.
    pub sp: u16,
    /// The 16-entry return-address stack.
    pub stack: Vec<u16>,
    /// Delay timer.
    pub dt: u8,
    /// Sound timer.
    pub st: u8,
    /// Key states.
    pub keys: Vec<bool>,
}

impl View for Chip8 {
    type V = State;

    open spec fn view(&self) -> State {
        State {
            pc: self.pc,
            ram: self.ram@,
            screen: self.screen@,
            v: self.v_reg@,
            i: self.i_reg,
            sp: self.sp,
            stack: self.stack@,
            dt: self.dt,
            st: self.st,
            keys: self.keys@,
        }
    }
}

/// A vector of `n` copies of `val`.
fn filled<T: Copy>(val: T, n: usize) -> (r: Vec<T>)
    ensures
        r@ == Seq::new(n as nat, |j: int| val),
{
    let mut r: Vec<T> = Vec::new();
    let mut k: usize = 0;
    while k < n
        invariant
            k <= n,
            r@ == Seq::new(k as nat, |j: int| val),
        decreases n - k,
    {
        r.push(val);
        proof {
            assert(r@ =~= Seq::new((k + 1) as nat, |j: int| val));
        }
        k += 1;
    }
    r
}

/// The font data as a vector, glyph by glyph.
fn font_data() -> (r: Vec<u8>)
    ensures
        r@ == font(),
{
    let mut r: Vec<u8> = Vec::new();
    r.push(0xF0); r.push(0x90); r.push(0x90); r.push(0x90); r.push(0xF0); // 0
    r.push(0x20); r.push(0x60); r.push(0x20); r.push(0x20); r.push(0x70); // 1
    r.push(0xF0); r.push(0x10); r.push(0xF0); r.push(0x80); r.push(0xF0); // 2
    r.push(0xF0); r.push(0x10); r.push(0xF0); r.push(0x10); r.push(0xF0); // 3
    r.push(0x90); r.push(0x90); r.push(0xF0); r.push(0x10); r.push(0x10); // 4
    r.push(0xF0); r.push(0x80); r.push(0xF0); r.push(0x10); r.push(0xF0); // 5
    r.push(0xF0); r.push(0x80); r.push(0xF0); r.push(0x90); r.push(0xF0); // 6
    r.push(0xF0); r.push(0x10); r.push(0x20); r.push(0x40); r.push(0x40); // 7
    r.push(0xF0); r.push(0x90); r.push(0xF0); r.push(0x90); r.push(0xF0); // 8
    r.push(0xF0); r.push(0x90); r.push(0xF0); r.push(0x10); r.push(0xF0); // 9
    r.push(0xF0); r.push(0x90); r.push(0xF0); r.push(0x90); r.push(0x90); // A
    r.push(0xE0); r.push(0x90); r.push(0xE0); r.push(0x90); r.push(0xE0); // B
    r.push(0xF0); r.push(0x80); r.push(0x80); r.push(0x80); r.push(0xF0); // C
    r.push(0xE0); r.push(0x90); r.push(0x90); r.push(0x90); r.push(0xE0); // D
    r.push(0xF0); r.push(0x80); r.push(0xF0); r.push(0x80); r.push(0xF0); // E
    r.push(0xF0); r.push(0x80); r.push(0xF0); r.push(0x80); r.push(0x80); // F
    proof {
        assert(r@ =~= font());
    }
    r
}

/// A blank pixel grid.
pub(crate) fn cleared_screen() -> (r: Vec<bool>)
    ensures
        r@ == Seq::new((SCREEN_WIDTH * SCREEN_HEIGHT) as nat, |j: int| false),
{
    let r = filled(false, SCREEN_WIDTH * SCREEN_HEIGHT);
    proof {
        assert(r@ =~= Seq::new((SCREEN_WIDTH * SCREEN_HEIGHT) as nat, |j: int| false));
    }
    r
}

/// Fresh memory: the font in the first `FONTSET_SIZE` bytes, zero elsewhere.
fn fresh_ram() -> (r: Vec<u8>)
    ensures
        r@ == initial_state().ram,
{
    let mut r = filled(0u8, MEM_SIZE);
    let f = font_data();
    let mut k: usize = 0;
    while k < FONTSET_SIZE
        invariant
            k <= FONTSET_SIZE,
            f@ == font(),
            r@.len() == MEM_SIZE,
            forall|j: int| 0 <= j < k ==> r@[j] == font()[j],
            forall|j: int| k <= j < MEM_SIZE ==> r@[j] == 0u8,
        decreases FONTSET_SIZE - k,
    {
        let b = f[k];
        r.set(k, b);
        k += 1;
    }
    proof {
        assert(r@ =~= initial_state().ram);
    }
    r
}

impl Chip8 {
    /// Shorthand for well-formedness of the machine's view.
    pub open spec fn wf(&self) -> bool {
        self@.wf()
    }

    /// A fresh machine: everything zeroed except the program counter
    /// (at `START_ADDR`) and the font region of memory.
    pub fn new() -> (r: Chip8)
        ensures
            r@ == initial_state(),
            r.wf(),
    {
        let c = Chip8 {
            pc: START_ADDR,
            ram: fresh_ram(),
            screen: filled(false, SCREEN_WIDTH * SCREEN_HEIGHT),
            v_reg: filled(0u8, NUM_REGS),
            i_reg: 0,
            sp: 0,
            stack: filled(0u16, STACK_SIZE),
            dt: 0,
            st: 0,
            keys: filled(false, NUM_KEYS),
        };
        proof {
            assert(c@ =~= initial_state());
        }
        c
    }

    /// Returns the machine to exactly the freshly constructed state:
    /// memory re-seeded with the font, display, registers, stack, keys
    /// and timers cleared, program counter back at `START_ADDR`.
    pub fn reset(&mut self)
        ensures
            final(self)@ == initial_state(),
            final(self).wf(),
    {
        self.pc = START_ADDR;
        self.ram = fresh_ram();
        self.screen = filled(false, SCREEN_WIDTH * SCREEN_HEIGHT);
        self.v_reg = filled(0u8, NUM_REGS);
        self.i_reg = 0;
        self.sp = 0;
        self.stack = filled(0u16, STACK_SIZE);
        self.dt = 0;
        self.st = 0;
        self.keys = filled(false, NUM_KEYS);
        proof {
            assert(self@ =~= initial_state());
        }
    }

    /// Push a return address. Fails with `StackOverflow`, leaving the
    /// state unchanged, exactly when the stack already holds 16 entries.
    pub fn push(&mut self, val: u16) -> (r: Result<(), Fault>)
        requires
            old(self).wf(),
        ensures
            final(self).wf(),
            old(self)@.sp < STACK_SIZE ==> r == Ok::<(), Fault>(()) && final(self)@
                == crate::state::pushed(old(self)@, val),
            old(self)@.sp == STACK_SIZE ==> r == Err::<(), Fault>(Fault::StackOverflow) && final(self)@ == old(self)@,
    {
        if self.sp as usize >= STACK_SIZE {
            return Err(Fault::StackOverflow);
        }
        self.stack.set(self.sp as usize, val);
        self.sp = self.sp + 1;
        proof {
            assert(self@ =~= crate::state::pushed(old(self)@, val));
        }
        Ok(())
    }

    /// Pop a return address. Fails with `StackUnderflow`, leaving the
    /// state unchanged, exactly when the stack is empty.
    pub fn pop(&mut self) -> (r: Result<u16, Fault>)
        requires
            old(self).wf(),
        ensures
            final(self).wf(),
            old(self)@.sp > 0 ==> r == Ok::<u16, Fault>(
                old(self)@.stack[old(self)@.sp - 1],
            ) && final(self)@ == crate::state::popped(old(self)@),
            old(self)@.sp == 0 ==> r == Err::<u16, Fault>(Fault::StackUnderflow) && final(self)@
                == old(self)@,
    {
        if self.sp == 0 {
            return Err(Fault::StackUnderflow);
        }
        self.sp = self.sp - 1;
        let val = self.stack[self.sp as usize];
        proof {
            assert(self@ =~= crate::state::popped(old(self)@));
        }
        Ok(val)
    }

    /// Copy a program into memory at `START_ADDR`. Fails with
    /// `OversizedProgram`, leaving the state unchanged, exactly when the
    /// program does not fit below the end of memory.
    pub fn load(&mut self, data: &[u8]) -> (r: Result<(), Fault>)
        requires
            old(self).wf(),
        ensures
            final(self).wf(),
            data@.len() <= MEM_SIZE - START_ADDR ==> r == Ok::<(), Fault>(()) && final(self)@
                == (State {
                ram: crate::state::loaded_ram(old(self)@.ram, data@),
                ..old(self)@
            }),
            data@.len() > MEM_SIZE - START_ADDR ==> r == Err::<(), Fault>(
                Fault::OversizedProgram(data@.len() as usize),
            ) && final(self)@ == old(self)@,
    {
        if data.len() > MEM_SIZE - START_ADDR as usize {
            return Err(Fault::OversizedProgram(data.len()));
        }
        let base = START_ADDR as usize;
        let mut k: usize = 0;
        while k < data.len()
            invariant
                old(self).wf(),
                k <= data@.len(),
                data@.len() <= MEM_SIZE - START_ADDR,
                self@.ram.len() == MEM_SIZE,
                base == START_ADDR,
                forall|j: int|
                    base <= j < base + k ==> self@.ram[j] == data@[j - base],
                forall|j: int|
                    0 <= j < MEM_SIZE && !(base <= j < base + k) ==> self@.ram[j] == old(
                        self,
                    )@.ram[j],
                self@ == (State { ram: self@.ram, ..old(self)@ }),
            decreases data@.len() - k,
        {
            let b = data[k];
            self.ram.set(base + k, b);
            k += 1;
        }
        proof {
            assert(self@.ram =~= crate::state::loaded_ram(old(self)@.ram, data@));
            assert(self@ =~= (State {
                ram: crate::state::loaded_ram(old(self)@.ram, data@),
                ..old(self)@
            }));
        }
        Ok(())
    }

    /// Record a key going down or up. Fails with `KeyIndex`, leaving the
    /// state unchanged, exactly when the index is not a keypad key.
    pub fn keypress(&mut self, idx: usize, pressed: bool) -> (r: Result<(), Fault>)
        requires
            old(self).wf(),
        ensures
            final(self).wf(),
            idx < NUM_KEYS ==> r == Ok::<(), Fault>(()) && final(self)@ == (State {
                keys: old(self)@.keys.update(idx as int, pressed),
                ..old(self)@
            }),
            idx >= NUM_KEYS ==> r == Err::<(), Fault>(Fault::KeyIndex(idx)) && final(self)@ == old(self)@,
    {
        if idx >= NUM_KEYS {
            return Err(Fault::KeyIndex(idx));
        }
        self.keys.set(idx, pressed);
        Ok(())
    }

    /// Read-only view of the pixel grid.
    pub fn get_display(&self) -> (r: &[bool])
        ensures
            r@ == self@.screen,
    {
        self.screen.as_slice()
    }

    /// Advance both timers by one 60 Hz step: each decrements if
    /// positive. Returns true exactly when the sound timer goes from 1
    /// to 0: the one-shot beep edge for the audio collaborator.
    pub fn tick_timers(&mut self) -> (beep: bool)
        requires
            old(self).wf(),
        ensures
            final(self).wf(),
            final(self)@ == (State {
                dt: if old(self)@.dt > 0 { (old(self)@.dt - 1) as u8 } else { 0u8 },
                st: if old(self)@.st > 0 { (old(self)@.st - 1) as u8 } else { 0u8 },
                ..old(self)@
            }),
            beep == (old(self)@.st == 1),
    {
        if self.dt > 0 {
            self.dt = self.dt - 1;
        }
        let beep = self.st == 1;
        if self.st > 0 {
            self.st = self.st - 1;
        }
        beep
    }
}

} // verus!
