//! The fetch-decode-execute cycle.
//!
//! `step` is the spec-level transition function: one instruction,
//! including the fetch, on the ghost `State`. `Chip8::tick` is proved
//! to implement it exactly, up to the byte drawn for the random-number
//! opcode.

use vstd::prelude::*;

use crate::draw::draw;
use crate::draw::draw_sprite;
use crate::machine::Chip8;
use crate::state::addr_of;
use crate::state::fetch_word;
use crate::state::lemma_opcode_field_bounds;
use crate::state::low_byte;
use crate::state::nib1;
use crate::state::nib2;
use crate::state::nib3;
use crate::state::nib4;
use crate::state::popped;
use crate::state::pushed;
use crate::state::Fault;
use crate::state::State;
use crate::state::MEM_SIZE;
use crate::state::NUM_KEYS;
use crate::state::SCREEN_HEIGHT;
use crate::state::SCREEN_WIDTH;
use crate::state::STACK_SIZE;

verus! {

/// The state with the program counter moved past one instruction.
pub open spec fn skip(s: State) -> State {
    State { pc: (s.pc + 2) as u16, ..s }
}

/// The lowest-indexed pressed key at or above index `k`, if any.
pub open spec fn first_pressed(keys: Seq<bool>, k: int) -> Option<u8>
    decreases NUM_KEYS - k,
{
    if k < 0 || k >= NUM_KEYS {
        None
    } else if keys[k] {
        Some(k as u8)
    } else {
        first_pressed(keys, k + 1)
    }
}

/// Memory after copying registers 0..=k to addresses i..=i+k.
pub open spec fn store_regs(ram: Seq<u8>, v: Seq<u8>, i: int, k: int) -> Seq<u8>
    decreases k + 1,
{
    if k < 0 {
        ram
    } else {
        store_regs(ram, v, i, k - 1).update(i + k, v[k])
    }
}

/// Registers after copying addresses i..=i+k to registers 0..=k.
pub open spec fn load_regs(v: Seq<u8>, ram: Seq<u8>, i: int, k: int) -> Seq<u8>
    decreases k + 1,
{
    if k < 0 {
        v
    } else {
        load_regs(v, ram, i, k - 1).update(k, ram[i + k])
    }
}

/// Storing registers never changes the length of memory.
pub proof fn lemma_store_regs_len(ram: Seq<u8>, v: Seq<u8>, i: int, k: int)
    requires
        0 <= i,
        i + k < ram.len(),
    ensures
        store_regs(ram, v, i, k).len() == ram.len(),
    decreases k + 1,
{
    if k >= 0 {
        lemma_store_regs_len(ram, v, i, k - 1);
    }
}

/// Loading registers never changes the number of registers.
pub proof fn lemma_load_regs_len(v: Seq<u8>, ram: Seq<u8>, i: int, k: int)
    requires
        k < v.len(),
    ensures
        load_regs(v, ram, i, k).len() == v.len(),
    decreases k + 1,
{
    if k >= 0 {
        lemma_load_regs_len(v, ram, i, k - 1);
    }
}

/// The first address outside memory touched by an access window that
/// starts at `i` and runs past the end of memory.
pub open spec fn first_bad_addr(i: u16) -> u16 {
    if i >= MEM_SIZE as u16 {
        i
    } else {
        MEM_SIZE as u16
    }
}

/// The address reported when the fetch at `pc` runs outside memory.
pub open spec fn fetch_fault_addr(pc: u16) -> u16 {
    if pc >= MEM_SIZE as u16 {
        pc
    } else {
        (pc + 1) as u16
    }
}

/// Semantics of the 8xyN register-to-register group.
pub open spec fn exec_alu(s: State, op: u16) -> Result<State, Fault> {
    let x = nib2(op) as int;
    let y = nib3(op) as int;
    let vx = s.v[x];
    let vy = s.v[y];
    if nib4(op) == 0x0 {
        Ok(State { v: s.v.update(x, vy), ..s })
    } else if nib4(op) == 0x1 {
        Ok(State { v: s.v.update(x, vx | vy), ..s })
    } else if nib4(op) == 0x2 {
        Ok(State { v: s.v.update(x, vx & vy), ..s })
    } else if nib4(op) == 0x3 {
        Ok(State { v: s.v.update(x, vx ^ vy), ..s })
    } else if nib4(op) == 0x4 {
        // add with carry: VF = 1 iff the unsigned sum overflows
        Ok(
            State {
                v: s.v.update(x, vx.wrapping_add(vy)).update(
                    0xF,
                    if vx + vy > 0xFF {
                        1u8
                    } else {
                        0u8
                    },
                ),
                ..s
            },
        )
    } else if nib4(op) == 0x5 {
        // subtract: VF = 1 iff no borrow, judged before the subtraction
        Ok(
            State {
                v: s.v.update(x, vx.wrapping_sub(vy)).update(
                    0xF,
                    if vx >= vy {
                        1u8
                    } else {
                        0u8
                    },
                ),
                ..s
            },
        )
    } else if nib4(op) == 0x6 {
        // shift right: VF = the bit shifted out, read before the shift
        Ok(State { v: s.v.update(x, vx >> 1).update(0xF, vx & 1), ..s })
    } else if nib4(op) == 0x7 {
        // reverse subtract: VF = 1 iff Vy >= Vx before the subtraction
        Ok(
            State {
                v: s.v.update(x, vy.wrapping_sub(vx)).update(
                    0xF,
                    if vy >= vx {
                        1u8
                    } else {
                        0u8
                    },
                ),
                ..s
            },
        )
    } else if nib4(op) == 0xE {
        // shift left: VF = the bit shifted out, read before the shift
        Ok(State { v: s.v.update(x, vx << 1).update(0xF, (vx >> 7) & 1), ..s })
    } else {
        Err(Fault::UndefinedOpcode(op))
    }
}

/// Semantics of the DxyN sprite-draw instruction.
pub open spec fn exec_draw(s: State, op: u16) -> Result<State, Fault> {
    let x = nib2(op) as int;
    let y = nib3(op) as int;
    let n = nib4(op) as int;
    if n > 0 && s.i + n > MEM_SIZE {
        Err(Fault::MemoryAccess(first_bad_addr(s.i)))
    } else if n == 0 {
        // nothing to read or toggle; the collision flag is still cleared
        Ok(State { v: s.v.update(0xF, 0u8), ..s })
    } else {
        let rows = s.ram.subrange(s.i as int, s.i + n);
        let res = draw(s.screen, rows, s.v[x], s.v[y]);
        Ok(
            State {
                screen: res.0,
                v: s.v.update(
                    0xF,
                    if res.1 {
                        1u8
                    } else {
                        0u8
                    },
                ),
                ..s
            },
        )
    }
}

/// Semantics of the FxNN group.
pub open spec fn exec_misc(s: State, op: u16) -> Result<State, Fault> {
    let x = nib2(op) as int;
    let nn = low_byte(op);
    let vx = s.v[x];
    if nn == 0x07 {
        Ok(State { v: s.v.update(x, s.dt), ..s })
    } else if nn == 0x0A {
        // wait for a key: stall by rewinding the fetch until one is down
        match first_pressed(s.keys, 0) {
            Some(k) => Ok(State { v: s.v.update(x, k), ..s }),
            None => Ok(State { pc: (s.pc - 2) as u16, ..s }),
        }
    } else if nn == 0x15 {
        Ok(State { dt: vx, ..s })
    } else if nn == 0x18 {
        Ok(State { st: vx, ..s })
    } else if nn == 0x1E {
        Ok(State { i: s.i.wrapping_add(vx as u16), ..s })
    } else if nn == 0x29 {
        Ok(State { i: (vx * 5) as u16, ..s })
    } else if nn == 0x33 {
        if s.i + 2 >= MEM_SIZE {
            Err(Fault::MemoryAccess(first_bad_addr(s.i)))
        } else {
            Ok(
                State {
                    ram: s.ram.update(s.i as int, (vx / 100) as u8).update(
                        s.i + 1,
                        ((vx / 10) % 10) as u8,
                    ).update(s.i + 2, (vx % 10) as u8),
                    ..s
                },
            )
        }
    } else if nn == 0x55 {
        if s.i + x >= MEM_SIZE {
            Err(Fault::MemoryAccess(first_bad_addr(s.i)))
        } else {
            Ok(State { ram: store_regs(s.ram, s.v, s.i as int, x), ..s })
        }
    } else if nn == 0x65 {
        if s.i + x >= MEM_SIZE {
            Err(Fault::MemoryAccess(first_bad_addr(s.i)))
        } else {
            Ok(State { v: load_regs(s.v, s.ram, s.i as int, x), ..s })
        }
    } else {
        Err(Fault::UndefinedOpcode(op))
    }
}

/// Semantics of one decoded instruction, applied to the state with the
/// program counter already moved past it. `rb` is the byte used by the
/// random-number instruction and is ignored by every other opcode.
pub open spec fn exec_op(s: State, op: u16, rb: u8) -> Result<State, Fault> {
    let x = nib2(op) as int;
    let y = nib3(op) as int;
    let nn = low_byte(op);
    let nnn = addr_of(op);
    if op == 0x0000 {
        Ok(s)
    } else if op == 0x00E0 {
        Ok(State { screen: Seq::new((SCREEN_WIDTH * SCREEN_HEIGHT) as nat, |j: int| false), ..s })
    } else if op == 0x00EE {
        if s.sp == 0 {
            Err(Fault::StackUnderflow)
        } else {
            Ok(State { pc: s.stack[s.sp - 1], ..popped(s) })
        }
    } else if nib1(op) == 0x1 {
        Ok(State { pc: nnn, ..s })
    } else if nib1(op) == 0x2 {
        if s.sp >= STACK_SIZE {
            Err(Fault::StackOverflow)
        } else {
            Ok(State { pc: nnn, ..pushed(s, s.pc) })
        }
    } else if nib1(op) == 0x3 {
        Ok(
            if s.v[x] == nn {
                skip(s)
            } else {
                s
            },
        )
    } else if nib1(op) == 0x4 {
        Ok(
            if s.v[x] != nn {
                skip(s)
            } else {
                s
            },
        )
    } else if nib1(op) == 0x5 && nib4(op) == 0x0 {
        Ok(
            if s.v[x] == s.v[y] {
                skip(s)
            } else {
                s
            },
        )
    } else if nib1(op) == 0x6 {
        Ok(State { v: s.v.update(x, nn), ..s })
    } else if nib1(op) == 0x7 {
        Ok(State { v: s.v.update(x, s.v[x].wrapping_add(nn)), ..s })
    } else if nib1(op) == 0x8 {
        exec_alu(s, op)
    } else if nib1(op) == 0x9 && nib4(op) == 0x0 {
        Ok(
            if s.v[x] != s.v[y] {
                skip(s)
            } else {
                s
            },
        )
    } else if nib1(op) == 0xA {
        Ok(State { i: nnn, ..s })
    } else if nib1(op) == 0xB {
        Ok(State { pc: (nnn + s.v[0]) as u16, ..s })
    } else if nib1(op) == 0xC {
        Ok(State { v: s.v.update(x, rb & nn), ..s })
    } else if nib1(op) == 0xD {
        exec_draw(s, op)
    } else if nib1(op) == 0xE && nn == 0x9E {
        if s.v[x] >= NUM_KEYS {
            Err(Fault::KeyIndex(s.v[x] as usize))
        } else {
            Ok(
                if s.keys[s.v[x] as int] {
                    skip(s)
                } else {
                    s
                },
            )
        }
    } else if nib1(op) == 0xE && nn == 0xA1 {
        if s.v[x] >= NUM_KEYS {
            Err(Fault::KeyIndex(s.v[x] as usize))
        } else {
            Ok(
                if !s.keys[s.v[x] as int] {
                    skip(s)
                } else {
                    s
                },
            )
        }
    } else if nib1(op) == 0xF {
        exec_misc(s, op)
    } else {
        Err(Fault::UndefinedOpcode(op))
    }
}

/// Semantics of one full cycle: fetch the word at the program counter
/// (faulting if the fetch would leave memory), advance the counter by
/// two, then execute the word. On a fault the state is unchanged.
pub open spec fn step(s: State, rb: u8) -> Result<State, Fault> {
    if s.pc + 1 >= MEM_SIZE {
        Err(Fault::MemoryAccess(fetch_fault_addr(s.pc)))
    } else {
        exec_op(State { pc: (s.pc + 2) as u16, ..s }, fetch_word(s), rb)
    }
}

/// Relies on rand::random: draws one byte from the thread-local random
/// generator. Nothing is promised of the value.
#[verifier::external_body]
fn random_byte() -> u8 {
    rand::random()
}

/// The lowest-indexed pressed key, scanning the keypad in order.
fn find_first_key(keys: &Vec<bool>) -> (r: Option<u8>)
    requires
        keys@.len() == NUM_KEYS,
    ensures
        r == first_pressed(keys@, 0),
{
    let mut k: usize = 0;
    while k < NUM_KEYS
        invariant
            k <= NUM_KEYS,
            keys@.len() == NUM_KEYS,
            first_pressed(keys@, 0) == first_pressed(keys@, k as int),
        decreases NUM_KEYS - k,
    {
        if keys[k] {
            return Some(k as u8);
        }
        k += 1;
    }
    None
}

impl Chip8 {
    /// Read the two instruction bytes at the program counter, combine
    /// them big-endian, and advance the counter past them.
    fn fetch(&mut self) -> (op: u16)
        requires
            old(self).wf(),
            old(self)@.pc + 1 < MEM_SIZE,
        ensures
            final(self).wf(),
            op == fetch_word(old(self)@),
            final(self)@ == (State { pc: (old(self)@.pc + 2) as u16, ..old(self)@ }),
    {
        let hi = self.ram[self.pc as usize];
        let lo = self.ram[(self.pc + 1) as usize];
        self.pc = self.pc + 2;
        ((hi as u16) << 8) | (lo as u16)
    }

    /// Execute one 8xyN instruction.
    fn execute_alu(&mut self, op: u16) -> (r: Result<(), Fault>)
        requires
            old(self).wf(),
        ensures
            final(self).wf(),
            match r {
                Ok(()) => exec_alu(old(self)@, op) == Ok::<State, Fault>(final(self)@),
                Err(f) => exec_alu(old(self)@, op) == Err::<State, Fault>(f) && final(self)@ == old(
                    self,
                )@,
            },
    {
        proof {
            lemma_opcode_field_bounds(op);
        }
        let d4 = op & 0xF;
        let x = ((op >> 8) & 0xF) as usize;
        let y = ((op >> 4) & 0xF) as usize;
        let vx = self.v_reg[x];
        let vy = self.v_reg[y];
        if d4 == 0x0 {
            self.v_reg.set(x, vy);
        } else if d4 == 0x1 {
            self.v_reg.set(x, vx | vy);
        } else if d4 == 0x2 {
            self.v_reg.set(x, vx & vy);
        } else if d4 == 0x3 {
            self.v_reg.set(x, vx ^ vy);
        } else if d4 == 0x4 {
            let carry = (vx as u16) + (vy as u16) > 0xFF;
            self.v_reg.set(x, vx.wrapping_add(vy));
            self.v_reg.set(0xF, if carry { 1 } else { 0 });
        } else if d4 == 0x5 {
            let no_borrow = vx >= vy;
            self.v_reg.set(x, vx.wrapping_sub(vy));
            self.v_reg.set(0xF, if no_borrow { 1 } else { 0 });
        } else if d4 == 0x6 {
            let lsb = vx & 1;
            self.v_reg.set(x, vx >> 1);
            self.v_reg.set(0xF, lsb);
        } else if d4 == 0x7 {
            let no_borrow = vy >= vx;
            self.v_reg.set(x, vy.wrapping_sub(vx));
            self.v_reg.set(0xF, if no_borrow { 1 } else { 0 });
        } else if d4 == 0xE {
            let msb = (vx >> 7) & 1;
            self.v_reg.set(x, vx << 1);
            self.v_reg.set(0xF, msb);
        } else {
            return Err(Fault::UndefinedOpcode(op));
        }
        Ok(())
    }

    /// Execute one DxyN sprite draw.
    fn execute_draw(&mut self, op: u16) -> (r: Result<(), Fault>)
        requires
            old(self).wf(),
        ensures
            final(self).wf(),
            match r {
                Ok(()) => exec_draw(old(self)@, op) == Ok::<State, Fault>(final(self)@),
                Err(f) => exec_draw(old(self)@, op) == Err::<State, Fault>(f) && final(self)@
                    == old(self)@,
            },
    {
        proof {
            lemma_opcode_field_bounds(op);
        }
        let ghost s0 = self@;
        let n = (op & 0xF) as usize;
        let x = ((op >> 8) & 0xF) as usize;
        let y = ((op >> 4) & 0xF) as usize;
        let i0 = self.i_reg as usize;
        if n > 0 && i0 + n > MEM_SIZE {
            let bad = if i0 >= MEM_SIZE {
                self.i_reg
            } else {
                MEM_SIZE as u16
            };
            return Err(Fault::MemoryAccess(bad));
        }
        if n == 0 {
            self.v_reg.set(0xF, 0);
            return Ok(());
        }
        let mut rows: Vec<u8> = Vec::new();
        let mut k: usize = 0;
        while k < n
            invariant
                k <= n,
                n <= 15,
                self@ == s0,
                s0.wf(),
                i0 == s0.i,
                i0 + n <= MEM_SIZE,
                rows@ == s0.ram.subrange(i0 as int, i0 + k),
            decreases n - k,
        {
            let b = self.ram[i0 + k];
            rows.push(b);
            proof {
                assert(s0.ram.subrange(i0 as int, i0 + k + 1) =~= s0.ram.subrange(
                    i0 as int,
                    i0 + k,
                ).push(s0.ram[i0 + k]));
            }
            k += 1;
        }
        let vx = self.v_reg[x];
        let vy = self.v_reg[y];
        let flipped = draw_sprite(&mut self.screen, &rows, vx, vy);
        self.v_reg.set(0xF, if flipped { 1 } else { 0 });
        Ok(())
    }

    /// Execute one FxNN instruction.
    fn execute_misc(&mut self, op: u16) -> (r: Result<(), Fault>)
        requires
            old(self).wf(),
            old(self)@.pc >= 2,
        ensures
            final(self).wf(),
            match r {
                Ok(()) => exec_misc(old(self)@, op) == Ok::<State, Fault>(final(self)@),
                Err(f) => exec_misc(old(self)@, op) == Err::<State, Fault>(f) && final(self)@
                    == old(self)@,
            },
    {
        proof {
            lemma_opcode_field_bounds(op);
        }
        let ghost s0 = self@;
        let nn = (op & 0xFF) as u8;
        let x = ((op >> 8) & 0xF) as usize;
        let vx = self.v_reg[x];
        if nn == 0x07 {
            self.v_reg.set(x, self.dt);
        } else if nn == 0x0A {
            match find_first_key(&self.keys) {
                Some(k) => self.v_reg.set(x, k),
                None => self.pc = self.pc - 2,
            }
        } else if nn == 0x15 {
            self.dt = vx;
        } else if nn == 0x18 {
            self.st = vx;
        } else if nn == 0x1E {
            self.i_reg = self.i_reg.wrapping_add(vx as u16);
        } else if nn == 0x29 {
            self.i_reg = (vx as u16) * 5;
        } else if nn == 0x33 {
            let i0 = self.i_reg as usize;
            if i0 + 2 >= MEM_SIZE {
                let bad = if i0 >= MEM_SIZE {
                    self.i_reg
                } else {
                    MEM_SIZE as u16
                };
                return Err(Fault::MemoryAccess(bad));
            }
            self.ram.set(i0, vx / 100);
            self.ram.set(i0 + 1, (vx / 10) % 10);
            self.ram.set(i0 + 2, vx % 10);
        } else if nn == 0x55 {
            let i0 = self.i_reg as usize;
            if i0 + x >= MEM_SIZE {
                let bad = if i0 >= MEM_SIZE {
                    self.i_reg
                } else {
                    MEM_SIZE as u16
                };
                return Err(Fault::MemoryAccess(bad));
            }
            let mut k: usize = 0;
            while k <= x
                invariant
                    k <= x + 1,
                    x < 16,
                    s0.wf(),
                    i0 == s0.i,
                    i0 + x < MEM_SIZE,
                    self@ == (State { ram: store_regs(s0.ram, s0.v, i0 as int, k - 1), ..s0 }),
                decreases x + 1 - k,
            {
                proof {
                    lemma_store_regs_len(s0.ram, s0.v, i0 as int, k - 1);
                }
                let b = self.v_reg[k];
                self.ram.set(i0 + k, b);
                k += 1;
            }
            proof {
                lemma_store_regs_len(s0.ram, s0.v, i0 as int, x as int);
            }
        } else if nn == 0x65 {
            let i0 = self.i_reg as usize;
            if i0 + x >= MEM_SIZE {
                let bad = if i0 >= MEM_SIZE {
                    self.i_reg
                } else {
                    MEM_SIZE as u16
                };
                return Err(Fault::MemoryAccess(bad));
            }
            let mut k: usize = 0;
            while k <= x
                invariant
                    k <= x + 1,
                    x < 16,
                    s0.wf(),
                    i0 == s0.i,
                    i0 + x < MEM_SIZE,
                    self@ == (State { v: load_regs(s0.v, s0.ram, i0 as int, k - 1), ..s0 }),
                decreases x + 1 - k,
            {
                proof {
                    lemma_load_regs_len(s0.v, s0.ram, i0 as int, k - 1);
                }
                let b = self.ram[i0 + k];
                self.v_reg.set(k, b);
                k += 1;
            }
            proof {
                lemma_load_regs_len(s0.v, s0.ram, i0 as int, x as int);
            }
        } else {
            return Err(Fault::UndefinedOpcode(op));
        }
        Ok(())
    }

    /// Execute one decoded instruction on the post-fetch state.
    fn execute(&mut self, op: u16, rb: u8) -> (r: Result<(), Fault>)
        requires
            old(self).wf(),
            2 <= old(self)@.pc <= MEM_SIZE,
        ensures
            final(self).wf(),
            match r {
                Ok(()) => exec_op(old(self)@, op, rb) == Ok::<State, Fault>(final(self)@),
                Err(f) => exec_op(old(self)@, op, rb) == Err::<State, Fault>(f) && final(self)@
                    == old(self)@,
            },
    {
        proof {
            lemma_opcode_field_bounds(op);
        }
        let d1 = (op >> 12) & 0xF;
        let d4 = op & 0xF;
        let x = ((op >> 8) & 0xF) as usize;
        let y = ((op >> 4) & 0xF) as usize;
        let nn = (op & 0xFF) as u8;
        let nnn = op & 0xFFF;
        if op == 0x0000 {
            Ok(())
        } else if op == 0x00E0 {
            self.screen = crate::machine::cleared_screen();
            proof {
                assert(self@.screen =~= Seq::new(
                    (SCREEN_WIDTH * SCREEN_HEIGHT) as nat,
                    |j: int| false,
                ));
            }
            Ok(())
        } else if op == 0x00EE {
            match self.pop() {
                Ok(addr) => {
                    self.pc = addr;
                    Ok(())
                },
                Err(f) => Err(f),
            }
        } else if d1 == 0x1 {
            self.pc = nnn;
            Ok(())
        } else if d1 == 0x2 {
            match self.push(self.pc) {
                Ok(()) => {
                    self.pc = nnn;
                    Ok(())
                },
                Err(f) => Err(f),
            }
        } else if d1 == 0x3 {
            if self.v_reg[x] == nn {
                self.pc = self.pc + 2;
            }
            Ok(())
        } else if d1 == 0x4 {
            if self.v_reg[x] != nn {
                self.pc = self.pc + 2;
            }
            Ok(())
        } else if d1 == 0x5 && d4 == 0x0 {
            if self.v_reg[x] == self.v_reg[y] {
                self.pc = self.pc + 2;
            }
            Ok(())
        } else if d1 == 0x6 {
            self.v_reg.set(x, nn);
            Ok(())
        } else if d1 == 0x7 {
            let v = self.v_reg[x].wrapping_add(nn);
            self.v_reg.set(x, v);
            Ok(())
        } else if d1 == 0x8 {
            self.execute_alu(op)
        } else if d1 == 0x9 && d4 == 0x0 {
            if self.v_reg[x] != self.v_reg[y] {
                self.pc = self.pc + 2;
            }
            Ok(())
        } else if d1 == 0xA {
            self.i_reg = nnn;
            Ok(())
        } else if d1 == 0xB {
            self.pc = nnn + (self.v_reg[0] as u16);
            Ok(())
        } else if d1 == 0xC {
            self.v_reg.set(x, rb & nn);
            Ok(())
        } else if d1 == 0xD {
            self.execute_draw(op)
        } else if d1 == 0xE && nn == 0x9E {
            let vx = self.v_reg[x];
            if vx as usize >= NUM_KEYS {
                return Err(Fault::KeyIndex(vx as usize));
            }
            if self.keys[vx as usize] {
                self.pc = self.pc + 2;
            }
            Ok(())
        } else if d1 == 0xE && nn == 0xA1 {
            let vx = self.v_reg[x];
            if vx as usize >= NUM_KEYS {
                return Err(Fault::KeyIndex(vx as usize));
            }
            if !self.keys[vx as usize] {
                self.pc = self.pc + 2;
            }
            Ok(())
        } else if d1 == 0xF {
            self.execute_misc(op)
        } else {
            Err(Fault::UndefinedOpcode(op))
        }
    }

    /// One full instruction cycle, with the byte for the random-number
    /// instruction supplied by the caller. Implements `step` exactly:
    /// on `Ok` the new state is `step`'s result, on `Err` the fault is
    /// `step`'s fault and the state is unchanged.
    pub fn tick_with_random(&mut self, rb: u8) -> (r: Result<(), Fault>)
        requires
            old(self).wf(),
        ensures
            final(self).wf(),
            match r {
                Ok(()) => step(old(self)@, rb) == Ok::<State, Fault>(final(self)@),
                Err(f) => step(old(self)@, rb) == Err::<State, Fault>(f) && final(self)@ == old(
                    self,
                )@,
            },
    {
        if self.pc as usize + 1 >= MEM_SIZE {
            let bad = if self.pc as usize >= MEM_SIZE {
                self.pc
            } else {
                self.pc + 1
            };
            return Err(Fault::MemoryAccess(bad));
        }
        let op = self.fetch();
        match self.execute(op, rb) {
            Ok(()) => Ok(()),
            Err(f) => {
                self.pc = self.pc - 2;
                proof {
                    assert(self@ =~= old(self)@);
                }
                Err(f)
            },
        }
    }

    /// One full instruction cycle. The random-number instruction uses a
    /// byte from the thread-local generator, so on success the contract
    /// promises that some byte explains the transition; every other
    /// opcode is deterministic under `step`, and a fault is the same
    /// for every byte.
    pub fn tick(&mut self) -> (r: Result<(), Fault>)
        requires
            old(self).wf(),
        ensures
            final(self).wf(),
            match r {
                Ok(()) => exists|rb: u8| step(old(self)@, rb) == Ok::<State, Fault>(final(self)@),
                Err(f) => (forall|rb: u8|
                    step(old(self)@, rb) == Err::<State, Fault>(f)) && final(self)@ == old(self)@,
            },
    {
        let rb = random_byte();
        let r = self.tick_with_random(rb);
        proof {
            if r is Err {
                assert forall|rb2: u8| step(old(self)@, rb2) == step(old(self)@, rb) by {
                    crate::laws::lemma_step_fault_uniform(old(self)@, rb, rb2);
                }
            }
        }
        r
    }
}

} // verus!
