//! Laws of the instruction semantics: properties that hold of every
//! state and program, proved once and for all against `step`.

use vstd::prelude::*;

use crate::exec::exec_op;
use crate::exec::first_pressed;
use crate::exec::step;
use crate::state::addr_of;
use crate::state::fetch_word;
use crate::state::lemma_opcode_field_bounds;
use crate::state::low_byte;
use crate::state::nib1;
use crate::state::nib2;
use crate::state::nib3;
use crate::state::nib4;
use crate::state::popped;
use crate::state::pushed;
use crate::state::Fault;
use crate::state::State;
use crate::state::MEM_SIZE;
use crate::state::NUM_KEYS;
use crate::state::STACK_SIZE;

verus! {

/// A word whose top nibble is set is none of the three 0-group opcodes.
proof fn lemma_top_nibble_nonzero(op: u16)
    requires
        nib1(op) != 0,
    ensures
        op != 0x0000,
        op != 0x00E0,
        op != 0x00EE,
{
    assert((op >> 12) & 0xF != 0 ==> op != 0x0000 && op != 0x00E0 && op != 0x00EE) by (bit_vector);
}

/// After a jump (1nnn), the program counter is exactly the target
/// address: no residue of the fetch advance remains.
pub proof fn lemma_jump_exact_target(s: State, rb: u8)
    requires
        s.wf(),
        s.pc + 1 < MEM_SIZE,
        nib1(fetch_word(s)) == 0x1,
    ensures
        step(s, rb) matches Ok(t) && t.pc == addr_of(fetch_word(s)),
{
    lemma_top_nibble_nonzero(fetch_word(s));
}

/// After a call (2nnn) on a stack with room, the program counter is
/// exactly the target address, and the pushed return address is the
/// instruction after the call; on a full stack the call is a fatal
/// stack overflow and no other outcome is possible.
pub proof fn lemma_call_exact_target(s: State, rb: u8)
    requires
        s.wf(),
        s.pc + 1 < MEM_SIZE,
        nib1(fetch_word(s)) == 0x2,
    ensures
        s.sp < STACK_SIZE ==> (step(s, rb) matches Ok(t) && t.pc == addr_of(fetch_word(s)) && t.sp
            == s.sp + 1 && t.stack[s.sp as int] == s.pc + 2),
        s.sp == STACK_SIZE ==> step(s, rb) == Err::<State, Fault>(Fault::StackOverflow),
{
    lemma_top_nibble_nonzero(fetch_word(s));
}

/// After an offset jump (Bnnn), the program counter is exactly the
/// target address plus V0.
pub proof fn lemma_jump_offset_exact_target(s: State, rb: u8)
    requires
        s.wf(),
        s.pc + 1 < MEM_SIZE,
        nib1(fetch_word(s)) == 0xB,
    ensures
        step(s, rb) matches Ok(t) && t.pc == addr_of(fetch_word(s)) + s.v[0],
{
    lemma_top_nibble_nonzero(fetch_word(s));
    lemma_opcode_field_bounds(fetch_word(s));
}

/// Whether a conditional-skip instruction's condition holds in `s`.
pub open spec fn skip_condition(s: State, op: u16) -> bool {
    let x = nib2(op) as int;
    let y = nib3(op) as int;
    let nn = low_byte(op);
    if nib1(op) == 0x3 {
        s.v[x] == nn
    } else if nib1(op) == 0x4 {
        s.v[x] != nn
    } else if nib1(op) == 0x5 {
        s.v[x] == s.v[y]
    } else {
        s.v[x] != s.v[y]
    }
}

/// A conditional skip (3xnn, 4xnn, 5xy0, 9xy0) advances the program
/// counter by 4 in total when its condition holds (fetch +2, skip +2)
/// and by 2 otherwise, and changes nothing else.
pub proof fn lemma_skip_amount(s: State, rb: u8)
    requires
        s.wf(),
        s.pc + 1 < MEM_SIZE,
        nib1(fetch_word(s)) == 0x3 || nib1(fetch_word(s)) == 0x4 || (nib1(fetch_word(s)) == 0x5
            && nib4(fetch_word(s)) == 0x0) || (nib1(fetch_word(s)) == 0x9 && nib4(fetch_word(s))
            == 0x0),
    ensures
        step(s, rb) matches Ok(t) && t == (State {
            pc: if skip_condition(s, fetch_word(s)) {
                (s.pc + 4) as u16
            } else {
                (s.pc + 2) as u16
            },
            ..s
        }),
{
    lemma_top_nibble_nonzero(fetch_word(s));
}

/// If no key at or above index k is pressed, the scan finds none.
proof fn lemma_first_pressed_none(keys: Seq<bool>, k: int)
    requires
        forall|j: int| 0 <= j < NUM_KEYS ==> !keys[j],
        k >= 0,
    ensures
        first_pressed(keys, k) is None,
    decreases NUM_KEYS - k,
{
    if k < NUM_KEYS {
        lemma_first_pressed_none(keys, k + 1);
    }
}

/// If key k is pressed and none below it is, the scan from any index
/// at or below k finds exactly k.
proof fn lemma_first_pressed_some(keys: Seq<bool>, j: int, k: int)
    requires
        0 <= j <= k < NUM_KEYS,
        keys[k],
        forall|m: int| 0 <= m < k ==> !keys[m],
    ensures
        first_pressed(keys, j) == Some(k as u8),
    decreases k - j,
{
    if j < k {
        lemma_first_pressed_some(keys, j + 1, k);
    }
}

/// The wait-for-key instruction (Fx0A) with no key pressed is a stall:
/// one cycle returns the very same state, so any number of cycles does.
pub proof fn lemma_wait_key_stalls(s: State, rb: u8)
    requires
        s.wf(),
        s.pc + 1 < MEM_SIZE,
        nib1(fetch_word(s)) == 0xF,
        low_byte(fetch_word(s)) == 0x0A,
        forall|j: int| 0 <= j < NUM_KEYS ==> !s.keys[j],
    ensures
        step(s, rb) == Ok::<State, Fault>(s),
{
    lemma_top_nibble_nonzero(fetch_word(s));
    lemma_first_pressed_none(s.keys, 0);
    let s1 = State { pc: (s.pc + 2) as u16, ..s };
    assert(exec_op(s1, fetch_word(s), rb) matches Ok(t) && t =~= s);
}

/// The wait-for-key instruction (Fx0A) with key k pressed, and no key
/// below it, advances the program counter normally and commits k to Vx.
pub proof fn lemma_wait_key_commits(s: State, rb: u8, k: int)
    requires
        s.wf(),
        s.pc + 1 < MEM_SIZE,
        nib1(fetch_word(s)) == 0xF,
        low_byte(fetch_word(s)) == 0x0A,
        0 <= k < NUM_KEYS,
        s.keys[k],
        forall|m: int| 0 <= m < k ==> !s.keys[m],
    ensures
        step(s, rb) matches Ok(t) && t == (State {
            pc: (s.pc + 2) as u16,
            v: s.v.update(nib2(fetch_word(s)) as int, k as u8),
            ..s
        }),
{
    lemma_top_nibble_nonzero(fetch_word(s));
    lemma_first_pressed_some(s.keys, 0, k);
}

/// The bytes stored by the BCD instruction are decimal digits that
/// together reconstruct the register value.
pub proof fn lemma_bcd_digits(v: u8)
    ensures
        v / 100 < 10,
        (v / 10) % 10 < 10,
        v % 10 < 10,
        (v / 100) * 100 + ((v / 10) % 10) * 10 + (v % 10) == v,
{
}

/// Every successful cycle preserves well-formedness: the sizes of
/// memory, display, registers, stack and keypad are fixed, and the
/// stack pointer never exceeds the stack's 16 slots.
pub proof fn lemma_step_preserves_wf(s: State, rb: u8)
    requires
        s.wf(),
    ensures
        step(s, rb) matches Ok(t) ==> t.wf(),
{
    let op = fetch_word(s);
    lemma_opcode_field_bounds(op);
    if s.pc + 1 < MEM_SIZE {
        let x = nib2(op) as int;
        if nib1(op) == 0xD {
            let n = nib4(op) as int;
            if n > 0 && s.i + n <= MEM_SIZE {
                let rows = s.ram.subrange(s.i as int, s.i + n);
                crate::draw::lemma_draw_pointwise(s.screen, rows, s.v[x], s.v[nib3(op) as int], 0);
            }
        } else if nib1(op) == 0xF && low_byte(op) == 0x55 && s.i + x < MEM_SIZE {
            crate::exec::lemma_store_regs_len(s.ram, s.v, s.i as int, x);
        } else if nib1(op) == 0xF && low_byte(op) == 0x65 && s.i + x < MEM_SIZE {
            crate::exec::lemma_load_regs_len(s.v, s.ram, s.i as int, x);
        }
    }
}

/// A fault never depends on the drawn random byte: only the
/// random-number instruction reads it, and that instruction always
/// succeeds, so if one cycle faults, every byte faults the same way.
pub proof fn lemma_step_fault_uniform(s: State, rb1: u8, rb2: u8)
    requires
        step(s, rb1) is Err,
    ensures
        step(s, rb2) == step(s, rb1),
{
}

/// The state after pushing each address of `a` in order.
pub open spec fn push_all(s: State, a: Seq<u16>) -> State
    decreases a.len(),
{
    if a.len() == 0 {
        s
    } else {
        push_all(pushed(s, a[0]), a.subrange(1, a.len() as int))
    }
}

/// The values returned by `n` successive pops.
pub open spec fn pop_vals(s: State, n: nat) -> Seq<u16>
    decreases n,
{
    if n == 0 {
        Seq::empty()
    } else {
        seq![s.stack[s.sp - 1]] + pop_vals(popped(s), (n - 1) as nat)
    }
}

/// Pushing writes the addresses in order above the old stack pointer
/// and moves the pointer up by their number; nothing else changes.
proof fn lemma_push_all_shape(s: State, a: Seq<u16>)
    requires
        s.wf(),
        s.sp + a.len() <= STACK_SIZE,
    ensures
        push_all(s, a).wf(),
        push_all(s, a).sp == s.sp + a.len(),
        forall|j: int| 0 <= j < a.len() ==> push_all(s, a).stack[s.sp + j] == a[j],
        forall|j: int| 0 <= j < s.sp ==> push_all(s, a).stack[j] == s.stack[j],
        push_all(s, a) == (State { sp: push_all(s, a).sp, stack: push_all(s, a).stack, ..s }),
    decreases a.len(),
{
    if a.len() > 0 {
        let rest = a.subrange(1, a.len() as int);
        let s1 = pushed(s, a[0]);
        lemma_push_all_shape(s1, rest);
        assert forall|j: int| 0 <= j < a.len() implies push_all(s, a).stack[s.sp + j] == a[j] by {
            if j == 0 {
                assert(push_all(s1, rest).stack[s.sp as int] == s1.stack[s.sp as int]);
            } else {
                assert(push_all(s1, rest).stack[s1.sp + (j - 1)] == rest[j - 1]);
            }
        }
        assert forall|j: int| 0 <= j < s.sp implies push_all(s, a).stack[j] == s.stack[j] by {
            assert(push_all(s1, rest).stack[j] == s1.stack[j]);
        }
    }
}

/// Popping reads the stack downward from just below the stack pointer.
proof fn lemma_pop_vals_shape(s: State, n: nat)
    requires
        s.wf(),
        n <= s.sp,
    ensures
        pop_vals(s, n).len() == n,
        forall|j: int| 0 <= j < n ==> pop_vals(s, n)[j] == s.stack[s.sp - 1 - j],
    decreases n,
{
    if n > 0 {
        lemma_pop_vals_shape(popped(s), (n - 1) as nat);
    }
}

/// Round trip through the call stack: pushing the addresses of `a` in
/// order and then popping as many times returns them in reverse order.
/// One more push than the stack's 16 slots is a fatal overflow, which
/// `Chip8::push` reports without touching the state.
pub proof fn lemma_push_pop_roundtrip(s: State, a: Seq<u16>)
    requires
        s.wf(),
        s.sp + a.len() <= STACK_SIZE,
    ensures
        pop_vals(push_all(s, a), a.len()) == a.reverse(),
        push_all(s, a).sp == s.sp + a.len(),
{
    lemma_push_all_shape(s, a);
    lemma_pop_vals_shape(push_all(s, a), a.len());
    assert(pop_vals(push_all(s, a), a.len()) =~= a.reverse());
}

} // verus!
