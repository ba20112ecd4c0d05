//! A verified CHIP-8 virtual machine core.
//!
//! The `Chip8` machine holds all CPU state (memory, registers, stack,
//! display, keypad, timers) and executes one instruction per `tick`.
//! Every opcode's effect on the state is pinned down by the spec-level
//! transition function `step`, and the executable code is proved to
//! implement it exactly.

pub mod draw;
pub mod exec;
pub mod keymap;
pub mod laws;
pub mod machine;
pub mod state;

pub use keymap::key2btn;
pub use machine::Chip8;
pub use state::Fault;
pub use state::State;
