//! A CHIP-8 toolkit: an emulator core, an assembler for a small custom
//! assembly syntax, and disassemblers that turn ROM bytes back into text.

pub mod text;
pub mod chip8;
pub mod instr;
pub mod tokens;
pub mod parser;
pub mod disasm;
pub mod emu_disasm;
pub mod viewer;
pub mod sound;
pub mod roundtrip;
pub mod join;
pub mod emu_read;
