//! The lexical tokens of the assembly language.

use vstd::prelude::*;

verus! {

/// A token of the assembly language.
#[derive(Debug, PartialEq)]
pub enum Token {
    Cls,
    Ret,
    J,
    Call,
    /// `jri0`: jump to `NNN + V0`
    Jri0,
    Jri,
    Seqi,
    Snei,
    SeqReg,
    Sne,
    Sk,
    Snk,
    Seti,
    Addi,
    SetReg,
    Or,
    And,
    Xor,
    Add,
    Subf,
    Srlf,
    Subnf,
    Sllf,
    Rand,
    Sprite,
    Bcd,
    /// `I`
    I,
    Delay,
    Key,
    Sound,
    /// `FONT[Vx]`
    Font(u8),
    Register(u8),
    Number(u16),
    /// `[I]`
    MemI,
    Word,
    Comma,
    Newline,
}

} // verus!
