//! Reading the emulator's mnemonic syntax back: a reader of that syntax
//! gives back the word that each line of the emulator's disassembly was made
//! from, so no two instructions share a text.

use vstd::prelude::*;
use crate::chip8::{op_kind, op_n, op_nn, op_nnn, op_x, op_y};
use crate::disasm::recognized;
use crate::emu_disasm::{alu_text, inst_text, misc_text, r1, r2};
use crate::parser::{
    ident_continue, p_comma, p_expect, p_expect_ident, p_ident, p_number, ws_end, ErrorKind, PRes,
};
use crate::roundtrip::{
    is_shift, lemma_comma, lemma_comma_dec, lemma_dec_seq, lemma_hex_seq, lemma_ident, lemma_number_dec,
    lemma_occurs_split, lemma_ops_dec, lemma_ops_hex, lemma_ws_run, lossy, occurs_at, valid_name, comma_dec,
    followed,
};
use crate::text::{dec_seq, hex_seq};

verus! {

// ---------------------------------------------------------------------------
// The reader

/// A register `V` and a decimal number, after whitespace.
pub open spec fn p_vreg(s: Seq<char>, i: int) -> PRes<u16> {
    let j = ws_end(s, i);
    if j < s.len() && s[j] == 'V' {
        p_number(s, j + 1)
    } else {
        Err((j, ErrorKind::ExpectedRegister))
    }
}

/// The word `v`, when the text has ended at `k`.
pub open spec fn word_at_end(s: Seq<char>, k: int, v: int) -> Option<u16> {
    if k == s.len() && 0 <= v <= 0xFFFF { Some(v as u16) } else { None }
}

/// ` n`: the word `base + n`.
pub open spec fn d_num(s: Seq<char>, i: int, base: int) -> Option<u16> {
    match p_number(s, i) {
        Ok((n, k)) => word_at_end(s, k, base + n),
        Err(_) => None,
    }
}

/// ` Vx`: the word `base + 256 x`.
pub open spec fn d_reg(s: Seq<char>, i: int, base: int) -> Option<u16> {
    match p_vreg(s, i) {
        Ok((x, k)) => word_at_end(s, k, base + x * 256),
        Err(_) => None,
    }
}

/// ` Vx, n`: the word `base + 256 x + n`.
pub open spec fn d_reg_num(s: Seq<char>, i: int, base: int) -> Option<u16> {
    match p_vreg(s, i) {
        Ok((x, k1)) => match p_comma(s, k1) {
            Ok((_, k2)) => match p_number(s, k2) {
                Ok((n, k3)) => word_at_end(s, k3, base + x * 256 + n),
                Err(_) => None,
            },
            Err(_) => None,
        },
        Err(_) => None,
    }
}

/// ` Vx, Vy`: the word `base + 256 x + 16 y`.
pub open spec fn d_reg_reg(s: Seq<char>, i: int, base: int) -> Option<u16> {
    match p_vreg(s, i) {
        Ok((x, k1)) => match p_comma(s, k1) {
            Ok((_, k2)) => match p_vreg(s, k2) {
                Ok((y, k3)) => word_at_end(s, k3, base + x * 256 + y * 16),
                Err(_) => None,
            },
            Err(_) => None,
        },
        Err(_) => None,
    }
}

/// A shift: ` Vx, Vy`, or ` Vx` alone, which reads as `Y` = 0.
pub open spec fn d_shift(s: Seq<char>, i: int, base: int) -> Option<u16> {
    match p_vreg(s, i) {
        Ok((x, k1)) => if k1 == s.len() {
            word_at_end(s, k1, base + x * 256)
        } else {
            d_reg_reg(s, i, base)
        },
        Err(_) => None,
    }
}

/// ` Vx, Vy, n`: the word `DXYN`.
pub open spec fn d_sprite(s: Seq<char>, i: int) -> Option<u16> {
    match p_vreg(s, i) {
        Ok((x, k1)) => match p_comma(s, k1) {
            Ok((_, k2)) => match p_vreg(s, k2) {
                Ok((y, k3)) => match p_comma(s, k3) {
                    Ok((_, k4)) => match p_number(s, k4) {
                        Ok((n, k5)) => word_at_end(s, k5, 0xD000 + x * 256 + y * 16 + n),
                        Err(_) => None,
                    },
                    Err(_) => None,
                },
                Err(_) => None,
            },
            Err(_) => None,
        },
        Err(_) => None,
    }
}

/// ` I, n`: the word `base + n`.
pub open spec fn d_i_num(s: Seq<char>, i: int, base: int) -> Option<u16> {
    match p_expect(s, i, 'I') {
        Ok((_, k1)) => match p_comma(s, k1) {
            Ok((_, k2)) => d_num(s, k2, base),
            Err(_) => None,
        },
        Err(_) => None,
    }
}

/// ` I, Vx`: the word `base + 256 x`.
pub open spec fn d_i_reg(s: Seq<char>, i: int, base: int) -> Option<u16> {
    match p_expect(s, i, 'I') {
        Ok((_, k1)) => match p_comma(s, k1) {
            Ok((_, k2)) => d_reg(s, k2, base),
            Err(_) => None,
        },
        Err(_) => None,
    }
}

/// Whether the next character after whitespace is `V`.
pub open spec fn v_next(s: Seq<char>, i: int) -> bool {
    ws_end(s, i) < s.len() && s[ws_end(s, i)] == 'V'
}

/// `ldi`: ` Vx, nn` (`6XNN`) or ` I, nnn` (`ANNN`).
pub open spec fn d_ldi(s: Seq<char>, i: int) -> Option<u16> {
    if v_next(s, i) { d_reg_num(s, i, 0x6000) } else { d_i_num(s, i, 0xA000) }
}

/// `add`: ` Vx, Vy` (`8XY4`) or ` I, Vx` (`FX1E`).
pub open spec fn d_add(s: Seq<char>, i: int) -> Option<u16> {
    if v_next(s, i) { d_reg_reg(s, i, 0x8004) } else { d_i_reg(s, i, 0xF01E) }
}

/// `ld`: ` Vx, delay` (`FX07`), ` Vx, key` (`FX0A`), ` delay, Vx` (`FX15`),
/// ` sound, Vx` (`FX18`) or ` I, font[Vx]` (`FX29`).
pub open spec fn d_ld(s: Seq<char>, i: int) -> Option<u16> {
    if v_next(s, i) {
        match p_vreg(s, i) {
            Ok((x, k1)) => match p_comma(s, k1) {
                Ok((_, k2)) => match p_ident(s, k2) {
                    Ok((w, k3)) => if w == "delay"@ {
                        word_at_end(s, k3, 0xF007 + x * 256)
                    } else if w == "key"@ {
                        word_at_end(s, k3, 0xF00A + x * 256)
                    } else {
                        None
                    },
                    Err(_) => None,
                },
                Err(_) => None,
            },
            Err(_) => None,
        }
    } else {
        match p_ident(s, i) {
            Ok((w, k1)) => match p_comma(s, k1) {
                Ok((_, k2)) => if w == "I"@ {
                    match p_expect_ident(s, k2, "font"@) {
                        Ok((_, k3)) => match p_expect(s, k3, '[') {
                            Ok((_, k4)) => match p_vreg(s, k4) {
                                Ok((x, k5)) => match p_expect(s, k5, ']') {
                                    Ok((_, k6)) => word_at_end(s, k6, 0xF029 + x * 256),
                                    Err(_) => None,
                                },
                                Err(_) => None,
                            },
                            Err(_) => None,
                        },
                        Err(_) => None,
                    }
                } else if w == "delay"@ {
                    d_reg(s, k2, 0xF015)
                } else if w == "sound"@ {
                    d_reg(s, k2, 0xF018)
                } else {
                    None
                },
                Err(_) => None,
            },
            Err(_) => None,
        }
    }
}

/// The operands of the instruction named `name`, read up to `k`.
#[verifier::opaque]
pub open spec fn d_ops(s: Seq<char>, name: Seq<char>, k: int) -> Option<u16> {
    if name == "cls"@ {
        word_at_end(s, k, 0x00E0)
    } else if name == "ret"@ {
        word_at_end(s, k, 0x00EE)
    } else if name == "j"@ {
        d_num(s, k, 0x1000)
    } else if name == "call"@ {
        d_num(s, k, 0x2000)
    } else if name == "ji0"@ {
        d_num(s, k, 0xB000)
    } else if name == "jir"@ {
        d_reg_num(s, k, 0xB000)
    } else if name == "seqi"@ {
        d_reg_num(s, k, 0x3000)
    } else if name == "snei"@ {
        d_reg_num(s, k, 0x4000)
    } else if name == "ldi"@ {
        d_ldi(s, k)
    } else if name == "addi"@ {
        d_reg_num(s, k, 0x7000)
    } else if name == "rand"@ {
        d_reg_num(s, k, 0xC000)
    } else if name == "seq"@ {
        d_reg_reg(s, k, 0x5000)
    } else if name == "sne"@ {
        d_reg_reg(s, k, 0x9000)
    } else if name == "set"@ {
        d_reg_reg(s, k, 0x8000)
    } else if name == "or"@ {
        d_reg_reg(s, k, 0x8001)
    } else if name == "and"@ {
        d_reg_reg(s, k, 0x8002)
    } else if name == "xor"@ {
        d_reg_reg(s, k, 0x8003)
    } else if name == "add"@ {
        d_add(s, k)
    } else if name == "subf"@ {
        d_reg_reg(s, k, 0x8005)
    } else if name == "srlf"@ {
        d_shift(s, k, 0x8006)
    } else if name == "subnf"@ {
        d_reg_reg(s, k, 0x8007)
    } else if name == "sllf"@ {
        d_shift(s, k, 0x800E)
    } else if name == "sprite"@ {
        d_sprite(s, k)
    } else if name == "sk"@ {
        d_reg(s, k, 0xE09E)
    } else if name == "snk"@ {
        d_reg(s, k, 0xE0A1)
    } else if name == "bcd"@ {
        d_reg(s, k, 0xF033)
    } else if name == "ld"@ {
        d_ld(s, k)
    } else if name == "sm"@ {
        d_i_reg(s, k, 0xF055)
    } else if name == "lm"@ {
        d_i_reg(s, k, 0xF065)
    } else {
        None
    }
}

/// The word that a line of the emulator's syntax stands for, if it is one.
pub open spec fn emu_read(s: Seq<char>) -> Option<u16> {
    match p_ident(s, 0) {
        Ok((name, k)) => d_ops(s, name, k),
        Err(_) => None,
    }
}

// ---------------------------------------------------------------------------
// Names

/// The characters of the mnemonics and of the words their operands use.
proof fn lemma_emu_names()
    ensures
        "cls"@.len() == 3 && "cls"@[0] == 'c' && "cls"@[1] == 'l' && "cls"@[2] == 's',
        "ret"@.len() == 3 && "ret"@[0] == 'r' && "ret"@[1] == 'e' && "ret"@[2] == 't',
        "j"@.len() == 1 && "j"@[0] == 'j',
        "call"@.len() == 4 && "call"@[0] == 'c' && "call"@[1] == 'a' && "call"@[2] == 'l' && "call"@[3] == 'l',
        "ji0"@.len() == 3 && "ji0"@[0] == 'j' && "ji0"@[1] == 'i' && "ji0"@[2] == '0',
        "jir"@.len() == 3 && "jir"@[0] == 'j' && "jir"@[1] == 'i' && "jir"@[2] == 'r',
        "seqi"@.len() == 4 && "seqi"@[0] == 's' && "seqi"@[1] == 'e' && "seqi"@[2] == 'q' && "seqi"@[3] == 'i',
        "snei"@.len() == 4 && "snei"@[0] == 's' && "snei"@[1] == 'n' && "snei"@[2] == 'e' && "snei"@[3] == 'i',
        "ldi"@.len() == 3 && "ldi"@[0] == 'l' && "ldi"@[1] == 'd' && "ldi"@[2] == 'i',
        "addi"@.len() == 4 && "addi"@[0] == 'a' && "addi"@[1] == 'd' && "addi"@[2] == 'd' && "addi"@[3] == 'i',
        "rand"@.len() == 4 && "rand"@[0] == 'r' && "rand"@[1] == 'a' && "rand"@[2] == 'n' && "rand"@[3] == 'd',
        "seq"@.len() == 3 && "seq"@[0] == 's' && "seq"@[1] == 'e' && "seq"@[2] == 'q',
        "sne"@.len() == 3 && "sne"@[0] == 's' && "sne"@[1] == 'n' && "sne"@[2] == 'e',
        "set"@.len() == 3 && "set"@[0] == 's' && "set"@[1] == 'e' && "set"@[2] == 't',
        "or"@.len() == 2 && "or"@[0] == 'o' && "or"@[1] == 'r',
        "and"@.len() == 3 && "and"@[0] == 'a' && "and"@[1] == 'n' && "and"@[2] == 'd',
        "xor"@.len() == 3 && "xor"@[0] == 'x' && "xor"@[1] == 'o' && "xor"@[2] == 'r',
        "add"@.len() == 3 && "add"@[0] == 'a' && "add"@[1] == 'd' && "add"@[2] == 'd',
        "subf"@.len() == 4 && "subf"@[0] == 's' && "subf"@[1] == 'u' && "subf"@[2] == 'b' && "subf"@[3] == 'f',
        "srlf"@.len() == 4 && "srlf"@[0] == 's' && "srlf"@[1] == 'r' && "srlf"@[2] == 'l' && "srlf"@[3] == 'f',
        "subnf"@.len() == 5 && "subnf"@[0] == 's' && "subnf"@[1] == 'u' && "subnf"@[2] == 'b' && "subnf"@[3] == 'n' && "subnf"@[4] == 'f',
        "sllf"@.len() == 4 && "sllf"@[0] == 's' && "sllf"@[1] == 'l' && "sllf"@[2] == 'l' && "sllf"@[3] == 'f',
        "sprite"@.len() == 6 && "sprite"@[0] == 's' && "sprite"@[1] == 'p' && "sprite"@[2] == 'r' && "sprite"@[3] == 'i' && "sprite"@[4] == 't' && "sprite"@[5] == 'e',
        "sk"@.len() == 2 && "sk"@[0] == 's' && "sk"@[1] == 'k',
        "snk"@.len() == 3 && "snk"@[0] == 's' && "snk"@[1] == 'n' && "snk"@[2] == 'k',
        "bcd"@.len() == 3 && "bcd"@[0] == 'b' && "bcd"@[1] == 'c' && "bcd"@[2] == 'd',
        "ld"@.len() == 2 && "ld"@[0] == 'l' && "ld"@[1] == 'd',
        "sm"@.len() == 2 && "sm"@[0] == 's' && "sm"@[1] == 'm',
        "lm"@.len() == 2 && "lm"@[0] == 'l' && "lm"@[1] == 'm',
        "delay"@.len() == 5 && "delay"@[0] == 'd' && "delay"@[1] == 'e' && "delay"@[2] == 'l' && "delay"@[3] == 'a' && "delay"@[4] == 'y',
        "key"@.len() == 3 && "key"@[0] == 'k' && "key"@[1] == 'e' && "key"@[2] == 'y',
        "sound"@.len() == 5 && "sound"@[0] == 's' && "sound"@[1] == 'o' && "sound"@[2] == 'u' && "sound"@[3] == 'n' && "sound"@[4] == 'd',
        "I"@.len() == 1 && "I"@[0] == 'I',
        "font"@.len() == 4 && "font"@[0] == 'f' && "font"@[1] == 'o' && "font"@[2] == 'n' && "font"@[3] == 't',
{
    reveal_strlit("cls");
    reveal_strlit("ret");
    reveal_strlit("j");
    reveal_strlit("call");
    reveal_strlit("ji0");
    reveal_strlit("jir");
    reveal_strlit("seqi");
    reveal_strlit("snei");
    reveal_strlit("ldi");
    reveal_strlit("addi");
    reveal_strlit("rand");
    reveal_strlit("seq");
    reveal_strlit("sne");
    reveal_strlit("set");
    reveal_strlit("or");
    reveal_strlit("and");
    reveal_strlit("xor");
    reveal_strlit("add");
    reveal_strlit("subf");
    reveal_strlit("srlf");
    reveal_strlit("subnf");
    reveal_strlit("sllf");
    reveal_strlit("sprite");
    reveal_strlit("sk");
    reveal_strlit("snk");
    reveal_strlit("bcd");
    reveal_strlit("ld");
    reveal_strlit("sm");
    reveal_strlit("lm");
    reveal_strlit("delay");
    reveal_strlit("key");
    reveal_strlit("sound");
    reveal_strlit("I");
    reveal_strlit("font");
}

/// The mnemonics and the words their operands use are identifiers.
proof fn lemma_emu_valid_names()
    ensures
        valid_name("cls"@) && "cls"@.len() == 3,
        valid_name("ret"@) && "ret"@.len() == 3,
        valid_name("j"@) && "j"@.len() == 1,
        valid_name("call"@) && "call"@.len() == 4,
        valid_name("ji0"@) && "ji0"@.len() == 3,
        valid_name("jir"@) && "jir"@.len() == 3,
        valid_name("seqi"@) && "seqi"@.len() == 4,
        valid_name("snei"@) && "snei"@.len() == 4,
        valid_name("ldi"@) && "ldi"@.len() == 3,
        valid_name("addi"@) && "addi"@.len() == 4,
        valid_name("rand"@) && "rand"@.len() == 4,
        valid_name("seq"@) && "seq"@.len() == 3,
        valid_name("sne"@) && "sne"@.len() == 3,
        valid_name("set"@) && "set"@.len() == 3,
        valid_name("or"@) && "or"@.len() == 2,
        valid_name("and"@) && "and"@.len() == 3,
        valid_name("xor"@) && "xor"@.len() == 3,
        valid_name("add"@) && "add"@.len() == 3,
        valid_name("subf"@) && "subf"@.len() == 4,
        valid_name("srlf"@) && "srlf"@.len() == 4,
        valid_name("subnf"@) && "subnf"@.len() == 5,
        valid_name("sllf"@) && "sllf"@.len() == 4,
        valid_name("sprite"@) && "sprite"@.len() == 6,
        valid_name("sk"@) && "sk"@.len() == 2,
        valid_name("snk"@) && "snk"@.len() == 3,
        valid_name("bcd"@) && "bcd"@.len() == 3,
        valid_name("ld"@) && "ld"@.len() == 2,
        valid_name("sm"@) && "sm"@.len() == 2,
        valid_name("lm"@) && "lm"@.len() == 2,
        valid_name("delay"@) && "delay"@.len() == 5,
        valid_name("key"@) && "key"@.len() == 3,
        valid_name("sound"@) && "sound"@.len() == 5,
        valid_name("I"@) && "I"@.len() == 1,
        valid_name("font"@) && "font"@.len() == 4,
{
    lemma_emu_names();
    assert forall|k: int| 0 <= k < 3 implies ident_continue(#[trigger] "cls"@[k]) by {
        assert(k == 0 || k == 1 || k == 2);
    }
    assert forall|k: int| 0 <= k < 3 implies ident_continue(#[trigger] "ret"@[k]) by {
        assert(k == 0 || k == 1 || k == 2);
    }
    assert forall|k: int| 0 <= k < 1 implies ident_continue(#[trigger] "j"@[k]) by {
        assert(k == 0);
    }
    assert forall|k: int| 0 <= k < 4 implies ident_continue(#[trigger] "call"@[k]) by {
        assert(k == 0 || k == 1 || k == 2 || k == 3);
    }
    assert forall|k: int| 0 <= k < 3 implies ident_continue(#[trigger] "ji0"@[k]) by {
        assert(k == 0 || k == 1 || k == 2);
    }
    assert forall|k: int| 0 <= k < 3 implies ident_continue(#[trigger] "jir"@[k]) by {
        assert(k == 0 || k == 1 || k == 2);
    }
    assert forall|k: int| 0 <= k < 4 implies ident_continue(#[trigger] "seqi"@[k]) by {
        assert(k == 0 || k == 1 || k == 2 || k == 3);
    }
    assert forall|k: int| 0 <= k < 4 implies ident_continue(#[trigger] "snei"@[k]) by {
        assert(k == 0 || k == 1 || k == 2 || k == 3);
    }
    assert forall|k: int| 0 <= k < 3 implies ident_continue(#[trigger] "ldi"@[k]) by {
        assert(k == 0 || k == 1 || k == 2);
    }
    assert forall|k: int| 0 <= k < 4 implies ident_continue(#[trigger] "addi"@[k]) by {
        assert(k == 0 || k == 1 || k == 2 || k == 3);
    }
    assert forall|k: int| 0 <= k < 4 implies ident_continue(#[trigger] "rand"@[k]) by {
        assert(k == 0 || k == 1 || k == 2 || k == 3);
    }
    assert forall|k: int| 0 <= k < 3 implies ident_continue(#[trigger] "seq"@[k]) by {
        assert(k == 0 || k == 1 || k == 2);
    }
    assert forall|k: int| 0 <= k < 3 implies ident_continue(#[trigger] "sne"@[k]) by {
        assert(k == 0 || k == 1 || k == 2);
    }
    assert forall|k: int| 0 <= k < 3 implies ident_continue(#[trigger] "set"@[k]) by {
        assert(k == 0 || k == 1 || k == 2);
    }
    assert forall|k: int| 0 <= k < 2 implies ident_continue(#[trigger] "or"@[k]) by {
        assert(k == 0 || k == 1);
    }
    assert forall|k: int| 0 <= k < 3 implies ident_continue(#[trigger] "and"@[k]) by {
        assert(k == 0 || k == 1 || k == 2);
    }
    assert forall|k: int| 0 <= k < 3 implies ident_continue(#[trigger] "xor"@[k]) by {
        assert(k == 0 || k == 1 || k == 2);
    }
    assert forall|k: int| 0 <= k < 3 implies ident_continue(#[trigger] "add"@[k]) by {
        assert(k == 0 || k == 1 || k == 2);
    }
    assert forall|k: int| 0 <= k < 4 implies ident_continue(#[trigger] "subf"@[k]) by {
        assert(k == 0 || k == 1 || k == 2 || k == 3);
    }
    assert forall|k: int| 0 <= k < 4 implies ident_continue(#[trigger] "srlf"@[k]) by {
        assert(k == 0 || k == 1 || k == 2 || k == 3);
    }
    assert forall|k: int| 0 <= k < 5 implies ident_continue(#[trigger] "subnf"@[k]) by {
        assert(k == 0 || k == 1 || k == 2 || k == 3 || k == 4);
    }
    assert forall|k: int| 0 <= k < 4 implies ident_continue(#[trigger] "sllf"@[k]) by {
        assert(k == 0 || k == 1 || k == 2 || k == 3);
    }
    assert forall|k: int| 0 <= k < 6 implies ident_continue(#[trigger] "sprite"@[k]) by {
        assert(k == 0 || k == 1 || k == 2 || k == 3 || k == 4 || k == 5);
    }
    assert forall|k: int| 0 <= k < 2 implies ident_continue(#[trigger] "sk"@[k]) by {
        assert(k == 0 || k == 1);
    }
    assert forall|k: int| 0 <= k < 3 implies ident_continue(#[trigger] "snk"@[k]) by {
        assert(k == 0 || k == 1 || k == 2);
    }
    assert forall|k: int| 0 <= k < 3 implies ident_continue(#[trigger] "bcd"@[k]) by {
        assert(k == 0 || k == 1 || k == 2);
    }
    assert forall|k: int| 0 <= k < 2 implies ident_continue(#[trigger] "ld"@[k]) by {
        assert(k == 0 || k == 1);
    }
    assert forall|k: int| 0 <= k < 2 implies ident_continue(#[trigger] "sm"@[k]) by {
        assert(k == 0 || k == 1);
    }
    assert forall|k: int| 0 <= k < 2 implies ident_continue(#[trigger] "lm"@[k]) by {
        assert(k == 0 || k == 1);
    }
    assert forall|k: int| 0 <= k < 5 implies ident_continue(#[trigger] "delay"@[k]) by {
        assert(k == 0 || k == 1 || k == 2 || k == 3 || k == 4);
    }
    assert forall|k: int| 0 <= k < 3 implies ident_continue(#[trigger] "key"@[k]) by {
        assert(k == 0 || k == 1 || k == 2);
    }
    assert forall|k: int| 0 <= k < 5 implies ident_continue(#[trigger] "sound"@[k]) by {
        assert(k == 0 || k == 1 || k == 2 || k == 3 || k == 4);
    }
    assert forall|k: int| 0 <= k < 1 implies ident_continue(#[trigger] "I"@[k]) by {
        assert(k == 0);
    }
    assert forall|k: int| 0 <= k < 4 implies ident_continue(#[trigger] "font"@[k]) by {
        assert(k == 0 || k == 1 || k == 2 || k == 3);
    }
}

/// What `d_ops` reads for each mnemonic.
proof fn lemma_emu_ops(s: Seq<char>, k: int)
    ensures
        d_ops(s, "cls"@, k) == word_at_end(s, k, 0x00E0),
        d_ops(s, "ret"@, k) == word_at_end(s, k, 0x00EE),
        d_ops(s, "j"@, k) == d_num(s, k, 0x1000),
        d_ops(s, "call"@, k) == d_num(s, k, 0x2000),
        d_ops(s, "ji0"@, k) == d_num(s, k, 0xB000),
        d_ops(s, "jir"@, k) == d_reg_num(s, k, 0xB000),
        d_ops(s, "seqi"@, k) == d_reg_num(s, k, 0x3000),
        d_ops(s, "snei"@, k) == d_reg_num(s, k, 0x4000),
        d_ops(s, "ldi"@, k) == d_ldi(s, k),
        d_ops(s, "addi"@, k) == d_reg_num(s, k, 0x7000),
        d_ops(s, "rand"@, k) == d_reg_num(s, k, 0xC000),
        d_ops(s, "seq"@, k) == d_reg_reg(s, k, 0x5000),
        d_ops(s, "sne"@, k) == d_reg_reg(s, k, 0x9000),
        d_ops(s, "set"@, k) == d_reg_reg(s, k, 0x8000),
        d_ops(s, "or"@, k) == d_reg_reg(s, k, 0x8001),
        d_ops(s, "and"@, k) == d_reg_reg(s, k, 0x8002),
        d_ops(s, "xor"@, k) == d_reg_reg(s, k, 0x8003),
        d_ops(s, "add"@, k) == d_add(s, k),
        d_ops(s, "subf"@, k) == d_reg_reg(s, k, 0x8005),
        d_ops(s, "srlf"@, k) == d_shift(s, k, 0x8006),
        d_ops(s, "subnf"@, k) == d_reg_reg(s, k, 0x8007),
        d_ops(s, "sllf"@, k) == d_shift(s, k, 0x800E),
        d_ops(s, "sprite"@, k) == d_sprite(s, k),
        d_ops(s, "sk"@, k) == d_reg(s, k, 0xE09E),
        d_ops(s, "snk"@, k) == d_reg(s, k, 0xE0A1),
        d_ops(s, "bcd"@, k) == d_reg(s, k, 0xF033),
        d_ops(s, "ld"@, k) == d_ld(s, k),
        d_ops(s, "sm"@, k) == d_i_reg(s, k, 0xF055),
        d_ops(s, "lm"@, k) == d_i_reg(s, k, 0xF065),
{
    lemma_emu_names();
    reveal(d_ops);
}


/// How the literal pieces of the emulator's texts split into tokens.
proof fn lemma_emu_texts()
    ensures
        "seqi V"@ == "seqi"@ + " V"@,
        "snei V"@ == "snei"@ + " V"@,
        "ldi V"@ == "ldi"@ + " V"@,
        "addi V"@ == "addi"@ + " V"@,
        "rand V"@ == "rand"@ + " V"@,
        "jir V"@ == "jir"@ + " V"@,
        "seq V"@ == "seq"@ + " V"@,
        "sne V"@ == "sne"@ + " V"@,
        "set V"@ == "set"@ + " V"@,
        "or V"@ == "or"@ + " V"@,
        "and V"@ == "and"@ + " V"@,
        "xor V"@ == "xor"@ + " V"@,
        "add V"@ == "add"@ + " V"@,
        "subf V"@ == "subf"@ + " V"@,
        "srlf V"@ == "srlf"@ + " V"@,
        "subnf V"@ == "subnf"@ + " V"@,
        "sllf V"@ == "sllf"@ + " V"@,
        "sprite V"@ == "sprite"@ + " V"@,
        "sk V"@ == "sk"@ + " V"@,
        "snk V"@ == "snk"@ + " V"@,
        "bcd V"@ == "bcd"@ + " V"@,
        "ld V"@ == "ld"@ + " V"@,
        "j 0x"@ == "j"@ + " "@ + "0x"@,
        "call "@ == "call"@ + " "@,
        "ji0 "@ == "ji0"@ + " "@,
        "ldi I, 0x"@ == "ldi"@ + " "@ + "I"@ + ","@ + " "@ + "0x"@,
        ", delay"@ == ", "@ + "delay"@,
        ", key"@ == ", "@ + "key"@,
        "ld delay, V"@ == "ld"@ + " "@ + "delay"@ + ", V"@,
        "ld sound, V"@ == "ld"@ + " "@ + "sound"@ + ", V"@,
        "add I, V"@ == "add"@ + " "@ + "I"@ + ", V"@,
        "ld I, font[V"@ == "ld"@ + " "@ + "I"@ + ", "@ + "font"@ + "["@ + "V"@,
        "sm I, V"@ == "sm"@ + " "@ + "I"@ + ", V"@,
        "lm I, V"@ == "lm"@ + " "@ + "I"@ + ", V"@,
        " "@.len() == 1 && " "@[0] == ' ',
        " V"@.len() == 2 && " V"@[0] == ' ' && " V"@[1] == 'V',
        ", V"@.len() == 3 && ", V"@[0] == ',' && ", V"@[1] == ' ' && ", V"@[2] == 'V',
        ", "@.len() == 2 && ", "@[0] == ',' && ", "@[1] == ' ',
        "0x"@.len() == 2 && "0x"@[0] == '0' && "0x"@[1] == 'x',
        "["@.len() == 1 && "["@[0] == '[',
        "]"@.len() == 1 && "]"@[0] == ']',
        ","@.len() == 1 && ","@[0] == ',',
        "V"@.len() == 1 && "V"@[0] == 'V',
{
    reveal_strlit(" ");
    reveal_strlit(" V");
    reveal_strlit(",");
    reveal_strlit(", ");
    reveal_strlit(", V");
    reveal_strlit(", delay");
    reveal_strlit(", key");
    reveal_strlit("0x");
    reveal_strlit("I");
    reveal_strlit("V");
    reveal_strlit("[");
    reveal_strlit("]");
    reveal_strlit("add");
    reveal_strlit("add I, V");
    reveal_strlit("add V");
    reveal_strlit("addi");
    reveal_strlit("addi V");
    reveal_strlit("and");
    reveal_strlit("and V");
    reveal_strlit("bcd");
    reveal_strlit("bcd V");
    reveal_strlit("call");
    reveal_strlit("call ");
    reveal_strlit("delay");
    reveal_strlit("font");
    reveal_strlit("j");
    reveal_strlit("j 0x");
    reveal_strlit("ji0");
    reveal_strlit("ji0 ");
    reveal_strlit("jir");
    reveal_strlit("jir V");
    reveal_strlit("key");
    reveal_strlit("ld");
    reveal_strlit("ld I, font[V");
    reveal_strlit("ld V");
    reveal_strlit("ld delay, V");
    reveal_strlit("ld sound, V");
    reveal_strlit("ldi");
    reveal_strlit("ldi I, 0x");
    reveal_strlit("ldi V");
    reveal_strlit("lm");
    reveal_strlit("lm I, V");
    reveal_strlit("or");
    reveal_strlit("or V");
    reveal_strlit("rand");
    reveal_strlit("rand V");
    reveal_strlit("seq");
    reveal_strlit("seq V");
    reveal_strlit("seqi");
    reveal_strlit("seqi V");
    reveal_strlit("set");
    reveal_strlit("set V");
    reveal_strlit("sk");
    reveal_strlit("sk V");
    reveal_strlit("sllf");
    reveal_strlit("sllf V");
    reveal_strlit("sm");
    reveal_strlit("sm I, V");
    reveal_strlit("sne");
    reveal_strlit("sne V");
    reveal_strlit("snei");
    reveal_strlit("snei V");
    reveal_strlit("snk");
    reveal_strlit("snk V");
    reveal_strlit("sound");
    reveal_strlit("sprite");
    reveal_strlit("sprite V");
    reveal_strlit("srlf");
    reveal_strlit("srlf V");
    reveal_strlit("subf");
    reveal_strlit("subf V");
    reveal_strlit("subnf");
    reveal_strlit("subnf V");
    reveal_strlit("xor");
    reveal_strlit("xor V");
    assert forall|k: int| 0 <= k < 6 implies #[trigger] "seqi V"@[k] == ("seqi"@ + " V"@)[k] by {
        assert(k == 0 || k == 1 || k == 2 || k == 3 || k == 4 || k == 5);
    }
    assert("seqi V"@ =~= "seqi"@ + " V"@);
    assert forall|k: int| 0 <= k < 6 implies #[trigger] "snei V"@[k] == ("snei"@ + " V"@)[k] by {
        assert(k == 0 || k == 1 || k == 2 || k == 3 || k == 4 || k == 5);
    }
    assert("snei V"@ =~= "snei"@ + " V"@);
    assert forall|k: int| 0 <= k < 5 implies #[trigger] "ldi V"@[k] == ("ldi"@ + " V"@)[k] by {
        assert(k == 0 || k == 1 || k == 2 || k == 3 || k == 4);
    }
    assert("ldi V"@ =~= "ldi"@ + " V"@);
    assert forall|k: int| 0 <= k < 6 implies #[trigger] "addi V"@[k] == ("addi"@ + " V"@)[k] by {
        assert(k == 0 || k == 1 || k == 2 || k == 3 || k == 4 || k == 5);
    }
    assert("addi V"@ =~= "addi"@ + " V"@);
    assert forall|k: int| 0 <= k < 6 implies #[trigger] "rand V"@[k] == ("rand"@ + " V"@)[k] by {
        assert(k == 0 || k == 1 || k == 2 || k == 3 || k == 4 || k == 5);
    }
    assert("rand V"@ =~= "rand"@ + " V"@);
    assert forall|k: int| 0 <= k < 5 implies #[trigger] "jir V"@[k] == ("jir"@ + " V"@)[k] by {
        assert(k == 0 || k == 1 || k == 2 || k == 3 || k == 4);
    }
    assert("jir V"@ =~= "jir"@ + " V"@);
    assert forall|k: int| 0 <= k < 5 implies #[trigger] "seq V"@[k] == ("seq"@ + " V"@)[k] by {
        assert(k == 0 || k == 1 || k == 2 || k == 3 || k == 4);
    }
    assert("seq V"@ =~= "seq"@ + " V"@);
    assert forall|k: int| 0 <= k < 5 implies #[trigger] "sne V"@[k] == ("sne"@ + " V"@)[k] by {
        assert(k == 0 || k == 1 || k == 2 || k == 3 || k == 4);
    }
    assert("sne V"@ =~= "sne"@ + " V"@);
    assert forall|k: int| 0 <= k < 5 implies #[trigger] "set V"@[k] == ("set"@ + " V"@)[k] by {
        assert(k == 0 || k == 1 || k == 2 || k == 3 || k == 4);
    }
    assert("set V"@ =~= "set"@ + " V"@);
    assert forall|k: int| 0 <= k < 4 implies #[trigger] "or V"@[k] == ("or"@ + " V"@)[k] by {
        assert(k == 0 || k == 1 || k == 2 || k == 3);
    }
    assert("or V"@ =~= "or"@ + " V"@);
    assert forall|k: int| 0 <= k < 5 implies #[trigger] "and V"@[k] == ("and"@ + " V"@)[k] by {
        assert(k == 0 || k == 1 || k == 2 || k == 3 || k == 4);
    }
    assert("and V"@ =~= "and"@ + " V"@);
    assert forall|k: int| 0 <= k < 5 implies #[trigger] "xor V"@[k] == ("xor"@ + " V"@)[k] by {
        assert(k == 0 || k == 1 || k == 2 || k == 3 || k == 4);
    }
    assert("xor V"@ =~= "xor"@ + " V"@);
    assert forall|k: int| 0 <= k < 5 implies #[trigger] "add V"@[k] == ("add"@ + " V"@)[k] by {
        assert(k == 0 || k == 1 || k == 2 || k == 3 || k == 4);
    }
    assert("add V"@ =~= "add"@ + " V"@);
    assert forall|k: int| 0 <= k < 6 implies #[trigger] "subf V"@[k] == ("subf"@ + " V"@)[k] by {
        assert(k == 0 || k == 1 || k == 2 || k == 3 || k == 4 || k == 5);
    }
    assert("subf V"@ =~= "subf"@ + " V"@);
    assert forall|k: int| 0 <= k < 6 implies #[trigger] "srlf V"@[k] == ("srlf"@ + " V"@)[k] by {
        assert(k == 0 || k == 1 || k == 2 || k == 3 || k == 4 || k == 5);
    }
    assert("srlf V"@ =~= "srlf"@ + " V"@);
    assert forall|k: int| 0 <= k < 7 implies #[trigger] "subnf V"@[k] == ("subnf"@ + " V"@)[k] by {
        assert(k == 0 || k == 1 || k == 2 || k == 3 || k == 4 || k == 5 || k == 6);
    }
    assert("subnf V"@ =~= "subnf"@ + " V"@);
    assert forall|k: int| 0 <= k < 6 implies #[trigger] "sllf V"@[k] == ("sllf"@ + " V"@)[k] by {
        assert(k == 0 || k == 1 || k == 2 || k == 3 || k == 4 || k == 5);
    }
    assert("sllf V"@ =~= "sllf"@ + " V"@);
    assert forall|k: int| 0 <= k < 8 implies #[trigger] "sprite V"@[k] == ("sprite"@ + " V"@)[k] by {
        assert(k == 0 || k == 1 || k == 2 || k == 3 || k == 4 || k == 5 || k == 6 || k == 7);
    }
    assert("sprite V"@ =~= "sprite"@ + " V"@);
    assert forall|k: int| 0 <= k < 4 implies #[trigger] "sk V"@[k] == ("sk"@ + " V"@)[k] by {
        assert(k == 0 || k == 1 || k == 2 || k == 3);
    }
    assert("sk V"@ =~= "sk"@ + " V"@);
    assert forall|k: int| 0 <= k < 5 implies #[trigger] "snk V"@[k] == ("snk"@ + " V"@)[k] by {
        assert(k == 0 || k == 1 || k == 2 || k == 3 || k == 4);
    }
    assert("snk V"@ =~= "snk"@ + " V"@);
    assert forall|k: int| 0 <= k < 5 implies #[trigger] "bcd V"@[k] == ("bcd"@ + " V"@)[k] by {
        assert(k == 0 || k == 1 || k == 2 || k == 3 || k == 4);
    }
    assert("bcd V"@ =~= "bcd"@ + " V"@);
    assert forall|k: int| 0 <= k < 4 implies #[trigger] "ld V"@[k] == ("ld"@ + " V"@)[k] by {
        assert(k == 0 || k == 1 || k == 2 || k == 3);
    }
    assert("ld V"@ =~= "ld"@ + " V"@);
    assert forall|k: int| 0 <= k < 4 implies #[trigger] "j 0x"@[k] == ("j"@ + " "@ + "0x"@)[k] by {
        assert(k == 0 || k == 1 || k == 2 || k == 3);
    }
    assert("j 0x"@ =~= "j"@ + " "@ + "0x"@);
    assert forall|k: int| 0 <= k < 5 implies #[trigger] "call "@[k] == ("call"@ + " "@)[k] by {
        assert(k == 0 || k == 1 || k == 2 || k == 3 || k == 4);
    }
    assert("call "@ =~= "call"@ + " "@);
    assert forall|k: int| 0 <= k < 4 implies #[trigger] "ji0 "@[k] == ("ji0"@ + " "@)[k] by {
        assert(k == 0 || k == 1 || k == 2 || k == 3);
    }
    assert("ji0 "@ =~= "ji0"@ + " "@);
    assert forall|k: int| 0 <= k < 9 implies #[trigger] "ldi I, 0x"@[k] == ("ldi"@ + " "@ + "I"@ + ","@ + " "@ + "0x"@)[k] by {
        assert(k == 0 || k == 1 || k == 2 || k == 3 || k == 4 || k == 5 || k == 6 || k == 7 || k == 8);
    }
    assert("ldi I, 0x"@ =~= "ldi"@ + " "@ + "I"@ + ","@ + " "@ + "0x"@);
    assert forall|k: int| 0 <= k < 7 implies #[trigger] ", delay"@[k] == (", "@ + "delay"@)[k] by {
        assert(k == 0 || k == 1 || k == 2 || k == 3 || k == 4 || k == 5 || k == 6);
    }
    assert(", delay"@ =~= ", "@ + "delay"@);
    assert forall|k: int| 0 <= k < 5 implies #[trigger] ", key"@[k] == (", "@ + "key"@)[k] by {
        assert(k == 0 || k == 1 || k == 2 || k == 3 || k == 4);
    }
    assert(", key"@ =~= ", "@ + "key"@);
    assert forall|k: int| 0 <= k < 11 implies #[trigger] "ld delay, V"@[k] == ("ld"@ + " "@ + "delay"@ + ", V"@)[k] by {
        assert(k == 0 || k == 1 || k == 2 || k == 3 || k == 4 || k == 5 || k == 6 || k == 7 || k == 8 || k == 9 || k == 10);
    }
    assert("ld delay, V"@ =~= "ld"@ + " "@ + "delay"@ + ", V"@);
    assert forall|k: int| 0 <= k < 11 implies #[trigger] "ld sound, V"@[k] == ("ld"@ + " "@ + "sound"@ + ", V"@)[k] by {
        assert(k == 0 || k == 1 || k == 2 || k == 3 || k == 4 || k == 5 || k == 6 || k == 7 || k == 8 || k == 9 || k == 10);
    }
    assert("ld sound, V"@ =~= "ld"@ + " "@ + "sound"@ + ", V"@);
    assert forall|k: int| 0 <= k < 8 implies #[trigger] "add I, V"@[k] == ("add"@ + " "@ + "I"@ + ", V"@)[k] by {
        assert(k == 0 || k == 1 || k == 2 || k == 3 || k == 4 || k == 5 || k == 6 || k == 7);
    }
    assert("add I, V"@ =~= "add"@ + " "@ + "I"@ + ", V"@);
    assert forall|k: int| 0 <= k < 12 implies #[trigger] "ld I, font[V"@[k] == ("ld"@ + " "@ + "I"@ + ", "@ + "font"@ + "["@ + "V"@)[k] by {
        assert(k == 0 || k == 1 || k == 2 || k == 3 || k == 4 || k == 5 || k == 6 || k == 7 || k == 8 || k == 9 || k == 10 || k == 11);
    }
    assert("ld I, font[V"@ =~= "ld"@ + " "@ + "I"@ + ", "@ + "font"@ + "["@ + "V"@);
    assert forall|k: int| 0 <= k < 7 implies #[trigger] "sm I, V"@[k] == ("sm"@ + " "@ + "I"@ + ", V"@)[k] by {
        assert(k == 0 || k == 1 || k == 2 || k == 3 || k == 4 || k == 5 || k == 6);
    }
    assert("sm I, V"@ =~= "sm"@ + " "@ + "I"@ + ", V"@);
    assert forall|k: int| 0 <= k < 7 implies #[trigger] "lm I, V"@[k] == ("lm"@ + " "@ + "I"@ + ", V"@)[k] by {
        assert(k == 0 || k == 1 || k == 2 || k == 3 || k == 4 || k == 5 || k == 6);
    }
    assert("lm I, V"@ =~= "lm"@ + " "@ + "I"@ + ", V"@);
}

// ---------------------------------------------------------------------------
// Tokens

/// ` Vx`: a space, then a register in decimal.
pub open spec fn sp_v(x: nat) -> Seq<char> {
    " V"@ + dec_seq(x)
}

/// `, Vy`: a comma, a space, then a register in decimal.
pub open spec fn comma_v(y: nat) -> Seq<char> {
    ", V"@ + dec_seq(y)
}

/// The register at `j`, after whitespace from `i`.
proof fn lemma_vreg_at(s: Seq<char>, i: int, j: int, x: nat)
    requires
        ws_end(s, i) == j,
        0 <= j < s.len(),
        s[j] == 'V',
        x < 16,
        occurs_at(s, j + 1, dec_seq(x)),
        j + 1 + dec_seq(x).len() <= s.len(),
        j + 1 + dec_seq(x).len() == s.len() || !ident_continue(s[j + 1 + dec_seq(x).len()]),
    ensures
        p_vreg(s, i) == PRes::<u16>::Ok((x as u16, j + 1 + dec_seq(x).len())),
{
    lemma_dec_seq(x);
    assert(s[j + 1 + 0] == dec_seq(x)[0]);
    lemma_ws_run(s, j + 1, j + 1);
    lemma_number_dec(s, j + 1, j + 1, x);
}

proof fn lemma_sp_v(s: Seq<char>, i: int, x: nat)
    requires
        occurs_at(s, i, sp_v(x)),
        x < 16,
        i + sp_v(x).len() == s.len() || !ident_continue(s[i + sp_v(x).len()]),
    ensures
        sp_v(x).len() == 2 + dec_seq(x).len(),
        ws_end(s, i) == i + 1,
        v_next(s, i),
        p_vreg(s, i) == PRes::<u16>::Ok((x as u16, i + sp_v(x).len())),
{
    reveal_strlit(" V");
    lemma_occurs_split(s, i, " V"@, dec_seq(x));
    assert(s[i + 0] == " V"@[0]);
    assert(s[i + 1] == " V"@[1]);
    lemma_ws_run(s, i, i + 1);
    lemma_vreg_at(s, i, i + 1, x);
}

proof fn lemma_comma_v(s: Seq<char>, i: int, y: nat)
    requires
        occurs_at(s, i, comma_v(y)),
        y < 16,
        i + comma_v(y).len() == s.len() || !ident_continue(s[i + comma_v(y).len()]),
    ensures
        comma_v(y).len() == 3 + dec_seq(y).len(),
        p_comma(s, i) == PRes::<()>::Ok(((), i + 1)),
        p_vreg(s, i + 1) == PRes::<u16>::Ok((y as u16, i + comma_v(y).len())),
{
    reveal_strlit(", V");
    lemma_occurs_split(s, i, ", V"@, dec_seq(y));
    assert(s[i + 0] == ", V"@[0]);
    assert(s[i + 1] == ", V"@[1]);
    assert(s[i + 2] == ", V"@[2]);
    lemma_ws_run(s, i, i);
    lemma_comma(s, i, i);
    lemma_ws_run(s, i + 1, i + 2);
    lemma_vreg_at(s, i + 1, i + 2, y);
}

/// A text that starts with a mnemonic: the reader reads the operands after it.
proof fn lemma_emu_name(s: Seq<char>, name: Seq<char>, ops: Seq<char>)
    requires
        s == name + ops,
        valid_name(name),
        ops.len() == 0 || !ident_continue(ops[0]),
    ensures
        emu_read(s) == d_ops(s, name, name.len() as int),
        occurs_at(s, name.len() as int, ops),
{
    lemma_occurs_split(s, 0, name, ops);
    if ops.len() > 0 {
        assert(s[name.len() as int] == ops[0]);
    }
    lemma_ident(s, 0, name);
}

/// A word from its fields.
proof fn lemma_word_value(w: u16)
    ensures
        w as int == op_kind(w) * 4096 + op_x(w) * 256 + op_y(w) * 16 + op_n(w),
        op_nn(w) == op_y(w) * 16 + op_n(w),
        op_nnn(w) == op_x(w) * 256 + op_nn(w),
        0 <= op_kind(w) < 16,
        0 <= op_x(w) < 16,
        0 <= op_y(w) < 16,
        0 <= op_n(w) < 16,
{
    let v = w as int;
    assert(v == (v / 4096) * 4096 + ((v / 256) % 16) * 256 + ((v / 16) % 16) * 16 + v % 16
        && v % 256 == ((v / 16) % 16) * 16 + v % 16
        && v % 4096 == ((v / 256) % 16) * 256 + v % 256
        && v / 4096 < 16) by (nonlinear_arith)
        requires
            0 <= v < 65536,
    ;
}

// ---------------------------------------------------------------------------
// Each kind of line

#[verifier::rlimit(100)]
#[verifier::spinoff_prover]
proof fn lemma_emu_bare(w: u16, shift_y: bool, jump_bxnn: bool)
    requires
        recognized(w),
        op_kind(w) == 0x0,
    ensures
        emu_read(inst_text(w, shift_y, jump_bxnn)) == Some(w),
{
    lemma_emu_valid_names();
    let t = inst_text(w, shift_y, jump_bxnn);
    let name = if w == 0x00E0 { "cls"@ } else { "ret"@ };
    assert(t =~= name + Seq::<char>::empty());
    lemma_emu_name(t, name, Seq::empty());
    lemma_emu_ops(t, name.len() as int);
}

#[verifier::rlimit(100)]
#[verifier::spinoff_prover]
proof fn lemma_emu_jump(w: u16, shift_y: bool, jump_bxnn: bool)
    requires
        op_kind(w) == 0x1 || op_kind(w) == 0x2 || op_kind(w) == 0xA || (op_kind(w) == 0xB && !jump_bxnn),
    ensures
        emu_read(inst_text(w, shift_y, jump_bxnn)) == Some(w),
{
    lemma_emu_names();
    lemma_emu_valid_names();
    lemma_emu_texts();
    lemma_word_value(w);
    let t = inst_text(w, shift_y, jump_bxnn);
    let k = op_kind(w);
    let nnn = op_nnn(w) as nat;
    let d = hex_seq(nnn, false);
    lemma_hex_seq(nnn);
    if k == 0x1 {
        let ops = " "@ + ("0x"@ + d);
        assert(t =~= "j"@ + ops);
        lemma_emu_name(t, "j"@, ops);
        lemma_emu_ops(t, 1);
        lemma_ops_hex(t, 1, d, nnn);
    } else if k == 0xA {
        let tail = " "@ + ("0x"@ + d);
        let ops = " "@ + ("I"@ + (","@ + tail));
        assert(t =~= "ldi"@ + ops);
        lemma_emu_name(t, "ldi"@, ops);
        lemma_emu_ops(t, 3);
        assert(ops =~= (" "@ + ("I"@ + ","@)) + tail);
        lemma_occurs_split(t, 3, " "@ + ("I"@ + ","@), tail);
        assert(t[3int] == ops[0]);
        assert(t[4int] == ops[1]);
        assert(t[5int] == ops[2]);
        lemma_ws_run(t, 3, 4);
        lemma_ws_run(t, 5, 5);
        lemma_comma(t, 5, 5);
        lemma_ops_hex(t, 6, d, nnn);
    } else {
        let name = if k == 0x2 { "call"@ } else { "ji0"@ };
        let ops = " "@ + dec_seq(nnn);
        assert(t =~= name + ops);
        lemma_emu_name(t, name, ops);
        lemma_emu_ops(t, name.len() as int);
        lemma_ops_dec(t, name.len() as int, nnn);
    }
}

#[verifier::rlimit(100)]
#[verifier::spinoff_prover]
proof fn lemma_emu_reg_num(w: u16, shift_y: bool, jump_bxnn: bool)
    requires
        op_kind(w) == 0x3 || op_kind(w) == 0x4 || op_kind(w) == 0x6 || op_kind(w) == 0x7 || op_kind(w) == 0xC
            || (op_kind(w) == 0xB && jump_bxnn),
    ensures
        emu_read(inst_text(w, shift_y, jump_bxnn)) == Some(w),
{
    lemma_emu_valid_names();
    lemma_emu_texts();
    lemma_word_value(w);
    let t = inst_text(w, shift_y, jump_bxnn);
    let k = op_kind(w);
    let x = op_x(w) as nat;
    let nn = op_nn(w) as nat;
    let name = if k == 0x3 {
        "seqi"@
    } else if k == 0x4 {
        "snei"@
    } else if k == 0x6 {
        "ldi"@
    } else if k == 0x7 {
        "addi"@
    } else if k == 0xC {
        "rand"@
    } else {
        "jir"@
    };
    let ops = sp_v(x) + comma_dec(nn);
    assert(t =~= name + ops);
    lemma_emu_name(t, name, ops);
    let l = name.len() as int;
    lemma_emu_ops(t, l);
    lemma_occurs_split(t, l, sp_v(x), comma_dec(nn));
    reveal_strlit(", ");
    assert(t[l + sp_v(x).len()] == comma_dec(nn)[0]);
    lemma_sp_v(t, l, x);
    lemma_comma_dec(t, l + sp_v(x).len(), nn);
}

/// ` Vx, Vy` at `l`, up to the end of `t`.
proof fn lemma_ops_reg_reg(t: Seq<char>, l: int, x: nat, y: nat)
    requires
        0 <= l,
        l + (sp_v(x) + comma_v(y)).len() == t.len(),
        occurs_at(t, l, sp_v(x) + comma_v(y)),
        x < 16,
        y < 16,
    ensures
        v_next(t, l),
        p_vreg(t, l) matches Ok((_, k1)) && k1 != t.len(),
        forall|base: int| 0 <= base + x * 256 + y * 16 <= 0xFFFF ==> #[trigger] d_reg_reg(t, l, base) == Some(
            (base + x * 256 + y * 16) as u16,
        ),
{
    lemma_emu_texts();
    lemma_occurs_split(t, l, sp_v(x), comma_v(y));
    assert(t[l + sp_v(x).len()] == comma_v(y)[0]);
    lemma_sp_v(t, l, x);
    lemma_comma_v(t, l + sp_v(x).len(), y);
}

/// ` Vx` at `l`, up to the end of `t`.
proof fn lemma_ops_reg(t: Seq<char>, l: int, x: nat)
    requires
        0 <= l,
        l + sp_v(x).len() == t.len(),
        occurs_at(t, l, sp_v(x)),
        x < 16,
    ensures
        v_next(t, l),
        p_vreg(t, l) == PRes::<u16>::Ok((x as u16, t.len() as int)),
        forall|base: int| 0 <= base + x * 256 <= 0xFFFF ==> #[trigger] d_reg(t, l, base) == Some((base + x * 256) as u16),
{
    lemma_sp_v(t, l, x);
}

/// A line `name Vx, Vy`: the reader gives back the word `base + 256 x + 16 y`.
#[verifier::spinoff_prover]
proof fn lemma_emu_rr(t: Seq<char>, name: Seq<char>, head: Seq<char>, x: int, y: int, base: int, w: u16)
    requires
        t == r2(head, x, ", V"@, y),
        head == name + " V"@,
        valid_name(name),
        0 <= x < 16,
        0 <= y < 16,
        d_ops(t, name, name.len() as int) == d_reg_reg(t, name.len() as int, base),
        w as int == base + x * 256 + y * 16,
    ensures
        emu_read(t) == Some(w),
{
    reveal_strlit(" V");
    let ops = sp_v(x as nat) + comma_v(y as nat);
    assert(t =~= name + ops);
    assert(ops[0] == ' ');
    lemma_emu_name(t, name, ops);
    lemma_ops_reg_reg(t, name.len() as int, x as nat, y as nat);
}

/// A line `name Vx`: the reader gives back the word `base + 256 x`.
#[verifier::spinoff_prover]
proof fn lemma_emu_r(t: Seq<char>, name: Seq<char>, head: Seq<char>, x: int, base: int, w: u16)
    requires
        t == r1(head, x),
        head == name + " V"@,
        valid_name(name),
        0 <= x < 16,
        d_ops(t, name, name.len() as int) == d_reg(t, name.len() as int, base),
        w as int == base + x * 256,
    ensures
        emu_read(t) == Some(w),
{
    reveal_strlit(" V");
    let ops = sp_v(x as nat);
    assert(t =~= name + ops);
    assert(ops[0] == ' ');
    lemma_emu_name(t, name, ops);
    lemma_ops_reg(t, name.len() as int, x as nat);
}

/// A shift written with one register: `name Vx`, read with `Y` = 0.
#[verifier::spinoff_prover]
proof fn lemma_emu_shift_one(t: Seq<char>, name: Seq<char>, head: Seq<char>, x: int, base: int, w: u16)
    requires
        t == r1(head, x),
        head == name + " V"@,
        valid_name(name),
        0 <= x < 16,
        d_ops(t, name, name.len() as int) == d_shift(t, name.len() as int, base),
        w as int == base + x * 256,
    ensures
        emu_read(t) == Some(w),
{
    reveal_strlit(" V");
    let ops = sp_v(x as nat);
    assert(t =~= name + ops);
    assert(ops[0] == ' ');
    lemma_emu_name(t, name, ops);
    lemma_ops_reg(t, name.len() as int, x as nat);
}

/// A shift written with two registers: `name Vx, Vy`.
#[verifier::spinoff_prover]
proof fn lemma_emu_shift_two(t: Seq<char>, name: Seq<char>, head: Seq<char>, x: int, y: int, base: int, w: u16)
    requires
        t == r2(head, x, ", V"@, y),
        head == name + " V"@,
        valid_name(name),
        0 <= x < 16,
        0 <= y < 16,
        d_ops(t, name, name.len() as int) == d_shift(t, name.len() as int, base),
        w as int == base + x * 256 + y * 16,
    ensures
        emu_read(t) == Some(w),
{
    reveal_strlit(" V");
    let ops = sp_v(x as nat) + comma_v(y as nat);
    assert(t =~= name + ops);
    assert(ops[0] == ' ');
    lemma_emu_name(t, name, ops);
    lemma_ops_reg_reg(t, name.len() as int, x as nat, y as nat);
}

#[verifier::rlimit(100)]
#[verifier::spinoff_prover]
proof fn lemma_emu_skip_regs(w: u16, shift_y: bool, jump_bxnn: bool)
    requires
        op_kind(w) == 0x5 || op_kind(w) == 0x9,
        !lossy(w),
    ensures
        emu_read(inst_text(w, shift_y, jump_bxnn)) == Some(w),
{
    lemma_word_value(w);
    let t = inst_text(w, shift_y, jump_bxnn);
    let x = op_x(w);
    let y = op_y(w);
    if op_kind(w) == 0x5 {
        assert("seq V"@ == "seq"@ + " V"@) by { lemma_emu_texts(); }
        assert(valid_name("seq"@) && "seq"@.len() == 3) by { lemma_emu_valid_names(); }
        assert(d_ops(t, "seq"@, 3) == d_reg_reg(t, 3, 0x5000)) by { lemma_emu_ops(t, 3); }
        lemma_emu_rr(t, "seq"@, "seq V"@, x, y, 0x5000, w);
    } else {
        assert("sne V"@ == "sne"@ + " V"@) by { lemma_emu_texts(); }
        assert(valid_name("sne"@) && "sne"@.len() == 3) by { lemma_emu_valid_names(); }
        assert(d_ops(t, "sne"@, 3) == d_reg_reg(t, 3, 0x9000)) by { lemma_emu_ops(t, 3); }
        lemma_emu_rr(t, "sne"@, "sne V"@, x, y, 0x9000, w);
    }
}

/// `set`, `or`, `and` and `xor`.
#[verifier::rlimit(100)]
#[verifier::spinoff_prover]
proof fn lemma_emu_logic(w: u16, shift_y: bool, jump_bxnn: bool)
    requires
        op_kind(w) == 0x8 && op_n(w) <= 3,
    ensures
        emu_read(inst_text(w, shift_y, jump_bxnn)) == Some(w),
{
    lemma_word_value(w);
    let t = inst_text(w, shift_y, jump_bxnn);
    let x = op_x(w);
    let y = op_y(w);
    let n = op_n(w);
    assert(t == alu_text(w, shift_y));
    if n == 0 {
        assert("set V"@ == "set"@ + " V"@) by { lemma_emu_texts(); }
        assert(valid_name("set"@) && "set"@.len() == 3) by { lemma_emu_valid_names(); }
        assert(d_ops(t, "set"@, 3) == d_reg_reg(t, 3, 0x8000)) by { lemma_emu_ops(t, 3); }
        lemma_emu_rr(t, "set"@, "set V"@, x, y, 0x8000, w);
    } else if n == 1 {
        assert("or V"@ == "or"@ + " V"@) by { lemma_emu_texts(); }
        assert(valid_name("or"@) && "or"@.len() == 2) by { lemma_emu_valid_names(); }
        assert(d_ops(t, "or"@, 2) == d_reg_reg(t, 2, 0x8001)) by { lemma_emu_ops(t, 2); }
        lemma_emu_rr(t, "or"@, "or V"@, x, y, 0x8001, w);
    } else if n == 2 {
        assert("and V"@ == "and"@ + " V"@) by { lemma_emu_texts(); }
        assert(valid_name("and"@) && "and"@.len() == 3) by { lemma_emu_valid_names(); }
        assert(d_ops(t, "and"@, 3) == d_reg_reg(t, 3, 0x8002)) by { lemma_emu_ops(t, 3); }
        lemma_emu_rr(t, "and"@, "and V"@, x, y, 0x8002, w);
    } else {
        assert("xor V"@ == "xor"@ + " V"@) by { lemma_emu_texts(); }
        assert(valid_name("xor"@) && "xor"@.len() == 3) by { lemma_emu_valid_names(); }
        assert(d_ops(t, "xor"@, 3) == d_reg_reg(t, 3, 0x8003)) by { lemma_emu_ops(t, 3); }
        lemma_emu_rr(t, "xor"@, "xor V"@, x, y, 0x8003, w);
    }
}

/// `add`, `subf` and `subnf` on two registers.
#[verifier::rlimit(100)]
#[verifier::spinoff_prover]
proof fn lemma_emu_arith(w: u16, shift_y: bool, jump_bxnn: bool)
    requires
        op_kind(w) == 0x8 && (op_n(w) == 4 || op_n(w) == 5 || op_n(w) == 7),
    ensures
        emu_read(inst_text(w, shift_y, jump_bxnn)) == Some(w),
{
    lemma_word_value(w);
    let t = inst_text(w, shift_y, jump_bxnn);
    let x = op_x(w);
    let y = op_y(w);
    let n = op_n(w);
    assert(t == alu_text(w, shift_y));
    if n == 4 {
        assert("add V"@ == "add"@ + " V"@) by { lemma_emu_texts(); }
        assert(valid_name("add"@) && "add"@.len() == 3) by { lemma_emu_valid_names(); }
        assert(v_next(t, 3) ==> d_ops(t, "add"@, 3) == d_reg_reg(t, 3, 0x8004)) by { lemma_emu_ops(t, 3); }
        assert(v_next(t, 3)) by {
            reveal_strlit(" V");
            let ops = sp_v(x as nat) + comma_v(y as nat);
            assert(t =~= "add"@ + ops);
            assert(occurs_at(t, 3, ops)) by { lemma_occurs_split(t, 0, "add"@, ops); }
            lemma_ops_reg_reg(t, 3, x as nat, y as nat);
        }
        lemma_emu_rr(t, "add"@, "add V"@, x, y, 0x8004, w);
    } else if n == 5 {
        assert("subf V"@ == "subf"@ + " V"@) by { lemma_emu_texts(); }
        assert(valid_name("subf"@) && "subf"@.len() == 4) by { lemma_emu_valid_names(); }
        assert(d_ops(t, "subf"@, 4) == d_reg_reg(t, 4, 0x8005)) by { lemma_emu_ops(t, 4); }
        lemma_emu_rr(t, "subf"@, "subf V"@, x, y, 0x8005, w);
    } else {
        assert("subnf V"@ == "subnf"@ + " V"@) by { lemma_emu_texts(); }
        assert(valid_name("subnf"@) && "subnf"@.len() == 5) by { lemma_emu_valid_names(); }
        assert(d_ops(t, "subnf"@, 5) == d_reg_reg(t, 5, 0x8007)) by { lemma_emu_ops(t, 5); }
        lemma_emu_rr(t, "subnf"@, "subnf V"@, x, y, 0x8007, w);
    }
}

#[verifier::rlimit(100)]
#[verifier::spinoff_prover]
proof fn lemma_emu_shift(w: u16, shift_y: bool, jump_bxnn: bool)
    requires
        is_shift(w),
        !shift_y ==> op_y(w) == 0,
    ensures
        emu_read(inst_text(w, shift_y, jump_bxnn)) == Some(w),
{
    lemma_word_value(w);
    let t = inst_text(w, shift_y, jump_bxnn);
    let x = op_x(w);
    let y = op_y(w);
    assert(t == alu_text(w, shift_y));
    let (name, head, base) = if op_n(w) == 0x6 {
        ("srlf"@, "srlf V"@, 0x8006int)
    } else {
        ("sllf"@, "sllf V"@, 0x800Eint)
    };
    assert(head == name + " V"@) by { lemma_emu_texts(); }
    assert(valid_name(name) && name.len() == 4) by { lemma_emu_valid_names(); }
    assert(d_ops(t, name, 4) == d_shift(t, 4, base)) by { lemma_emu_ops(t, 4); }
    if shift_y {
        assert(t == r2(head, x, ", V"@, y));
        lemma_emu_shift_two(t, name, head, x, y, base, w);
    } else {
        assert(t == r1(head, x));
        lemma_emu_shift_one(t, name, head, x, base, w);
    }
}

#[verifier::rlimit(100)]
#[verifier::spinoff_prover]
proof fn lemma_emu_sprite_key(w: u16, shift_y: bool, jump_bxnn: bool)
    requires
        recognized(w),
        op_kind(w) == 0xD || op_kind(w) == 0xE || (op_kind(w) == 0xF && op_nn(w) == 0x33),
    ensures
        emu_read(inst_text(w, shift_y, jump_bxnn)) == Some(w),
{
    lemma_emu_valid_names();
    lemma_emu_texts();
    lemma_word_value(w);
    let t = inst_text(w, shift_y, jump_bxnn);
    let k = op_kind(w);
    let x = op_x(w) as nat;
    let y = op_y(w) as nat;
    let n = op_n(w) as nat;
    if k == 0xD {
        let ops = sp_v(x) + comma_v(y) + comma_dec(n);
        assert(t =~= "sprite"@ + ops);
        lemma_emu_name(t, "sprite"@, ops);
        lemma_emu_ops(t, 6);
        lemma_occurs_split(t, 6, sp_v(x) + comma_v(y), comma_dec(n));
        lemma_occurs_split(t, 6, sp_v(x), comma_v(y));
        reveal_strlit(", ");
        assert(t[(6 + sp_v(x).len()) as int] == comma_v(y)[0]);
        assert(t[(6 + sp_v(x).len() + comma_v(y).len()) as int] == comma_dec(n)[0]);
        lemma_sp_v(t, 6, x);
        lemma_comma_v(t, (6 + sp_v(x).len()) as int, y);
        lemma_comma_dec(t, (6 + sp_v(x).len() + comma_v(y).len()) as int, n);
    } else {
        let name = if k == 0xF { "bcd"@ } else if op_nn(w) == 0x9E { "sk"@ } else { "snk"@ };
        let ops = sp_v(x);
        assert(t =~= name + ops);
        lemma_emu_name(t, name, ops);
        lemma_emu_ops(t, name.len() as int);
        lemma_sp_v(t, name.len() as int, x);
    }
}

/// `ld Vx, word`, where `word` is `delay` or `key`.
#[verifier::rlimit(100)]
#[verifier::spinoff_prover]
proof fn lemma_emu_get_word(t: Seq<char>, x: nat, word: Seq<char>, base: int)
    requires
        t == "ld"@ + (sp_v(x) + (", "@ + word)),
        x < 16,
        word == "delay"@ || word == "key"@,
        base == (if word == "delay"@ { 0xF007int } else { 0xF00Aint }),
    ensures
        emu_read(t) == Some((base + x * 256) as u16),
{
    assert(valid_name("ld"@) && "ld"@.len() == 2 && valid_name(word)) by { lemma_emu_valid_names(); }
    assert(word.len() > 0 && "delay"@ != "key"@) by { lemma_emu_names(); }
    assert(d_ops(t, "ld"@, 2) == d_ld(t, 2)) by { lemma_emu_ops(t, 2); }
    reveal_strlit(" V");
    reveal_strlit(", ");
    let ops = sp_v(x) + (", "@ + word);
    assert(ops[0] == ' ');
    lemma_emu_name(t, "ld"@, ops);
    lemma_occurs_split(t, 2, sp_v(x), ", "@ + word);
    let c: int = (2 + sp_v(x).len()) as int;
    lemma_occurs_split(t, c, ", "@, word);
    assert(t[c + 0] == ", "@[0]);
    assert(t[c + 1] == ", "@[1]);
    assert(t[c + 2 + 0] == word[0]);
    lemma_sp_v(t, 2, x);
    lemma_ws_run(t, c, c);
    lemma_comma(t, c, c);
    lemma_ws_run(t, c + 1, c + 2);
    lemma_ident(t, c + 2, word);
}

/// `ld Vx, delay` and `ld Vx, key`.
#[verifier::rlimit(100)]
#[verifier::spinoff_prover]
proof fn lemma_emu_get_timer(w: u16, shift_y: bool, jump_bxnn: bool)
    requires
        op_kind(w) == 0xF,
        op_nn(w) == 0x07 || op_nn(w) == 0x0A,
    ensures
        emu_read(inst_text(w, shift_y, jump_bxnn)) == Some(w),
{
    lemma_word_value(w);
    let t = inst_text(w, shift_y, jump_bxnn);
    let x = op_x(w) as nat;
    assert(t == misc_text(w));
    if op_nn(w) == 0x07 {
        assert(t =~= "ld"@ + (sp_v(x) + (", "@ + "delay"@))) by { lemma_emu_texts(); }
        lemma_emu_get_word(t, x, "delay"@, 0xF007);
    } else {
        assert(t =~= "ld"@ + (sp_v(x) + (", "@ + "key"@))) by { lemma_emu_texts(); }
        assert("key"@ != "delay"@) by { lemma_emu_names(); }
        lemma_emu_get_word(t, x, "key"@, 0xF00A);
    }
}

/// `ld delay, Vx` and `ld sound, Vx`.
#[verifier::rlimit(100)]
#[verifier::spinoff_prover]
proof fn lemma_emu_set_timer(w: u16, shift_y: bool, jump_bxnn: bool)
    requires
        op_kind(w) == 0xF,
        op_nn(w) == 0x15 || op_nn(w) == 0x18,
    ensures
        emu_read(inst_text(w, shift_y, jump_bxnn)) == Some(w),
{
    lemma_emu_names();
    lemma_emu_valid_names();
    lemma_emu_texts();
    lemma_word_value(w);
    let t = inst_text(w, shift_y, jump_bxnn);
    let nn = op_nn(w);
    let x = op_x(w) as nat;
    lemma_emu_ops(t, 2);
    let word = if nn == 0x15 { "delay"@ } else { "sound"@ };
    let ops = " "@ + (word + comma_v(x));
    assert(t =~= "ld"@ + ops);
    lemma_emu_name(t, "ld"@, ops);
    lemma_occurs_split(t, 2, " "@, word + comma_v(x));
    lemma_occurs_split(t, 3, word, comma_v(x));
    let c: int = (3 + word.len()) as int;
    assert(t[2int] == " "@[0]);
    assert(t[3int] == word[0]);
    assert(t[c] == comma_v(x)[0]);
    lemma_ws_run(t, 2, 3);
    lemma_ws_run(t, 3, 3);
    lemma_ident(t, 3, word);
    lemma_comma_v(t, c, x);
}

/// `add I, Vx`, `sm I, Vx` and `lm I, Vx`.
#[verifier::rlimit(100)]
#[verifier::spinoff_prover]
proof fn lemma_emu_index(w: u16, shift_y: bool, jump_bxnn: bool)
    requires
        op_kind(w) == 0xF,
        op_nn(w) == 0x1E || op_nn(w) == 0x55 || op_nn(w) == 0x65,
    ensures
        emu_read(inst_text(w, shift_y, jump_bxnn)) == Some(w),
{
    lemma_emu_names();
    lemma_emu_valid_names();
    lemma_emu_texts();
    lemma_word_value(w);
    let t = inst_text(w, shift_y, jump_bxnn);
    let nn = op_nn(w);
    let x = op_x(w) as nat;
    let name = if nn == 0x1E { "add"@ } else if nn == 0x55 { "sm"@ } else { "lm"@ };
    let l = name.len() as int;
    let ops = " "@ + ("I"@ + comma_v(x));
    assert(t =~= name + ops);
    lemma_emu_name(t, name, ops);
    lemma_emu_ops(t, l);
    lemma_occurs_split(t, l, " "@ + "I"@, comma_v(x));
    assert(ops =~= (" "@ + "I"@) + comma_v(x));
    assert(t[l + 0] == ops[0]);
    assert(t[l + 1] == ops[1]);
    assert(t[l + 2] == comma_v(x)[0]);
    lemma_ws_run(t, l, l + 1);
    lemma_ws_run(t, l + 1, l + 1);
    lemma_comma_v(t, l + 2, x);
}

/// `ld I, font[Vx]`
#[verifier::rlimit(100)]
#[verifier::spinoff_prover]
proof fn lemma_emu_font(w: u16, shift_y: bool, jump_bxnn: bool)
    requires
        op_kind(w) == 0xF,
        op_nn(w) == 0x29,
    ensures
        emu_read(inst_text(w, shift_y, jump_bxnn)) == Some(w),
{
    lemma_emu_names();
    lemma_emu_valid_names();
    lemma_emu_texts();
    lemma_word_value(w);
    let t = inst_text(w, shift_y, jump_bxnn);
    let x = op_x(w) as nat;
    lemma_dec_seq(x);
    let d = dec_seq(x);
    let a = " "@ + ("I"@ + ", "@);
    let b = "["@ + ("V"@ + (d + "]"@));
    let ops = a + ("font"@ + b);
    assert(t =~= "ld"@ + ops);
    lemma_emu_name(t, "ld"@, ops);
    lemma_emu_ops(t, 2);
    let k: int = 2;
    lemma_occurs_split(t, k, a, "font"@ + b);
    lemma_occurs_split(t, k + 4, "font"@, b);
    lemma_occurs_split(t, k + 8, "["@ + "V"@, d + "]"@);
    assert(b =~= ("["@ + "V"@) + (d + "]"@));
    lemma_occurs_split(t, k + 10, d, "]"@);
    assert(t[k + 0] == a[0]);
    assert(t[k + 1] == a[1]);
    assert(t[k + 2] == a[2]);
    assert(t[k + 3] == a[3]);
    assert(t[k + 8 + 0] == b[0]);
    assert(t[k + 8 + 1] == b[1]);
    assert(t[k + 10 + d.len() + 0] == "]"@[0]);
    assert(t[k + 10 + 0] == d[0]);
    lemma_ws_run(t, k, k + 1);
    lemma_ident(t, k + 1, "I"@);
    lemma_ws_run(t, k + 2, k + 2);
    lemma_comma(t, k + 2, k + 2);
    lemma_ws_run(t, k + 3, k + 4);
    lemma_ident(t, k + 4, "font"@);
    lemma_ws_run(t, k + 8, k + 8);
    lemma_ws_run(t, k + 9, k + 9);
    lemma_vreg_at(t, k + 9, k + 9, x);
    lemma_ws_run(t, k + 10 + d.len(), k + 10 + d.len());
}

// ---------------------------------------------------------------------------
// Every line

/// The emulator's text of a recognized word reads back as that word, unless
/// the text leaves a field out: the `N` of `5XYN` and `9XYN`, and the `Y` of a
/// shift written with one register.
pub proof fn lemma_emu_read_text(w: u16, shift_y: bool, jump_bxnn: bool)
    requires
        recognized(w),
        !lossy(w),
        !shift_y && is_shift(w) ==> op_y(w) == 0,
    ensures
        emu_read(inst_text(w, shift_y, jump_bxnn)) == Some(w),
{
    lemma_word_value(w);
    let k = op_kind(w);
    let nn = op_nn(w);
    if k == 0x0 {
        lemma_emu_bare(w, shift_y, jump_bxnn);
    } else if k == 0x1 || k == 0x2 || k == 0xA || (k == 0xB && !jump_bxnn) {
        lemma_emu_jump(w, shift_y, jump_bxnn);
    } else if k == 0x3 || k == 0x4 || k == 0x6 || k == 0x7 || k == 0xC || k == 0xB {
        lemma_emu_reg_num(w, shift_y, jump_bxnn);
    } else if k == 0x5 || k == 0x9 {
        lemma_emu_skip_regs(w, shift_y, jump_bxnn);
    } else if k == 0x8 {
        if op_n(w) <= 3 {
            lemma_emu_logic(w, shift_y, jump_bxnn);
        } else if op_n(w) == 4 || op_n(w) == 5 || op_n(w) == 7 {
            lemma_emu_arith(w, shift_y, jump_bxnn);
        } else {
            lemma_emu_shift(w, shift_y, jump_bxnn);
        }
    } else if k == 0xD || k == 0xE || nn == 0x33 {
        lemma_emu_sprite_key(w, shift_y, jump_bxnn);
    } else if nn == 0x07 || nn == 0x0A {
        lemma_emu_get_timer(w, shift_y, jump_bxnn);
    } else if nn == 0x15 || nn == 0x18 {
        lemma_emu_set_timer(w, shift_y, jump_bxnn);
    } else if nn == 0x29 {
        lemma_emu_font(w, shift_y, jump_bxnn);
    } else {
        lemma_emu_index(w, shift_y, jump_bxnn);
    }
}

/// No two instructions share a line of the emulator's disassembly: two
/// recognized words with the same text are the same word. The words whose
/// text leaves a field out are set aside: `5XYN` and `9XYN` with `N` other
/// than 0, and, where shifts are written with one register, a shift whose `Y`
/// is not 0. So `EXA1` ("snk") and `EX9E` ("sk") never read alike.
pub proof fn lemma_emu_text_unambiguous(w1: u16, w2: u16, shift_y: bool, jump_bxnn: bool)
    requires
        recognized(w1),
        recognized(w2),
        !lossy(w1),
        !lossy(w2),
        !shift_y && is_shift(w1) ==> op_y(w1) == 0,
        !shift_y && is_shift(w2) ==> op_y(w2) == 0,
        inst_text(w1, shift_y, jump_bxnn) == inst_text(w2, shift_y, jump_bxnn),
    ensures
        w1 == w2,
{
    lemma_emu_read_text(w1, shift_y, jump_bxnn);
    lemma_emu_read_text(w2, shift_y, jump_bxnn);
}

} // verus!
