//! The disassembler: machine code back to the assembly syntax that the
//! parser reads (`$x` registers in hexadecimal, other values in decimal
//! unless written with `0x`).

use vstd::prelude::*;
use crate::chip8::{op_kind, op_n, op_nn, op_nnn, op_x, op_y};
use crate::text::{cat_n, cat_n_s, cat_n_s_n, cat_n_s_n_s_n, hex_seq, num_seq, pad_right, push_char,
    push_hex, push_hex_padded, push_padded, zero_pad};

verus! {

/// `.word 0xNNNN` (four lower-case hexadecimal digits).
pub open spec fn word_text(w: u16) -> Seq<char> {
    ".word 0x"@ + zero_pad(hex_seq(w as nat, false), 4)
}

/// Whether `w` is an instruction (rather than data shown as `.word`).
pub open spec fn recognized(w: u16) -> bool {
    let k = op_kind(w);
    if k == 0x0 {
        w == 0x00E0 || w == 0x00EE
    } else if k == 0x8 {
        op_n(w) <= 7 || op_n(w) == 0xE
    } else if k == 0xE {
        op_nn(w) == 0x9E || op_nn(w) == 0xA1
    } else if k == 0xF {
        let nn = op_nn(w);
        nn == 0x07 || nn == 0x15 || nn == 0x18 || nn == 0x1E || nn == 0x0A || nn == 0x29 || nn == 0x33
            || nn == 0x55 || nn == 0x65
    } else {
        true
    }
}

/// `head`, then register `x` in hexadecimal (`head` ends in `$`).
pub open spec fn r1(head: Seq<char>, x: int) -> Seq<char> {
    head + num_seq(x as nat, true)
}

/// `head`, register `x`, `mid`, then the decimal number `n`.
pub open spec fn r1n(head: Seq<char>, x: int, mid: Seq<char>, n: int) -> Seq<char> {
    head + num_seq(x as nat, true) + mid + num_seq(n as nat, false)
}

/// `head`, register `x`, `mid`, register `y`.
pub open spec fn r2(head: Seq<char>, x: int, mid: Seq<char>, y: int) -> Seq<char> {
    head + num_seq(x as nat, true) + mid + num_seq(y as nat, true)
}

/// The text of the `8XYN` instructions.
pub open spec fn alu_text(w: u16, shift_y: bool) -> Seq<char> {
    let x = op_x(w);
    let y = op_y(w);
    let n = op_n(w);
    if n == 0x0 {
        r2("set $"@, x, ", $"@, y)
    } else if n == 0x1 {
        r2("or $"@, x, ", $"@, y)
    } else if n == 0x2 {
        r2("and $"@, x, ", $"@, y)
    } else if n == 0x3 {
        r2("xor $"@, x, ", $"@, y)
    } else if n == 0x4 {
        r2("add $"@, x, ", $"@, y)
    } else if n == 0x5 {
        r2("subf $"@, x, ", $"@, y)
    } else if n == 0x6 {
        if shift_y { r2("srlf $"@, x, ", $"@, y) } else { r1("srlf $"@, x) }
    } else if n == 0x7 {
        r2("subnf $"@, x, ", $"@, y)
    } else if n == 0xE {
        if shift_y { r2("sllf $"@, x, ", $"@, y) } else { r1("sllf $"@, x) }
    } else {
        word_text(w)
    }
}

/// The text of the `FXNN` instructions.
pub open spec fn misc_text(w: u16) -> Seq<char> {
    let x = op_x(w);
    let nn = op_nn(w);
    if nn == 0x07 {
        r1("set $"@, x) + ", DELAY"@
    } else if nn == 0x15 {
        r1("set DELAY, $"@, x)
    } else if nn == 0x18 {
        r1("set SOUND, $"@, x)
    } else if nn == 0x1E {
        r1("add I, $"@, x)
    } else if nn == 0x0A {
        r1("set $"@, x) + ", KEY"@
    } else if nn == 0x29 {
        r1("set I, FONT[$"@, x) + "]"@
    } else if nn == 0x33 {
        r1("bcd $"@, x)
    } else if nn == 0x55 {
        r1("set [I], $"@, x)
    } else if nn == 0x65 {
        r1("set $"@, x) + ", [I]"@
    } else {
        word_text(w)
    }
}

/// The assembly text of the word `w`: an instruction, or `.word` when `w` is
/// not one. `shift_y` and `jump_bxnn` select how `8XY6`/`8XYE` and `BNNN`
/// read.
pub open spec fn inst_text(w: u16, shift_y: bool, jump_bxnn: bool) -> Seq<char> {
    let k = op_kind(w);
    let x = op_x(w);
    let y = op_y(w);
    if k == 0x0 {
        if w == 0x00E0 { "cls"@ } else if w == 0x00EE { "ret"@ } else { word_text(w) }
    } else if k == 0x1 {
        "j 0x"@ + num_seq(op_nnn(w) as nat, true)
    } else if k == 0x2 {
        "call "@ + num_seq(op_nnn(w) as nat, false)
    } else if k == 0x3 {
        r1n("seqi $"@, x, ", "@, op_nn(w))
    } else if k == 0x4 {
        r1n("snei $"@, x, ", "@, op_nn(w))
    } else if k == 0x5 {
        r2("seq $"@, x, ", $"@, y)
    } else if k == 0x6 {
        r1n("seti $"@, x, ", "@, op_nn(w))
    } else if k == 0x7 {
        r1n("addi $"@, x, ", "@, op_nn(w))
    } else if k == 0x8 {
        alu_text(w, shift_y)
    } else if k == 0x9 {
        r2("sne $"@, x, ", $"@, y)
    } else if k == 0xA {
        "seti I, 0x"@ + num_seq(op_nnn(w) as nat, true)
    } else if k == 0xB {
        if jump_bxnn { r1n("jri $"@, x, ", "@, op_nn(w)) } else { "jri0 "@ + num_seq(op_nnn(w) as nat, false) }
    } else if k == 0xC {
        r1n("rand $"@, x, ", "@, op_nn(w))
    } else if k == 0xD {
        r2("sprite $"@, x, ", $"@, y) + ", "@ + num_seq(op_n(w) as nat, false)
    } else if k == 0xE {
        if op_nn(w) == 0x9E { r1("sk $"@, x) } else if op_nn(w) == 0xA1 { r1("snk $"@, x) } else { word_text(w) }
    } else {
        misc_text(w)
    }
}

/// A word of machine code and the address it was loaded from.
#[derive(Debug, Clone, Copy)]
pub struct Opcode {
    pub opcode: u16,
    pub pc: usize,
}

impl Opcode {
    pub fn new(opcode: u16, pc: usize) -> (o: Self)
        ensures
            o.opcode == opcode,
            o.pc == pc,
    {
        Self { opcode, pc }
    }

    /// The word as data: `.word 0xNNNN`.
    pub fn format_word(&self) -> (r: String)
        ensures
            r@ == word_text(self.opcode),
    {
        let mut r = String::from_str(".word 0x");
        push_hex_padded(&mut r, self.opcode as u64, 4, false);
        r
    }

    /// The word as an instruction, or as data when it is not one.
    pub fn format_inst(&self, shift_y: bool, jump_bxnn: bool) -> (r: String)
        ensures
            r@ == inst_text(self.opcode, shift_y, jump_bxnn),
    {
        let opcode = self.opcode;
        proof { crate::chip8::lemma_opcode_fields(opcode); }
        match opcode & 0xF000 {
            0x0000 => {
                if opcode == 0x00E0 {
                    String::from_str("cls")
                } else if opcode == 0x00EE {
                    String::from_str("ret")
                } else {
                    self.format_word()
                }
            },
            0x1000 => {
                // jump (1NNN)
                cat_n("j 0x", self.nnn() as u64, true)
            },
            0x2000 => {
                // call (2NNN)
                cat_n("call ", self.nnn() as u64, false)
            },
            0x3000 => {
                // skip if VX == NN (3XNN)
                cat_n_s_n("seqi $", self.x() as u64, true, ", ", self.nn() as u64, false)
            },
            0x4000 => {
                // skip if VX != NN (4XNN)
                cat_n_s_n("snei $", self.x() as u64, true, ", ", self.nn() as u64, false)
            },
            0x5000 => {
                // skip if VX == VY (5XY0)
                let (x, y) = self.xy();
                cat_n_s_n("seq $", x as u64, true, ", $", y as u64, true)
            },
            0x6000 => {
                // set (6XNN)
                cat_n_s_n("seti $", self.x() as u64, true, ", ", self.nn() as u64, false)
            },
            0x7000 => {
                // add (7XNN)
                cat_n_s_n("addi $", self.x() as u64, true, ", ", self.nn() as u64, false)
            },
            0x8000 => {
                let (x, y) = self.xy();
                let op = opcode & 0x000F;
                let (x, y) = (x as u64, y as u64);
                if op == 0x0 {
                    cat_n_s_n("set $", x, true, ", $", y, true)
                } else if op == 0x1 {
                    cat_n_s_n("or $", x, true, ", $", y, true)
                } else if op == 0x2 {
                    cat_n_s_n("and $", x, true, ", $", y, true)
                } else if op == 0x3 {
                    cat_n_s_n("xor $", x, true, ", $", y, true)
                } else if op == 0x4 {
                    cat_n_s_n("add $", x, true, ", $", y, true)
                } else if op == 0x5 {
                    cat_n_s_n("subf $", x, true, ", $", y, true)
                } else if op == 0x6 {
                    if shift_y {
                        cat_n_s_n("srlf $", x, true, ", $", y, true)
                    } else {
                        cat_n("srlf $", x, true)
                    }
                } else if op == 0x7 {
                    cat_n_s_n("subnf $", x, true, ", $", y, true)
                } else if op == 0xE {
                    if shift_y {
                        cat_n_s_n("sllf $", x, true, ", $", y, true)
                    } else {
                        cat_n("sllf $", x, true)
                    }
                } else {
                    self.format_word()
                }
            },
            0x9000 => {
                // skip if VX != VY (9XY0)
                let (x, y) = self.xy();
                cat_n_s_n("sne $", x as u64, true, ", $", y as u64, true)
            },
            0xA000 => {
                // set index (ANNN)
                cat_n("seti I, 0x", self.nnn() as u64, true)
            },
            0xB000 => {
                // jump with offset
                if jump_bxnn {
                    cat_n_s_n("jri $", self.x() as u64, true, ", ", self.nn() as u64, false)
                } else {
                    cat_n("jri0 ", self.nnn() as u64, false)
                }
            },
            0xC000 => {
                // random (CXNN)
                cat_n_s_n("rand $", self.x() as u64, true, ", ", self.nn() as u64, false)
            },
            0xD000 => {
                // draw (DXYN)
                let (x, y) = self.xy();
                cat_n_s_n_s_n("sprite $", x as u64, true, ", $", y as u64, true, ", ", self.n() as u64, false)
            },
            0xE000 => {
                let op = opcode & 0x00FF;
                if op == 0x9E {
                    cat_n("sk $", self.x() as u64, true)
                } else if op == 0xA1 {
                    cat_n("snk $", self.x() as u64, true)
                } else {
                    self.format_word()
                }
            },
            _ => {
                let op = opcode & 0x00FF;
                let x = self.x() as u64;
                if op == 0x07 {
                    cat_n_s("set $", x, true, ", DELAY")
                } else if op == 0x15 {
                    cat_n("set DELAY, $", x, true)
                } else if op == 0x18 {
                    cat_n("set SOUND, $", x, true)
                } else if op == 0x1E {
                    cat_n("add I, $", x, true)
                } else if op == 0x0A {
                    cat_n_s("set $", x, true, ", KEY")
                } else if op == 0x29 {
                    cat_n_s("set I, FONT[$", x, true, "]")
                } else if op == 0x33 {
                    cat_n("bcd $", x, true)
                } else if op == 0x55 {
                    cat_n("set [I], $", x, true)
                } else if op == 0x65 {
                    cat_n_s("set $", x, true, ", [I]")
                } else {
                    self.format_word()
                }
            },
        }
    }

    fn nnn(&self) -> (r: u16)
        ensures
            r == op_nnn(self.opcode),
    {
        proof { crate::chip8::lemma_opcode_fields(self.opcode); }
        self.opcode & 0x0FFF
    }

    fn nn(&self) -> (r: u16)
        ensures
            r == op_nn(self.opcode),
    {
        proof { crate::chip8::lemma_opcode_fields(self.opcode); }
        self.opcode & 0x00FF
    }

    fn n(&self) -> (r: u16)
        ensures
            r == op_n(self.opcode),
    {
        proof { crate::chip8::lemma_opcode_fields(self.opcode); }
        self.opcode & 0x000F
    }

    /// `0x#X##`
    fn x(&self) -> (r: u16)
        ensures
            r == op_x(self.opcode),
    {
        proof { crate::chip8::lemma_opcode_fields(self.opcode); }
        (self.opcode & 0x0F00) >> 8
    }

    /// `0x##Y#`
    fn y(&self) -> (r: u16)
        ensures
            r == op_y(self.opcode),
    {
        proof { crate::chip8::lemma_opcode_fields(self.opcode); }
        (self.opcode & 0x00F0) >> 4
    }

    /// `0x#XY#` as `(X, Y)`
    fn xy(&self) -> (r: (u16, u16))
        ensures
            r.0 == op_x(self.opcode),
            r.1 == op_y(self.opcode),
    {
        (self.x(), self.y())
    }
}


/// The big-endian words of a ROM (its length is even).
pub open spec fn rom_words(rom: Seq<u8>) -> Seq<u16> {
    Seq::new(rom.len() / 2, |i: int| (rom[2 * i] as int * 256 + rom[2 * i + 1] as int) as u16)
}

/// One line of a listing: the text in a 30-character field, then the address.
pub open spec fn listing_line(text: Seq<char>, pc: int) -> Seq<char> {
    pad_right(text, 30) + " # 0x"@ + hex_seq(pc as nat, false) + "\n"@
}

/// Whether one of the first `k` words is not an instruction: from the first
/// such word on, a listing shows every word as data.
pub open spec fn seen_data(words: Seq<u16>, k: int) -> bool {
    exists|j: int| 0 <= j < k && !#[trigger] recognized(words[j])
}

/// The listing of words loaded at `0x200`: each word as an instruction (with
/// the `shift_y` reading and classic `BNNN`) until the first word that is not
/// one, and as `.word` from there on.
pub open spec fn listing(words: Seq<u16>) -> Seq<char>
    decreases words.len(),
{
    if words.len() == 0 {
        Seq::empty()
    } else {
        let k = words.len() - 1;
        let text = if seen_data(words, k) { word_text(words[k]) } else { inst_text(words[k], true, false) };
        listing(words.drop_last()) + listing_line(text, 0x200 + 2 * k)
    }
}

impl Opcode {
    /// Whether the word is an instruction (rather than data).
    pub fn is_instruction(&self) -> (r: bool)
        ensures
            r == recognized(self.opcode),
    {
        let opcode = self.opcode;
        proof { crate::chip8::lemma_opcode_fields(opcode); }
        let kind = opcode & 0xF000;
        let nn = opcode & 0x00FF;
        if kind == 0x0000 {
            opcode == 0x00E0 || opcode == 0x00EE
        } else if kind == 0x8000 {
            let n = opcode & 0x000F;
            n <= 7 || n == 0xE
        } else if kind == 0xE000 {
            nn == 0x9E || nn == 0xA1
        } else if kind == 0xF000 {
            nn == 0x07 || nn == 0x15 || nn == 0x18 || nn == 0x1E || nn == 0x0A || nn == 0x29 || nn == 0x33
                || nn == 0x55 || nn == 0x65
        } else {
            true
        }
    }
}

/// The assembly listing of a ROM loaded at `0x200`.
pub fn disassemble(rom: &[u8]) -> (r: String)
    requires
        rom@.len() <= 0xFFF - 0x200 + 1,
        rom@.len() % 2 == 0,
    ensures
        r@ == listing(rom_words(rom@)),
{
    let ghost words = rom_words(rom@);
    let mut out = String::new();
    let mut show_word = false;
    let mut i: usize = 0;
    assert(words.take(0) =~= Seq::<u16>::empty());
    while 2 * i < rom.len()
        invariant
            words == rom_words(rom@),
            rom@.len() <= 0xE00,
            rom@.len() % 2 == 0,
            2 * i <= rom@.len(),
            show_word == seen_data(words, i as int),
            out@ == listing(words.take(i as int)),
        decreases rom@.len() - 2 * i,
    {
        let hi = rom[2 * i];
        let lo = rom[2 * i + 1];
        let opcode = ((hi as u16) << 8) | (lo as u16);
        assert(((hi as u16) << 8u16) | (lo as u16) == hi as u16 * 256 + lo as u16) by (bit_vector);
        assert(opcode == words[i as int]);
        let line = Opcode::new(opcode, 0x200 + 2 * i);
        let inst = if show_word {
            line.format_word()
        } else {
            line.format_inst(true, false)
        };
        let ghost before = out@;
        push_padded(&mut out, &inst, 30);
        out.append(" # 0x");
        push_hex(&mut out, line.pc as u64, false);
        out.append("\n");
        proof {
            let w = words.take(i + 1);
            assert(w.drop_last() =~= words.take(i as int));
            assert(w[i as int] == words[i as int]);
            assert(seen_data(w, i as int) == seen_data(words, i as int)) by {
                if seen_data(w, i as int) {
                    let j = choose|j: int| 0 <= j < i && !#[trigger] recognized(w[j]);
                    assert(words[j] == w[j]);
                }
                if seen_data(words, i as int) {
                    let j = choose|j: int| 0 <= j < i && !#[trigger] recognized(words[j]);
                    assert(words[j] == w[j]);
                }
            }
            assert(out@ =~= listing(w));
        }
        if !show_word && !line.is_instruction() {
            show_word = true;
        }
        proof {
            if !recognized(opcode) {
                assert(seen_data(words, i + 1));
            }
            if seen_data(words, i + 1) && !seen_data(words, i as int) {
                let j = choose|j: int| 0 <= j < i + 1 && !#[trigger] recognized(words[j]);
                assert(j == i);
            }
        }
        i += 1;
    }
    assert(words.take(i as int) =~= words);
    out
}
} // verus!
