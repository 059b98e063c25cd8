//! Reading a disassembly back: every line that the disassembler writes
//! parses to an instruction with the same machine code, so assembling a
//! listing gives back the ROM it was made from.

use vstd::prelude::*;
use crate::parser::{
    comment_end, digit_value, digits_end, digits_value, ident_continue, ident_end, ident_start, is_digit_in,
    is_num, is_ws, number_start, PRes,
    p_addr, p_address, p_comma, p_ident, p_instr, p_mem_i, p_number, p_operands,
    p_add, p_program, parse_program, p_reg_byte, p_reg_reg, p_register, p_set, p_seti, p_shift, p_sprite, ws_end,
};
use crate::chip8::{op_fault, op_kind, op_n, op_nn, op_nnn, op_x, op_y, Fault, Machine};
use crate::disasm::{inst_text, listing, listing_line, recognized, rom_words, seen_data, word_text};
use crate::instr::{
    AddrV, InstrV, be_bytes, duplicate_errors, instr_bytes, instr_word, label_errors, label_ref, label_table, program_bytes,
    referenced, undefined_errors,
};
use crate::text::{dec_seq, hex_char, hex_seq, pad_right, zero_pad};

verus! {

// ---------------------------------------------------------------------------
// Text positions

/// `u` occurs in `s` at index `i`.
pub open spec fn occurs_at(s: Seq<char>, i: int, u: Seq<char>) -> bool {
    0 <= i && i + u.len() <= s.len() && forall|k: int| 0 <= k < u.len() ==> s[i + k] == #[trigger] u[k]
}

pub(crate) proof fn lemma_occurs_split(s: Seq<char>, i: int, a: Seq<char>, b: Seq<char>)
    requires
        occurs_at(s, i, a + b),
    ensures
        occurs_at(s, i, a),
        occurs_at(s, i + a.len(), b),
{
    assert forall|k: int| 0 <= k < a.len() implies s[i + k] == #[trigger] a[k] by {
        assert((a + b)[k] == a[k]);
    }
    assert forall|k: int| 0 <= k < b.len() implies s[i + a.len() + k] == #[trigger] b[k] by {
        assert((a + b)[a.len() + k] == b[k]);
    }
}

pub(crate) proof fn lemma_occurs_subrange(s: Seq<char>, i: int, u: Seq<char>)
    requires
        occurs_at(s, i, u),
    ensures
        s.subrange(i, i + u.len()) == u,
{
    assert(s.subrange(i, i + u.len()) =~= u);
}

// ---------------------------------------------------------------------------
// Runs of characters

pub(crate) proof fn lemma_ws_run(s: Seq<char>, a: int, b: int)
    requires
        0 <= a <= b <= s.len(),
        forall|k: int| a <= k < b ==> is_ws(#[trigger] s[k]),
        b == s.len() || !is_ws(s[b]),
    ensures
        ws_end(s, a) == b,
    decreases b - a,
{
    if a < b {
        lemma_ws_run(s, a + 1, b);
    }
}

pub(crate) proof fn lemma_ident_run(s: Seq<char>, a: int, b: int)
    requires
        0 <= a <= b <= s.len(),
        forall|k: int| a <= k < b ==> ident_continue(#[trigger] s[k]),
        b == s.len() || !ident_continue(s[b]),
    ensures
        ident_end(s, a) == b,
    decreases b - a,
{
    if a < b {
        lemma_ident_run(s, a + 1, b);
    }
}

pub(crate) proof fn lemma_digits_run(s: Seq<char>, a: int, b: int, base: nat)
    requires
        0 <= a <= b <= s.len(),
        forall|k: int| a <= k < b ==> is_digit_in(#[trigger] s[k], base),
        b == s.len() || !is_digit_in(s[b], base),
    ensures
        digits_end(s, a, base) == b,
    decreases b - a,
{
    if a < b {
        lemma_digits_run(s, a + 1, b, base);
    }
}

// ---------------------------------------------------------------------------
// Digits

pub(crate) proof fn lemma_dec_seq(n: nat)
    ensures
        dec_seq(n).len() >= 1,
        forall|k: int| 0 <= k < dec_seq(n).len() ==> is_num(#[trigger] dec_seq(n)[k]),
        digits_value(dec_seq(n), 10) == n,
        dec_seq(n)[0] == '0' ==> n == 0 && dec_seq(n).len() == 1,
    decreases n,
{
    if n < 10 {
        assert(dec_seq(n) =~= seq![(n + 48) as char]);
        assert(dec_seq(n).drop_last() =~= Seq::<char>::empty());
        assert(digit_value(dec_seq(n).last()) == n);
        assert(digits_value(Seq::<char>::empty(), 10) == 0);
        assert(digits_value(dec_seq(n), 10) == n);
    } else {
        lemma_dec_seq(n / 10);
        let d = dec_seq(n / 10);
        assert(dec_seq(n).drop_last() =~= d);
        assert(dec_seq(n)[0] == d[0]);
        assert(digit_value(dec_seq(n).last()) == n % 10);
        assert((n / 10) * 10 + n % 10 == n) by (nonlinear_arith);
        assert(digits_value(d, 10) == n / 10);
        assert(digits_value(dec_seq(n), 10) == n);
    }
}

pub(crate) proof fn lemma_hex_char(d: int)
    requires
        0 <= d < 16,
    ensures
        is_digit_in(hex_char(d, false), 16),
        digit_value(hex_char(d, false)) == d,
        ident_continue(hex_char(d, false)),
        !is_ws(hex_char(d, false)),
{
}


pub(crate) proof fn lemma_hex_seq(n: nat)
    ensures
        hex_seq(n, false).len() >= 1,
        forall|k: int| 0 <= k < hex_seq(n, false).len() ==> is_digit_in(#[trigger] hex_seq(n, false)[k], 16),
        digits_value(hex_seq(n, false), 16) == n,
        n < 16 ==> hex_seq(n, false) == seq![hex_char(n as int, false)],
    decreases n,
{
    if n < 16 {
        lemma_hex_char(n as int);
        assert(hex_seq(n, false).drop_last() =~= Seq::<char>::empty());
        assert(digits_value(Seq::<char>::empty(), 16) == 0);
        assert(digits_value(hex_seq(n, false), 16) == n);
    } else {
        lemma_hex_seq(n / 16);
        lemma_hex_char((n % 16) as int);
        let d = hex_seq(n / 16, false);
        assert(hex_seq(n, false).drop_last() =~= d);
        assert((n / 16) * 16 + n % 16 == n) by (nonlinear_arith);
        assert(digits_value(d, 16) == n / 16);
        assert(digits_value(hex_seq(n, false), 16) == n);
    }
}

/// A run of `'0'` digits denotes zero.
pub(crate) proof fn lemma_zeros_value(z: Seq<char>, base: nat)
    requires
        forall|k: int| 0 <= k < z.len() ==> #[trigger] z[k] == '0',
    ensures
        digits_value(z, base) == 0,
    decreases z.len(),
{
    if z.len() > 0 {
        assert forall|k: int| 0 <= k < z.drop_last().len() implies #[trigger] z.drop_last()[k] == '0' by {
            assert(z.drop_last()[k] == z[k]);
        }
        lemma_zeros_value(z.drop_last(), base);
        assert(z.last() == z[z.len() - 1]);
        assert(digit_value(z.last()) == 0);
        let v = digits_value(z.drop_last(), base);
        assert(v * base == 0) by (nonlinear_arith)
            requires
                v == 0,
        ;
    }
}

/// Leading zeros do not change the value of a string of digits.
pub(crate) proof fn lemma_leading_zeros(z: Seq<char>, d: Seq<char>, base: nat)
    requires
        forall|k: int| 0 <= k < z.len() ==> #[trigger] z[k] == '0',
    ensures
        digits_value(z + d, base) == digits_value(d, base),
    decreases d.len(),
{
    if d.len() == 0 {
        assert(z + d =~= z);
        lemma_zeros_value(z, base);
    } else {
        assert((z + d).drop_last() =~= z + d.drop_last());
        assert((z + d).last() == d.last());
        lemma_leading_zeros(z, d.drop_last(), base);
    }
}

pub(crate) proof fn lemma_zero_pad_hex(n: nat, width: nat)
    ensures
        zero_pad(hex_seq(n, false), width).len() >= 1,
        forall|k: int| 0 <= k < zero_pad(hex_seq(n, false), width).len()
            ==> is_digit_in(#[trigger] zero_pad(hex_seq(n, false), width)[k], 16),
        digits_value(zero_pad(hex_seq(n, false), width), 16) == n,
{
    lemma_hex_seq(n);
    let d = hex_seq(n, false);
    if d.len() < width {
        let z = Seq::new((width - d.len()) as nat, |k: int| '0');
        lemma_leading_zeros(z, d, 16);
        assert forall|k: int| 0 <= k < (z + d).len() implies is_digit_in(#[trigger] (z + d)[k], 16) by {
            if k >= z.len() {
                assert((z + d)[k] == d[k - z.len()]);
            }
        }
    }
}

// ---------------------------------------------------------------------------
// Tokens

pub(crate) proof fn lemma_ident(s: Seq<char>, i: int, name: Seq<char>)
    requires
        occurs_at(s, i, name),
        name.len() >= 1,
        ident_start(name[0]),
        forall|k: int| 0 <= k < name.len() ==> ident_continue(#[trigger] name[k]),
        i + name.len() <= s.len(),
        i + name.len() == s.len() || !ident_continue(s[i + name.len()]),
    ensures
        p_ident(s, i) == PRes::<Seq<char>>::Ok((name, i + name.len())),
{
    assert(s[i + 0] == name[0]);
    lemma_ws_run(s, i, i);
    assert forall|k: int| i + 1 <= k < i + name.len() implies ident_continue(#[trigger] s[k]) by {
        assert(s[i + (k - i)] == name[k - i]);
    }
    lemma_ident_run(s, i + 1, i + name.len());
    lemma_occurs_subrange(s, i, name);
}

pub(crate) proof fn lemma_register(s: Seq<char>, i: int, j: int, x: nat)
    requires
        ws_end(s, i) == j,
        x < 16,
        0 <= j,
        j + 1 < s.len(),
        s[j] == '$',
        s[j + 1] == hex_char(x as int, false),
    ensures
        p_register(s, i) == PRes::<u8>::Ok((x as u8, j + 2)),
{
    lemma_hex_char(x as int);
    lemma_ws_run(s, j, j);
}

pub(crate) proof fn lemma_comma(s: Seq<char>, i: int, j: int)
    requires
        ws_end(s, i) == j,
        0 <= j < s.len(),
        s[j] == ',',
    ensures
        p_comma(s, i) == PRes::<()>::Ok(((), j + 1)),
{
    lemma_ws_run(s, j, j);
}

/// ` $x`: a space, then a register.
pub open spec fn sp_reg(x: nat) -> Seq<char> {
    " $"@ + hex_seq(x, false)
}

/// `, $y`: a comma, a space, then a register.
pub open spec fn comma_reg(y: nat) -> Seq<char> {
    ", $"@ + hex_seq(y, false)
}

/// `, n`: a comma, a space, then a decimal number.
pub open spec fn comma_dec(n: nat) -> Seq<char> {
    ", "@ + dec_seq(n)
}

/// `t` occurs in `s` at `i`, followed by whitespace or by the end of `s`.
pub open spec fn followed(s: Seq<char>, i: int, t: Seq<char>) -> bool {
    occurs_at(s, i, t) && (i + t.len() == s.len() || is_ws(s[i + t.len()]))
}

pub(crate) proof fn lemma_sp_reg(s: Seq<char>, i: int, x: nat)
    requires
        occurs_at(s, i, sp_reg(x)),
        x < 16,
    ensures
        sp_reg(x).len() == 3,
        ws_end(s, i) == i + 1,
        s[i + 1] == '$',
        p_register(s, i) == PRes::<u8>::Ok((x as u8, i + 3)),
        p_register(s, i + 1) == PRes::<u8>::Ok((x as u8, i + 3)),
{
    reveal_strlit(" $");
    lemma_hex_seq(x);
    lemma_hex_char(x as int);
    let u = sp_reg(x);
    assert(s[i + 0] == u[0]);
    assert(s[i + 1] == u[1]);
    assert(s[i + 2] == u[2]);
    lemma_ws_run(s, i, i + 1);
    lemma_ws_run(s, i + 1, i + 1);
    lemma_register(s, i, i + 1, x);
    lemma_register(s, i + 1, i + 1, x);
}

pub(crate) proof fn lemma_comma_reg(s: Seq<char>, i: int, y: nat)
    requires
        occurs_at(s, i, comma_reg(y)),
        y < 16,
    ensures
        comma_reg(y).len() == 4,
        s[i] == ',',
        p_comma(s, i) == PRes::<()>::Ok(((), i + 1)),
        p_register(s, i + 1) == PRes::<u8>::Ok((y as u8, i + 4)),
        ws_end(s, i + 1) == i + 2,
        s[i + 2] == '$',
        p_register(s, i + 2) == PRes::<u8>::Ok((y as u8, i + 4)),
{
    reveal_strlit(", $");
    lemma_hex_seq(y);
    lemma_hex_char(y as int);
    let u = comma_reg(y);
    assert(s[i + 0] == u[0]);
    assert(s[i + 1] == u[1]);
    assert(s[i + 2] == u[2]);
    assert(s[i + 3] == u[3]);
    lemma_ws_run(s, i, i);
    lemma_comma(s, i, i);
    lemma_ws_run(s, i + 1, i + 2);
    lemma_ws_run(s, i + 2, i + 2);
    lemma_register(s, i + 1, i + 2, y);
    lemma_register(s, i + 2, i + 2, y);
}

pub(crate) proof fn lemma_number_dec(s: Seq<char>, i: int, j: int, n: nat)
    requires
        ws_end(s, i) == j,
        n <= 0xFFFF,
        occurs_at(s, j, dec_seq(n)),
        j + dec_seq(n).len() <= s.len(),
        j + dec_seq(n).len() == s.len() || !ident_continue(s[j + dec_seq(n).len()]),
    ensures
        p_number(s, i) == PRes::<u16>::Ok((n as u16, j + dec_seq(n).len())),
{
    lemma_dec_seq(n);
    let d = dec_seq(n);
    let e = j + d.len();
    assert(s[j + 0] == d[0]);
    assert(number_start(s, j) == (10nat, j));
    assert forall|k: int| j <= k < e implies is_digit_in(#[trigger] s[k], 10) by {
        assert(s[j + (k - j)] == d[k - j]);
    }
    lemma_digits_run(s, j, e, 10);
    lemma_occurs_subrange(s, j, d);
}

pub(crate) proof fn lemma_comma_dec(s: Seq<char>, i: int, n: nat)
    requires
        occurs_at(s, i, comma_dec(n)),
        n <= 0xFFFF,
        i + comma_dec(n).len() <= s.len(),
        i + comma_dec(n).len() == s.len() || !ident_continue(s[i + comma_dec(n).len()]),
    ensures
        comma_dec(n).len() == 2 + dec_seq(n).len(),
        s[i] == ',',
        p_comma(s, i) == PRes::<()>::Ok(((), i + 1)),
        p_number(s, i + 1) == PRes::<u16>::Ok((n as u16, i + comma_dec(n).len())),
{
    reveal_strlit(", ");
    lemma_dec_seq(n);
    lemma_occurs_split(s, i, ", "@, dec_seq(n));
    assert(s[i + 0] == ", "@[0]);
    assert(s[i + 1] == ", "@[1]);
    assert(s[i + 2] == dec_seq(n)[0]);
    lemma_ws_run(s, i, i);
    lemma_comma(s, i, i);
    lemma_ws_run(s, i + 1, i + 2);
    lemma_number_dec(s, i + 1, i + 2, n);
}

pub(crate) proof fn lemma_number_hex(s: Seq<char>, i: int, j: int, d: Seq<char>, n: nat)
    requires
        ws_end(s, i) == j,
        n <= 0xFFFF,
        d.len() >= 1,
        forall|k: int| 0 <= k < d.len() ==> is_digit_in(#[trigger] d[k], 16),
        digits_value(d, 16) == n,
        occurs_at(s, j, "0x"@ + d),
        j + 2 + d.len() <= s.len(),
        j + 2 + d.len() == s.len() || !ident_continue(s[j + 2 + d.len()]),
    ensures
        p_number(s, i) == PRes::<u16>::Ok((n as u16, j + 2 + d.len())),
{
    reveal_strlit("0x");
    assert("0x"@.len() == 2);
    lemma_occurs_split(s, j, "0x"@, d);
    assert(s[j + 0] == "0x"@[0]);
    assert(s[j + 1] == "0x"@[1]);
    let e = j + 2 + d.len();
    assert(number_start(s, j) == (16nat, j + 2));
    assert forall|k: int| j + 2 <= k < e implies is_digit_in(#[trigger] s[k], 16) by {
        assert(s[j + 2 + (k - j - 2)] == d[k - j - 2]);
    }
    lemma_digits_run(s, j + 2, e, 16);
    lemma_occurs_subrange(s, j + 2, d);
}


/// An identifier: a letter or `_`, then letters, digits and `_`.
pub open spec fn valid_name(n: Seq<char>) -> bool {
    n.len() >= 1 && ident_start(n[0]) && forall|k: int| 0 <= k < n.len() ==> ident_continue(#[trigger] n[k])
}

/// The characters of the instruction names and of the other words that
/// operands use.
pub(crate) proof fn lemma_names()
    ensures
        "cls"@.len() == 3 && "cls"@[0] == 'c' && "cls"@[1] == 'l' && "cls"@[2] == 's',
        "ret"@.len() == 3 && "ret"@[0] == 'r' && "ret"@[1] == 'e' && "ret"@[2] == 't',
        "j"@.len() == 1 && "j"@[0] == 'j',
        "call"@.len() == 4 && "call"@[0] == 'c' && "call"@[1] == 'a' && "call"@[2] == 'l' && "call"@[3] == 'l',
        "jri0"@.len() == 4 && "jri0"@[0] == 'j' && "jri0"@[1] == 'r' && "jri0"@[2] == 'i' && "jri0"@[3] == '0',
        "jri"@.len() == 3 && "jri"@[0] == 'j' && "jri"@[1] == 'r' && "jri"@[2] == 'i',
        "seqi"@.len() == 4 && "seqi"@[0] == 's' && "seqi"@[1] == 'e' && "seqi"@[2] == 'q' && "seqi"@[3] == 'i',
        "snei"@.len() == 4 && "snei"@[0] == 's' && "snei"@[1] == 'n' && "snei"@[2] == 'e' && "snei"@[3] == 'i',
        "seq"@.len() == 3 && "seq"@[0] == 's' && "seq"@[1] == 'e' && "seq"@[2] == 'q',
        "sne"@.len() == 3 && "sne"@[0] == 's' && "sne"@[1] == 'n' && "sne"@[2] == 'e',
        "sk"@.len() == 2 && "sk"@[0] == 's' && "sk"@[1] == 'k',
        "snk"@.len() == 3 && "snk"@[0] == 's' && "snk"@[1] == 'n' && "snk"@[2] == 'k',
        "seti"@.len() == 4 && "seti"@[0] == 's' && "seti"@[1] == 'e' && "seti"@[2] == 't' && "seti"@[3] == 'i',
        "addi"@.len() == 4 && "addi"@[0] == 'a' && "addi"@[1] == 'd' && "addi"@[2] == 'd' && "addi"@[3] == 'i',
        "set"@.len() == 3 && "set"@[0] == 's' && "set"@[1] == 'e' && "set"@[2] == 't',
        "or"@.len() == 2 && "or"@[0] == 'o' && "or"@[1] == 'r',
        "and"@.len() == 3 && "and"@[0] == 'a' && "and"@[1] == 'n' && "and"@[2] == 'd',
        "xor"@.len() == 3 && "xor"@[0] == 'x' && "xor"@[1] == 'o' && "xor"@[2] == 'r',
        "add"@.len() == 3 && "add"@[0] == 'a' && "add"@[1] == 'd' && "add"@[2] == 'd',
        "subf"@.len() == 4 && "subf"@[0] == 's' && "subf"@[1] == 'u' && "subf"@[2] == 'b' && "subf"@[3] == 'f',
        "srlf"@.len() == 4 && "srlf"@[0] == 's' && "srlf"@[1] == 'r' && "srlf"@[2] == 'l' && "srlf"@[3] == 'f',
        "subnf"@.len() == 5 && "subnf"@[0] == 's' && "subnf"@[1] == 'u' && "subnf"@[2] == 'b' && "subnf"@[3] == 'n' && "subnf"@[4] == 'f',
        "sllf"@.len() == 4 && "sllf"@[0] == 's' && "sllf"@[1] == 'l' && "sllf"@[2] == 'l' && "sllf"@[3] == 'f',
        "rand"@.len() == 4 && "rand"@[0] == 'r' && "rand"@[1] == 'a' && "rand"@[2] == 'n' && "rand"@[3] == 'd',
        "sprite"@.len() == 6 && "sprite"@[0] == 's' && "sprite"@[1] == 'p' && "sprite"@[2] == 'r' && "sprite"@[3] == 'i' && "sprite"@[4] == 't' && "sprite"@[5] == 'e',
        "bcd"@.len() == 3 && "bcd"@[0] == 'b' && "bcd"@[1] == 'c' && "bcd"@[2] == 'd',
        "word"@.len() == 4 && "word"@[0] == 'w' && "word"@[1] == 'o' && "word"@[2] == 'r' && "word"@[3] == 'd',
        "I"@.len() == 1 && "I"@[0] == 'I',
        "DELAY"@.len() == 5 && "DELAY"@[0] == 'D' && "DELAY"@[1] == 'E' && "DELAY"@[2] == 'L' && "DELAY"@[3] == 'A' && "DELAY"@[4] == 'Y',
        "KEY"@.len() == 3 && "KEY"@[0] == 'K' && "KEY"@[1] == 'E' && "KEY"@[2] == 'Y',
        "SOUND"@.len() == 5 && "SOUND"@[0] == 'S' && "SOUND"@[1] == 'O' && "SOUND"@[2] == 'U' && "SOUND"@[3] == 'N' && "SOUND"@[4] == 'D',
        "FONT"@.len() == 4 && "FONT"@[0] == 'F' && "FONT"@[1] == 'O' && "FONT"@[2] == 'N' && "FONT"@[3] == 'T',
{
    reveal_strlit("cls");
    reveal_strlit("ret");
    reveal_strlit("j");
    reveal_strlit("call");
    reveal_strlit("jri0");
    reveal_strlit("jri");
    reveal_strlit("seqi");
    reveal_strlit("snei");
    reveal_strlit("seq");
    reveal_strlit("sne");
    reveal_strlit("sk");
    reveal_strlit("snk");
    reveal_strlit("seti");
    reveal_strlit("addi");
    reveal_strlit("set");
    reveal_strlit("or");
    reveal_strlit("and");
    reveal_strlit("xor");
    reveal_strlit("add");
    reveal_strlit("subf");
    reveal_strlit("srlf");
    reveal_strlit("subnf");
    reveal_strlit("sllf");
    reveal_strlit("rand");
    reveal_strlit("sprite");
    reveal_strlit("bcd");
    reveal_strlit("word");
    reveal_strlit("I");
    reveal_strlit("DELAY");
    reveal_strlit("KEY");
    reveal_strlit("SOUND");
    reveal_strlit("FONT");
}

/// The instruction names and the other words that operands use are
/// identifiers.
pub(crate) proof fn lemma_valid_names()
    ensures
        valid_name("cls"@) && "cls"@.len() == 3,
        valid_name("ret"@) && "ret"@.len() == 3,
        valid_name("j"@) && "j"@.len() == 1,
        valid_name("call"@) && "call"@.len() == 4,
        valid_name("jri0"@) && "jri0"@.len() == 4,
        valid_name("jri"@) && "jri"@.len() == 3,
        valid_name("seqi"@) && "seqi"@.len() == 4,
        valid_name("snei"@) && "snei"@.len() == 4,
        valid_name("seq"@) && "seq"@.len() == 3,
        valid_name("sne"@) && "sne"@.len() == 3,
        valid_name("sk"@) && "sk"@.len() == 2,
        valid_name("snk"@) && "snk"@.len() == 3,
        valid_name("seti"@) && "seti"@.len() == 4,
        valid_name("addi"@) && "addi"@.len() == 4,
        valid_name("set"@) && "set"@.len() == 3,
        valid_name("or"@) && "or"@.len() == 2,
        valid_name("and"@) && "and"@.len() == 3,
        valid_name("xor"@) && "xor"@.len() == 3,
        valid_name("add"@) && "add"@.len() == 3,
        valid_name("subf"@) && "subf"@.len() == 4,
        valid_name("srlf"@) && "srlf"@.len() == 4,
        valid_name("subnf"@) && "subnf"@.len() == 5,
        valid_name("sllf"@) && "sllf"@.len() == 4,
        valid_name("rand"@) && "rand"@.len() == 4,
        valid_name("sprite"@) && "sprite"@.len() == 6,
        valid_name("bcd"@) && "bcd"@.len() == 3,
        valid_name("word"@) && "word"@.len() == 4,
        valid_name("I"@) && "I"@.len() == 1,
        valid_name("DELAY"@) && "DELAY"@.len() == 5,
        valid_name("KEY"@) && "KEY"@.len() == 3,
        valid_name("SOUND"@) && "SOUND"@.len() == 5,
        valid_name("FONT"@) && "FONT"@.len() == 4,
{
    lemma_names();
    assert forall|k: int| 0 <= k < 3 implies ident_continue(#[trigger] "cls"@[k]) by {
        assert(k == 0 || k == 1 || k == 2);
    }
    assert forall|k: int| 0 <= k < 3 implies ident_continue(#[trigger] "ret"@[k]) by {
        assert(k == 0 || k == 1 || k == 2);
    }
    assert forall|k: int| 0 <= k < 1 implies ident_continue(#[trigger] "j"@[k]) by {
        assert(k == 0);
    }
    assert forall|k: int| 0 <= k < 4 implies ident_continue(#[trigger] "call"@[k]) by {
        assert(k == 0 || k == 1 || k == 2 || k == 3);
    }
    assert forall|k: int| 0 <= k < 4 implies ident_continue(#[trigger] "jri0"@[k]) by {
        assert(k == 0 || k == 1 || k == 2 || k == 3);
    }
    assert forall|k: int| 0 <= k < 3 implies ident_continue(#[trigger] "jri"@[k]) by {
        assert(k == 0 || k == 1 || k == 2);
    }
    assert forall|k: int| 0 <= k < 4 implies ident_continue(#[trigger] "seqi"@[k]) by {
        assert(k == 0 || k == 1 || k == 2 || k == 3);
    }
    assert forall|k: int| 0 <= k < 4 implies ident_continue(#[trigger] "snei"@[k]) by {
        assert(k == 0 || k == 1 || k == 2 || k == 3);
    }
    assert forall|k: int| 0 <= k < 3 implies ident_continue(#[trigger] "seq"@[k]) by {
        assert(k == 0 || k == 1 || k == 2);
    }
    assert forall|k: int| 0 <= k < 3 implies ident_continue(#[trigger] "sne"@[k]) by {
        assert(k == 0 || k == 1 || k == 2);
    }
    assert forall|k: int| 0 <= k < 2 implies ident_continue(#[trigger] "sk"@[k]) by {
        assert(k == 0 || k == 1);
    }
    assert forall|k: int| 0 <= k < 3 implies ident_continue(#[trigger] "snk"@[k]) by {
        assert(k == 0 || k == 1 || k == 2);
    }
    assert forall|k: int| 0 <= k < 4 implies ident_continue(#[trigger] "seti"@[k]) by {
        assert(k == 0 || k == 1 || k == 2 || k == 3);
    }
    assert forall|k: int| 0 <= k < 4 implies ident_continue(#[trigger] "addi"@[k]) by {
        assert(k == 0 || k == 1 || k == 2 || k == 3);
    }
    assert forall|k: int| 0 <= k < 3 implies ident_continue(#[trigger] "set"@[k]) by {
        assert(k == 0 || k == 1 || k == 2);
    }
    assert forall|k: int| 0 <= k < 2 implies ident_continue(#[trigger] "or"@[k]) by {
        assert(k == 0 || k == 1);
    }
    assert forall|k: int| 0 <= k < 3 implies ident_continue(#[trigger] "and"@[k]) by {
        assert(k == 0 || k == 1 || k == 2);
    }
    assert forall|k: int| 0 <= k < 3 implies ident_continue(#[trigger] "xor"@[k]) by {
        assert(k == 0 || k == 1 || k == 2);
    }
    assert forall|k: int| 0 <= k < 3 implies ident_continue(#[trigger] "add"@[k]) by {
        assert(k == 0 || k == 1 || k == 2);
    }
    assert forall|k: int| 0 <= k < 4 implies ident_continue(#[trigger] "subf"@[k]) by {
        assert(k == 0 || k == 1 || k == 2 || k == 3);
    }
    assert forall|k: int| 0 <= k < 4 implies ident_continue(#[trigger] "srlf"@[k]) by {
        assert(k == 0 || k == 1 || k == 2 || k == 3);
    }
    assert forall|k: int| 0 <= k < 5 implies ident_continue(#[trigger] "subnf"@[k]) by {
        assert(k == 0 || k == 1 || k == 2 || k == 3 || k == 4);
    }
    assert forall|k: int| 0 <= k < 4 implies ident_continue(#[trigger] "sllf"@[k]) by {
        assert(k == 0 || k == 1 || k == 2 || k == 3);
    }
    assert forall|k: int| 0 <= k < 4 implies ident_continue(#[trigger] "rand"@[k]) by {
        assert(k == 0 || k == 1 || k == 2 || k == 3);
    }
    assert forall|k: int| 0 <= k < 6 implies ident_continue(#[trigger] "sprite"@[k]) by {
        assert(k == 0 || k == 1 || k == 2 || k == 3 || k == 4 || k == 5);
    }
    assert forall|k: int| 0 <= k < 3 implies ident_continue(#[trigger] "bcd"@[k]) by {
        assert(k == 0 || k == 1 || k == 2);
    }
    assert forall|k: int| 0 <= k < 4 implies ident_continue(#[trigger] "word"@[k]) by {
        assert(k == 0 || k == 1 || k == 2 || k == 3);
    }
    assert forall|k: int| 0 <= k < 1 implies ident_continue(#[trigger] "I"@[k]) by {
        assert(k == 0);
    }
    assert forall|k: int| 0 <= k < 5 implies ident_continue(#[trigger] "DELAY"@[k]) by {
        assert(k == 0 || k == 1 || k == 2 || k == 3 || k == 4);
    }
    assert forall|k: int| 0 <= k < 3 implies ident_continue(#[trigger] "KEY"@[k]) by {
        assert(k == 0 || k == 1 || k == 2);
    }
    assert forall|k: int| 0 <= k < 5 implies ident_continue(#[trigger] "SOUND"@[k]) by {
        assert(k == 0 || k == 1 || k == 2 || k == 3 || k == 4);
    }
    assert forall|k: int| 0 <= k < 4 implies ident_continue(#[trigger] "FONT"@[k]) by {
        assert(k == 0 || k == 1 || k == 2 || k == 3);
    }
}

/// What `p_operands` gives for each instruction name.
pub(crate) proof fn lemma_operands(s: Seq<char>, k: int)
    ensures
        p_operands(s, "cls"@, k) == (PRes::<InstrV>::Ok((InstrV::Cls, k))),
        p_operands(s, "ret"@, k) == (PRes::<InstrV>::Ok((InstrV::Ret, k))),
        p_operands(s, "j"@, k) == (match p_addr(s, k) { Err(e) => Err(e), Ok((a, k2)) => Ok((InstrV::J(a), k2)) }),
        p_operands(s, "call"@, k) == (match p_addr(s, k) { Err(e) => Err(e), Ok((a, k2)) => Ok((InstrV::Call(a), k2)) }),
        p_operands(s, "jri0"@, k) == (match p_address(s, k) { Err(e) => Err(e), Ok((n, k2)) => Ok((InstrV::Jri0(n), k2)) }),
        p_operands(s, "jri"@, k) == (match p_reg_byte(s, k) { Err(e) => Err(e), Ok(((x, b), k2)) => Ok((InstrV::Jri(x, b), k2)) }),
        p_operands(s, "seqi"@, k) == (match p_reg_byte(s, k) { Err(e) => Err(e), Ok(((x, b), k2)) => Ok((InstrV::Seqi(x, b), k2)) }),
        p_operands(s, "snei"@, k) == (match p_reg_byte(s, k) { Err(e) => Err(e), Ok(((x, b), k2)) => Ok((InstrV::Snei(x, b), k2)) }),
        p_operands(s, "seq"@, k) == (match p_reg_reg(s, k) { Err(e) => Err(e), Ok(((x, y), k2)) => Ok((InstrV::SeqReg(x, y), k2)) }),
        p_operands(s, "sne"@, k) == (match p_reg_reg(s, k) { Err(e) => Err(e), Ok(((x, y), k2)) => Ok((InstrV::Sne(x, y), k2)) }),
        p_operands(s, "sk"@, k) == (match p_register(s, k) { Err(e) => Err(e), Ok((x, k2)) => Ok((InstrV::Sk(x), k2)) }),
        p_operands(s, "snk"@, k) == (match p_register(s, k) { Err(e) => Err(e), Ok((x, k2)) => Ok((InstrV::Snk(x), k2)) }),
        p_operands(s, "seti"@, k) == (p_seti(s, k)),
        p_operands(s, "addi"@, k) == (match p_reg_byte(s, k) { Err(e) => Err(e), Ok(((x, b), k2)) => Ok((InstrV::Addi(x, b), k2)) }),
        p_operands(s, "set"@, k) == (p_set(s, k)),
        p_operands(s, "or"@, k) == (match p_reg_reg(s, k) { Err(e) => Err(e), Ok(((x, y), k2)) => Ok((InstrV::Or(x, y), k2)) }),
        p_operands(s, "and"@, k) == (match p_reg_reg(s, k) { Err(e) => Err(e), Ok(((x, y), k2)) => Ok((InstrV::And(x, y), k2)) }),
        p_operands(s, "xor"@, k) == (match p_reg_reg(s, k) { Err(e) => Err(e), Ok(((x, y), k2)) => Ok((InstrV::Xor(x, y), k2)) }),
        p_operands(s, "add"@, k) == (p_add(s, k)),
        p_operands(s, "subf"@, k) == (match p_reg_reg(s, k) { Err(e) => Err(e), Ok(((x, y), k2)) => Ok((InstrV::Subf(x, y), k2)) }),
        p_operands(s, "srlf"@, k) == (p_shift(s, k, true)),
        p_operands(s, "subnf"@, k) == (match p_reg_reg(s, k) { Err(e) => Err(e), Ok(((x, y), k2)) => Ok((InstrV::Subnf(x, y), k2)) }),
        p_operands(s, "sllf"@, k) == (p_shift(s, k, false)),
        p_operands(s, "rand"@, k) == (match p_reg_byte(s, k) { Err(e) => Err(e), Ok(((x, b), k2)) => Ok((InstrV::Rand(x, b), k2)) }),
        p_operands(s, "sprite"@, k) == (match p_sprite(s, k) { Err(e) => Err(e), Ok(((x, y, n), k2)) => Ok((InstrV::Sprite(x, y, n), k2)) }),
        p_operands(s, "bcd"@, k) == (match p_register(s, k) { Err(e) => Err(e), Ok((x, k2)) => Ok((InstrV::Bcd(x), k2)) }),
{
    lemma_names();
    reveal(p_operands);
}


// ---------------------------------------------------------------------------
// The instruction a line reads back as

/// The instruction that the disassembler's text for `w` (with `shift_y` set,
/// and `BNNN` read as `jri` when `jump_bxnn`, else as `jri0`) parses to:
/// `.word` when `w` is not an instruction.
pub open spec fn read_back(w: u16, jump_bxnn: bool) -> InstrV {
    let k = op_kind(w);
    let x = op_x(w) as u8;
    let y = op_y(w) as u8;
    let n = op_n(w);
    let nn = op_nn(w);
    let nnn = op_nnn(w) as u16;
    if !recognized(w) {
        InstrV::Word(w)
    } else if k == 0x0 {
        if w == 0x00E0 { InstrV::Cls } else { InstrV::Ret }
    } else if k == 0x1 {
        InstrV::J(AddrV::Val(nnn))
    } else if k == 0x2 {
        InstrV::Call(AddrV::Val(nnn))
    } else if k == 0x3 {
        InstrV::Seqi(x, nn as u8)
    } else if k == 0x4 {
        InstrV::Snei(x, nn as u8)
    } else if k == 0x5 {
        InstrV::SeqReg(x, y)
    } else if k == 0x6 {
        InstrV::Seti(x, nn as u8)
    } else if k == 0x7 {
        InstrV::Addi(x, nn as u8)
    } else if k == 0x8 {
        if n == 0x0 {
            InstrV::SetReg(x, y)
        } else if n == 0x1 {
            InstrV::Or(x, y)
        } else if n == 0x2 {
            InstrV::And(x, y)
        } else if n == 0x3 {
            InstrV::Xor(x, y)
        } else if n == 0x4 {
            InstrV::Add(x, y)
        } else if n == 0x5 {
            InstrV::Subf(x, y)
        } else if n == 0x6 {
            InstrV::Srlf(x, y)
        } else if n == 0x7 {
            InstrV::Subnf(x, y)
        } else {
            InstrV::Sllf(x, y)
        }
    } else if k == 0x9 {
        InstrV::Sne(x, y)
    } else if k == 0xA {
        InstrV::SetAddrI(AddrV::Val(nnn))
    } else if k == 0xB {
        if jump_bxnn { InstrV::Jri(x, nn as u8) } else { InstrV::Jri0(nnn) }
    } else if k == 0xC {
        InstrV::Rand(x, nn as u8)
    } else if k == 0xD {
        InstrV::Sprite(x, y, n as u8)
    } else if k == 0xE {
        if nn == 0x9E { InstrV::Sk(x) } else { InstrV::Snk(x) }
    } else if nn == 0x07 {
        InstrV::GetDelay(x)
    } else if nn == 0x15 {
        InstrV::SetDelay(x)
    } else if nn == 0x18 {
        InstrV::SetSound(x)
    } else if nn == 0x1E {
        InstrV::AddMemI(x)
    } else if nn == 0x0A {
        InstrV::GetKey(x)
    } else if nn == 0x29 {
        InstrV::SetFont(x)
    } else if nn == 0x33 {
        InstrV::Bcd(x)
    } else if nn == 0x55 {
        InstrV::SetMemI(x)
    } else {
        InstrV::GetMemI(x)
    }
}

/// Whether the text of `w` loses part of it: `5XYN` and `9XYN` are written
/// as `seq`/`sne`, which do not keep a last digit other than `0`.
pub open spec fn lossy(w: u16) -> bool {
    (op_kind(w) == 0x5 || op_kind(w) == 0x9) && op_n(w) != 0
}

pub(crate) proof fn lemma_bv_xnn(w: u16, c: u16, x: u8, nn: u8)
    requires
        w / 4096 == c / 4096,
        c % 4096 == 0u16,
        x as u16 == (w / 256) % 16,
        nn as u16 == w % 256,
    ensures
        c | ((x as u16) << 8u16) | (nn as u16) == w,
{
    assert(c | ((x as u16) << 8u16) | (nn as u16) == w) by (bit_vector)
        requires
            w / 4096 == c / 4096,
            c % 4096 == 0u16,
            x as u16 == (w / 256) % 16,
            nn as u16 == w % 256,
    ;
}

pub(crate) proof fn lemma_bv_xy(w: u16, c: u16, x: u8, y: u8)
    requires
        w / 4096 == c / 4096,
        w % 16 == c % 16,
        (c / 16) % 256 == 0u16,
        x as u16 == (w / 256) % 16,
        y as u16 == (w / 16) % 16,
    ensures
        c | ((x as u16) << 8u16) | ((y as u16) << 4u16) == w,
{
    assert(c | ((x as u16) << 8u16) | ((y as u16) << 4u16) == w) by (bit_vector)
        requires
            w / 4096 == c / 4096,
            w % 16 == c % 16,
            (c / 16) % 256 == 0u16,
            x as u16 == (w / 256) % 16,
            y as u16 == (w / 16) % 16,
    ;
}

pub(crate) proof fn lemma_bv_x(w: u16, c: u16, x: u8)
    requires
        w / 4096 == c / 4096,
        w % 256 == c % 256,
        (c / 256) % 16 == 0u16,
        x as u16 == (w / 256) % 16,
    ensures
        c | ((x as u16) << 8u16) == w,
{
    assert(c | ((x as u16) << 8u16) == w) by (bit_vector)
        requires
            w / 4096 == c / 4096,
            w % 256 == c % 256,
            (c / 256) % 16 == 0u16,
            x as u16 == (w / 256) % 16,
    ;
}

pub(crate) proof fn lemma_bv_nnn(w: u16, c: u16)
    requires
        w / 4096 == c / 4096,
        c % 4096 == 0u16,
    ensures
        c | (w % 4096) == w,
{
    assert(c | (w % 4096) == w) by (bit_vector)
        requires
            w / 4096 == c / 4096,
            c % 4096 == 0u16,
    ;
}

pub(crate) proof fn lemma_bv_xyn(w: u16, c: u16, x: u8, y: u8, n: u8)
    requires
        w / 4096 == c / 4096,
        c % 4096 == 0u16,
        x as u16 == (w / 256) % 16,
        y as u16 == (w / 16) % 16,
        n as u16 == w % 16,
    ensures
        c | ((x as u16) << 8u16) | ((y as u16) << 4u16) | (n as u16) == w,
{
    assert(c | ((x as u16) << 8u16) | ((y as u16) << 4u16) | (n as u16) == w) by (bit_vector)
        requires
            w / 4096 == c / 4096,
            c % 4096 == 0u16,
            x as u16 == (w / 256) % 16,
            y as u16 == (w / 16) % 16,
            n as u16 == w % 16,
    ;
}

/// The instruction that the text of `w` reads back as encodes to `w`
/// itself, unless the text lost part of `w`.
pub proof fn lemma_read_back_encodes(w: u16, jump_bxnn: bool, labels: Map<Seq<char>, u16>)
    requires
        !lossy(w),
    ensures
        instr_bytes(read_back(w, jump_bxnn), labels) == be_bytes(w),
{
    let k = op_kind(w);
    let x = op_x(w) as u8;
    let y = op_y(w) as u8;
    let n = op_n(w);
    let nn = op_nn(w);
    if !recognized(w) {
    } else if k == 0x0 {
    } else if k == 0x1 {
        lemma_bv_nnn(w, 0x1000);
    } else if k == 0x2 {
        lemma_bv_nnn(w, 0x2000);
    } else if k == 0x3 {
        lemma_bv_xnn(w, 0x3000, x, nn as u8);
    } else if k == 0x4 {
        lemma_bv_xnn(w, 0x4000, x, nn as u8);
    } else if k == 0x5 {
        lemma_bv_xy(w, 0x5000, x, y);
    } else if k == 0x6 {
        lemma_bv_xnn(w, 0x6000, x, nn as u8);
    } else if k == 0x7 {
        lemma_bv_xnn(w, 0x7000, x, nn as u8);
    } else if k == 0x8 {
        if n == 0x0 {
            lemma_bv_xy(w, 0x8000, x, y);
        } else if n == 0x1 {
            lemma_bv_xy(w, 0x8001, x, y);
        } else if n == 0x2 {
            lemma_bv_xy(w, 0x8002, x, y);
        } else if n == 0x3 {
            lemma_bv_xy(w, 0x8003, x, y);
        } else if n == 0x4 {
            lemma_bv_xy(w, 0x8004, x, y);
        } else if n == 0x5 {
            lemma_bv_xy(w, 0x8005, x, y);
        } else if n == 0x6 {
            lemma_bv_xy(w, 0x8006, x, y);
        } else if n == 0x7 {
            lemma_bv_xy(w, 0x8007, x, y);
        } else {
            lemma_bv_xy(w, 0x800E, x, y);
        }
    } else if k == 0x9 {
        lemma_bv_xy(w, 0x9000, x, y);
    } else if k == 0xA {
        lemma_bv_nnn(w, 0xA000);
    } else if k == 0xB {
        if jump_bxnn {
            lemma_bv_xnn(w, 0xB000, x, nn as u8);
        } else {
            lemma_bv_nnn(w, 0xB000);
        }
    } else if k == 0xC {
        lemma_bv_xnn(w, 0xC000, x, nn as u8);
    } else if k == 0xD {
        lemma_bv_xyn(w, 0xD000, x, y, n as u8);
    } else if k == 0xE {
        if nn == 0x9E {
            lemma_bv_x(w, 0xE09E, x);
        } else {
            lemma_bv_x(w, 0xE0A1, x);
        }
    } else if nn == 0x07 {
        lemma_bv_x(w, 0xF007, x);
    } else if nn == 0x15 {
        lemma_bv_x(w, 0xF015, x);
    } else if nn == 0x18 {
        lemma_bv_x(w, 0xF018, x);
    } else if nn == 0x1E {
        lemma_bv_x(w, 0xF01E, x);
    } else if nn == 0x0A {
        lemma_bv_x(w, 0xF00A, x);
    } else if nn == 0x29 {
        lemma_bv_x(w, 0xF029, x);
    } else if nn == 0x33 {
        lemma_bv_x(w, 0xF033, x);
    } else if nn == 0x55 {
        lemma_bv_x(w, 0xF055, x);
    } else {
        lemma_bv_x(w, 0xF065, x);
    }
}


/// How the disassembler's literal pieces of text split into the tokens that
/// the parser reads.
pub(crate) proof fn lemma_texts()
    ensures
        "seqi $"@ == "seqi"@ + " $"@,
        "jri $"@ == "jri"@ + " $"@,
        "snei $"@ == "snei"@ + " $"@,
        "seti $"@ == "seti"@ + " $"@,
        "addi $"@ == "addi"@ + " $"@,
        "rand $"@ == "rand"@ + " $"@,
        "seq $"@ == "seq"@ + " $"@,
        "sne $"@ == "sne"@ + " $"@,
        "set $"@ == "set"@ + " $"@,
        "or $"@ == "or"@ + " $"@,
        "and $"@ == "and"@ + " $"@,
        "xor $"@ == "xor"@ + " $"@,
        "add $"@ == "add"@ + " $"@,
        "subf $"@ == "subf"@ + " $"@,
        "srlf $"@ == "srlf"@ + " $"@,
        "subnf $"@ == "subnf"@ + " $"@,
        "sllf $"@ == "sllf"@ + " $"@,
        "sprite $"@ == "sprite"@ + " $"@,
        "sk $"@ == "sk"@ + " $"@,
        "snk $"@ == "snk"@ + " $"@,
        "bcd $"@ == "bcd"@ + " $"@,
        "j 0x"@ == "j"@ + " "@ + "0x"@,
        "call "@ == "call"@ + " "@,
        "jri0 "@ == "jri0"@ + " "@,
        "seti I, 0x"@ == "seti"@ + " "@ + "I"@ + ", "@ + "0x"@,
        ".word 0x"@ == "."@ + "word"@ + " "@ + "0x"@,
        "set DELAY, $"@ == "set"@ + " "@ + "DELAY"@ + ", $"@,
        "set SOUND, $"@ == "set"@ + " "@ + "SOUND"@ + ", $"@,
        "add I, $"@ == "add"@ + " "@ + "I"@ + ", $"@,
        "set I, FONT[$"@ == "set"@ + " "@ + "I"@ + ", "@ + "FONT"@ + "[$"@,
        "set [I], $"@ == "set"@ + " "@ + "[I]"@ + ", $"@,
        ", DELAY"@ == ", "@ + "DELAY"@,
        ", KEY"@ == ", "@ + "KEY"@,
        ", [I]"@ == ", "@ + "[I]"@,
        ", "@ == ","@ + " "@,
        " "@.len() == 1 && " "@[0] == ' ',
        " $"@.len() == 2 && " $"@[0] == ' ' && " $"@[1] == '$',
        ", $"@.len() == 3 && ", $"@[0] == ',' && ", $"@[1] == ' ' && ", $"@[2] == '$',
        ", "@.len() == 2 && ", "@[0] == ',' && ", "@[1] == ' ',
        "0x"@.len() == 2 && "0x"@[0] == '0' && "0x"@[1] == 'x',
        "[I]"@.len() == 3 && "[I]"@[0] == '[' && "[I]"@[1] == 'I' && "[I]"@[2] == ']',
        "[$"@.len() == 2 && "[$"@[0] == '[' && "[$"@[1] == '$',
        "]"@.len() == 1 && "]"@[0] == ']',
        "."@.len() == 1 && "."@[0] == '.',
        ".word 0x"@[0] == '.',
        ","@.len() == 1 && ","@[0] == ',',
{
    reveal_strlit(" ");
    reveal_strlit(" $");
    reveal_strlit(", ");
    reveal_strlit(", $");
    reveal_strlit(", DELAY");
    reveal_strlit(", KEY");
    reveal_strlit(", [I]");
    reveal_strlit(",");
    reveal_strlit(".");
    reveal_strlit(".word 0x");
    reveal_strlit("0x");
    reveal_strlit("DELAY");
    reveal_strlit("FONT");
    reveal_strlit("I");
    reveal_strlit("KEY");
    reveal_strlit("SOUND");
    reveal_strlit("[$");
    reveal_strlit("[I]");
    reveal_strlit("]");
    reveal_strlit("add");
    reveal_strlit("add $");
    reveal_strlit("add I, $");
    reveal_strlit("addi");
    reveal_strlit("addi $");
    reveal_strlit("and");
    reveal_strlit("and $");
    reveal_strlit("bcd");
    reveal_strlit("bcd $");
    reveal_strlit("call");
    reveal_strlit("call ");
    reveal_strlit("j");
    reveal_strlit("j 0x");
    reveal_strlit("jri0");
    reveal_strlit("jri0 ");
    reveal_strlit("or");
    reveal_strlit("or $");
    reveal_strlit("rand");
    reveal_strlit("rand $");
    reveal_strlit("seq");
    reveal_strlit("seq $");
    reveal_strlit("seqi");
    reveal_strlit("seqi $");
    reveal_strlit("jri $");
    reveal_strlit("jri");
    reveal_strlit("set");
    reveal_strlit("set $");
    reveal_strlit("set DELAY, $");
    reveal_strlit("set I, FONT[$");
    reveal_strlit("set SOUND, $");
    reveal_strlit("set [I], $");
    reveal_strlit("seti");
    reveal_strlit("seti $");
    reveal_strlit("seti I, 0x");
    reveal_strlit("sk");
    reveal_strlit("sk $");
    reveal_strlit("sllf");
    reveal_strlit("sllf $");
    reveal_strlit("sne");
    reveal_strlit("sne $");
    reveal_strlit("snei");
    reveal_strlit("snei $");
    reveal_strlit("snk");
    reveal_strlit("snk $");
    reveal_strlit("sprite");
    reveal_strlit("sprite $");
    reveal_strlit("srlf");
    reveal_strlit("srlf $");
    reveal_strlit("subf");
    reveal_strlit("subf $");
    reveal_strlit("subnf");
    reveal_strlit("subnf $");
    reveal_strlit("word");
    reveal_strlit("xor");
    reveal_strlit("xor $");
    assert forall|k: int| 0 <= k < 6 implies #[trigger] "seqi $"@[k] == ("seqi"@ + " $"@)[k] by {
        assert(k == 0 || k == 1 || k == 2 || k == 3 || k == 4 || k == 5);
    }
    assert forall|k: int| 0 <= k < 5 implies #[trigger] "jri $"@[k] == ("jri"@ + " $"@)[k] by {
        assert(k == 0 || k == 1 || k == 2 || k == 3 || k == 4);
    }
    assert("jri $"@ =~= "jri"@ + " $"@);
    assert("seqi $"@ =~= "seqi"@ + " $"@);
    assert forall|k: int| 0 <= k < 6 implies #[trigger] "snei $"@[k] == ("snei"@ + " $"@)[k] by {
        assert(k == 0 || k == 1 || k == 2 || k == 3 || k == 4 || k == 5);
    }
    assert("snei $"@ =~= "snei"@ + " $"@);
    assert forall|k: int| 0 <= k < 6 implies #[trigger] "seti $"@[k] == ("seti"@ + " $"@)[k] by {
        assert(k == 0 || k == 1 || k == 2 || k == 3 || k == 4 || k == 5);
    }
    assert("seti $"@ =~= "seti"@ + " $"@);
    assert forall|k: int| 0 <= k < 6 implies #[trigger] "addi $"@[k] == ("addi"@ + " $"@)[k] by {
        assert(k == 0 || k == 1 || k == 2 || k == 3 || k == 4 || k == 5);
    }
    assert("addi $"@ =~= "addi"@ + " $"@);
    assert forall|k: int| 0 <= k < 6 implies #[trigger] "rand $"@[k] == ("rand"@ + " $"@)[k] by {
        assert(k == 0 || k == 1 || k == 2 || k == 3 || k == 4 || k == 5);
    }
    assert("rand $"@ =~= "rand"@ + " $"@);
    assert forall|k: int| 0 <= k < 5 implies #[trigger] "seq $"@[k] == ("seq"@ + " $"@)[k] by {
        assert(k == 0 || k == 1 || k == 2 || k == 3 || k == 4);
    }
    assert("seq $"@ =~= "seq"@ + " $"@);
    assert forall|k: int| 0 <= k < 5 implies #[trigger] "sne $"@[k] == ("sne"@ + " $"@)[k] by {
        assert(k == 0 || k == 1 || k == 2 || k == 3 || k == 4);
    }
    assert("sne $"@ =~= "sne"@ + " $"@);
    assert forall|k: int| 0 <= k < 5 implies #[trigger] "set $"@[k] == ("set"@ + " $"@)[k] by {
        assert(k == 0 || k == 1 || k == 2 || k == 3 || k == 4);
    }
    assert("set $"@ =~= "set"@ + " $"@);
    assert forall|k: int| 0 <= k < 4 implies #[trigger] "or $"@[k] == ("or"@ + " $"@)[k] by {
        assert(k == 0 || k == 1 || k == 2 || k == 3);
    }
    assert("or $"@ =~= "or"@ + " $"@);
    assert forall|k: int| 0 <= k < 5 implies #[trigger] "and $"@[k] == ("and"@ + " $"@)[k] by {
        assert(k == 0 || k == 1 || k == 2 || k == 3 || k == 4);
    }
    assert("and $"@ =~= "and"@ + " $"@);
    assert forall|k: int| 0 <= k < 5 implies #[trigger] "xor $"@[k] == ("xor"@ + " $"@)[k] by {
        assert(k == 0 || k == 1 || k == 2 || k == 3 || k == 4);
    }
    assert("xor $"@ =~= "xor"@ + " $"@);
    assert forall|k: int| 0 <= k < 5 implies #[trigger] "add $"@[k] == ("add"@ + " $"@)[k] by {
        assert(k == 0 || k == 1 || k == 2 || k == 3 || k == 4);
    }
    assert("add $"@ =~= "add"@ + " $"@);
    assert forall|k: int| 0 <= k < 6 implies #[trigger] "subf $"@[k] == ("subf"@ + " $"@)[k] by {
        assert(k == 0 || k == 1 || k == 2 || k == 3 || k == 4 || k == 5);
    }
    assert("subf $"@ =~= "subf"@ + " $"@);
    assert forall|k: int| 0 <= k < 6 implies #[trigger] "srlf $"@[k] == ("srlf"@ + " $"@)[k] by {
        assert(k == 0 || k == 1 || k == 2 || k == 3 || k == 4 || k == 5);
    }
    assert("srlf $"@ =~= "srlf"@ + " $"@);
    assert forall|k: int| 0 <= k < 7 implies #[trigger] "subnf $"@[k] == ("subnf"@ + " $"@)[k] by {
        assert(k == 0 || k == 1 || k == 2 || k == 3 || k == 4 || k == 5 || k == 6);
    }
    assert("subnf $"@ =~= "subnf"@ + " $"@);
    assert forall|k: int| 0 <= k < 6 implies #[trigger] "sllf $"@[k] == ("sllf"@ + " $"@)[k] by {
        assert(k == 0 || k == 1 || k == 2 || k == 3 || k == 4 || k == 5);
    }
    assert("sllf $"@ =~= "sllf"@ + " $"@);
    assert forall|k: int| 0 <= k < 8 implies #[trigger] "sprite $"@[k] == ("sprite"@ + " $"@)[k] by {
        assert(k == 0 || k == 1 || k == 2 || k == 3 || k == 4 || k == 5 || k == 6 || k == 7);
    }
    assert("sprite $"@ =~= "sprite"@ + " $"@);
    assert forall|k: int| 0 <= k < 4 implies #[trigger] "sk $"@[k] == ("sk"@ + " $"@)[k] by {
        assert(k == 0 || k == 1 || k == 2 || k == 3);
    }
    assert("sk $"@ =~= "sk"@ + " $"@);
    assert forall|k: int| 0 <= k < 5 implies #[trigger] "snk $"@[k] == ("snk"@ + " $"@)[k] by {
        assert(k == 0 || k == 1 || k == 2 || k == 3 || k == 4);
    }
    assert("snk $"@ =~= "snk"@ + " $"@);
    assert forall|k: int| 0 <= k < 5 implies #[trigger] "bcd $"@[k] == ("bcd"@ + " $"@)[k] by {
        assert(k == 0 || k == 1 || k == 2 || k == 3 || k == 4);
    }
    assert("bcd $"@ =~= "bcd"@ + " $"@);
    assert forall|k: int| 0 <= k < 4 implies #[trigger] "j 0x"@[k] == ("j"@ + " "@ + "0x"@)[k] by {
        assert(k == 0 || k == 1 || k == 2 || k == 3);
    }
    assert("j 0x"@ =~= "j"@ + " "@ + "0x"@);
    assert forall|k: int| 0 <= k < 5 implies #[trigger] "call "@[k] == ("call"@ + " "@)[k] by {
        assert(k == 0 || k == 1 || k == 2 || k == 3 || k == 4);
    }
    assert("call "@ =~= "call"@ + " "@);
    assert forall|k: int| 0 <= k < 5 implies #[trigger] "jri0 "@[k] == ("jri0"@ + " "@)[k] by {
        assert(k == 0 || k == 1 || k == 2 || k == 3 || k == 4);
    }
    assert("jri0 "@ =~= "jri0"@ + " "@);
    assert forall|k: int| 0 <= k < 10 implies #[trigger] "seti I, 0x"@[k] == ("seti"@ + " "@ + "I"@ + ", "@ + "0x"@)[k] by {
        assert(k == 0 || k == 1 || k == 2 || k == 3 || k == 4 || k == 5 || k == 6 || k == 7 || k == 8 || k == 9);
    }
    assert("seti I, 0x"@ =~= "seti"@ + " "@ + "I"@ + ", "@ + "0x"@);
    assert forall|k: int| 0 <= k < 8 implies #[trigger] ".word 0x"@[k] == ("."@ + "word"@ + " "@ + "0x"@)[k] by {
        assert(k == 0 || k == 1 || k == 2 || k == 3 || k == 4 || k == 5 || k == 6 || k == 7);
    }
    assert(".word 0x"@ =~= "."@ + "word"@ + " "@ + "0x"@);
    assert forall|k: int| 0 <= k < 12 implies #[trigger] "set DELAY, $"@[k] == ("set"@ + " "@ + "DELAY"@ + ", $"@)[k] by {
        assert(k == 0 || k == 1 || k == 2 || k == 3 || k == 4 || k == 5 || k == 6 || k == 7 || k == 8 || k == 9 || k == 10 || k == 11);
    }
    assert("set DELAY, $"@ =~= "set"@ + " "@ + "DELAY"@ + ", $"@);
    assert forall|k: int| 0 <= k < 12 implies #[trigger] "set SOUND, $"@[k] == ("set"@ + " "@ + "SOUND"@ + ", $"@)[k] by {
        assert(k == 0 || k == 1 || k == 2 || k == 3 || k == 4 || k == 5 || k == 6 || k == 7 || k == 8 || k == 9 || k == 10 || k == 11);
    }
    assert("set SOUND, $"@ =~= "set"@ + " "@ + "SOUND"@ + ", $"@);
    assert forall|k: int| 0 <= k < 8 implies #[trigger] "add I, $"@[k] == ("add"@ + " "@ + "I"@ + ", $"@)[k] by {
        assert(k == 0 || k == 1 || k == 2 || k == 3 || k == 4 || k == 5 || k == 6 || k == 7);
    }
    assert("add I, $"@ =~= "add"@ + " "@ + "I"@ + ", $"@);
    assert forall|k: int| 0 <= k < 13 implies #[trigger] "set I, FONT[$"@[k] == ("set"@ + " "@ + "I"@ + ", "@ + "FONT"@ + "[$"@)[k] by {
        assert(k == 0 || k == 1 || k == 2 || k == 3 || k == 4 || k == 5 || k == 6 || k == 7 || k == 8 || k == 9 || k == 10 || k == 11 || k == 12);
    }
    assert("set I, FONT[$"@ =~= "set"@ + " "@ + "I"@ + ", "@ + "FONT"@ + "[$"@);
    assert forall|k: int| 0 <= k < 10 implies #[trigger] "set [I], $"@[k] == ("set"@ + " "@ + "[I]"@ + ", $"@)[k] by {
        assert(k == 0 || k == 1 || k == 2 || k == 3 || k == 4 || k == 5 || k == 6 || k == 7 || k == 8 || k == 9);
    }
    assert("set [I], $"@ =~= "set"@ + " "@ + "[I]"@ + ", $"@);
    assert forall|k: int| 0 <= k < 7 implies #[trigger] ", DELAY"@[k] == (", "@ + "DELAY"@)[k] by {
        assert(k == 0 || k == 1 || k == 2 || k == 3 || k == 4 || k == 5 || k == 6);
    }
    assert(", DELAY"@ =~= ", "@ + "DELAY"@);
    assert forall|k: int| 0 <= k < 5 implies #[trigger] ", KEY"@[k] == (", "@ + "KEY"@)[k] by {
        assert(k == 0 || k == 1 || k == 2 || k == 3 || k == 4);
    }
    assert(", KEY"@ =~= ", "@ + "KEY"@);
    assert forall|k: int| 0 <= k < 5 implies #[trigger] ", [I]"@[k] == (", "@ + "[I]"@)[k] by {
        assert(k == 0 || k == 1 || k == 2 || k == 3 || k == 4);
    }
    assert(", [I]"@ =~= ", "@ + "[I]"@);
    assert(", "@ =~= ","@ + " "@);
}


// ---------------------------------------------------------------------------
// Operands

/// A name at `i`, then its operands `ops`, which start with a space.
pub(crate) proof fn lemma_name_ops(s: Seq<char>, i: int, t: Seq<char>, name: Seq<char>, ops: Seq<char>)
    requires
        followed(s, i, t),
        t == name + ops,
        ops.len() >= 1,
        ops[0] == ' ',
    ensures
        occurs_at(s, i, name),
        followed(s, i + name.len(), ops),
        i + name.len() < s.len(),
        s[i + name.len()] == ' ',
{
    lemma_occurs_split(s, i, name, ops);
    assert(s[i + name.len() + 0] == ops[0]);
}

/// A name that reads as an identifier: the instruction is that name's.
pub(crate) proof fn lemma_instr_name(s: Seq<char>, i: int, name: Seq<char>)
    requires
        occurs_at(s, i, name),
        valid_name(name),
        i + name.len() <= s.len(),
        i + name.len() == s.len() || !ident_continue(s[i + name.len()]),
    ensures
        p_instr(s, i) == p_operands(s, name, i + name.len()),
{
    reveal(p_instr);
    lemma_ident(s, i, name);
    assert(s[i + 0] == name[0]);
}

pub(crate) proof fn lemma_ops_reg_byte(s: Seq<char>, k: int, x: nat, n: nat)
    requires
        followed(s, k, sp_reg(x) + comma_dec(n)),
        x < 16,
        n < 256,
    ensures
        ws_end(s, k) == k + 1,
        s[k + 1] == '$',
        p_reg_byte(s, k) == PRes::<(u8, u8)>::Ok(((x as u8, n as u8), k + (sp_reg(x) + comma_dec(n)).len())),
        p_reg_byte(s, k + 1) == PRes::<(u8, u8)>::Ok(((x as u8, n as u8), k + (sp_reg(x) + comma_dec(n)).len())),
{
    lemma_occurs_split(s, k, sp_reg(x), comma_dec(n));
    lemma_sp_reg(s, k, x);
    lemma_comma_dec(s, k + 3, n);
}

pub(crate) proof fn lemma_ops_reg_reg(s: Seq<char>, k: int, x: nat, y: nat)
    requires
        occurs_at(s, k, sp_reg(x) + comma_reg(y)),
        x < 16,
        y < 16,
    ensures
        (sp_reg(x) + comma_reg(y)).len() == 7,
        ws_end(s, k) == k + 1,
        s[k + 1] == '$',
        p_register(s, k) == PRes::<u8>::Ok((x as u8, k + 3)),
        p_register(s, k + 1) == PRes::<u8>::Ok((x as u8, k + 3)),
        p_comma(s, k + 3) == PRes::<()>::Ok(((), k + 4)),
        p_register(s, k + 4) == PRes::<u8>::Ok((y as u8, k + 7)),
        ws_end(s, k + 4) == k + 5,
        s[k + 5] == '$',
        p_register(s, k + 5) == PRes::<u8>::Ok((y as u8, k + 7)),
        p_reg_reg(s, k) == PRes::<(u8, u8)>::Ok(((x as u8, y as u8), k + 7)),
        p_reg_reg(s, k + 1) == PRes::<(u8, u8)>::Ok(((x as u8, y as u8), k + 7)),
{
    lemma_occurs_split(s, k, sp_reg(x), comma_reg(y));
    lemma_sp_reg(s, k, x);
    lemma_comma_reg(s, k + 3, y);
}

pub(crate) proof fn lemma_ops_sprite(s: Seq<char>, k: int, x: nat, y: nat, n: nat)
    requires
        followed(s, k, sp_reg(x) + comma_reg(y) + comma_dec(n)),
        x < 16,
        y < 16,
        n < 16,
    ensures
        p_sprite(s, k) == PRes::<(u8, u8, u8)>::Ok(
            ((x as u8, y as u8, n as u8), k + (sp_reg(x) + comma_reg(y) + comma_dec(n)).len()),
        ),
{
    lemma_occurs_split(s, k, sp_reg(x) + comma_reg(y), comma_dec(n));
    lemma_ops_reg_reg(s, k, x, y);
    lemma_comma_dec(s, k + 7, n);
}

/// ` n` with `n` in decimal.
pub(crate) proof fn lemma_ops_dec(s: Seq<char>, k: int, n: nat)
    requires
        followed(s, k, " "@ + dec_seq(n)),
        n <= 0xFFF,
    ensures
        p_number(s, k) == PRes::<u16>::Ok((n as u16, k + 1 + dec_seq(n).len())),
        p_address(s, k) == PRes::<u16>::Ok((n as u16, k + 1 + dec_seq(n).len())),
        p_addr(s, k) == PRes::<AddrV>::Ok((AddrV::Val(n as u16), k + 1 + dec_seq(n).len())),
{
    reveal_strlit(" ");
    lemma_dec_seq(n);
    lemma_occurs_split(s, k, " "@, dec_seq(n));
    assert(s[k + 0] == " "@[0]);
    assert(s[k + 1 + 0] == dec_seq(n)[0]);
    lemma_ws_run(s, k, k + 1);
    lemma_ws_run(s, k + 1, k + 1);
    lemma_number_dec(s, k, k + 1, n);
    lemma_number_dec(s, k + 1, k + 1, n);
}

/// ` 0x` and hexadecimal digits.
pub(crate) proof fn lemma_ops_hex(s: Seq<char>, k: int, d: Seq<char>, n: nat)
    requires
        followed(s, k, " "@ + ("0x"@ + d)),
        n <= 0xFFFF,
        d.len() >= 1,
        forall|j: int| 0 <= j < d.len() ==> is_digit_in(#[trigger] d[j], 16),
        digits_value(d, 16) == n,
    ensures
        p_number(s, k) == PRes::<u16>::Ok((n as u16, k + 3 + d.len())),
        n <= 0xFFF ==> p_addr(s, k) == PRes::<AddrV>::Ok((AddrV::Val(n as u16), k + 3 + d.len())),
{
    reveal_strlit(" ");
    reveal_strlit("0x");
    lemma_occurs_split(s, k, " "@, "0x"@ + d);
    assert(s[k + 0] == " "@[0]);
    assert(s[k + 1 + 0] == ("0x"@ + d)[0]);
    lemma_ws_run(s, k, k + 1);
    lemma_ws_run(s, k + 1, k + 1);
    lemma_number_hex(s, k, k + 1, d, n);
    lemma_number_hex(s, k + 1, k + 1, d, n);
}

/// `[I]`
pub(crate) proof fn lemma_mem_i(s: Seq<char>, j: int)
    requires
        occurs_at(s, j, "[I]"@),
    ensures
        s[j] == '[',
        p_mem_i(s, j) == PRes::<()>::Ok(((), j + 3)),
{
    reveal_strlit("[I]");
    assert(s[j + 0] == "[I]"@[0]);
    assert(s[j + 1] == "[I]"@[1]);
    assert(s[j + 2] == "[I]"@[2]);
    lemma_ws_run(s, j + 1, j + 1);
    lemma_ws_run(s, j + 2, j + 2);
}

/// ` $x, ` and then `rest`.
pub(crate) proof fn lemma_ops_reg_then(s: Seq<char>, k: int, x: nat, rest: Seq<char>)
    requires
        occurs_at(s, k, sp_reg(x) + (", "@ + rest)),
        x < 16,
        rest.len() >= 1,
        !is_ws(rest[0]),
    ensures
        ws_end(s, k) == k + 1,
        s[k + 1] == '$',
        p_register(s, k + 1) == PRes::<u8>::Ok((x as u8, k + 3)),
        p_comma(s, k + 3) == PRes::<()>::Ok(((), k + 4)),
        ws_end(s, k + 4) == k + 5,
        occurs_at(s, k + 5, rest),
{
    reveal_strlit(", ");
    lemma_occurs_split(s, k, sp_reg(x), ", "@ + rest);
    lemma_sp_reg(s, k, x);
    lemma_occurs_split(s, k + 3, ", "@, rest);
    assert(s[k + 3 + 0] == ", "@[0]);
    assert(s[k + 3 + 1] == ", "@[1]);
    assert(s[k + 5 + 0] == rest[0]);
    lemma_ws_run(s, k + 3, k + 3);
    lemma_comma(s, k + 3, k + 3);
    lemma_ws_run(s, k + 4, k + 5);
}

/// ` WORD, $x`
pub(crate) proof fn lemma_ops_word_reg(s: Seq<char>, k: int, word: Seq<char>, x: nat)
    requires
        occurs_at(s, k, " "@ + (word + comma_reg(x))),
        valid_name(word),
        x < 16,
    ensures
        ws_end(s, k) == k + 1,
        s[k + 1] == word[0],
        p_ident(s, k + 1) == PRes::<Seq<char>>::Ok((word, k + 1 + word.len())),
        p_comma(s, k + 1 + word.len()) == PRes::<()>::Ok(((), k + 2 + word.len())),
        p_register(s, k + 2 + word.len()) == PRes::<u8>::Ok((x as u8, k + 5 + word.len())),
{
    reveal_strlit(" ");
    lemma_occurs_split(s, k, " "@, word + comma_reg(x));
    lemma_occurs_split(s, k + 1, word, comma_reg(x));
    lemma_comma_reg(s, k + 1 + word.len(), x);
    assert(s[k + 0] == " "@[0]);
    assert(s[k + 1 + 0] == word[0]);
    lemma_ws_run(s, k, k + 1);
    lemma_ident(s, k + 1, word);
}


// ---------------------------------------------------------------------------
// Instructions

/// Whether `t` can start a line of a program: it is not empty and starts
/// with neither whitespace nor a comment.
pub open spec fn starts_line(t: Seq<char>) -> bool {
    t.len() >= 1 && !is_ws(t[0]) && t[0] != '#'
}

/// `cls` and `ret`.
pub(crate) proof fn lemma_read_bare(s: Seq<char>, i: int, w: u16, jump_bxnn: bool)
    requires
        followed(s, i, inst_text(w, true, jump_bxnn)),
        recognized(w),
        op_kind(w) == 0x0,
    ensures
        p_instr(s, i) == PRes::<InstrV>::Ok((read_back(w, jump_bxnn), i + inst_text(w, true, jump_bxnn).len())),
        starts_line(inst_text(w, true, jump_bxnn)),
        ident_start(inst_text(w, true, jump_bxnn)[0]),
{
    lemma_valid_names();
    lemma_texts();
    lemma_operands(s, i + 3);
    if w == 0x00E0 {
        lemma_instr_name(s, i, "cls"@);
    } else {
        lemma_instr_name(s, i, "ret"@);
    }
}

/// `j`, `call` and `jri0`.
pub(crate) proof fn lemma_read_jump(s: Seq<char>, i: int, w: u16, jump_bxnn: bool)
    requires
        followed(s, i, inst_text(w, true, jump_bxnn)),
        op_kind(w) == 0x1 || op_kind(w) == 0x2 || op_kind(w) == 0xB,
    ensures
        p_instr(s, i) == PRes::<InstrV>::Ok((read_back(w, jump_bxnn), i + inst_text(w, true, jump_bxnn).len())),
        starts_line(inst_text(w, true, jump_bxnn)),
        ident_start(inst_text(w, true, jump_bxnn)[0]),
{
    let t = inst_text(w, true, jump_bxnn);
    let k = op_kind(w);
    let nnn = op_nnn(w) as nat;
    lemma_valid_names();
    lemma_texts();
    if k == 0x1 {
        let d = hex_seq(nnn, false);
        lemma_hex_seq(nnn);
        let ops = " "@ + ("0x"@ + d);
        assert(t =~= "j"@ + ops);
        lemma_name_ops(s, i, t, "j"@, ops);
        lemma_instr_name(s, i, "j"@);
        lemma_ops_hex(s, i + 1, d, nnn);
        lemma_operands(s, i + 1);
    } else if k == 0xB && jump_bxnn {
        let x = op_x(w) as nat;
        let nn = op_nn(w) as nat;
        let ops = sp_reg(x) + comma_dec(nn);
        assert(t =~= "jri"@ + ops);
        lemma_name_ops(s, i, t, "jri"@, ops);
        lemma_instr_name(s, i, "jri"@);
        lemma_ops_reg_byte(s, i + 3, x, nn);
        lemma_operands(s, i + 3);
    } else {
        let name = if k == 0x2 { "call"@ } else { "jri0"@ };
        let ops = " "@ + dec_seq(nnn);
        assert(t =~= name + ops);
        lemma_name_ops(s, i, t, name, ops);
        lemma_instr_name(s, i, name);
        lemma_ops_dec(s, i + 4, nnn);
        lemma_operands(s, i + 4);
    }
}

/// `seti I, 0xNNN`
pub(crate) proof fn lemma_read_seti_i(s: Seq<char>, i: int, w: u16, jump_bxnn: bool)
    requires
        followed(s, i, inst_text(w, true, jump_bxnn)),
        op_kind(w) == 0xA,
    ensures
        p_instr(s, i) == PRes::<InstrV>::Ok((read_back(w, jump_bxnn), i + inst_text(w, true, jump_bxnn).len())),
        starts_line(inst_text(w, true, jump_bxnn)),
        ident_start(inst_text(w, true, jump_bxnn)[0]),
{
    let t = inst_text(w, true, jump_bxnn);
    let nnn = op_nnn(w) as nat;
    lemma_names();
    lemma_valid_names();
    lemma_texts();
    let d = hex_seq(nnn, false);
    lemma_hex_seq(nnn);
    let tail = " "@ + ("0x"@ + d);
    let ops = " "@ + ("I"@ + (","@ + tail));
    assert(t =~= "seti"@ + ops);
    lemma_name_ops(s, i, t, "seti"@, ops);
    lemma_instr_name(s, i, "seti"@);
    let j = i + 4;
    assert(ops =~= (" "@ + ("I"@ + ","@)) + tail);
    lemma_occurs_split(s, j, " "@ + ("I"@ + ","@), tail);
    assert(s[j + 0] == ops[0]);
    assert(s[j + 1] == ops[1]);
    assert(s[j + 2] == ops[2]);
    lemma_ws_run(s, j, j + 1);
    lemma_ws_run(s, j + 2, j + 2);
    lemma_comma(s, j + 2, j + 2);
    lemma_ops_hex(s, j + 3, d, nnn);
    lemma_operands(s, j);
}

/// `seqi`, `snei`, `seti`, `addi` and `rand`: a register and a byte.
pub(crate) proof fn lemma_read_reg_byte(s: Seq<char>, i: int, w: u16, jump_bxnn: bool)
    requires
        followed(s, i, inst_text(w, true, jump_bxnn)),
        op_kind(w) == 0x3 || op_kind(w) == 0x4 || op_kind(w) == 0x6 || op_kind(w) == 0x7 || op_kind(w) == 0xC,
    ensures
        p_instr(s, i) == PRes::<InstrV>::Ok((read_back(w, jump_bxnn), i + inst_text(w, true, jump_bxnn).len())),
        starts_line(inst_text(w, true, jump_bxnn)),
        ident_start(inst_text(w, true, jump_bxnn)[0]),
{
    let t = inst_text(w, true, jump_bxnn);
    let k = op_kind(w);
    let x = op_x(w) as nat;
    let nn = op_nn(w) as nat;
    lemma_valid_names();
    lemma_texts();
    let ops = sp_reg(x) + comma_dec(nn);
    let name = if k == 0x3 {
        "seqi"@
    } else if k == 0x4 {
        "snei"@
    } else if k == 0x6 {
        "seti"@
    } else if k == 0x7 {
        "addi"@
    } else {
        "rand"@
    };
    assert(t =~= name + ops);
    lemma_name_ops(s, i, t, name, ops);
    lemma_instr_name(s, i, name);
    lemma_ops_reg_byte(s, i + 4, x, nn);
    lemma_operands(s, i + 4);
}


/// The instructions with two registers: `seq`, `sne` and the `8XYN`
/// arithmetic.
pub(crate) proof fn lemma_read_reg_reg(s: Seq<char>, i: int, w: u16, jump_bxnn: bool)
    requires
        followed(s, i, inst_text(w, true, jump_bxnn)),
        recognized(w),
        op_kind(w) == 0x5 || op_kind(w) == 0x8 || op_kind(w) == 0x9,
    ensures
        p_instr(s, i) == PRes::<InstrV>::Ok((read_back(w, jump_bxnn), i + inst_text(w, true, jump_bxnn).len())),
        starts_line(inst_text(w, true, jump_bxnn)),
        ident_start(inst_text(w, true, jump_bxnn)[0]),
{
    let t = inst_text(w, true, jump_bxnn);
    let k = op_kind(w);
    let n = op_n(w);
    let x = op_x(w) as nat;
    let y = op_y(w) as nat;
    lemma_valid_names();
    lemma_texts();
    let ops = sp_reg(x) + comma_reg(y);
    let name = if k == 0x5 {
        "seq"@
    } else if k == 0x9 {
        "sne"@
    } else if n == 0x0 {
        "set"@
    } else if n == 0x1 {
        "or"@
    } else if n == 0x2 {
        "and"@
    } else if n == 0x3 {
        "xor"@
    } else if n == 0x4 {
        "add"@
    } else if n == 0x5 {
        "subf"@
    } else if n == 0x6 {
        "srlf"@
    } else if n == 0x7 {
        "subnf"@
    } else {
        "sllf"@
    };
    assert(t =~= name + ops);
    lemma_name_ops(s, i, t, name, ops);
    lemma_instr_name(s, i, name);
    lemma_ops_reg_reg(s, i + name.len(), x, y);
    lemma_operands(s, i + name.len());
}


/// `sprite`, `sk`, `snk` and `bcd`.
pub(crate) proof fn lemma_read_sprite_key(s: Seq<char>, i: int, w: u16, jump_bxnn: bool)
    requires
        followed(s, i, inst_text(w, true, jump_bxnn)),
        recognized(w),
        op_kind(w) == 0xD || op_kind(w) == 0xE || (op_kind(w) == 0xF && op_nn(w) == 0x33),
    ensures
        p_instr(s, i) == PRes::<InstrV>::Ok((read_back(w, jump_bxnn), i + inst_text(w, true, jump_bxnn).len())),
        starts_line(inst_text(w, true, jump_bxnn)),
        ident_start(inst_text(w, true, jump_bxnn)[0]),
{
    let t = inst_text(w, true, jump_bxnn);
    let k = op_kind(w);
    let x = op_x(w) as nat;
    let y = op_y(w) as nat;
    let n = op_n(w) as nat;
    lemma_valid_names();
    lemma_texts();
    if k == 0xD {
        let ops = sp_reg(x) + comma_reg(y) + comma_dec(n);
        assert(t =~= "sprite"@ + ops);
        lemma_name_ops(s, i, t, "sprite"@, ops);
        lemma_instr_name(s, i, "sprite"@);
        lemma_ops_sprite(s, i + 6, x, y, n);
        lemma_operands(s, i + 6);
    } else {
        let ops = sp_reg(x);
        let name = if k == 0xF { "bcd"@ } else if op_nn(w) == 0x9E { "sk"@ } else { "snk"@ };
        assert(t =~= name + ops);
        lemma_name_ops(s, i, t, name, ops);
        lemma_instr_name(s, i, name);
        lemma_sp_reg(s, i + name.len(), x);
        lemma_operands(s, i + name.len());
    }
}

/// The timers and the key: `set $x, DELAY`, `set $x, KEY`, `set DELAY, $x`
/// and `set SOUND, $x`; and `set $x, [I]`.
pub(crate) proof fn lemma_read_timers(s: Seq<char>, i: int, w: u16, jump_bxnn: bool)
    requires
        followed(s, i, inst_text(w, true, jump_bxnn)),
        op_kind(w) == 0xF,
        op_nn(w) == 0x07 || op_nn(w) == 0x0A || op_nn(w) == 0x65 || op_nn(w) == 0x15 || op_nn(w) == 0x18,
    ensures
        p_instr(s, i) == PRes::<InstrV>::Ok((read_back(w, jump_bxnn), i + inst_text(w, true, jump_bxnn).len())),
        starts_line(inst_text(w, true, jump_bxnn)),
        ident_start(inst_text(w, true, jump_bxnn)[0]),
{
    let t = inst_text(w, true, jump_bxnn);
    let nn = op_nn(w);
    let x = op_x(w) as nat;
    lemma_names();
    lemma_valid_names();
    lemma_texts();
    lemma_operands(s, i + 3);
    if nn == 0x07 || nn == 0x0A || nn == 0x65 {
        let word = if nn == 0x07 { "DELAY"@ } else if nn == 0x0A { "KEY"@ } else { "[I]"@ };
        let ops = sp_reg(x) + (", "@ + word);
        assert(t =~= "set"@ + ops);
        lemma_name_ops(s, i, t, "set"@, ops);
        lemma_instr_name(s, i, "set"@);
        let k = i + 3;
        lemma_ops_reg_then(s, k, x, word);
        assert(s[k + 5 + 0] == word[0]);
        if nn == 0x65 {
            lemma_mem_i(s, k + 5);
        } else {
            lemma_ident(s, k + 5, word);
        }
    } else {
        let word = if nn == 0x15 { "DELAY"@ } else { "SOUND"@ };
        let ops = " "@ + (word + comma_reg(x));
        assert(t =~= "set"@ + ops);
        lemma_name_ops(s, i, t, "set"@, ops);
        lemma_instr_name(s, i, "set"@);
        lemma_ops_word_reg(s, i + 3, word, x);
    }
}

/// The index register: `add I, $x` and `set [I], $x`.
#[verifier::rlimit(40)]
pub(crate) proof fn lemma_read_index(s: Seq<char>, i: int, w: u16, jump_bxnn: bool)
    requires
        followed(s, i, inst_text(w, true, jump_bxnn)),
        op_kind(w) == 0xF,
        op_nn(w) == 0x1E || op_nn(w) == 0x55,
    ensures
        p_instr(s, i) == PRes::<InstrV>::Ok((read_back(w, jump_bxnn), i + inst_text(w, true, jump_bxnn).len())),
        starts_line(inst_text(w, true, jump_bxnn)),
        ident_start(inst_text(w, true, jump_bxnn)[0]),
{
    let t = inst_text(w, true, jump_bxnn);
    let nn = op_nn(w);
    let x = op_x(w) as nat;
    lemma_names();
    lemma_valid_names();
    lemma_texts();
    lemma_operands(s, i + 3);
    let k = i + 3;
    if nn == 0x1E {
        let ops = " "@ + ("I"@ + comma_reg(x));
        assert(t =~= "add"@ + ops);
        lemma_name_ops(s, i, t, "add"@, ops);
        lemma_instr_name(s, i, "add"@);
        lemma_ops_word_reg(s, k, "I"@, x);
        lemma_ws_run(s, k + 1, k + 1);
    } else {
        let ops = " "@ + ("[I]"@ + comma_reg(x));
        assert(t =~= "set"@ + ops);
        lemma_name_ops(s, i, t, "set"@, ops);
        lemma_instr_name(s, i, "set"@);
        lemma_occurs_split(s, k, " "@, "[I]"@ + comma_reg(x));
        lemma_occurs_split(s, k + 1, "[I]"@, comma_reg(x));
        assert(s[k + 0] == ops[0]);
        lemma_mem_i(s, k + 1);
        lemma_ws_run(s, k, k + 1);
        lemma_comma_reg(s, k + 4, x);
    }
}

/// `set I, FONT[$x]`
pub(crate) proof fn lemma_read_font(s: Seq<char>, i: int, w: u16, jump_bxnn: bool)
    requires
        followed(s, i, inst_text(w, true, jump_bxnn)),
        op_kind(w) == 0xF,
        op_nn(w) == 0x29,
    ensures
        p_instr(s, i) == PRes::<InstrV>::Ok((read_back(w, jump_bxnn), i + inst_text(w, true, jump_bxnn).len())),
        starts_line(inst_text(w, true, jump_bxnn)),
        ident_start(inst_text(w, true, jump_bxnn)[0]),
{
    let t = inst_text(w, true, jump_bxnn);
    let x = op_x(w) as nat;
    lemma_names();
    lemma_valid_names();
    lemma_texts();
    lemma_operands(s, i + 3);
    let k = i + 3;
    let d = hex_seq(x, false);
    lemma_hex_seq(x);
    lemma_hex_char(x as int);
    let a = " "@ + ("I"@ + ", "@);
    let b = "[$"@ + (d + "]"@);
    let ops = a + ("FONT"@ + b);
    assert(t =~= "set"@ + ops);
    lemma_name_ops(s, i, t, "set"@, ops);
    lemma_instr_name(s, i, "set"@);
    lemma_occurs_split(s, k, a, "FONT"@ + b);
    lemma_occurs_split(s, k + 4, "FONT"@, b);
    assert(s[k + 0] == a[0]);
    assert(s[k + 1] == a[1]);
    assert(s[k + 2] == a[2]);
    assert(s[k + 3] == a[3]);
    assert(s[k + 8 + 0] == b[0]);
    assert(s[k + 8 + 1] == b[1]);
    assert(s[k + 8 + 2] == b[2]);
    assert(s[k + 8 + 3] == b[3]);
    lemma_ws_run(s, k, k + 1);
    lemma_ident(s, k + 1, "I"@);
    lemma_ws_run(s, k + 2, k + 2);
    lemma_comma(s, k + 2, k + 2);
    lemma_ws_run(s, k + 3, k + 4);
    lemma_ident(s, k + 4, "FONT"@);
    lemma_ws_run(s, k + 8, k + 8);
    lemma_ws_run(s, k + 9, k + 9);
    lemma_register(s, k + 9, k + 9, x);
    lemma_ws_run(s, k + 11, k + 11);
}

/// `.word 0xNNNN`
pub(crate) proof fn lemma_read_word(s: Seq<char>, i: int, w: u16)
    requires
        followed(s, i, word_text(w)),
    ensures
        p_instr(s, i) == PRes::<InstrV>::Ok((InstrV::Word(w), i + word_text(w).len())),
        starts_line(word_text(w)),
{
    let t = word_text(w);
    lemma_names();
    lemma_valid_names();
    lemma_texts();
    lemma_zero_pad_hex(w as nat, 4);
    let d = zero_pad(hex_seq(w as nat, false), 4);
    let ops = " "@ + ("0x"@ + d);
    assert(t =~= "."@ + ("word"@ + ops));
    lemma_occurs_split(s, i, "."@, "word"@ + ops);
    lemma_occurs_split(s, i + 1, "word"@, ops);
    assert(s[i + 0] == "."@[0]);
    assert(s[i + 5 + 0] == ops[0]);
    lemma_ident(s, i + 1, "word"@);
    lemma_ops_hex(s, i + 5, d, w as nat);
    reveal(p_instr);
}

/// The text of a word, as the listing shows it while words are still read as
/// instructions, parses to [`read_back`] of the word.
pub(crate) proof fn lemma_read_text(s: Seq<char>, i: int, w: u16, jump_bxnn: bool)
    requires
        followed(s, i, inst_text(w, true, jump_bxnn)),
    ensures
        p_instr(s, i) == PRes::<InstrV>::Ok((read_back(w, jump_bxnn), i + inst_text(w, true, jump_bxnn).len())),
        starts_line(inst_text(w, true, jump_bxnn)),
        recognized(w) ==> ident_start(inst_text(w, true, jump_bxnn)[0]),
{
    let k = op_kind(w);
    let nn = op_nn(w);
    if !recognized(w) {
        assert(inst_text(w, true, jump_bxnn) == word_text(w));
        lemma_read_word(s, i, w);
    } else if k == 0x0 {
        lemma_read_bare(s, i, w, jump_bxnn);
    } else if k == 0x1 || k == 0x2 || k == 0xB {
        lemma_read_jump(s, i, w, jump_bxnn);
    } else if k == 0xA {
        lemma_read_seti_i(s, i, w, jump_bxnn);
    } else if k == 0x3 || k == 0x4 || k == 0x6 || k == 0x7 || k == 0xC {
        lemma_read_reg_byte(s, i, w, jump_bxnn);
    } else if k == 0x5 || k == 0x8 || k == 0x9 {
        lemma_read_reg_reg(s, i, w, jump_bxnn);
    } else if k == 0xD || k == 0xE || nn == 0x33 {
        lemma_read_sprite_key(s, i, w, jump_bxnn);
    } else if nn == 0x07 || nn == 0x0A || nn == 0x65 || nn == 0x15 || nn == 0x18 {
        lemma_read_timers(s, i, w, jump_bxnn);
    } else if nn == 0x29 {
        lemma_read_font(s, i, w, jump_bxnn);
    } else {
        lemma_read_index(s, i, w, jump_bxnn);
    }
}


// ---------------------------------------------------------------------------
// Lines of a listing

pub(crate) proof fn lemma_comment_run(s: Seq<char>, a: int, b: int)
    requires
        0 <= a <= b < s.len(),
        forall|m: int| a <= m < b ==> #[trigger] s[m] != '\n',
        s[b] == '\n',
    ensures
        comment_end(s, a) == b + 1,
    decreases b - a,
{
    if a < b {
        lemma_comment_run(s, a + 1, b);
    }
}

/// The end of a line: spaces up to the field width, then the address as a
/// comment.
pub open spec fn line_tail(pc: int) -> Seq<char> {
    " # 0x"@ + hex_seq(pc as nat, false) + "\n"@
}

pub(crate) proof fn lemma_line_parts(text: Seq<char>, pc: int)
    ensures
        listing_line(text, pc) == pad_right(text, 30) + line_tail(pc),
        pad_right(text, 30).len() >= text.len(),
        forall|m: int| text.len() <= m < pad_right(text, 30).len() ==> #[trigger] pad_right(text, 30)[m] == ' ',
        forall|m: int| 0 <= m < text.len() ==> #[trigger] pad_right(text, 30)[m] == text[m],
        line_tail(pc).len() >= 6,
        line_tail(pc)[0] == ' ',
        line_tail(pc)[1] == '#',
        forall|m: int| 1 <= m < line_tail(pc).len() - 1 ==> #[trigger] line_tail(pc)[m] != '\n',
        line_tail(pc)[line_tail(pc).len() - 1] == '\n',
{
    reveal_strlit(" # 0x");
    reveal_strlit("\n");
    lemma_hex_seq(pc as nat);
    let h = hex_seq(pc as nat, false);
    let t = line_tail(pc);
    assert(listing_line(text, pc) =~= pad_right(text, 30) + line_tail(pc));
    assert forall|m: int| 1 <= m < t.len() - 1 implies #[trigger] t[m] != '\n' by {
        if m < 5 {
            assert(m == 1 || m == 2 || m == 3 || m == 4);
        } else {
            assert(t[m] == h[m - 5]);
            assert(is_digit_in(h[m - 5], 16));
        }
    }
}

/// A line of a listing whose text reads as the instruction `iv`: the
/// program from the line's start is `iv`, then the program from the next
/// line.
pub(crate) proof fn lemma_read_line(s: Seq<char>, i: int, text: Seq<char>, pc: int, iv: InstrV)
    requires
        occurs_at(s, i, listing_line(text, pc)),
        text.len() >= 1,
        !is_ws(text[0]),
        text[0] != '#',
        p_instr(s, i) == PRes::<InstrV>::Ok((iv, i + text.len())),
    ensures
        p_program(s, i) == match p_program(s, i + listing_line(text, pc).len()) {
            Ok(rest) => Ok(seq![iv] + rest),
            Err(e) => Err(e),
        },
{
    lemma_line_parts(text, pc);
    let p = pad_right(text, 30);
    let t = line_tail(pc);
    let e = i + listing_line(text, pc).len();
    lemma_occurs_split(s, i, p, t);
    let h = i + p.len() + 1;
    assert forall|m: int| i + text.len() <= m < h implies is_ws(#[trigger] s[m]) by {
        if m < i + p.len() {
            assert(s[i + (m - i)] == p[m - i]);
        } else {
            assert(s[i + p.len() + 0] == t[0]);
        }
    }
    assert(s[i + p.len() + 1] == t[1]);
    lemma_ws_run(s, i + text.len(), h);
    assert forall|m: int| h <= m < e - 1 implies #[trigger] s[m] != '\n' by {
        assert(s[i + p.len() + (m - i - p.len())] == t[m - i - p.len()]);
    }
    assert(s[i + p.len() + (t.len() - 1)] == t[t.len() - 1]);
    lemma_comment_run(s, h, e - 1);
    assert(s[i + 0] == p[0]);
    lemma_ws_run(s, i, i);
    assert(p_program(s, i + text.len()) == p_program(s, e));
}


pub(crate) proof fn lemma_line_followed(s: Seq<char>, i: int, text: Seq<char>, pc: int)
    requires
        occurs_at(s, i, listing_line(text, pc)),
    ensures
        followed(s, i, text),
{
    lemma_line_parts(text, pc);
    let p = pad_right(text, 30);
    let t = line_tail(pc);
    lemma_occurs_split(s, i, p, t);
    assert forall|k: int| 0 <= k < text.len() implies s[i + k] == #[trigger] text[k] by {
        assert(s[i + k] == p[k]);
    }
    if text.len() < p.len() {
        assert(s[i + text.len()] == p[text.len() as int]);
    } else {
        assert(s[i + p.len() + 0] == t[0]);
    }
}

// ---------------------------------------------------------------------------
// Whole listings

/// The text of line `k` of the listing of `words`.
pub open spec fn line_text(words: Seq<u16>, k: int) -> Seq<char> {
    if seen_data(words, k) { word_text(words[k]) } else { inst_text(words[k], true, false) }
}

/// The instruction that line `k` of the listing of `words` reads back as.
pub open spec fn line_instr(words: Seq<u16>, k: int) -> InstrV {
    if seen_data(words, k) { InstrV::Word(words[k]) } else { read_back(words[k], false) }
}

/// The program that the listing of `words` reads back as: one instruction
/// per word.
pub open spec fn listed(words: Seq<u16>) -> Seq<InstrV> {
    Seq::new(words.len(), |k: int| line_instr(words, k))
}

pub(crate) proof fn lemma_seen_data_take(words: Seq<u16>, k: int, m: int)
    requires
        0 <= k <= m <= words.len(),
    ensures
        seen_data(words.take(m), k) == seen_data(words, k),
{
    if seen_data(words.take(m), k) {
        let j = choose|j: int| 0 <= j < k && !#[trigger] recognized(words.take(m)[j]);
        assert(words[j] == words.take(m)[j]);
    }
    if seen_data(words, k) {
        let j = choose|j: int| 0 <= j < k && !#[trigger] recognized(words[j]);
        assert(words[j] == words.take(m)[j]);
    }
}

pub(crate) proof fn lemma_listing_step(words: Seq<u16>, k: int)
    requires
        0 <= k < words.len(),
    ensures
        listing(words.take(k + 1)) == listing(words.take(k)) + listing_line(line_text(words, k), 0x200 + 2 * k),
{
    let w = words.take(k + 1);
    assert(w.drop_last() =~= words.take(k));
    lemma_seen_data_take(words, k, k + 1);
}

pub(crate) proof fn lemma_listing_prefix(words: Seq<u16>, k: int)
    requires
        0 <= k <= words.len(),
    ensures
        occurs_at(listing(words), 0, listing(words.take(k))),
    decreases words.len() - k,
{
    if k == words.len() {
        assert(words.take(k) =~= words);
    } else {
        lemma_listing_prefix(words, k + 1);
        lemma_listing_step(words, k);
        lemma_occurs_split(listing(words), 0, listing(words.take(k)), listing_line(line_text(words, k), 0x200 + 2 * k));
    }
}

/// The listing of `words`, read from the start of line `k`, gives the
/// instructions of lines `k` onwards.
pub(crate) proof fn lemma_parse_from(words: Seq<u16>, k: int)
    requires
        0 <= k <= words.len(),
    ensures
        p_program(listing(words), listing(words.take(k)).len() as int)
            == Ok::<Seq<InstrV>, (int, crate::parser::ErrorKind)>(listed(words).subrange(k, words.len() as int)),
    decreases words.len() - k,
{
    let s = listing(words);
    if k == words.len() {
        assert(words.take(k) =~= words);
        lemma_ws_run(s, s.len() as int, s.len() as int);
        assert(listed(words).subrange(k, words.len() as int) =~= Seq::<InstrV>::empty());
    } else {
        let i = listing(words.take(k)).len() as int;
        let text = line_text(words, k);
        let pc = 0x200 + 2 * k;
        lemma_parse_from(words, k + 1);
        lemma_listing_prefix(words, k + 1);
        lemma_listing_step(words, k);
        lemma_occurs_split(s, 0, listing(words.take(k)), listing_line(text, pc));
        lemma_line_followed(s, i, text, pc);
        if seen_data(words, k) {
            lemma_read_word(s, i, words[k]);
        } else {
            lemma_read_text(s, i, words[k], false);
        }
        lemma_read_line(s, i, text, pc, line_instr(words, k));
        assert(seq![line_instr(words, k)] + listed(words).subrange(k + 1, words.len() as int)
            =~= listed(words).subrange(k, words.len() as int));
    }
}


/// A program without labels and without references to labels has no label
/// errors.
pub(crate) proof fn lemma_no_label_errors(v: Seq<InstrV>)
    requires
        forall|k: int| 0 <= k < v.len() ==> !(#[trigger] v[k] is Label) && label_ref(v[k]) is None,
    ensures
        duplicate_errors(v) == Seq::<Seq<char>>::empty(),
        referenced(v) == Seq::<Seq<char>>::empty(),
        label_errors(v).len() == 0,
    decreases v.len(),
{
    if v.len() > 0 {
        let d = v.drop_last();
        assert forall|k: int| 0 <= k < d.len() implies !(#[trigger] d[k] is Label) && label_ref(d[k]) is None by {
            assert(d[k] == v[k]);
        }
        lemma_no_label_errors(d);
        assert(v.last() == v[v.len() - 1]);
    }
    assert(label_errors(v) =~= duplicate_errors(v) + undefined_errors(referenced(v), label_table(v)));
}

pub(crate) proof fn lemma_listed_bytes(rom: Seq<u8>, k: int, labels: Map<Seq<char>, u16>)
    requires
        rom.len() % 2 == 0,
        0 <= k <= rom.len() / 2,
        forall|j: int| 0 <= j < rom.len() / 2 && lossy(#[trigger] rom_words(rom)[j]) ==> seen_data(rom_words(rom), j),
    ensures
        program_bytes(listed(rom_words(rom)).take(k), labels) == rom.take(2 * k),
    decreases k,
{
    let ws = rom_words(rom);
    let v = listed(ws);
    if k == 0 {
        assert(v.take(0) =~= Seq::<InstrV>::empty());
        assert(rom.take(0) =~= Seq::<u8>::empty());
    } else {
        let j = k - 1;
        lemma_listed_bytes(rom, j, labels);
        assert(v.take(k).drop_last() =~= v.take(j));
        assert(v.take(k).last() == line_instr(ws, j));
        let w = ws[j];
        let a = rom[2 * j];
        let b = rom[2 * j + 1];
        assert(w == (a as int * 256 + b as int) as u16);
        assert(a as int * 256 + b as int <= 0xFFFF);
        assert((a as int * 256 + b as int) / 256 == a as int && (a as int * 256 + b as int) % 256 == b as int)
            by (nonlinear_arith)
            requires
                0 <= a < 256,
                0 <= b < 256,
        ;
        assert(be_bytes(w) =~= seq![a, b]);
        if !seen_data(ws, j) {
            lemma_read_back_encodes(w, false, labels);
        }
        assert(rom.take(2 * k) =~= rom.take(2 * j) + seq![a, b]);
    }
}

/// Disassembling a ROM and assembling the listing gives back the ROM: the
/// listing parses to one instruction per word, has no label errors, and
/// encodes to the ROM's bytes. A word `5XYN` or `9XYN` with `N` other than
/// `0`, shown as an instruction, is the exception: its text keeps no `N`.
pub proof fn lemma_disassembly_reassembles(rom: Seq<u8>)
    requires
        rom.len() % 2 == 0,
        forall|k: int| 0 <= k < rom.len() / 2 && lossy(#[trigger] rom_words(rom)[k]) ==> seen_data(rom_words(rom), k),
    ensures
        parse_program(listing(rom_words(rom))) == Ok::<Seq<InstrV>, (int, crate::parser::ErrorKind)>(
            listed(rom_words(rom)),
        ),
        label_errors(listed(rom_words(rom))).len() == 0,
        program_bytes(listed(rom_words(rom)), label_table(listed(rom_words(rom)))) == rom,
{
    let ws = rom_words(rom);
    let v = listed(ws);
    assert(ws.take(0) =~= Seq::<u16>::empty());
    lemma_parse_from(ws, 0);
    assert(v.subrange(0, ws.len() as int) =~= v);
    assert forall|k: int| 0 <= k < v.len() implies !(#[trigger] v[k] is Label) && label_ref(v[k]) is None by {
        assert(v[k] == line_instr(ws, k));
    }
    lemma_no_label_errors(v);
    lemma_listed_bytes(rom, (rom.len() / 2) as int, label_table(v));
    assert(v.take((rom.len() / 2) as int) =~= v);
    assert(rom.take(rom.len() as int) =~= rom);
}


/// Whether `w` is a shift `8XY6` or `8XYE`.
pub open spec fn is_shift(w: u16) -> bool {
    op_kind(w) == 0x8 && (op_n(w) == 0x6 || op_n(w) == 0xE)
}

/// The instruction that the disassembler's text for `w` parses to, when it
/// is written on a line of its own with the given readings of shifts and
/// of `BNNN`: without `shift_y` a shift shows one register, which reads as
/// shifting into it from `V0`.
pub open spec fn read_back_with(w: u16, shift_y: bool, jump_bxnn: bool) -> InstrV {
    if !shift_y && is_shift(w) {
        if op_n(w) == 0x6 {
            InstrV::Srlf(op_x(w) as u8, 0)
        } else {
            InstrV::Sllf(op_x(w) as u8, 0)
        }
    } else {
        read_back(w, jump_bxnn)
    }
}

/// A one-register shift, alone or followed by a newline.
pub(crate) proof fn lemma_single_shift(w: u16, jump_bxnn: bool, s: Seq<char>)
    requires
        is_shift(w),
        s == inst_text(w, false, jump_bxnn) || s == inst_text(w, false, jump_bxnn) + "\n"@,
    ensures
        parse_program(s) == Ok::<Seq<InstrV>, (int, crate::parser::ErrorKind)>(seq![read_back_with(w, false, jump_bxnn)]),
{
    reveal_strlit("\n");
    lemma_valid_names();
    lemma_texts();
    let t = inst_text(w, false, jump_bxnn);
    let x = op_x(w) as nat;
    let iv = read_back_with(w, false, jump_bxnn);
    let name = if op_n(w) == 0x6 { "srlf"@ } else { "sllf"@ };
    assert(t =~= name + sp_reg(x));
    assert forall|k: int| 0 <= k < t.len() implies s[0 + k] == #[trigger] t[k] by {
        assert(s[k] == t[k]);
    }
    assert(t.len() == 7);
    if s.len() > 7 {
        assert(s[7] == '\n');
    }
    lemma_name_ops(s, 0, t, name, sp_reg(x));
    lemma_instr_name(s, 0, name);
    lemma_sp_reg(s, 4, x);
    lemma_operands(s, 4);
    lemma_ws_run(s, 7, s.len() as int);
    lemma_ws_run(s, s.len() as int, s.len() as int);
    assert(s[0] == t[0]);
    lemma_ws_run(s, 0, 0);
    assert(p_instr(s, 0) == PRes::<InstrV>::Ok((iv, s.len() as int)));
    assert(p_program(s, s.len() as int) == Ok::<Seq<InstrV>, (int, crate::parser::ErrorKind)>(Seq::empty()));
    assert(seq![iv] + Seq::<InstrV>::empty() =~= seq![iv]);
}

/// The text of a word, alone or followed by a newline, parses to the one
/// instruction [`read_back_with`] gives.
pub(crate) proof fn lemma_line_alone(w: u16, shift_y: bool, jump_bxnn: bool, s: Seq<char>)
    requires
        s == inst_text(w, shift_y, jump_bxnn) || s == inst_text(w, shift_y, jump_bxnn) + "\n"@,
    ensures
        parse_program(s) == Ok::<Seq<InstrV>, (int, crate::parser::ErrorKind)>(seq![read_back_with(w, shift_y, jump_bxnn)]),
{
    let iv = read_back_with(w, shift_y, jump_bxnn);
    if !shift_y && is_shift(w) {
        lemma_single_shift(w, jump_bxnn, s);
    } else {
        reveal_strlit("\n");
        assert(inst_text(w, shift_y, jump_bxnn) == inst_text(w, true, jump_bxnn));
        let t = inst_text(w, true, jump_bxnn);
        assert forall|k: int| 0 <= k < t.len() implies s[0 + k] == #[trigger] t[k] by {
            assert(s[k] == t[k]);
        }
        if s.len() > t.len() {
            assert(s[t.len() as int] == '\n');
        }
        lemma_read_text(s, 0, w, jump_bxnn);
        assert(s[0] == t[0]);
        lemma_ws_run(s, 0, 0);
        lemma_ws_run(s, t.len() as int, s.len() as int);
        assert(p_program(s, t.len() as int) == Ok::<Seq<InstrV>, (int, crate::parser::ErrorKind)>(Seq::empty()));
        assert(seq![iv] + Seq::<InstrV>::empty() =~= seq![iv]);
    }
}

/// The text that the disassembler writes for a word, alone or on a line of
/// its own, parses to one instruction that encodes to that word again, unless
/// the text lost part of the word: `5XYN`/`9XYN` with `N` other than `0`,
/// and, without `shift_y`, a shift whose `Y` is not `0`.
pub proof fn lemma_text_reassembles(w: u16, shift_y: bool, jump_bxnn: bool, labels: Map<Seq<char>, u16>)
    requires
        !lossy(w),
        !shift_y && is_shift(w) ==> op_y(w) == 0,
    ensures
        parse_program(inst_text(w, shift_y, jump_bxnn)) == Ok::<Seq<InstrV>, (int, crate::parser::ErrorKind)>(
            seq![read_back_with(w, shift_y, jump_bxnn)],
        ),
        parse_program(inst_text(w, shift_y, jump_bxnn) + "\n"@) == Ok::<Seq<InstrV>, (int, crate::parser::ErrorKind)>(
            seq![read_back_with(w, shift_y, jump_bxnn)],
        ),
        program_bytes(seq![read_back_with(w, shift_y, jump_bxnn)], labels) == be_bytes(w),
{
    let iv = read_back_with(w, shift_y, jump_bxnn);
    let t = inst_text(w, shift_y, jump_bxnn);
    lemma_line_alone(w, shift_y, jump_bxnn, t);
    lemma_line_alone(w, shift_y, jump_bxnn, t + "\n"@);
    if !shift_y && is_shift(w) {
        let x = op_x(w) as u8;
        if op_n(w) == 0x6 {
            lemma_bv_xy(w, 0x8006, x, 0);
        } else {
            lemma_bv_xy(w, 0x800E, x, 0);
        }
    } else {
        lemma_read_back_encodes(w, jump_bxnn, labels);
    }
    assert(seq![iv].drop_last() =~= Seq::<InstrV>::empty());
    assert(seq![iv].last() == iv);
    assert(program_bytes(Seq::<InstrV>::empty(), labels) == Seq::<u8>::empty());
    assert(program_bytes(seq![iv], labels) =~= instr_bytes(iv, labels));
}

// ---------------------------------------------------------------------------
// From an instruction to its text and back

/// Whether `i` is an instruction of its own word that the disassembler can
/// show: not a directive or label, registers and `N` within 0-F, and
/// addresses (also `jri0`'s) given as numbers within 12 bits.
pub open spec fn encodable(i: InstrV) -> bool {
    match i {
        InstrV::Cls => true,
        InstrV::Ret => true,
        InstrV::J(AddrV::Val(a)) => a <= 0xFFF,
        InstrV::Call(AddrV::Val(a)) => a <= 0xFFF,
        InstrV::SetAddrI(AddrV::Val(a)) => a <= 0xFFF,
        InstrV::Jri0(o) => o <= 0xFFF,
        InstrV::Jri(x, _) => x < 16,
        InstrV::Seqi(x, _) => x < 16,
        InstrV::Snei(x, _) => x < 16,
        InstrV::Seti(x, _) => x < 16,
        InstrV::Addi(x, _) => x < 16,
        InstrV::Rand(x, _) => x < 16,
        InstrV::SeqReg(x, y) => x < 16 && y < 16,
        InstrV::Sne(x, y) => x < 16 && y < 16,
        InstrV::SetReg(x, y) => x < 16 && y < 16,
        InstrV::Or(x, y) => x < 16 && y < 16,
        InstrV::And(x, y) => x < 16 && y < 16,
        InstrV::Xor(x, y) => x < 16 && y < 16,
        InstrV::Add(x, y) => x < 16 && y < 16,
        InstrV::Subf(x, y) => x < 16 && y < 16,
        InstrV::Srlf(x, y) => x < 16 && y < 16,
        InstrV::Subnf(x, y) => x < 16 && y < 16,
        InstrV::Sllf(x, y) => x < 16 && y < 16,
        InstrV::Sprite(x, y, n) => x < 16 && y < 16 && n < 16,
        InstrV::Sk(x) => x < 16,
        InstrV::Snk(x) => x < 16,
        InstrV::AddMemI(x) => x < 16,
        InstrV::Bcd(x) => x < 16,
        InstrV::GetDelay(x) => x < 16,
        InstrV::GetKey(x) => x < 16,
        InstrV::SetDelay(x) => x < 16,
        InstrV::SetSound(x) => x < 16,
        InstrV::SetFont(x) => x < 16,
        InstrV::SetMemI(x) => x < 16,
        InstrV::GetMemI(x) => x < 16,
        _ => false,
    }
}

pub(crate) proof fn lemma_bv_dec_nnn(c: u16, a: u16)
    requires
        c % 4096 == 0u16,
        a < 4096,
    ensures
        (c | a) / 4096 == c / 4096,
        (c | a) % 4096 == a,
{
    assert((c | a) / 4096 == c / 4096 && (c | a) % 4096 == a) by (bit_vector)
        requires
            c % 4096 == 0u16,
            a < 4096,
    ;
}

pub(crate) proof fn lemma_bv_dec_xb(c: u16, x: u8, b: u8)
    requires
        c % 4096 == 0u16,
        x < 16,
    ensures
        (c | ((x as u16) << 8u16) | (b as u16)) / 4096 == c / 4096,
        ((c | ((x as u16) << 8u16) | (b as u16)) / 256) % 16 == x as u16,
        (c | ((x as u16) << 8u16) | (b as u16)) % 256 == b as u16,
{
    assert((c | ((x as u16) << 8u16) | (b as u16)) / 4096 == c / 4096
        && ((c | ((x as u16) << 8u16) | (b as u16)) / 256) % 16 == x as u16
        && (c | ((x as u16) << 8u16) | (b as u16)) % 256 == b as u16) by (bit_vector)
        requires
            c % 4096 == 0u16,
            x < 16,
    ;
}

pub(crate) proof fn lemma_bv_dec_xy(c: u16, x: u8, y: u8)
    requires
        (c / 16) % 256 == 0u16,
        x < 16,
        y < 16,
    ensures
        (c | ((x as u16) << 8u16) | ((y as u16) << 4u16)) / 4096 == c / 4096,
        ((c | ((x as u16) << 8u16) | ((y as u16) << 4u16)) / 256) % 16 == x as u16,
        ((c | ((x as u16) << 8u16) | ((y as u16) << 4u16)) / 16) % 16 == y as u16,
        (c | ((x as u16) << 8u16) | ((y as u16) << 4u16)) % 16 == c % 16,
{
    assert((c | ((x as u16) << 8u16) | ((y as u16) << 4u16)) / 4096 == c / 4096
        && ((c | ((x as u16) << 8u16) | ((y as u16) << 4u16)) / 256) % 16 == x as u16
        && ((c | ((x as u16) << 8u16) | ((y as u16) << 4u16)) / 16) % 16 == y as u16
        && (c | ((x as u16) << 8u16) | ((y as u16) << 4u16)) % 16 == c % 16) by (bit_vector)
        requires
            (c / 16) % 256 == 0u16,
            x < 16,
            y < 16,
    ;
}

pub(crate) proof fn lemma_bv_dec_x(c: u16, x: u8)
    requires
        (c / 256) % 16 == 0u16,
        x < 16,
    ensures
        (c | ((x as u16) << 8u16)) / 4096 == c / 4096,
        ((c | ((x as u16) << 8u16)) / 256) % 16 == x as u16,
        (c | ((x as u16) << 8u16)) % 256 == c % 256,
{
    assert((c | ((x as u16) << 8u16)) / 4096 == c / 4096
        && ((c | ((x as u16) << 8u16)) / 256) % 16 == x as u16
        && (c | ((x as u16) << 8u16)) % 256 == c % 256) by (bit_vector)
        requires
            (c / 256) % 16 == 0u16,
            x < 16,
    ;
}

pub(crate) proof fn lemma_bv_dec_xyn(c: u16, x: u8, y: u8, n: u8)
    requires
        c % 4096 == 0u16,
        x < 16,
        y < 16,
        n < 16,
    ensures
        (c | ((x as u16) << 8u16) | ((y as u16) << 4u16) | (n as u16)) / 4096 == c / 4096,
        ((c | ((x as u16) << 8u16) | ((y as u16) << 4u16) | (n as u16)) / 256) % 16 == x as u16,
        ((c | ((x as u16) << 8u16) | ((y as u16) << 4u16) | (n as u16)) / 16) % 16 == y as u16,
        (c | ((x as u16) << 8u16) | ((y as u16) << 4u16) | (n as u16)) % 16 == n as u16,
{
    assert((c | ((x as u16) << 8u16) | ((y as u16) << 4u16) | (n as u16)) / 4096 == c / 4096
        && ((c | ((x as u16) << 8u16) | ((y as u16) << 4u16) | (n as u16)) / 256) % 16 == x as u16
        && ((c | ((x as u16) << 8u16) | ((y as u16) << 4u16) | (n as u16)) / 16) % 16 == y as u16
        && (c | ((x as u16) << 8u16) | ((y as u16) << 4u16) | (n as u16)) % 16 == n as u16) by (bit_vector)
        requires
            c % 4096 == 0u16,
            x < 16,
            y < 16,
            n < 16,
    ;
}

/// The word that an instruction encodes to reads back as the instruction.
pub(crate) proof fn lemma_decode(i: InstrV, labels: Map<Seq<char>, u16>)
    requires
        encodable(i),
    ensures
        read_back(instr_word(i, labels), i is Jri) == i,
        !lossy(instr_word(i, labels)),
{
    match i {
        InstrV::Cls => {},
        InstrV::Ret => {},
        InstrV::J(AddrV::Val(a)) => {
            lemma_bv_dec_nnn(0x1000, a);
        },
        InstrV::Call(AddrV::Val(a)) => {
            lemma_bv_dec_nnn(0x2000, a);
        },
        InstrV::SetAddrI(AddrV::Val(a)) => {
            lemma_bv_dec_nnn(0xA000, a);
        },
        InstrV::Jri0(o) => {
            lemma_bv_dec_nnn(0xB000, o);
        },
        InstrV::Jri(x, b) => {
            lemma_bv_dec_xb(0xB000, x, b);
        },
        InstrV::Seqi(x, b) => {
            lemma_bv_dec_xb(0x3000, x, b);
        },
        InstrV::Snei(x, b) => {
            lemma_bv_dec_xb(0x4000, x, b);
        },
        InstrV::Seti(x, b) => {
            lemma_bv_dec_xb(0x6000, x, b);
        },
        InstrV::Addi(x, b) => {
            lemma_bv_dec_xb(0x7000, x, b);
        },
        InstrV::Rand(x, b) => {
            lemma_bv_dec_xb(0xC000, x, b);
        },
        InstrV::SeqReg(x, y) => {
            lemma_bv_dec_xy(0x5000, x, y);
        },
        InstrV::Sne(x, y) => {
            lemma_bv_dec_xy(0x9000, x, y);
        },
        InstrV::SetReg(x, y) => {
            lemma_bv_dec_xy(0x8000, x, y);
        },
        InstrV::Or(x, y) => {
            lemma_bv_dec_xy(0x8001, x, y);
        },
        InstrV::And(x, y) => {
            lemma_bv_dec_xy(0x8002, x, y);
        },
        InstrV::Xor(x, y) => {
            lemma_bv_dec_xy(0x8003, x, y);
        },
        InstrV::Add(x, y) => {
            lemma_bv_dec_xy(0x8004, x, y);
        },
        InstrV::Subf(x, y) => {
            lemma_bv_dec_xy(0x8005, x, y);
        },
        InstrV::Srlf(x, y) => {
            lemma_bv_dec_xy(0x8006, x, y);
        },
        InstrV::Subnf(x, y) => {
            lemma_bv_dec_xy(0x8007, x, y);
        },
        InstrV::Sllf(x, y) => {
            lemma_bv_dec_xy(0x800E, x, y);
        },
        InstrV::Sprite(x, y, n) => {
            lemma_bv_dec_xyn(0xD000, x, y, n);
        },
        InstrV::Sk(x) => {
            lemma_bv_dec_x(0xE09E, x);
        },
        InstrV::Snk(x) => {
            lemma_bv_dec_x(0xE0A1, x);
        },
        InstrV::AddMemI(x) => {
            lemma_bv_dec_x(0xF01E, x);
        },
        InstrV::Bcd(x) => {
            lemma_bv_dec_x(0xF033, x);
        },
        InstrV::GetDelay(x) => {
            lemma_bv_dec_x(0xF007, x);
        },
        InstrV::GetKey(x) => {
            lemma_bv_dec_x(0xF00A, x);
        },
        InstrV::SetDelay(x) => {
            lemma_bv_dec_x(0xF015, x);
        },
        InstrV::SetSound(x) => {
            lemma_bv_dec_x(0xF018, x);
        },
        InstrV::SetFont(x) => {
            lemma_bv_dec_x(0xF029, x);
        },
        InstrV::SetMemI(x) => {
            lemma_bv_dec_x(0xF055, x);
        },
        InstrV::GetMemI(x) => {
            lemma_bv_dec_x(0xF065, x);
        },
        _ => {},
    }
}

/// Assembling an instruction, disassembling its word (with `shift_y` set,
/// and reading `BNNN` as `jri` for a `jri`) and parsing the text gives the
/// instruction back.
pub proof fn lemma_instr_reads_back(i: InstrV, labels: Map<Seq<char>, u16>)
    requires
        encodable(i),
    ensures
        parse_program(inst_text(instr_word(i, labels), true, i is Jri))
            == Ok::<Seq<InstrV>, (int, crate::parser::ErrorKind)>(seq![i]),
{
    lemma_decode(i, labels);
    lemma_text_reassembles(instr_word(i, labels), true, i is Jri, labels);
}

/// A word is shown as data (`.word`) exactly when the emulator rejects it as
/// an unknown opcode, whatever the machine; the text of every other word
/// starts with a letter, where `.word` starts with `.`.
pub proof fn lemma_data_iff_unknown(w: u16, shift_y: bool, jump_bxnn: bool, m: Machine)
    ensures
        !recognized(w) ==> inst_text(w, shift_y, jump_bxnn) == word_text(w),
        recognized(w) ==> ident_start(inst_text(w, shift_y, jump_bxnn)[0]),
        word_text(w)[0] == '.',
        !recognized(w) <==> op_fault(m, w) == Some(Fault::UnknownOpcode { opcode: w, pc: m.pc }),
{
    lemma_texts();
    assert(word_text(w)[0] == ".word 0x"@[0]);
    if recognized(w) {
        if !shift_y && is_shift(w) {
            lemma_valid_names();
            let name = if op_n(w) == 0x6 { "srlf"@ } else { "sllf"@ };
            assert(inst_text(w, shift_y, jump_bxnn) =~= name + sp_reg(op_x(w) as nat));
            assert(inst_text(w, shift_y, jump_bxnn)[0] == name[0]);
        } else {
            reveal_strlit(" ");
            let t = inst_text(w, true, jump_bxnn);
            assert(inst_text(w, shift_y, jump_bxnn) == t);
            let s = t + " "@;
            assert forall|k: int| 0 <= k < t.len() implies s[0 + k] == #[trigger] t[k] by {
                assert(s[k] == t[k]);
            }
            assert(s[t.len() as int] == ' ');
            lemma_read_text(s, 0, w, jump_bxnn);
        }
    }
}

} // verus!
