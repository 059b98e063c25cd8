//! The assembler's parser: assembly text to a list of [`Instr`].
//!
//! Registers are written `$x` (also `Vx`) with a hexadecimal digit `x`;
//! numbers in decimal, or with a `0x` or `0b` prefix; `#` starts a comment
//! that runs to the end of the line. Error positions are byte offsets into
//! the source text.

use vstd::prelude::*;
use vstd::utf8::*;
use vstd::string::StringSliceAdditionalSpecFns;
use crate::instr::{Addr, AddrV, Instr, InstrV, instrs_view};
use crate::text::{hex_seq, push_char, push_hex};

verus! {

// ---------------------------------------------------------------------------
// Characters

/// The characters with the Unicode `White_Space` property.
pub open spec fn is_ws(c: char) -> bool {
    let u = c as u32;
    ||| 0x09 <= u <= 0x0D
    ||| u == 0x20
    ||| u == 0x85
    ||| u == 0xA0
    ||| u == 0x1680
    ||| 0x2000 <= u <= 0x200A
    ||| u == 0x2028
    ||| u == 0x2029
    ||| u == 0x202F
    ||| u == 0x205F
    ||| u == 0x3000
}

pub open spec fn is_alpha(c: char) -> bool {
    ('a' as u32 <= c as u32 <= 'z' as u32) || ('A' as u32 <= c as u32 <= 'Z' as u32)
}

pub open spec fn is_num(c: char) -> bool {
    '0' as u32 <= c as u32 <= '9' as u32
}

pub open spec fn ident_start(c: char) -> bool {
    is_alpha(c) || c == '_'
}

pub open spec fn ident_continue(c: char) -> bool {
    is_alpha(c) || is_num(c) || c == '_'
}

/// Whether `c` is a digit in base `base` (2, 10 or 16; letters in either case).
pub open spec fn is_digit_in(c: char, base: nat) -> bool {
    if base == 2 {
        c == '0' || c == '1'
    } else if base == 16 {
        is_num(c) || ('a' as u32 <= c as u32 <= 'f' as u32) || ('A' as u32 <= c as u32 <= 'F' as u32)
    } else {
        is_num(c)
    }
}

/// The value of a digit character.
pub open spec fn digit_value(c: char) -> nat {
    if is_num(c) {
        (c as u32 - '0' as u32) as nat
    } else if 'a' as u32 <= c as u32 <= 'f' as u32 {
        (c as u32 - 'a' as u32 + 10) as nat
    } else {
        (c as u32 - 'A' as u32 + 10) as nat
    }
}

/// The number that a string of digits denotes in base `base`.
pub open spec fn digits_value(d: Seq<char>, base: nat) -> nat
    decreases d.len(),
{
    if d.len() == 0 {
        0
    } else {
        digits_value(d.drop_last(), base) * base + digit_value(d.last())
    }
}

/// The byte offset of character index `n` in the UTF-8 encoding of `s`.
pub open spec fn byte_offset(s: Seq<char>, n: int) -> int {
    encode_utf8(s.take(n)).len() as int
}

fn is_whitespace(c: char) -> (r: bool)
    ensures
        r == is_ws(c),
{
    let u = c as u32;
    (0x09 <= u && u <= 0x0D) || u == 0x20 || u == 0x85 || u == 0xA0 || u == 0x1680
        || (0x2000 <= u && u <= 0x200A) || u == 0x2028 || u == 0x2029 || u == 0x202F
        || u == 0x205F || u == 0x3000
}

fn is_ascii_alphabetic(c: char) -> (r: bool)
    ensures
        r == is_alpha(c),
{
    ('a' <= c && c <= 'z') || ('A' <= c && c <= 'Z')
}

fn is_ascii_digit(c: char) -> (r: bool)
    ensures
        r == is_num(c),
{
    '0' <= c && c <= '9'
}

fn is_ident_start(c: char) -> (r: bool)
    ensures
        r == ident_start(c),
{
    is_ascii_alphabetic(c) || c == '_'
}

fn is_ident_continue(c: char) -> (r: bool)
    ensures
        r == ident_continue(c),
{
    is_ascii_alphabetic(c) || is_ascii_digit(c) || c == '_'
}

fn is_digit(c: char, base: u32) -> (r: bool)
    requires
        base == 2 || base == 10 || base == 16,
    ensures
        r == is_digit_in(c, base as nat),
{
    if base == 2 {
        c == '0' || c == '1'
    } else if base == 16 {
        is_ascii_digit(c) || ('a' <= c && c <= 'f') || ('A' <= c && c <= 'F')
    } else {
        is_ascii_digit(c)
    }
}

fn to_digit(c: char) -> (d: u32)
    requires
        is_digit_in(c, 16),
    ensures
        d == digit_value(c),
        d < 16,
{
    let u = c as u32;
    if '0' <= c && c <= '9' {
        u - 48
    } else if 'a' <= c && c <= 'f' {
        u - 97 + 10
    } else {
        u - 65 + 10
    }
}

/// The length of the UTF-8 encoding of `c`.
fn len_utf8(c: char) -> (n: usize)
    ensures
        n == encode_scalar(c as u32).len(),
{
    proof { broadcast use char_is_scalar; }
    let u = c as u32;
    if u <= 0x7F {
        1
    } else if u <= 0x7FF {
        2
    } else if u <= 0xFFFF {
        3
    } else {
        4
    }
}

proof fn lemma_encode_push(a: Seq<char>, c: char)
    ensures
        encode_utf8(a.push(c)) == encode_utf8(a) + encode_scalar(c as u32),
    decreases a.len(),
{
    if a.len() == 0 {
        let ap = a.push(c);
        assert(ap.drop_first() =~= Seq::<char>::empty());
        assert(ap[0] == c);
        assert(encode_utf8(ap.drop_first()) =~= Seq::<u8>::empty());
        assert(encode_utf8(a) =~= Seq::<u8>::empty());
        assert(encode_utf8(ap) == encode_scalar(c as u32) + encode_utf8(ap.drop_first()));
        assert(encode_utf8(ap) =~= encode_utf8(a) + encode_scalar(c as u32));
    } else {
        let ap = a.push(c);
        assert(ap.drop_first() =~= a.drop_first().push(c));
        assert(ap[0] == a[0]);
        lemma_encode_push(a.drop_first(), c);
        assert(encode_utf8(ap) == encode_scalar(a[0] as u32) + encode_utf8(ap.drop_first()));
        assert(encode_utf8(a) == encode_scalar(a[0] as u32) + encode_utf8(a.drop_first()));
        assert(encode_utf8(ap) =~= encode_utf8(a) + encode_scalar(c as u32));
    }
}

proof fn lemma_byte_offset_step(s: Seq<char>, n: int)
    requires
        0 <= n < s.len(),
    ensures
        byte_offset(s, n + 1) == byte_offset(s, n) + encode_scalar(s[n] as u32).len(),
{
    assert(s.take(n + 1) =~= s.take(n).push(s[n]));
    lemma_encode_push(s.take(n), s[n]);
}

proof fn lemma_byte_offset_mono(s: Seq<char>, n: int, m: int)
    requires
        0 <= n <= m <= s.len(),
    ensures
        byte_offset(s, n) <= byte_offset(s, m),
    decreases m - n,
{
    if n < m {
        lemma_byte_offset_step(s, m - 1);
        lemma_byte_offset_mono(s, n, m - 1);
    }
}

// ---------------------------------------------------------------------------
// Errors

/// What went wrong, for the message of a [`ParseError`].
pub ghost enum ErrorKind {
    UnknownDirective(Seq<char>),
    UnknownInstruction(Seq<char>),
    ExpectedDelayOrKey(Seq<char>),
    ExpectedDelayOrSound(Seq<char>),
    ExpectedRegister,
    ExpectedHexDigit(char),
    ExpectedAddress,
    ExpectedDigits,
    NumberTooLarge,
    ByteTooLarge(u16),
    NibbleTooLarge(u16),
    AddressTooLarge(u16),
    ExpectedCharEof(char),
    ExpectedChar(char, char),
    ExpectedWord(Seq<char>, Seq<char>),
    ExpectedIdent,
    ExpectedIdentGot(char),
}

/// `0x` and the number in upper-case hexadecimal.
pub open spec fn alt_hex(n: u16) -> Seq<char> {
    "0x"@ + hex_seq(n as nat, true)
}

/// The message of each kind of error.
pub open spec fn message(kind: ErrorKind) -> Seq<char> {
    match kind {
        ErrorKind::UnknownDirective(d) => "Unknown directive "@ + d,
        ErrorKind::UnknownInstruction(i) => "unknown instruction `"@ + i + "`"@,
        ErrorKind::ExpectedDelayOrKey(p) => "Expected either DELAY or KEY but got "@ + p,
        ErrorKind::ExpectedDelayOrSound(p) => "Expected either DELAY or SOUND but got "@ + p,
        ErrorKind::ExpectedRegister => "Expected register"@,
        ErrorKind::ExpectedHexDigit(c) => "Expected hex digit after `$`, got `"@ + seq![c] + "`"@,
        ErrorKind::ExpectedAddress => "Expected address, but got EOF"@,
        ErrorKind::ExpectedDigits => "expected digits"@,
        ErrorKind::NumberTooLarge => "Number does not fit in u16"@,
        ErrorKind::ByteTooLarge(n) => "Value "@ + alt_hex(n) + " does not fit in a byte"@,
        ErrorKind::NibbleTooLarge(n) => "Value "@ + alt_hex(n) + " does not fit in a nibble"@,
        ErrorKind::AddressTooLarge(n) => "Address "@ + alt_hex(n) + " does not fit in 12 bits"@,
        ErrorKind::ExpectedCharEof(c) => "expected `"@ + seq![c] + "`, got EOF"@,
        ErrorKind::ExpectedChar(c, p) => "expected `"@ + seq![c] + "`, got `"@ + seq![p] + "`"@,
        ErrorKind::ExpectedWord(x, p) => "Expected "@ + x + " but got "@ + p,
        ErrorKind::ExpectedIdent => "expected identifier"@,
        ErrorKind::ExpectedIdentGot(c) => "expected identifier, got `"@ + seq![c] + "`"@,
    }
}

/// A parse failure: a byte offset into the source and a message.
#[derive(Debug, PartialEq)]
pub struct ParseError {
    pub pos: usize,
    pub message: String,
}

/// Whether `e` reports `kind` at character index `at` of `s`.
pub open spec fn error_is(e: ParseError, s: Seq<char>, at: int, kind: ErrorKind) -> bool {
    e.pos == byte_offset(s, at) && e.message@ == message(kind)
}

/// The outcome of parsing something from character index `i`: the value and
/// the index after it, or the index and kind of the error.
pub type PRes<T> = Result<(T, int), (int, ErrorKind)>;

/// Whether an executable parse result `r`, with the parser left at `after`,
/// agrees with the specified outcome `sp` on `s`.
pub open spec fn agrees<T>(r: Result<T, ParseError>, sp: PRes<T>, s: Seq<char>, after: int) -> bool {
    match (r, sp) {
        (Ok(v), Ok((w, k))) => v == w && after == k,
        (Err(e), Err((p, kind))) => error_is(e, s, p, kind),
        _ => false,
    }
}

pub open spec fn agrees_str(r: Result<String, ParseError>, sp: PRes<Seq<char>>, s: Seq<char>, after: int) -> bool {
    match (r, sp) {
        (Ok(v), Ok((w, k))) => v@ == w && after == k,
        (Err(e), Err((p, kind))) => error_is(e, s, p, kind),
        _ => false,
    }
}

pub open spec fn agrees_addr(r: Result<Addr, ParseError>, sp: PRes<AddrV>, s: Seq<char>, after: int) -> bool {
    match (r, sp) {
        (Ok(v), Ok((w, k))) => v@ == w && after == k,
        (Err(e), Err((p, kind))) => error_is(e, s, p, kind),
        _ => false,
    }
}

pub open spec fn agrees_instr(r: Result<Instr, ParseError>, sp: PRes<InstrV>, s: Seq<char>, after: int) -> bool {
    match (r, sp) {
        (Ok(v), Ok((w, k))) => v@ == w && after == k,
        (Err(e), Err((p, kind))) => error_is(e, s, p, kind),
        _ => false,
    }
}

// ---------------------------------------------------------------------------
// Lexical rules

/// The index of the first character at or after `i` that is not whitespace.
pub open spec fn ws_end(s: Seq<char>, i: int) -> int
    decreases s.len() - i,
{
    if 0 <= i < s.len() && is_ws(s[i]) {
        ws_end(s, i + 1)
    } else {
        i
    }
}

/// The index just past the end of the line that starts at or after `i`.
pub open spec fn comment_end(s: Seq<char>, i: int) -> int
    decreases s.len() - i,
{
    if i < 0 || i >= s.len() {
        i
    } else if s[i] == '\n' {
        i + 1
    } else {
        comment_end(s, i + 1)
    }
}

/// The end of the run of identifier characters from `i`.
pub open spec fn ident_end(s: Seq<char>, i: int) -> int
    decreases s.len() - i,
{
    if 0 <= i < s.len() && ident_continue(s[i]) {
        ident_end(s, i + 1)
    } else {
        i
    }
}

/// The end of the run of base-`base` digits from `i`.
pub open spec fn digits_end(s: Seq<char>, i: int, base: nat) -> int
    decreases s.len() - i,
{
    if 0 <= i < s.len() && is_digit_in(s[i], base) {
        digits_end(s, i + 1, base)
    } else {
        i
    }
}

pub proof fn lemma_ws_end(s: Seq<char>, i: int)
    requires
        0 <= i <= s.len(),
    ensures
        i <= ws_end(s, i) <= s.len(),
        ws_end(s, ws_end(s, i)) == ws_end(s, i),
        forall|k: int| i <= k < ws_end(s, i) ==> is_ws(#[trigger] s[k]),
    decreases s.len() - i,
{
    if i < s.len() && is_ws(s[i]) {
        lemma_ws_end(s, i + 1);
    }
}

proof fn lemma_comment_end(s: Seq<char>, i: int)
    requires
        0 <= i <= s.len(),
    ensures
        i <= comment_end(s, i) <= s.len(),
        i < s.len() ==> i < comment_end(s, i),
    decreases s.len() - i,
{
    if i < s.len() && s[i] != '\n' {
        lemma_comment_end(s, i + 1);
    }
}

proof fn lemma_ident_end(s: Seq<char>, i: int)
    requires
        0 <= i <= s.len(),
    ensures
        i <= ident_end(s, i) <= s.len(),
        forall|k: int| i <= k < ident_end(s, i) ==> ident_continue(#[trigger] s[k]),
    decreases s.len() - i,
{
    if i < s.len() && ident_continue(s[i]) {
        lemma_ident_end(s, i + 1);
    }
}

proof fn lemma_digits_end(s: Seq<char>, i: int, base: nat)
    requires
        0 <= i <= s.len(),
    ensures
        i <= digits_end(s, i, base) <= s.len(),
        forall|k: int| i <= k < digits_end(s, i, base) ==> is_digit_in(#[trigger] s[k], base),
    decreases s.len() - i,
{
    if i < s.len() && is_digit_in(s[i], base) {
        lemma_digits_end(s, i + 1, base);
    }
}

proof fn lemma_digits_value_grows(d: Seq<char>, c: char, base: nat)
    requires
        base >= 1,
    ensures
        digits_value(d.push(c), base) == digits_value(d, base) * base + digit_value(c),
        digits_value(d.push(c), base) >= digits_value(d, base),
{
    assert(d.push(c).drop_last() =~= d);
    assert(digits_value(d, base) * base >= digits_value(d, base)) by (nonlinear_arith)
        requires
            base >= 1,
    ;
}

// ---------------------------------------------------------------------------
// Grammar

/// An identifier: a letter or `_`, then letters, digits and `_`.
pub open spec fn p_ident(s: Seq<char>, i: int) -> PRes<Seq<char>> {
    let j = ws_end(s, i);
    if j >= s.len() {
        Err((j, ErrorKind::ExpectedIdent))
    } else if !ident_start(s[j]) {
        Err((j, ErrorKind::ExpectedIdentGot(s[j])))
    } else {
        let e = ident_end(s, j + 1);
        Ok((s.subrange(j, e), e))
    }
}

/// The character `c`, after whitespace.
pub open spec fn p_expect(s: Seq<char>, i: int, c: char) -> PRes<()> {
    let j = ws_end(s, i);
    if j >= s.len() {
        Err((j, ErrorKind::ExpectedCharEof(c)))
    } else if s[j] != c {
        Err((j, ErrorKind::ExpectedChar(c, s[j])))
    } else {
        Ok(((), j + 1))
    }
}

/// The identifier `x`.
pub open spec fn p_expect_ident(s: Seq<char>, i: int, x: Seq<char>) -> PRes<()> {
    match p_ident(s, i) {
        Err(e) => Err(e),
        Ok((p, k)) => if p == x { Ok(((), k)) } else { Err((k, ErrorKind::ExpectedWord(x, p))) },
    }
}

/// A comma.
pub open spec fn p_comma(s: Seq<char>, i: int) -> PRes<()> {
    p_expect(s, i, ',')
}

/// The characters that start a register: `$`, or `V`.
pub open spec fn reg_prefix(c: char) -> bool {
    c == '$' || c == 'V'
}

/// The hexadecimal digit of a register at `k`.
pub open spec fn reg_digit(s: Seq<char>, k: int) -> PRes<u8> {
    if k >= s.len() {
        Err((k, ErrorKind::ExpectedRegister))
    } else if !is_digit_in(s[k], 16) {
        Err((k + 1, ErrorKind::ExpectedHexDigit(s[k])))
    } else {
        Ok((digit_value(s[k]) as u8, k + 1))
    }
}

/// A register: `$` or `V`, then one hexadecimal digit.
pub open spec fn p_register(s: Seq<char>, i: int) -> PRes<u8> {
    let j = ws_end(s, i);
    if j < s.len() && s[j] == 'V' {
        reg_digit(s, j + 1)
    } else {
        match p_expect(s, j, '$') {
            Err(e) => Err(e),
            Ok((_, k)) => reg_digit(s, k),
        }
    }
}

/// The base of a number that starts at `start`, and where its digits start:
/// `0x`/`0X` for hexadecimal, `0b`/`0B` for binary, else decimal.
pub open spec fn number_start(s: Seq<char>, start: int) -> (nat, int) {
    if start < s.len() && s[start] == '0' && start + 1 < s.len() && (s[start + 1] == 'x' || s[start + 1] == 'X') {
        (16, start + 2)
    } else if start < s.len() && s[start] == '0' && start + 1 < s.len() && (s[start + 1] == 'b' || s[start + 1] == 'B') {
        (2, start + 2)
    } else {
        (10, start)
    }
}

/// A number that fits in 16 bits.
pub open spec fn p_number(s: Seq<char>, i: int) -> PRes<u16> {
    let start = ws_end(s, i);
    let base = number_start(s, start).0;
    let ds = number_start(s, start).1;
    let de = digits_end(s, ds, base);
    if de == ds {
        Err((start, ErrorKind::ExpectedDigits))
    } else if digits_value(s.subrange(ds, de), base) > 0xFFFF {
        Err((de, ErrorKind::NumberTooLarge))
    } else {
        Ok((digits_value(s.subrange(ds, de), base) as u16, de))
    }
}

/// A number that fits in 8 bits.
pub open spec fn p_byte(s: Seq<char>, i: int) -> PRes<u8> {
    match p_number(s, i) {
        Err(e) => Err(e),
        Ok((n, k)) => if n > 0xFF { Err((k, ErrorKind::ByteTooLarge(n))) } else { Ok((n as u8, k)) },
    }
}

/// A number that fits in 4 bits.
pub open spec fn p_nibble(s: Seq<char>, i: int) -> PRes<u8> {
    match p_number(s, i) {
        Err(e) => Err(e),
        Ok((n, k)) => if n > 0xF { Err((k, ErrorKind::NibbleTooLarge(n))) } else { Ok((n as u8, k)) },
    }
}

/// A number that fits in 12 bits.
pub open spec fn p_address(s: Seq<char>, i: int) -> PRes<u16> {
    match p_number(s, i) {
        Err(e) => Err(e),
        Ok((n, k)) => if n > 0xFFF { Err((k, ErrorKind::AddressTooLarge(n))) } else { Ok((n, k)) },
    }
}

/// A label (when it starts with a letter) or a 12-bit address.
pub open spec fn p_addr(s: Seq<char>, i: int) -> PRes<AddrV> {
    let j = ws_end(s, i);
    if j >= s.len() {
        Err((j, ErrorKind::ExpectedAddress))
    } else if is_alpha(s[j]) {
        match p_ident(s, j) {
            Err(e) => Err(e),
            Ok((l, k)) => Ok((AddrV::Label(l), k)),
        }
    } else {
        match p_address(s, j) {
            Err(e) => Err(e),
            Ok((a, k)) => Ok((AddrV::Val(a), k)),
        }
    }
}

/// `$x, NN`
pub open spec fn p_reg_byte(s: Seq<char>, i: int) -> PRes<(u8, u8)> {
    match p_register(s, i) {
        Err(e) => Err(e),
        Ok((x, k1)) => match p_comma(s, k1) {
            Err(e) => Err(e),
            Ok((_, k2)) => match p_byte(s, k2) {
                Err(e) => Err(e),
                Ok((b, k3)) => Ok(((x, b), k3)),
            },
        },
    }
}

/// `$x, $y`
pub open spec fn p_reg_reg(s: Seq<char>, i: int) -> PRes<(u8, u8)> {
    match p_register(s, i) {
        Err(e) => Err(e),
        Ok((x, k1)) => match p_comma(s, k1) {
            Err(e) => Err(e),
            Ok((_, k2)) => match p_register(s, k2) {
                Err(e) => Err(e),
                Ok((y, k3)) => Ok(((x, y), k3)),
            },
        },
    }
}

/// `$x, $y, N`
pub open spec fn p_sprite(s: Seq<char>, i: int) -> PRes<(u8, u8, u8)> {
    match p_reg_reg(s, i) {
        Err(e) => Err(e),
        Ok(((x, y), k1)) => match p_comma(s, k1) {
            Err(e) => Err(e),
            Ok((_, k2)) => match p_nibble(s, k2) {
                Err(e) => Err(e),
                Ok((n, k3)) => Ok(((x, y, n), k3)),
            },
        },
    }
}

/// `[I]` from `i`, where `s[i]` is `[`.
pub open spec fn p_mem_i(s: Seq<char>, i: int) -> PRes<()> {
    match p_expect(s, i + 1, 'I') {
        Err(e) => Err(e),
        Ok((_, k)) => p_expect(s, k, ']'),
    }
}

/// The operands of `seti`: `$x, NN` or `I, NNN`.
pub open spec fn p_seti(s: Seq<char>, i: int) -> PRes<InstrV> {
    let j = ws_end(s, i);
    if j < s.len() && s[j] == 'I' {
        match p_comma(s, j + 1) {
            Err(e) => Err(e),
            Ok((_, k)) => match p_addr(s, k) {
                Err(e) => Err(e),
                Ok((a, k2)) => Ok((InstrV::SetAddrI(a), k2)),
            },
        }
    } else {
        match p_reg_byte(s, j) {
            Err(e) => Err(e),
            Ok(((x, b), k)) => Ok((InstrV::Seti(x, b), k)),
        }
    }
}

/// The operands of `set`: `$x, $y`, `$x, [I]`, `$x, DELAY`, `$x, KEY`,
/// `[I], $x`, `I, FONT[$x]`, `DELAY, $x` or `SOUND, $x`.
pub open spec fn p_set(s: Seq<char>, i: int) -> PRes<InstrV> {
    let j = ws_end(s, i);
    if j < s.len() && reg_prefix(s[j]) {
        match p_register(s, j) {
            Err(e) => Err(e),
            Ok((x, k1)) => match p_comma(s, k1) {
                Err(e) => Err(e),
                Ok((_, k2)) => {
                    let k3 = ws_end(s, k2);
                    if k3 < s.len() && reg_prefix(s[k3]) {
                        match p_register(s, k3) {
                            Err(e) => Err(e),
                            Ok((y, k4)) => Ok((InstrV::SetReg(x, y), k4)),
                        }
                    } else if k3 < s.len() && s[k3] == '[' {
                        match p_mem_i(s, k3) {
                            Err(e) => Err(e),
                            Ok((_, k4)) => Ok((InstrV::GetMemI(x), k4)),
                        }
                    } else {
                        match p_ident(s, k3) {
                            Err(e) => Err(e),
                            Ok((prop, k4)) => if prop == "DELAY"@ {
                                Ok((InstrV::GetDelay(x), k4))
                            } else if prop == "KEY"@ {
                                Ok((InstrV::GetKey(x), k4))
                            } else {
                                Err((k4, ErrorKind::ExpectedDelayOrKey(prop)))
                            },
                        }
                    }
                },
            },
        }
    } else if j < s.len() && s[j] == '[' {
        match p_mem_i(s, j) {
            Err(e) => Err(e),
            Ok((_, k1)) => match p_comma(s, k1) {
                Err(e) => Err(e),
                Ok((_, k2)) => match p_register(s, k2) {
                    Err(e) => Err(e),
                    Ok((x, k3)) => Ok((InstrV::SetMemI(x), k3)),
                },
            },
        }
    } else {
        match p_ident(s, j) {
            Err(e) => Err(e),
            Ok((prop, k1)) => match p_comma(s, k1) {
                Err(e) => Err(e),
                Ok((_, k2)) => if prop == "I"@ {
                    match p_expect_ident(s, k2, "FONT"@) {
                        Err(e) => Err(e),
                        Ok((_, k3)) => match p_expect(s, k3, '[') {
                            Err(e) => Err(e),
                            Ok((_, k4)) => match p_register(s, k4) {
                                Err(e) => Err(e),
                                Ok((x, k5)) => match p_expect(s, k5, ']') {
                                    Err(e) => Err(e),
                                    Ok((_, k6)) => Ok((InstrV::SetFont(x), k6)),
                                },
                            },
                        },
                    }
                } else {
                    match p_register(s, k2) {
                        Err(e) => Err(e),
                        Ok((x, k3)) => if prop == "DELAY"@ {
                            Ok((InstrV::SetDelay(x), k3))
                        } else if prop == "SOUND"@ {
                            Ok((InstrV::SetSound(x), k3))
                        } else {
                            Err((k3, ErrorKind::ExpectedDelayOrSound(prop)))
                        },
                    }
                },
            },
        }
    }
}

/// The operands of `add`: `$x, $y` or `I, $x`.
pub open spec fn p_add(s: Seq<char>, i: int) -> PRes<InstrV> {
    let j = ws_end(s, i);
    if j < s.len() && reg_prefix(s[j]) {
        match p_reg_reg(s, j) {
            Err(e) => Err(e),
            Ok(((x, y), k)) => Ok((InstrV::Add(x, y), k)),
        }
    } else {
        match p_expect(s, j, 'I') {
            Err(e) => Err(e),
            Ok((_, k1)) => match p_comma(s, k1) {
                Err(e) => Err(e),
                Ok((_, k2)) => match p_register(s, k2) {
                    Err(e) => Err(e),
                    Ok((x, k3)) => Ok((InstrV::AddMemI(x), k3)),
                },
            },
        }
    }
}

/// A shift: `$x, $y`, or `$x` alone, which stands for `$x, $0`.
pub open spec fn p_shift(s: Seq<char>, i: int, right: bool) -> PRes<InstrV> {
    match p_register(s, i) {
        Err(e) => Err(e),
        Ok((x, k1)) => match p_comma(s, k1) {
            Ok((_, k2)) => match p_register(s, k2) {
                Err(e) => Err(e),
                Ok((y, k3)) => Ok((if right { InstrV::Srlf(x, y) } else { InstrV::Sllf(x, y) }, k3)),
            },
            Err(_) => Ok((if right { InstrV::Srlf(x, 0) } else { InstrV::Sllf(x, 0) }, ws_end(s, k1))),
        },
    }
}

pub open spec fn with_reg_byte(r: PRes<(u8, u8)>, f: spec_fn(u8, u8) -> InstrV) -> PRes<InstrV> {
    match r {
        Err(e) => Err(e),
        Ok(((x, b), k)) => Ok((f(x, b), k)),
    }
}

pub open spec fn with_reg(r: PRes<u8>, f: spec_fn(u8) -> InstrV) -> PRes<InstrV> {
    match r {
        Err(e) => Err(e),
        Ok((x, k)) => Ok((f(x), k)),
    }
}

/// The instruction named `name` (already read, up to `k`), with its operands.
#[verifier::opaque]
pub open spec fn p_operands(s: Seq<char>, name: Seq<char>, k: int) -> PRes<InstrV> {
    if name == "cls"@ {
        Ok((InstrV::Cls, k))
    } else if name == "ret"@ {
        Ok((InstrV::Ret, k))
    } else if name == "j"@ {
        match p_addr(s, k) { Err(e) => Err(e), Ok((a, k2)) => Ok((InstrV::J(a), k2)) }
    } else if name == "call"@ {
        match p_addr(s, k) { Err(e) => Err(e), Ok((a, k2)) => Ok((InstrV::Call(a), k2)) }
    } else if name == "jri0"@ {
        match p_address(s, k) { Err(e) => Err(e), Ok((n, k2)) => Ok((InstrV::Jri0(n), k2)) }
    } else if name == "jri"@ {
        with_reg_byte(p_reg_byte(s, k), |x: u8, b: u8| InstrV::Jri(x, b))
    } else if name == "seqi"@ {
        with_reg_byte(p_reg_byte(s, k), |x: u8, b: u8| InstrV::Seqi(x, b))
    } else if name == "snei"@ {
        with_reg_byte(p_reg_byte(s, k), |x: u8, b: u8| InstrV::Snei(x, b))
    } else if name == "seq"@ {
        with_reg_byte(p_reg_reg(s, k), |x: u8, y: u8| InstrV::SeqReg(x, y))
    } else if name == "sne"@ {
        with_reg_byte(p_reg_reg(s, k), |x: u8, y: u8| InstrV::Sne(x, y))
    } else if name == "sk"@ {
        with_reg(p_register(s, k), |x: u8| InstrV::Sk(x))
    } else if name == "snk"@ {
        with_reg(p_register(s, k), |x: u8| InstrV::Snk(x))
    } else if name == "seti"@ {
        p_seti(s, k)
    } else if name == "addi"@ {
        with_reg_byte(p_reg_byte(s, k), |x: u8, b: u8| InstrV::Addi(x, b))
    } else if name == "set"@ {
        p_set(s, k)
    } else if name == "or"@ {
        with_reg_byte(p_reg_reg(s, k), |x: u8, y: u8| InstrV::Or(x, y))
    } else if name == "and"@ {
        with_reg_byte(p_reg_reg(s, k), |x: u8, y: u8| InstrV::And(x, y))
    } else if name == "xor"@ {
        with_reg_byte(p_reg_reg(s, k), |x: u8, y: u8| InstrV::Xor(x, y))
    } else if name == "add"@ {
        p_add(s, k)
    } else if name == "subf"@ {
        with_reg_byte(p_reg_reg(s, k), |x: u8, y: u8| InstrV::Subf(x, y))
    } else if name == "srlf"@ {
        p_shift(s, k, true)
    } else if name == "subnf"@ {
        with_reg_byte(p_reg_reg(s, k), |x: u8, y: u8| InstrV::Subnf(x, y))
    } else if name == "sllf"@ {
        p_shift(s, k, false)
    } else if name == "rand"@ {
        with_reg_byte(p_reg_byte(s, k), |x: u8, b: u8| InstrV::Rand(x, b))
    } else if name == "sprite"@ {
        match p_sprite(s, k) { Err(e) => Err(e), Ok(((x, y, n), k2)) => Ok((InstrV::Sprite(x, y, n), k2)) }
    } else if name == "bcd"@ {
        with_reg(p_register(s, k), |x: u8| InstrV::Bcd(x))
    } else if k < s.len() && s[k] == ':' {
        Ok((InstrV::Label(name), k + 1))
    } else {
        Err((k, ErrorKind::UnknownInstruction(name)))
    }
}

/// One instruction, directive (`.word`, `.byte`) or label, starting at `i`.
#[verifier::opaque]
pub open spec fn p_instr(s: Seq<char>, i: int) -> PRes<InstrV> {
    if 0 <= i < s.len() && s[i] == '.' {
        match p_ident(s, i + 1) {
            Err(e) => Err(e),
            Ok((d, k)) => if d == "word"@ {
                match p_number(s, k) { Err(e) => Err(e), Ok((w, k2)) => Ok((InstrV::Word(w), k2)) }
            } else if d == "byte"@ {
                match p_byte(s, k) { Err(e) => Err(e), Ok((b, k2)) => Ok((InstrV::Byte(b), k2)) }
            } else {
                Err((k, ErrorKind::UnknownDirective(d)))
            },
        }
    } else {
        match p_ident(s, i) {
            Err(e) => Err(e),
            Ok((name, k)) => p_operands(s, name, k),
        }
    }
}

/// The instructions from `i` to the end of `s`, skipping whitespace and
/// comments, or the first error.
pub open spec fn p_program(s: Seq<char>, i: int) -> Result<Seq<InstrV>, (int, ErrorKind)>
    decreases s.len() - i,
{
    let j = ws_end(s, i);
    if i < 0 || i > s.len() || j >= s.len() {
        Ok(Seq::empty())
    } else if s[j] == '#' {
        let k = comment_end(s, j);
        if k <= i || k > s.len() {
            // never taken: a comment ends past its `#`, within the text
            Ok(Seq::empty())
        } else {
            p_program(s, k)
        }
    } else {
        match p_instr(s, j) {
            Err(e) => Err(e),
            Ok((ins, k)) => if k <= i || k > s.len() {
                // never taken: an instruction consumes some input, within the text
                Ok(Seq::empty())
            } else {
                match p_program(s, k) {
                    Err(e) => Err(e),
                    Ok(rest) => Ok(seq![ins] + rest),
                }
            },
        }
    }
}

/// The result of parsing a whole source text.
pub open spec fn parse_program(s: Seq<char>) -> Result<Seq<InstrV>, (int, ErrorKind)> {
    p_program(s, 0)
}

// ---------------------------------------------------------------------------
// Where parses stop

/// Where a parse from `i` stops, or where it fails, lies within `s`.
pub open spec fn in_text<T>(r: PRes<T>, s: Seq<char>, i: int) -> bool {
    match r {
        Ok((_, k)) => i <= k <= s.len(),
        Err((p, _)) => 0 <= p <= s.len(),
    }
}

/// The ends of runs of whitespace, identifier characters and digits lie
/// between their start and the end of `s`.
pub proof fn lemma_runs_in(s: Seq<char>)
    ensures
        forall|i: int| #![trigger ws_end(s, i)] 0 <= i <= s.len() ==> i <= ws_end(s, i) <= s.len(),
        forall|i: int| #![trigger ident_end(s, i)] 0 <= i <= s.len() ==> i <= ident_end(s, i) <= s.len(),
        forall|i: int, b: nat| #![trigger digits_end(s, i, b)] 0 <= i <= s.len() ==> i <= digits_end(s, i, b) <= s.len(),
{
    assert forall|i: int| 0 <= i <= s.len() implies i <= #[trigger] ws_end(s, i) <= s.len() by {
        lemma_ws_end(s, i);
    }
    assert forall|i: int| 0 <= i <= s.len() implies i <= #[trigger] ident_end(s, i) <= s.len() by {
        lemma_ident_end(s, i);
    }
    assert forall|i: int, b: nat| 0 <= i <= s.len() implies i <= #[trigger] digits_end(s, i, b) <= s.len() by {
        lemma_digits_end(s, i, b);
    }
}

proof fn lemma_tokens_in(s: Seq<char>)
    ensures
        forall|i: int| #![trigger p_ident(s, i)] 0 <= i <= s.len() ==> in_text(p_ident(s, i), s, i),
{
    lemma_runs_in(s);
    assert forall|i: int| 0 <= i <= s.len() implies in_text(p_ident(s, i), s, i) by {}
}

proof fn lemma_expect_in(s: Seq<char>)
    ensures
        forall|i: int, c: char| #![trigger p_expect(s, i, c)] 0 <= i <= s.len() ==> in_text(p_expect(s, i, c), s, i),
        forall|i: int, x: Seq<char>| #![trigger p_expect_ident(s, i, x)] 0 <= i <= s.len()
            ==> in_text(p_expect_ident(s, i, x), s, i),
        forall|i: int| #![trigger p_comma(s, i)] 0 <= i <= s.len() ==> in_text(p_comma(s, i), s, i),
        forall|i: int| #![trigger p_register(s, i)] 0 <= i <= s.len() ==> in_text(p_register(s, i), s, i),
        forall|i: int| #![trigger p_number(s, i)] 0 <= i <= s.len() ==> in_text(p_number(s, i), s, i),
        forall|i: int| #![trigger p_byte(s, i)] 0 <= i <= s.len() ==> in_text(p_byte(s, i), s, i),
        forall|i: int| #![trigger p_nibble(s, i)] 0 <= i <= s.len() ==> in_text(p_nibble(s, i), s, i),
        forall|i: int| #![trigger p_address(s, i)] 0 <= i <= s.len() ==> in_text(p_address(s, i), s, i),
        forall|i: int| #![trigger p_addr(s, i)] 0 <= i <= s.len() ==> in_text(p_addr(s, i), s, i),
{
    lemma_runs_in(s);
    lemma_tokens_in(s);
    assert forall|i: int, c: char| 0 <= i <= s.len() implies in_text(#[trigger] p_expect(s, i, c), s, i) by {}
    assert forall|i: int, x: Seq<char>| 0 <= i <= s.len() implies in_text(#[trigger] p_expect_ident(s, i, x), s, i) by {}
    assert forall|i: int| 0 <= i <= s.len() implies in_text(#[trigger] p_comma(s, i), s, i) by {}
    assert forall|i: int| 0 <= i <= s.len() implies in_text(#[trigger] p_register(s, i), s, i) by {}
    assert forall|i: int| 0 <= i <= s.len() implies in_text(#[trigger] p_number(s, i), s, i) by {}
    assert forall|i: int| 0 <= i <= s.len() implies in_text(#[trigger] p_byte(s, i), s, i) by {}
    assert forall|i: int| 0 <= i <= s.len() implies in_text(#[trigger] p_nibble(s, i), s, i) by {}
    assert forall|i: int| 0 <= i <= s.len() implies in_text(#[trigger] p_address(s, i), s, i) by {}
    assert forall|i: int| 0 <= i <= s.len() implies in_text(#[trigger] p_addr(s, i), s, i) by {}
}

proof fn lemma_operands_in(s: Seq<char>)
    ensures
        forall|i: int| #![trigger p_reg_byte(s, i)] 0 <= i <= s.len() ==> in_text(p_reg_byte(s, i), s, i),
        forall|i: int| #![trigger p_reg_reg(s, i)] 0 <= i <= s.len() ==> in_text(p_reg_reg(s, i), s, i),
        forall|i: int| #![trigger p_sprite(s, i)] 0 <= i <= s.len() ==> in_text(p_sprite(s, i), s, i),
        forall|i: int| #![trigger p_mem_i(s, i)] 0 <= i < s.len() ==> in_text(p_mem_i(s, i), s, i),
        forall|i: int| #![trigger p_seti(s, i)] 0 <= i <= s.len() ==> in_text(p_seti(s, i), s, i),
        forall|i: int| #![trigger p_add(s, i)] 0 <= i <= s.len() ==> in_text(p_add(s, i), s, i),
        forall|i: int, r: bool| #![trigger p_shift(s, i, r)] 0 <= i <= s.len() ==> in_text(p_shift(s, i, r), s, i),
{
    lemma_runs_in(s);
    lemma_tokens_in(s);
    lemma_expect_in(s);
    assert forall|i: int| 0 <= i <= s.len() implies in_text(#[trigger] p_reg_byte(s, i), s, i) by {}
    assert forall|i: int| 0 <= i <= s.len() implies in_text(#[trigger] p_reg_reg(s, i), s, i) by {}
    assert forall|i: int| 0 <= i <= s.len() implies in_text(#[trigger] p_sprite(s, i), s, i) by {}
    assert forall|i: int| 0 <= i < s.len() implies in_text(#[trigger] p_mem_i(s, i), s, i) by {}
    assert forall|i: int| 0 <= i <= s.len() implies in_text(#[trigger] p_seti(s, i), s, i) by {}
    assert forall|i: int| 0 <= i <= s.len() implies in_text(#[trigger] p_add(s, i), s, i) by {}
    assert forall|i: int, r: bool| 0 <= i <= s.len() implies in_text(#[trigger] p_shift(s, i, r), s, i) by {}
}

proof fn lemma_set_in(s: Seq<char>)
    ensures
        forall|i: int| #![trigger p_set(s, i)] 0 <= i <= s.len() ==> in_text(p_set(s, i), s, i),
{
    lemma_runs_in(s);
    lemma_tokens_in(s);
    lemma_expect_in(s);
    lemma_operands_in(s);
    assert forall|i: int| 0 <= i <= s.len() implies in_text(#[trigger] p_set(s, i), s, i) by {}
}

/// Where an instruction from `i` stops, or where it fails, lies within `s`.
pub proof fn lemma_instr_in_text(s: Seq<char>, i: int)
    requires
        0 <= i <= s.len(),
    ensures
        in_text(p_instr(s, i), s, i),
        p_instr(s, i) matches Ok((_, k)) ==> i < k,
{
    reveal(p_instr);
    reveal(p_operands);
    lemma_runs_in(s);
    lemma_tokens_in(s);
    lemma_expect_in(s);
    lemma_operands_in(s);
    lemma_set_in(s);
    assert(in_text(p_ident(s, i), s, i));
    if 0 <= i < s.len() && s[i] == '.' {
        assert(in_text(p_ident(s, i + 1), s, i + 1));
    } else {
        match p_ident(s, i) {
            Err(e) => {},
            Ok((name, k)) => {
                assert(in_text(p_operands(s, name, k), s, k));
            },
        }
    }
}

/// A character index of `s` is, in the UTF-8 encoding of `s`, a byte offset
/// at a character boundary.
pub proof fn lemma_offset_is_boundary(s: Seq<char>, n: int)
    requires
        0 <= n <= s.len(),
    ensures
        byte_offset(s, n) <= encode_utf8(s).len(),
        is_char_boundary(encode_utf8(s), byte_offset(s, n)),
    decreases n,
{
    broadcast use encode_utf8_valid_utf8;
    lemma_byte_offset_mono(s, n, s.len() as int);
    assert(s.take(s.len() as int) =~= s);
    if n > 0 {
        let bytes = encode_utf8(s);
        let r = s.drop_first();
        encode_utf8_first_scalar(s);
        assert(pop_first_scalar(bytes) =~= encode_utf8(r));
        assert(s.take(n).drop_first() =~= r.take(n - 1));
        assert(s.take(n)[0] == s[0]);
        lemma_offset_is_boundary(r, n - 1);
    }
}

/// The error of a program, if any, lies within its text.
pub proof fn lemma_program_in_text(s: Seq<char>, i: int)
    requires
        0 <= i <= s.len(),
    ensures
        p_program(s, i) matches Err((p, _)) ==> 0 <= p <= s.len(),
    decreases s.len() - i,
{
    lemma_ws_end(s, i);
    let j = ws_end(s, i);
    if j < s.len() {
        if s[j] == '#' {
            let k = comment_end(s, j);
            if i < k <= s.len() {
                lemma_program_in_text(s, k);
            }
        } else {
            lemma_instr_in_text(s, j);
            match p_instr(s, j) {
                Err(e) => {},
                Ok((ins, k)) => {
                    if i < k <= s.len() {
                        lemma_program_in_text(s, k);
                    }
                },
            }
        }
    }
}

// ---------------------------------------------------------------------------
// The parser

/// A parser over the characters of an assembly source.
pub struct Parser<'a> {
    input: &'a str,
    chars: Vec<char>,
    /// Character index of the next character.
    idx: usize,
    /// Byte offset of the next character.
    pos: usize,
}

impl<'a> Parser<'a> {
    /// The source text.
    pub closed spec fn text(&self) -> Seq<char> {
        self.chars@
    }

    /// The character index of the next character.
    pub closed spec fn at(&self) -> int {
        self.idx as int
    }

    pub closed spec fn wf(&self) -> bool {
        &&& self.chars@ == self.input@
        &&& self.idx <= self.chars@.len()
        &&& self.pos == byte_offset(self.chars@, self.idx as int)
        &&& encode_utf8(self.chars@).len() <= usize::MAX
    }

    /// A parser at the start of `input`.
    pub fn new(input: &'a str) -> (p: Self)
        ensures
            p.wf(),
            p.text() == input@,
            p.at() == 0,
    {
        // The UTF-8 bytes of the input are a slice, so their number fits in `usize`.
        let bytes = input.as_bytes();
        assert(bytes@.len() == bytes.len());
        let mut chars: Vec<char> = Vec::new();
        for c in it: input.chars()
            invariant
                chars@ == it.seq().take(it.index() as int),
        {
            chars.push(c);
        }
        assert(chars@ == input@);
        let p = Self { input, chars, idx: 0, pos: 0 };
        assert(p.chars@.take(0) =~= Seq::<char>::empty());
        assert(encode_utf8(Seq::<char>::empty()) =~= Seq::<u8>::empty());
        p
    }

    fn eof(&self) -> (r: bool)
        requires
            self.wf(),
        ensures
            r == (self.at() >= self.text().len()),
    {
        self.idx >= self.chars.len()
    }

    fn peek(&self) -> (r: Option<char>)
        requires
            self.wf(),
        ensures
            r == (if self.at() < self.text().len() { Some(self.text()[self.at()]) } else { None }),
    {
        if self.idx < self.chars.len() {
            Some(self.chars[self.idx])
        } else {
            None
        }
    }

    fn advance(&mut self) -> (r: Option<char>)
        requires
            old(self).wf(),
        ensures
            final(self).wf(),
            final(self).text() == old(self).text(),
            r == (if old(self).at() < old(self).text().len() { Some(old(self).text()[old(self).at()]) } else { None }),
            final(self).at() == (if old(self).at() < old(self).text().len() { old(self).at() + 1 } else { old(self).at() }),
    {
        let c = match self.peek() {
            Some(c) => c,
            None => return None,
        };
        proof {
            lemma_byte_offset_step(self.chars@, self.idx as int);
            lemma_byte_offset_mono(self.chars@, self.idx + 1, self.chars@.len() as int);
            assert(self.chars@.take(self.chars@.len() as int) =~= self.chars@);
        }
        assert(self.idx < self.chars.len());
        self.pos += len_utf8(c);
        self.idx += 1;
        Some(c)
    }

    fn error(&self, message: String) -> (e: ParseError)
        requires
            self.wf(),
        ensures
            e.pos == byte_offset(self.text(), self.at()),
            e.message == message,
    {
        ParseError { pos: self.pos, message }
    }

    fn skip_whitespace(&mut self)
        requires
            old(self).wf(),
        ensures
            final(self).wf(),
            final(self).text() == old(self).text(),
            final(self).at() == ws_end(old(self).text(), old(self).at()),
    {
        proof { lemma_ws_end(self.text(), self.at()); }
        loop
            invariant
                self.wf(),
                self.text() == old(self).text(),
                old(self).at() <= self.at() <= self.text().len(),
                ws_end(self.text(), self.at()) == ws_end(old(self).text(), old(self).at()),
            ensures
                ws_end(self.text(), self.at()) == self.at(),
            decreases self.text().len() - self.at(),
        {
            let c = match self.peek() {
                Some(c) => c,
                None => break,
            };
            if !is_whitespace(c) {
                break;
            }
            self.advance();
        }
    }

    fn skip_comment(&mut self)
        requires
            old(self).wf(),
        ensures
            final(self).wf(),
            final(self).text() == old(self).text(),
            final(self).at() == comment_end(old(self).text(), old(self).at()),
    {
        loop
            invariant_except_break
                comment_end(self.text(), self.at()) == comment_end(old(self).text(), old(self).at()),
            invariant
                self.wf(),
                self.text() == old(self).text(),
                old(self).at() <= self.at() <= self.text().len(),
            ensures
                self.at() == comment_end(old(self).text(), old(self).at()),
            decreases self.text().len() - self.at(),
        {
            let c = match self.peek() {
                Some(c) => c,
                None => break,
            };
            self.advance();
            if c == '\n' {
                break;
            }
        }
    }
}


// ---------------------------------------------------------------------------
// Messages

fn text_msg(t: &str) -> (m: String)
    ensures
        m@ == t@,
{
    String::from_str(t)
}

fn char_msg(pre: &str, c: char, post: &str) -> (m: String)
    ensures
        m@ == pre@ + seq![c] + post@,
{
    let mut m = String::from_str(pre);
    push_char(&mut m, c);
    m.append(post);
    assert(m@ =~= pre@ + seq![c] + post@);
    m
}

fn str_msg(pre: &str, x: &String, post: &str) -> (m: String)
    ensures
        m@ == pre@ + x@ + post@,
{
    let mut m = String::from_str(pre);
    m.append(x.as_str());
    m.append(post);
    m
}

fn prefix_msg(pre: &str, x: &String) -> (m: String)
    ensures
        m@ == pre@ + x@,
{
    let mut m = String::from_str(pre);
    m.append(x.as_str());
    m
}

fn hex_msg(pre: &str, n: u16, post: &str) -> (m: String)
    ensures
        m@ == pre@ + alt_hex(n) + post@,
{
    let mut m = String::from_str(pre);
    m.append("0x");
    push_hex(&mut m, n as u64, true);
    m.append(post);
    assert(m@ =~= pre@ + alt_hex(n) + post@);
    m
}

fn expected_char_msg(c: char, p: char) -> (m: String)
    ensures
        m@ == message(ErrorKind::ExpectedChar(c, p)),
{
    let mut m = String::from_str("expected `");
    push_char(&mut m, c);
    m.append("`, got `");
    push_char(&mut m, p);
    m.append("`");
    assert(m@ =~= message(ErrorKind::ExpectedChar(c, p)));
    m
}

fn expected_word_msg(x: &str, p: &String) -> (m: String)
    ensures
        m@ == "Expected "@ + x@ + " but got "@ + p@,
{
    let mut m = String::from_str("Expected ");
    m.append(x);
    m.append(" but got ");
    m.append(p.as_str());
    m
}

/// Whether `s` is the text `t`.
fn is_text(s: &String, t: &str) -> (r: bool)
    ensures
        r == (s@ == t@),
{
    let other = String::from_str(t);
    *s == other
}

impl<'a> Parser<'a> {
    fn consume(&mut self, c: char) -> (r: bool)
        requires
            old(self).wf(),
        ensures
            final(self).wf(),
            final(self).text() == old(self).text(),
            r == (old(self).at() < old(self).text().len() && old(self).text()[old(self).at()] == c),
            final(self).at() == if r { old(self).at() + 1 } else { old(self).at() },
    {
        match self.peek() {
            Some(p) => {
                if p == c {
                    self.advance();
                    true
                } else {
                    false
                }
            },
            None => false,
        }
    }

    fn peek_is(&mut self, c: char) -> (r: bool)
        requires
            old(self).wf(),
        ensures
            final(self).wf(),
            final(self).text() == old(self).text(),
            final(self).at() == ws_end(old(self).text(), old(self).at()),
            r == (final(self).at() < final(self).text().len() && final(self).text()[final(self).at()] == c),
    {
        self.skip_whitespace();
        match self.peek() {
            Some(p) => p == c,
            None => false,
        }
    }

    /// Whether a register comes next (after whitespace).
    fn peek_is_register(&mut self) -> (r: bool)
        requires
            old(self).wf(),
        ensures
            final(self).wf(),
            final(self).text() == old(self).text(),
            final(self).at() == ws_end(old(self).text(), old(self).at()),
            r == (final(self).at() < final(self).text().len() && reg_prefix(final(self).text()[final(self).at()])),
    {
        self.skip_whitespace();
        match self.peek() {
            Some(p) => p == '$' || p == 'V',
            None => false,
        }
    }

    fn expect(&mut self, c: char) -> (r: Result<(), ParseError>)
        requires
            old(self).wf(),
        ensures
            final(self).wf(),
            final(self).text() == old(self).text(),
            old(self).at() <= final(self).at(),
            agrees(r, p_expect(old(self).text(), old(self).at(), c), old(self).text(), final(self).at()),
            r is Err ==> final(self).at() == ws_end(old(self).text(), old(self).at()),
    {
        proof { lemma_ws_end(self.text(), self.at()); }
        self.skip_whitespace();
        let p = match self.peek() {
            Some(p) => p,
            None => return Err(self.error(char_msg("expected `", c, "`, got EOF"))),
        };
        if p != c {
            return Err(self.error(expected_char_msg(c, p)));
        }
        self.advance();
        Ok(())
    }

    fn comma(&mut self) -> (r: Result<(), ParseError>)
        requires
            old(self).wf(),
        ensures
            final(self).wf(),
            final(self).text() == old(self).text(),
            old(self).at() <= final(self).at(),
            agrees(r, p_comma(old(self).text(), old(self).at()), old(self).text(), final(self).at()),
            r is Err ==> final(self).at() == ws_end(old(self).text(), old(self).at()),
    {
        proof { lemma_ws_end(self.text(), self.at()); }
        self.skip_whitespace();
        self.expect(',')
    }

    fn ident(&mut self) -> (r: Result<String, ParseError>)
        requires
            old(self).wf(),
        ensures
            final(self).wf(),
            final(self).text() == old(self).text(),
            old(self).at() <= final(self).at(),
            r is Ok ==> old(self).at() < final(self).at(),
            agrees_str(r, p_ident(old(self).text(), old(self).at()), old(self).text(), final(self).at()),
    {
        proof { lemma_ws_end(self.text(), self.at()); }
        self.skip_whitespace();
        let c = match self.peek() {
            Some(c) => c,
            None => return Err(self.error(text_msg("expected identifier"))),
        };
        if !is_ident_start(c) {
            return Err(self.error(char_msg("expected identifier, got `", c, "`")));
        }
        let ghost j = self.at();
        let mut result = String::new();
        push_char(&mut result, c);
        self.advance();
        assert(result@ =~= self.text().subrange(j, self.at()));
        proof { lemma_ident_end(self.text(), self.at()); }
        loop
            invariant
                self.wf(),
                self.text() == old(self).text(),
                0 <= j < self.at() <= self.text().len(),
                result@ == self.text().subrange(j, self.at()),
                ident_end(self.text(), self.at()) == ident_end(self.text(), j + 1),
            ensures
                self.at() == ident_end(self.text(), j + 1),
            decreases self.text().len() - self.at(),
        {
            let c = match self.peek() {
                Some(c) => c,
                None => break,
            };
            if !is_ident_continue(c) {
                break;
            }
            let ghost before = self.at();
            push_char(&mut result, c);
            self.advance();
            assert(self.at() == before + 1);
            assert(result@ =~= self.text().subrange(j, self.at()));
        }
        Ok(result)
    }

    fn expect_ident(&mut self, x: &str) -> (r: Result<(), ParseError>)
        requires
            old(self).wf(),
        ensures
            final(self).wf(),
            final(self).text() == old(self).text(),
            old(self).at() <= final(self).at(),
            agrees(r, p_expect_ident(old(self).text(), old(self).at(), x@), old(self).text(), final(self).at()),
    {
        let p = match self.ident() {
            Ok(p) => p,
            Err(e) => return Err(e),
        };
        if is_text(&p, x) {
            Ok(())
        } else {
            Err(self.error(expected_word_msg(x, &p)))
        }
    }

    fn register(&mut self) -> (r: Result<u8, ParseError>)
        requires
            old(self).wf(),
        ensures
            final(self).wf(),
            final(self).text() == old(self).text(),
            old(self).at() <= final(self).at(),
            agrees(r, p_register(old(self).text(), old(self).at()), old(self).text(), final(self).at()),
    {
        proof { lemma_ws_end(self.text(), self.at()); }
        self.skip_whitespace();
        let v_form = match self.peek() {
            Some(p) => p == 'V',
            None => false,
        };
        if v_form {
            self.advance();
        } else {
            match self.expect('$') {
                Ok(()) => {},
                Err(e) => return Err(e),
            }
        }
        let c = match self.advance() {
            Some(c) => c,
            None => return Err(self.error(text_msg("Expected register"))),
        };
        if !is_digit(c, 16) {
            return Err(self.error(char_msg("Expected hex digit after `$`, got `", c, "`")));
        }
        let n = to_digit(c);
        Ok(n as u8)
    }

    /// A number in decimal, or with a `0x` (hexadecimal) or `0b` (binary) prefix.
    fn number(&mut self) -> (r: Result<u16, ParseError>)
        requires
            old(self).wf(),
        ensures
            final(self).wf(),
            final(self).text() == old(self).text(),
            old(self).at() <= final(self).at(),
            agrees(r, p_number(old(self).text(), old(self).at()), old(self).text(), final(self).at()),
    {
        let ghost s = self.text();
        proof { lemma_ws_end(s, self.at()); }
        self.skip_whitespace();
        let start_idx = self.idx;
        let start_pos = self.pos;
        let mut base: u32 = 10;
        let mut digit_start: usize = start_idx;
        if self.consume('0') {
            let next = self.peek();
            let hex = match next {
                Some(c) => c == 'x' || c == 'X',
                None => false,
            };
            let bin = match next {
                Some(c) => c == 'b' || c == 'B',
                None => false,
            };
            if hex {
                self.advance();
                base = 16;
                digit_start = self.idx;
            } else if bin {
                self.advance();
                base = 2;
                digit_start = self.idx;
            }
            // otherwise the leading zero is the first decimal digit
        }
        let ghost nb = number_start(s, start_idx as int);
        assert(base == nb.0 && digit_start == nb.1);
        assert(digits_end(s, digit_start as int, base as nat) == digits_end(s, self.at(), base as nat));
        proof { lemma_digits_end(s, self.at(), base as nat); }
        loop
            invariant
                self.wf(),
                self.text() == s,
                base == 2 || base == 10 || base == 16,
                digit_start <= self.at() <= s.len(),
                digits_end(s, self.at(), base as nat) == digits_end(s, digit_start as int, base as nat),
            ensures
                self.at() == digits_end(s, digit_start as int, base as nat),
            decreases s.len() - self.at(),
        {
            let c = match self.peek() {
                Some(c) => c,
                None => break,
            };
            if !is_digit(c, base) {
                break;
            }
            self.advance();
        }
        if self.idx == digit_start {
            return Err(ParseError { pos: start_pos, message: text_msg("expected digits") });
        }
        proof { lemma_digits_end(s, digit_start as int, base as nat); }
        let mut acc: u32 = 0;
        let mut over = false;
        let mut k: usize = digit_start;
        assert(s.subrange(digit_start as int, digit_start as int) =~= Seq::<char>::empty());
        while k < self.idx
            invariant
                self.wf(),
                self.text() == s,
                base == 2 || base == 10 || base == 16,
                digit_start <= k <= self.at() <= s.len(),
                forall|q: int| digit_start <= q < self.at() ==> is_digit_in(#[trigger] s[q], base as nat),
                over == (digits_value(s.subrange(digit_start as int, k as int), base as nat) > 0xFFFF),
                !over ==> acc == digits_value(s.subrange(digit_start as int, k as int), base as nat),
            decreases self.at() - k,
        {
            let c = self.chars[k];
            let d = to_digit(c);
            proof {
                assert(s.subrange(digit_start as int, k + 1) =~= s.subrange(digit_start as int, k as int).push(c));
                lemma_digits_value_grows(s.subrange(digit_start as int, k as int), c, base as nat);
            }
            if !over {
                assert(acc * base <= 0xFFFF * 16) by (nonlinear_arith)
                    requires
                        acc <= 0xFFFF,
                        base <= 16,
                ;
                let next = acc * base + d;
                if next > 0xFFFF {
                    over = true;
                } else {
                    acc = next;
                }
            }
            k += 1;
        }
        if over {
            return Err(self.error(text_msg("Number does not fit in u16")));
        }
        Ok(acc as u16)
    }

    fn byte(&mut self) -> (r: Result<u8, ParseError>)
        requires
            old(self).wf(),
        ensures
            final(self).wf(),
            final(self).text() == old(self).text(),
            old(self).at() <= final(self).at(),
            agrees(r, p_byte(old(self).text(), old(self).at()), old(self).text(), final(self).at()),
    {
        let n = match self.number() {
            Ok(n) => n,
            Err(e) => return Err(e),
        };
        if n > 0xFF {
            return Err(self.error(hex_msg("Value ", n, " does not fit in a byte")));
        }
        Ok(n as u8)
    }

    fn nibble(&mut self) -> (r: Result<u8, ParseError>)
        requires
            old(self).wf(),
        ensures
            final(self).wf(),
            final(self).text() == old(self).text(),
            old(self).at() <= final(self).at(),
            agrees(r, p_nibble(old(self).text(), old(self).at()), old(self).text(), final(self).at()),
    {
        let n = match self.number() {
            Ok(n) => n,
            Err(e) => return Err(e),
        };
        if n > 0xF {
            return Err(self.error(hex_msg("Value ", n, " does not fit in a nibble")));
        }
        Ok(n as u8)
    }

    fn address(&mut self) -> (r: Result<u16, ParseError>)
        requires
            old(self).wf(),
        ensures
            final(self).wf(),
            final(self).text() == old(self).text(),
            old(self).at() <= final(self).at(),
            agrees(r, p_address(old(self).text(), old(self).at()), old(self).text(), final(self).at()),
    {
        let n = match self.number() {
            Ok(n) => n,
            Err(e) => return Err(e),
        };
        if n > 0xFFF {
            return Err(self.error(hex_msg("Address ", n, " does not fit in 12 bits")));
        }
        Ok(n)
    }

    fn word(&mut self) -> (r: Result<u16, ParseError>)
        requires
            old(self).wf(),
        ensures
            final(self).wf(),
            final(self).text() == old(self).text(),
            old(self).at() <= final(self).at(),
            agrees(r, p_number(old(self).text(), old(self).at()), old(self).text(), final(self).at()),
    {
        self.number()
    }

    fn addr(&mut self) -> (r: Result<Addr, ParseError>)
        requires
            old(self).wf(),
        ensures
            final(self).wf(),
            final(self).text() == old(self).text(),
            old(self).at() <= final(self).at(),
            agrees_addr(r, p_addr(old(self).text(), old(self).at()), old(self).text(), final(self).at()),
    {
        proof { lemma_ws_end(self.text(), self.at()); }
        self.skip_whitespace();
        let c = match self.peek() {
            Some(c) => c,
            None => return Err(self.error(text_msg("Expected address, but got EOF"))),
        };
        if is_ascii_alphabetic(c) {
            match self.ident() {
                Ok(l) => Ok(Addr::Label(l)),
                Err(e) => Err(e),
            }
        } else {
            match self.address() {
                Ok(a) => Ok(Addr::Val(a)),
                Err(e) => Err(e),
            }
        }
    }
}


/// The comma-then-`p` combinations of the grammar.
pub open spec fn p_comma_then_byte(s: Seq<char>, i: int) -> PRes<u8> {
    match p_comma(s, i) {
        Err(e) => Err(e),
        Ok((_, k)) => p_byte(s, k),
    }
}

pub open spec fn p_comma_then_register(s: Seq<char>, i: int) -> PRes<u8> {
    match p_comma(s, i) {
        Err(e) => Err(e),
        Ok((_, k)) => p_register(s, k),
    }
}

pub open spec fn p_comma_then_nibble(s: Seq<char>, i: int) -> PRes<u8> {
    match p_comma(s, i) {
        Err(e) => Err(e),
        Ok((_, k)) => p_nibble(s, k),
    }
}

impl<'a> Parser<'a> {
    fn comma_then_byte(&mut self) -> (r: Result<u8, ParseError>)
        requires
            old(self).wf(),
        ensures
            final(self).wf(),
            final(self).text() == old(self).text(),
            old(self).at() <= final(self).at(),
            agrees(r, p_comma_then_byte(old(self).text(), old(self).at()), old(self).text(), final(self).at()),
    {
        match self.comma() {
            Ok(()) => {},
            Err(e) => return Err(e),
        }
        self.byte()
    }

    fn comma_then_register(&mut self) -> (r: Result<u8, ParseError>)
        requires
            old(self).wf(),
        ensures
            final(self).wf(),
            final(self).text() == old(self).text(),
            old(self).at() <= final(self).at(),
            agrees(r, p_comma_then_register(old(self).text(), old(self).at()), old(self).text(), final(self).at()),
    {
        match self.comma() {
            Ok(()) => {},
            Err(e) => return Err(e),
        }
        self.register()
    }

    fn comma_then_nibble(&mut self) -> (r: Result<u8, ParseError>)
        requires
            old(self).wf(),
        ensures
            final(self).wf(),
            final(self).text() == old(self).text(),
            old(self).at() <= final(self).at(),
            agrees(r, p_comma_then_nibble(old(self).text(), old(self).at()), old(self).text(), final(self).at()),
    {
        match self.comma() {
            Ok(()) => {},
            Err(e) => return Err(e),
        }
        self.nibble()
    }

    /// `$x, NN`
    fn reg_byte(&mut self) -> (r: Result<(u8, u8), ParseError>)
        requires
            old(self).wf(),
        ensures
            final(self).wf(),
            final(self).text() == old(self).text(),
            old(self).at() <= final(self).at(),
            agrees(r, p_reg_byte(old(self).text(), old(self).at()), old(self).text(), final(self).at()),
    {
        let x = match self.register() {
            Ok(x) => x,
            Err(e) => return Err(e),
        };
        match self.comma_then_byte() {
            Ok(b) => Ok((x, b)),
            Err(e) => Err(e),
        }
    }

    /// `$x, $y`
    fn reg_reg(&mut self) -> (r: Result<(u8, u8), ParseError>)
        requires
            old(self).wf(),
        ensures
            final(self).wf(),
            final(self).text() == old(self).text(),
            old(self).at() <= final(self).at(),
            agrees(r, p_reg_reg(old(self).text(), old(self).at()), old(self).text(), final(self).at()),
    {
        let x = match self.register() {
            Ok(x) => x,
            Err(e) => return Err(e),
        };
        match self.comma_then_register() {
            Ok(y) => Ok((x, y)),
            Err(e) => Err(e),
        }
    }

    /// `[I]`, at the `[`.
    fn mem_i(&mut self) -> (r: Result<(), ParseError>)
        requires
            old(self).wf(),
            old(self).at() < old(self).text().len(),
            old(self).text()[old(self).at()] == '[',
        ensures
            final(self).wf(),
            final(self).text() == old(self).text(),
            old(self).at() <= final(self).at(),
            agrees(r, p_mem_i(old(self).text(), old(self).at()), old(self).text(), final(self).at()),
    {
        self.advance();
        match self.expect('I') {
            Ok(()) => {},
            Err(e) => return Err(e),
        }
        self.expect(']')
    }

    /// Parses `seti $x, NN` and `seti I, 0xNNN`.
    fn parse_seti(&mut self) -> (r: Result<Instr, ParseError>)
        requires
            old(self).wf(),
        ensures
            final(self).wf(),
            final(self).text() == old(self).text(),
            old(self).at() <= final(self).at(),
            agrees_instr(r, p_seti(old(self).text(), old(self).at()), old(self).text(), final(self).at()),
    {
        proof { lemma_ws_end(self.text(), self.at()); }
        if self.peek_is('I') {
            self.advance();
            match self.comma() {
                Ok(()) => {},
                Err(e) => return Err(e),
            }
            return match self.addr() {
                Ok(a) => Ok(Instr::SetAddrI(a)),
                Err(e) => Err(e),
            };
        }
        match self.reg_byte() {
            Ok((x, b)) => Ok(Instr::Seti(x, b)),
            Err(e) => Err(e),
        }
    }

    /// Parses the operands of `set`:
    /// `$x, DELAY`, `$x, KEY`, `$x, [I]`, `$x, $y`,
    /// `DELAY, $x`, `SOUND, $x`, `I, FONT[$x]`, `[I], $x`.
    fn parse_set(&mut self) -> (r: Result<Instr, ParseError>)
        requires
            old(self).wf(),
        ensures
            final(self).wf(),
            final(self).text() == old(self).text(),
            old(self).at() <= final(self).at(),
            agrees_instr(r, p_set(old(self).text(), old(self).at()), old(self).text(), final(self).at()),
    {
        proof { lemma_ws_end(self.text(), self.at()); }
        if self.peek_is_register() {
            let x = match self.register() {
                Ok(x) => x,
                Err(e) => return Err(e),
            };
            match self.comma() {
                Ok(()) => {},
                Err(e) => return Err(e),
            }
            proof { lemma_ws_end(self.text(), self.at()); }
            if self.peek_is_register() {
                // set $x, $y
                match self.register() {
                    Ok(y) => Ok(Instr::SetReg(x, y)),
                    Err(e) => Err(e),
                }
            } else if self.peek_is('[') {
                // set $x, [I]
                match self.mem_i() {
                    Ok(()) => Ok(Instr::GetMemI(x)),
                    Err(e) => Err(e),
                }
            } else {
                // set $x, DELAY / set $x, KEY
                let prop = match self.ident() {
                    Ok(p) => p,
                    Err(e) => return Err(e),
                };
                if is_text(&prop, "DELAY") {
                    Ok(Instr::GetDelay(x))
                } else if is_text(&prop, "KEY") {
                    Ok(Instr::GetKey(x))
                } else {
                    Err(self.error(prefix_msg("Expected either DELAY or KEY but got ", &prop)))
                }
            }
        } else if self.peek_is('[') {
            // set [I], $x
            match self.mem_i() {
                Ok(()) => {},
                Err(e) => return Err(e),
            }
            match self.comma() {
                Ok(()) => {},
                Err(e) => return Err(e),
            }
            match self.register() {
                Ok(x) => Ok(Instr::SetMemI(x)),
                Err(e) => Err(e),
            }
        } else {
            let prop = match self.ident() {
                Ok(p) => p,
                Err(e) => return Err(e),
            };
            match self.comma() {
                Ok(()) => {},
                Err(e) => return Err(e),
            }
            if is_text(&prop, "I") {
                // set I, FONT[$x]
                match self.expect_ident("FONT") {
                    Ok(()) => {},
                    Err(e) => return Err(e),
                }
                match self.expect('[') {
                    Ok(()) => {},
                    Err(e) => return Err(e),
                }
                let x = match self.register() {
                    Ok(x) => x,
                    Err(e) => return Err(e),
                };
                match self.expect(']') {
                    Ok(()) => {},
                    Err(e) => return Err(e),
                }
                return Ok(Instr::SetFont(x));
            }
            // set DELAY, $x / set SOUND, $x
            let x = match self.register() {
                Ok(x) => x,
                Err(e) => return Err(e),
            };
            if is_text(&prop, "DELAY") {
                Ok(Instr::SetDelay(x))
            } else if is_text(&prop, "SOUND") {
                Ok(Instr::SetSound(x))
            } else {
                Err(self.error(prefix_msg("Expected either DELAY or SOUND but got ", &prop)))
            }
        }
    }

    /// Parses the operands of `add`: `$x, $y` or `I, $x`.
    fn parse_add(&mut self) -> (r: Result<Instr, ParseError>)
        requires
            old(self).wf(),
        ensures
            final(self).wf(),
            final(self).text() == old(self).text(),
            old(self).at() <= final(self).at(),
            agrees_instr(r, p_add(old(self).text(), old(self).at()), old(self).text(), final(self).at()),
    {
        proof { lemma_ws_end(self.text(), self.at()); }
        if self.peek_is_register() {
            match self.reg_reg() {
                Ok((x, y)) => Ok(Instr::Add(x, y)),
                Err(e) => Err(e),
            }
        } else {
            match self.expect('I') {
                Ok(()) => {},
                Err(e) => return Err(e),
            }
            match self.comma_then_register() {
                Ok(x) => Ok(Instr::AddMemI(x)),
                Err(e) => Err(e),
            }
        }
    }

    /// Parses `$x, $y` or `$x` (which stands for `$x, $0`) after a shift.
    fn parse_shift(&mut self, right: bool) -> (r: Result<Instr, ParseError>)
        requires
            old(self).wf(),
        ensures
            final(self).wf(),
            final(self).text() == old(self).text(),
            old(self).at() <= final(self).at(),
            agrees_instr(r, p_shift(old(self).text(), old(self).at(), right), old(self).text(), final(self).at()),
    {
        let x = match self.register() {
            Ok(x) => x,
            Err(e) => return Err(e),
        };
        if self.comma().is_ok() {
            let y = match self.register() {
                Ok(y) => y,
                Err(e) => return Err(e),
            };
            return if right {
                Ok(Instr::Srlf(x, y))
            } else {
                Ok(Instr::Sllf(x, y))
            };
        }
        if right {
            Ok(Instr::Srlf(x, 0))
        } else {
            Ok(Instr::Sllf(x, 0))
        }
    }
}


/// The views of parsed instructions agree with a specified program result.
pub open spec fn agrees_program(r: Result<Vec<Instr>, ParseError>, sp: Result<Seq<InstrV>, (int, ErrorKind)>, s: Seq<char>) -> bool {
    match (r, sp) {
        (Ok(v), Ok(w)) => instrs_view(v@) == w,
        (Err(e), Err((p, kind))) => error_is(e, s, p, kind),
        _ => false,
    }
}

impl<'a> Parser<'a> {
    /// The operands of the instruction `name`, or the `:` of a label.
    fn parse_operands(&mut self, name: String) -> (r: Result<Instr, ParseError>)
        requires
            old(self).wf(),
        ensures
            final(self).wf(),
            final(self).text() == old(self).text(),
            old(self).at() <= final(self).at(),
            agrees_instr(r, p_operands(old(self).text(), name@, old(self).at()), old(self).text(), final(self).at()),
    {
        proof { reveal(p_operands); }
        if is_text(&name, "cls") {
            Ok(Instr::Cls)
        } else if is_text(&name, "ret") {
            Ok(Instr::Ret)
        } else if is_text(&name, "j") {
            match self.addr() {
                Ok(a) => Ok(Instr::J(a)),
                Err(e) => Err(e),
            }
        } else if is_text(&name, "call") {
            match self.addr() {
                Ok(a) => Ok(Instr::Call(a)),
                Err(e) => Err(e),
            }
        } else if is_text(&name, "jri0") {
            match self.address() {
                Ok(n) => Ok(Instr::Jri0(n)),
                Err(e) => Err(e),
            }
        } else if is_text(&name, "jri") {
            match self.reg_byte() {
                Ok((x, b)) => Ok(Instr::Jri(x, b)),
                Err(e) => Err(e),
            }
        } else if is_text(&name, "seqi") {
            match self.reg_byte() {
                Ok((x, b)) => Ok(Instr::Seqi(x, b)),
                Err(e) => Err(e),
            }
        } else if is_text(&name, "snei") {
            match self.reg_byte() {
                Ok((x, b)) => Ok(Instr::Snei(x, b)),
                Err(e) => Err(e),
            }
        } else if is_text(&name, "seq") {
            match self.reg_reg() {
                Ok((x, y)) => Ok(Instr::SeqReg(x, y)),
                Err(e) => Err(e),
            }
        } else if is_text(&name, "sne") {
            match self.reg_reg() {
                Ok((x, y)) => Ok(Instr::Sne(x, y)),
                Err(e) => Err(e),
            }
        } else if is_text(&name, "sk") {
            match self.register() {
                Ok(x) => Ok(Instr::Sk(x)),
                Err(e) => Err(e),
            }
        } else if is_text(&name, "snk") {
            match self.register() {
                Ok(x) => Ok(Instr::Snk(x)),
                Err(e) => Err(e),
            }
        } else if is_text(&name, "seti") {
            self.parse_seti()
        } else if is_text(&name, "addi") {
            match self.reg_byte() {
                Ok((x, b)) => Ok(Instr::Addi(x, b)),
                Err(e) => Err(e),
            }
        } else if is_text(&name, "set") {
            self.parse_set()
        } else if is_text(&name, "or") {
            match self.reg_reg() {
                Ok((x, y)) => Ok(Instr::Or(x, y)),
                Err(e) => Err(e),
            }
        } else if is_text(&name, "and") {
            match self.reg_reg() {
                Ok((x, y)) => Ok(Instr::And(x, y)),
                Err(e) => Err(e),
            }
        } else if is_text(&name, "xor") {
            match self.reg_reg() {
                Ok((x, y)) => Ok(Instr::Xor(x, y)),
                Err(e) => Err(e),
            }
        } else if is_text(&name, "add") {
            self.parse_add()
        } else if is_text(&name, "subf") {
            match self.reg_reg() {
                Ok((x, y)) => Ok(Instr::Subf(x, y)),
                Err(e) => Err(e),
            }
        } else if is_text(&name, "srlf") {
            self.parse_shift(true)
        } else if is_text(&name, "subnf") {
            match self.reg_reg() {
                Ok((x, y)) => Ok(Instr::Subnf(x, y)),
                Err(e) => Err(e),
            }
        } else if is_text(&name, "sllf") {
            self.parse_shift(false)
        } else if is_text(&name, "rand") {
            match self.reg_byte() {
                Ok((x, b)) => Ok(Instr::Rand(x, b)),
                Err(e) => Err(e),
            }
        } else if is_text(&name, "sprite") {
            let (x, y) = match self.reg_reg() {
                Ok(p) => p,
                Err(e) => return Err(e),
            };
            match self.comma_then_nibble() {
                Ok(n) => Ok(Instr::Sprite(x, y, n)),
                Err(e) => Err(e),
            }
        } else if is_text(&name, "bcd") {
            match self.register() {
                Ok(x) => Ok(Instr::Bcd(x)),
                Err(e) => Err(e),
            }
        } else {
            let colon = match self.peek() {
                Some(c) => c == ':',
                None => false,
            };
            if colon {
                self.advance();
                Ok(Instr::Label(name))
            } else {
                Err(self.error(str_msg("unknown instruction `", &name, "`")))
            }
        }
    }

    /// One instruction, directive or label.
    fn parse_instr(&mut self) -> (r: Result<Instr, ParseError>)
        requires
            old(self).wf(),
        ensures
            final(self).wf(),
            final(self).text() == old(self).text(),
            old(self).at() <= final(self).at(),
            r is Ok ==> old(self).at() < final(self).at(),
            agrees_instr(r, p_instr(old(self).text(), old(self).at()), old(self).text(), final(self).at()),
    {
        proof { reveal(p_instr); }
        if self.consume('.') {
            let ident = match self.ident() {
                Ok(i) => i,
                Err(e) => return Err(e),
            };
            return if is_text(&ident, "word") {
                match self.word() {
                    Ok(w) => Ok(Instr::Word(w)),
                    Err(e) => Err(e),
                }
            } else if is_text(&ident, "byte") {
                match self.byte() {
                    Ok(b) => Ok(Instr::Byte(b)),
                    Err(e) => Err(e),
                }
            } else {
                Err(self.error(prefix_msg("Unknown directive ", &ident)))
            };
        }
        let ident = match self.ident() {
            Ok(i) => i,
            Err(e) => return Err(e),
        };
        self.parse_operands(ident)
    }

    /// Parses the whole remaining input: instructions, directives and labels,
    /// separated by whitespace and `#` comments; stops at the first error.
    pub fn parse(self) -> (r: Result<Vec<Instr>, ParseError>)
        requires
            self.wf(),
        ensures
            agrees_program(r, p_program(self.text(), self.at()), self.text()),
            r matches Err(e) ==> e.pos <= encode_utf8(self.text()).len()
                && is_char_boundary(encode_utf8(self.text()), e.pos as int),
    {
        let ghost s = self.text();
        let ghost i0 = self.at();
        let mut parser = self;
        let mut instrs: Vec<Instr> = Vec::new();
        loop
            invariant
                parser.wf(),
                parser.text() == s,
                s == self.text(),
                i0 == self.at(),
                0 <= i0 <= parser.at() <= s.len(),
                p_program(s, i0) == (match p_program(s, parser.at()) {
                    Ok(rest) => Ok(instrs_view(instrs@) + rest),
                    Err(e) => Err(e),
                }),
            decreases s.len() - parser.at(),
        {
            let ghost i = parser.at();
            proof { lemma_ws_end(s, i); }
            parser.skip_whitespace();
            if parser.eof() {
                assert(p_program(s, i) == Ok::<Seq<InstrV>, (int, ErrorKind)>(Seq::empty()));
                assert(instrs_view(instrs@) + Seq::<InstrV>::empty() =~= instrs_view(instrs@));
                return Ok(instrs);
            }
            let hash = match parser.peek() {
                Some(c) => c == '#',
                None => false,
            };
            if hash {
                let ghost j = parser.at();
                proof { lemma_comment_end(s, j); }
                parser.skip_comment();
                assert(p_program(s, i) == p_program(s, parser.at()));
            } else {
                let ghost j = parser.at();
                match parser.parse_instr() {
                    Ok(ins) => {
                        let ghost before = instrs_view(instrs@);
                        instrs.push(ins);
                        proof {
                            assert(instrs_view(instrs@) =~= before.push(ins@));
                            match p_program(s, parser.at()) {
                                Ok(rest) => {
                                    assert(before + (seq![ins@] + rest) =~= before.push(ins@) + rest);
                                },
                                Err(e) => {},
                            }
                        }
                    },
                    Err(e) => {
                        proof {
                            lemma_instr_in_text(s, j);
                            if let Err((p, _)) = p_instr(s, j) {
                                lemma_offset_is_boundary(s, p);
                            }
                        }
                        assert(p_program(s, i) == match p_instr(s, j) {
                            Err(e) => Err::<Seq<InstrV>, (int, ErrorKind)>(e),
                            Ok(_) => p_program(s, i),
                        });
                        return Err(e);
                    },
                }
            }
        }
    }
}


/// Where an error lies in the source, for display: the 1-based line number,
/// the byte range of that line (without its newline), and the byte column.
#[derive(Debug, Clone, Copy, PartialEq, Eq)]
pub struct ErrorLocation {
    pub line: usize,
    pub line_start: usize,
    pub line_end: usize,
    pub column: usize,
}

/// The number of newline bytes among the first `n` bytes of `b`.
pub open spec fn newlines(b: Seq<u8>, n: int) -> nat
    decreases n,
{
    if n <= 0 {
        0
    } else {
        newlines(b, n - 1) + if b[n - 1] == 10u8 { 1nat } else { 0nat }
    }
}

/// The index just after the last newline byte before `n`, or 0.
pub open spec fn line_start_before(b: Seq<u8>, n: int) -> int
    decreases n,
{
    if n <= 0 {
        0
    } else if b[n - 1] == 10u8 {
        n
    } else {
        line_start_before(b, n - 1)
    }
}

/// The index of the first newline byte at or after `n`, or the length of `b`.
pub open spec fn line_end_after(b: Seq<u8>, n: int) -> int
    decreases b.len() - n,
{
    if n >= b.len() {
        b.len() as int
    } else if b[n] == 10u8 {
        n
    } else {
        line_end_after(b, n + 1)
    }
}

proof fn lemma_newlines_bound(b: Seq<u8>, n: int)
    requires
        0 <= n,
    ensures
        newlines(b, n) <= n,
    decreases n,
{
    if n > 0 {
        lemma_newlines_bound(b, n - 1);
    }
}

proof fn lemma_line_start_bound(b: Seq<u8>, n: int)
    requires
        0 <= n,
    ensures
        0 <= line_start_before(b, n) <= n,
    decreases n,
{
    if n > 0 {
        lemma_line_start_bound(b, n - 1);
    }
}

impl ParseError {
    /// The line and column of the error in `source` (UTF-8 bytes, with `\n`
    /// ending lines).
    pub fn location(&self, source: &str) -> (loc: ErrorLocation)
        requires
            self.pos <= source.spec_bytes().len(),
            self.pos < usize::MAX,
        ensures
            loc.line == 1 + newlines(source.spec_bytes(), self.pos as int),
            loc.line_start == line_start_before(source.spec_bytes(), self.pos as int),
            loc.line_end == line_end_after(source.spec_bytes(), self.pos as int),
            loc.column == self.pos - loc.line_start,
    {
        let bytes = source.as_bytes();
        let ghost b = source.spec_bytes();
        let pos = self.pos;
        let mut count: usize = 0;
        let mut line_start: usize = 0;
        let mut k: usize = 0;
        while k < pos
            invariant
                bytes@ == b,
                pos <= b.len(),
                pos < usize::MAX,
                k <= pos,
                count == newlines(b, k as int),
                line_start == line_start_before(b, k as int),
            decreases pos - k,
        {
            proof { lemma_newlines_bound(b, k as int); }
            if bytes[k] == 10 {
                count += 1;
                line_start = k + 1;
            }
            k += 1;
        }
        let mut end: usize = pos;
        while end < bytes.len() && bytes[end] != 10
            invariant
                bytes@ == b,
                pos <= end <= b.len(),
                line_end_after(b, end as int) == line_end_after(b, pos as int),
            decreases b.len() - end,
        {
            end += 1;
        }
        proof {
            lemma_newlines_bound(b, pos as int);
            lemma_line_start_bound(b, pos as int);
        }
        ErrorLocation { line: count + 1, line_start, line_end: end, column: pos - line_start }
    }
}
} // verus!
