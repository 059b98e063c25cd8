//! Character-level helpers shared by the assembler and the disassemblers:
//! digit values, character classes and number formatting.

use vstd::prelude::*;

verus! {

/// The character that stands for the digit `d` (`0 <= d < 16`) in
/// hexadecimal, in upper or lower case.
pub open spec fn hex_char(d: int, upper: bool) -> char {
    if d < 10 {
        (d + 48) as char
    } else if upper {
        (d - 10 + 65) as char
    } else {
        (d - 10 + 97) as char
    }
}

/// `n` written in base 16, without leading zeros (`0` is written `"0"`).
pub open spec fn hex_seq(n: nat, upper: bool) -> Seq<char>
    decreases n,
{
    if n < 16 {
        seq![hex_char(n as int, upper)]
    } else {
        hex_seq(n / 16, upper).push(hex_char((n % 16) as int, upper))
    }
}

/// `n` written in base 10, without leading zeros (`0` is written `"0"`).
pub open spec fn dec_seq(n: nat) -> Seq<char>
    decreases n,
{
    if n < 10 {
        seq![(n + 48) as char]
    } else {
        dec_seq(n / 10).push(((n % 10) + 48) as char)
    }
}

/// `s` preceded by as many `'0'` as it takes to reach `width` characters.
pub open spec fn zero_pad(s: Seq<char>, width: nat) -> Seq<char> {
    if s.len() >= width {
        s
    } else {
        Seq::new((width - s.len()) as nat, |k: int| '0') + s
    }
}

/// Appends one character to a string.
///
/// Calls `String::push`, which std documents as appending the character to
/// the end of the string.
#[verifier::external_body]
pub(crate) fn push_char(s: &mut String, c: char)
    ensures
        final(s)@ == old(s)@.push(c),
{
    s.push(c);
}

/// The hexadecimal digit character for `d`.
pub fn hex_digit(d: u64, upper: bool) -> (c: char)
    requires
        d < 16,
    ensures
        c == hex_char(d as int, upper),
{
    let b: u8 = d as u8;
    if b < 10 {
        (b + 48) as char
    } else if upper {
        (b - 10 + 65) as char
    } else {
        (b - 10 + 97) as char
    }
}

/// Appends `n` in base 16 (no leading zeros).
pub fn push_hex(s: &mut String, n: u64, upper: bool)
    ensures
        final(s)@ == old(s)@ + hex_seq(n as nat, upper),
    decreases n,
{
    if n >= 16 {
        push_hex(s, n / 16, upper);
    }
    push_char(s, hex_digit(n % 16, upper));
    proof {
        assert(old(s)@ + hex_seq(n as nat, upper) =~= s@);
    }
}

/// Appends `n` in base 10 (no leading zeros).
pub fn push_dec(s: &mut String, n: u64)
    ensures
        final(s)@ == old(s)@ + dec_seq(n as nat),
    decreases n,
{
    if n >= 10 {
        push_dec(s, n / 10);
    }
    let d: u8 = (n % 10) as u8;
    push_char(s, (d + 48) as char);
    proof {
        assert(old(s)@ + dec_seq(n as nat) =~= s@);
    }
}

/// The number of hexadecimal digits of `n`.
fn hex_len(n: u64) -> (r: u64)
    ensures
        r == hex_seq(n as nat, false).len(),
        r == hex_seq(n as nat, true).len(),
        1 <= r,
{
    let mut m: u64 = n;
    let mut r: u64 = 1;
    while m >= 16
        invariant
            m <= n,
            1 <= r,
            r + m <= n + 1,
            hex_seq(n as nat, false).len() == hex_seq(m as nat, false).len() + r - 1,
            hex_seq(n as nat, true).len() == hex_seq(m as nat, true).len() + r - 1,
        decreases m,
    {
        m = m / 16;
        r = r + 1;
    }
    r
}

/// Appends `n` in base 16, padded with leading zeros to `width` digits.
pub fn push_hex_padded(s: &mut String, n: u64, width: usize, upper: bool)
    ensures
        final(s)@ == old(s)@ + zero_pad(hex_seq(n as nat, upper), width as nat),
{
    let len = hex_len(n);
    let width = width as u64;
    let mut k: u64 = len;
    while k < width
        invariant
            len == hex_seq(n as nat, upper).len(),
            len <= k,
            k <= width || k == len,
            s@ == old(s)@ + Seq::new((k - len) as nat, |j: int| '0'),
        decreases width - k,
    {
        push_char(s, '0');
        k = k + 1;
        proof {
            assert(s@ =~= old(s)@ + Seq::new((k - len) as nat, |j: int| '0'));
        }
    }
    let ghost mid = s@;
    push_hex(s, n, upper);
    proof {
        if len >= width {
            assert(mid =~= old(s)@);
        }
        assert(s@ =~= old(s)@ + zero_pad(hex_seq(n as nat, upper), width as nat));
    }
}


/// `n` in base 16 (lower case) when `hex`, else in base 10.
pub open spec fn num_seq(n: nat, hex: bool) -> Seq<char> {
    if hex { hex_seq(n, false) } else { dec_seq(n) }
}

/// Appends `n` in base 16 (lower case) when `hex`, else in base 10.
pub fn push_num(s: &mut String, n: u64, hex: bool)
    ensures
        final(s)@ == old(s)@ + num_seq(n as nat, hex),
{
    if hex {
        push_hex(s, n, false);
    } else {
        push_dec(s, n);
    }
}

/// `a`, then `n`.
pub fn cat_n(a: &str, n: u64, hn: bool) -> (r: String)
    ensures
        r@ == a@ + num_seq(n as nat, hn),
{
    let mut r = String::from_str(a);
    push_num(&mut r, n, hn);
    r
}

/// `a`, then `n`, then `b`.
pub fn cat_n_s(a: &str, n: u64, hn: bool, b: &str) -> (r: String)
    ensures
        r@ == a@ + num_seq(n as nat, hn) + b@,
{
    let mut r = String::from_str(a);
    push_num(&mut r, n, hn);
    r.append(b);
    r
}

/// `a`, then `n`, then `b`, then `m`.
pub fn cat_n_s_n(a: &str, n: u64, hn: bool, b: &str, m: u64, hm: bool) -> (r: String)
    ensures
        r@ == a@ + num_seq(n as nat, hn) + b@ + num_seq(m as nat, hm),
{
    let mut r = String::from_str(a);
    push_num(&mut r, n, hn);
    r.append(b);
    push_num(&mut r, m, hm);
    r
}

/// `a`, `n`, `b`, `m`, `c`, `k`.
pub fn cat_n_s_n_s_n(a: &str, n: u64, hn: bool, b: &str, m: u64, hm: bool, c: &str, k: u64, hk: bool) -> (r: String)
    ensures
        r@ == a@ + num_seq(n as nat, hn) + b@ + num_seq(m as nat, hm) + c@ + num_seq(k as nat, hk),
{
    let mut r = String::from_str(a);
    push_num(&mut r, n, hn);
    r.append(b);
    push_num(&mut r, m, hm);
    r.append(c);
    push_num(&mut r, k, hk);
    r
}

/// `s` followed by spaces up to `width` characters (left-aligned field).
pub open spec fn pad_right(s: Seq<char>, width: nat) -> Seq<char> {
    if s.len() >= width {
        s
    } else {
        s + Seq::new((width - s.len()) as nat, |k: int| ' ')
    }
}

/// Appends `t` left-aligned in a field of `width` characters.
pub fn push_padded(s: &mut String, t: &String, width: usize)
    ensures
        final(s)@ == old(s)@ + pad_right(t@, width as nat),
{
    s.append(t.as_str());
    let len = t.as_str().unicode_len();
    let mut k: usize = len;
    while k < width
        invariant
            len == t@.len(),
            len <= k,
            k <= width || k == len,
            s@ == old(s)@ + t@ + Seq::new((k - len) as nat, |j: int| ' '),
        decreases width - k,
    {
        push_char(s, ' ');
        k = k + 1;
        assert(s@ =~= old(s)@ + t@ + Seq::new((k - len) as nat, |j: int| ' '));
    }
    proof {
        if len >= width {
            assert(Seq::new((k - len) as nat, |j: int| ' ') =~= Seq::<char>::empty());
        }
        assert(s@ =~= old(s)@ + pad_right(t@, width as nat));
    }
}
} // verus!
