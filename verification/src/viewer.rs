//! The ROM byte viewer: one line per two-byte word, and the scrolling rules
//! of its pager.

use vstd::prelude::*;
use crate::text::{hex_seq, push_hex, push_hex_padded, zero_pad};

verus! {

/// `n` in upper-case hexadecimal, at least `width` digits.
pub open spec fn hex_field(n: nat, width: nat) -> Seq<char> {
    zero_pad(hex_seq(n, true), width)
}

/// `PC 0xAAA | HH LL | 0xHHLL` for the word at byte offset `2 * i`.
pub open spec fn dump_line(bytes: Seq<u8>, i: int) -> Seq<char> {
    let hi = bytes[2 * i];
    let lo = bytes[2 * i + 1];
    let pc = 0x200 + 2 * i;
    let op = hi as int * 256 + lo as int;
    "PC 0x"@ + hex_field(pc as nat, 3) + " | "@ + hex_field(hi as nat, 2) + " "@ + hex_field(lo as nat, 2)
        + " | 0x"@ + hex_field(op as nat, 4)
}

proof fn lemma_hex_three_digits(n: nat, upper: bool)
    requires
        n >= 0x100,
    ensures
        hex_seq(n, upper).len() >= 3,
{
    assert(n / 16 >= 16);
    assert(n / 16 / 16 >= 1);
    reveal_with_fuel(hex_seq, 3);
}

/// One line per complete two-byte word of `bytes` (a trailing odd byte is
/// left out), for a ROM loaded at `0x200`.
pub fn dump_lines(bytes: &[u8]) -> (lines: Vec<String>)
    requires
        bytes@.len() <= usize::MAX - 0x200,
    ensures
        lines@.len() == bytes@.len() / 2,
        forall|i: int| 0 <= i < lines@.len() ==> #[trigger] lines@[i]@ == dump_line(bytes@, i),
{
    let mut lines: Vec<String> = Vec::new();
    let mut i: usize = 0;
    while i < bytes.len() / 2
        invariant
            bytes@.len() <= usize::MAX - 0x200,
            i <= bytes@.len() / 2,
            lines@.len() == i,
            forall|j: int| 0 <= j < i ==> #[trigger] lines@[j]@ == dump_line(bytes@, j),
        decreases bytes@.len() / 2 - i,
    {
        let hi = bytes[2 * i];
        let lo = bytes[2 * i + 1];
        let pc = 0x200 + i * 2;
        let opcode = ((hi as u16) << 8) | (lo as u16);
        assert(((hi as u16) << 8u16) | (lo as u16) == hi as u16 * 256 + lo as u16) by (bit_vector);
        let mut line = String::from_str("PC 0x");
        push_hex(&mut line, pc as u64, true);
        proof {
            lemma_hex_three_digits(pc as nat, true);
        }
        line.append(" | ");
        push_hex_padded(&mut line, hi as u64, 2, true);
        line.append(" ");
        push_hex_padded(&mut line, lo as u64, 2, true);
        line.append(" | 0x");
        push_hex_padded(&mut line, opcode as u64, 4, true);
        assert(line@ == dump_line(bytes@, i as int));
        lines.push(line);
        i += 1;
    }
    lines
}

/// A pager key.
#[derive(Debug, Clone, Copy, PartialEq, Eq)]
pub enum ScrollKey {
    Up,
    Down,
    PageUp,
    PageDown,
}

/// The first line shown after `key`, from `offset`, with `page` lines on
/// screen and `total` lines in all.
pub open spec fn scrolled(offset: int, page: int, total: int, key: ScrollKey) -> int {
    match key {
        ScrollKey::Up => if offset >= 1 { offset - 1 } else { 0 },
        ScrollKey::Down => if offset + page < total { offset + 1 } else { offset },
        ScrollKey::PageUp => if offset >= page { offset - page } else { 0 },
        ScrollKey::PageDown => {
            let last = if total >= page { total - page } else { 0 };
            if offset + page < last { offset + page } else { last }
        },
    }
}

/// Moves the pager: one line up or down (down only while the page is not
/// at the end), or a page up or down (down at most to the last full page).
pub fn scroll(offset: usize, page: usize, total: usize, key: ScrollKey) -> (r: usize)
    requires
        offset + page <= usize::MAX,
    ensures
        r == scrolled(offset as int, page as int, total as int, key),
{
    match key {
        ScrollKey::Up => offset.saturating_sub(1),
        ScrollKey::Down => {
            if offset + page < total {
                offset + 1
            } else {
                offset
            }
        },
        ScrollKey::PageUp => offset.saturating_sub(page),
        ScrollKey::PageDown => {
            let last = total.saturating_sub(page);
            if offset + page < last {
                offset + page
            } else {
                last
            }
        },
    }
}

} // verus!
