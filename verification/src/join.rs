//! Joining programs: the parse of a text depends only on what follows the
//! position it starts at, and a program followed by a newline and another
//! program parses to the two programs' instructions, one after the other.

use vstd::prelude::*;
use crate::instr::InstrV;
use crate::parser::{
    comment_end, digits_end, ident_end, number_start, p_add, p_addr, p_address, p_byte, p_comma, p_expect,
    p_expect_ident, p_ident, p_instr, p_mem_i, p_nibble, p_number, p_operands, p_program, p_reg_byte, p_reg_reg,
    p_register, p_set, p_seti, p_shift, p_sprite, parse_program, reg_digit, ws_end, ErrorKind, PRes,
    lemma_instr_in_text, lemma_runs_in, lemma_ws_end,
};

verus! {

// ---------------------------------------------------------------------------
// A text after another

/// The outcome of a parse of `b`, read as a parse of a text that has `n`
/// more characters before `b`.
pub open spec fn shifted<T>(r: PRes<T>, n: int) -> PRes<T> {
    match r {
        Ok((v, k)) => Ok((v, k + n)),
        Err((p, e)) => Err((p + n, e)),
    }
}

/// The outcome of a whole-program parse of `b`, read in the same way.
pub open spec fn shifted_program(r: Result<Seq<InstrV>, (int, ErrorKind)>, n: int) -> Result<
    Seq<InstrV>,
    (int, ErrorKind),
> {
    match r {
        Ok(v) => Ok(v),
        Err((p, e)) => Err((p + n, e)),
    }
}

proof fn lemma_ws_after(a: Seq<char>, b: Seq<char>, k: int)
    requires
        a.len() <= k <= a.len() + b.len(),
    ensures
        ws_end(a + b, k) == a.len() + ws_end(b, k - a.len()),
    decreases a.len() + b.len() - k,
{
    if k < a.len() + b.len() {
        assert((a + b)[k] == b[k - a.len()]);
        lemma_ws_after(a, b, k + 1);
    }
}

proof fn lemma_ident_after(a: Seq<char>, b: Seq<char>, k: int)
    requires
        a.len() <= k <= a.len() + b.len(),
    ensures
        ident_end(a + b, k) == a.len() + ident_end(b, k - a.len()),
    decreases a.len() + b.len() - k,
{
    if k < a.len() + b.len() {
        assert((a + b)[k] == b[k - a.len()]);
        lemma_ident_after(a, b, k + 1);
    }
}

proof fn lemma_digits_after(a: Seq<char>, b: Seq<char>, k: int, base: nat)
    requires
        a.len() <= k <= a.len() + b.len(),
    ensures
        digits_end(a + b, k, base) == a.len() + digits_end(b, k - a.len(), base),
    decreases a.len() + b.len() - k,
{
    if k < a.len() + b.len() {
        assert((a + b)[k] == b[k - a.len()]);
        lemma_digits_after(a, b, k + 1, base);
    }
}

proof fn lemma_comment_after(a: Seq<char>, b: Seq<char>, k: int)
    requires
        a.len() <= k <= a.len() + b.len(),
    ensures
        comment_end(a + b, k) == a.len() + comment_end(b, k - a.len()),
    decreases a.len() + b.len() - k,
{
    if k < a.len() + b.len() {
        assert((a + b)[k] == b[k - a.len()]);
        lemma_comment_after(a, b, k + 1);
    }
}

proof fn lemma_runs_after(a: Seq<char>, b: Seq<char>)
    ensures
        forall|k: int| #![trigger ws_end(a + b, k)] a.len() <= k <= a.len() + b.len()
            ==> ws_end(a + b, k) == a.len() + ws_end(b, k - a.len()),
        forall|k: int| #![trigger ident_end(a + b, k)] a.len() <= k <= a.len() + b.len()
            ==> ident_end(a + b, k) == a.len() + ident_end(b, k - a.len()),
        forall|k: int, base: nat| #![trigger digits_end(a + b, k, base)] a.len() <= k <= a.len() + b.len()
            ==> digits_end(a + b, k, base) == a.len() + digits_end(b, k - a.len(), base),
        forall|k: int| #![trigger comment_end(a + b, k)] a.len() <= k <= a.len() + b.len()
            ==> comment_end(a + b, k) == a.len() + comment_end(b, k - a.len()),
        forall|j: int, e: int| #![trigger (a + b).subrange(j, e)] a.len() <= j <= e <= a.len() + b.len()
            ==> (a + b).subrange(j, e) == b.subrange(j - a.len(), e - a.len()),
{
    assert forall|k: int| a.len() <= k <= a.len() + b.len() implies #[trigger] ws_end(a + b, k) == a.len()
        + ws_end(b, k - a.len()) by {
        lemma_ws_after(a, b, k);
    }
    assert forall|k: int| a.len() <= k <= a.len() + b.len() implies #[trigger] ident_end(a + b, k) == a.len()
        + ident_end(b, k - a.len()) by {
        lemma_ident_after(a, b, k);
    }
    assert forall|k: int, base: nat| a.len() <= k <= a.len() + b.len() implies #[trigger] digits_end(a + b, k, base)
        == a.len() + digits_end(b, k - a.len(), base) by {
        lemma_digits_after(a, b, k, base);
    }
    assert forall|k: int| a.len() <= k <= a.len() + b.len() implies #[trigger] comment_end(a + b, k) == a.len()
        + comment_end(b, k - a.len()) by {
        lemma_comment_after(a, b, k);
    }
    assert forall|j: int, e: int| a.len() <= j <= e <= a.len() + b.len() implies #[trigger] (a + b).subrange(j, e)
        == b.subrange(j - a.len(), e - a.len()) by {
        assert((a + b).subrange(j, e) =~= b.subrange(j - a.len(), e - a.len()));
    }
}

proof fn lemma_tokens_after(a: Seq<char>, b: Seq<char>)
    ensures
        forall|k: int| #![trigger p_ident(a + b, k)] a.len() <= k <= a.len() + b.len()
            ==> p_ident(a + b, k) == shifted(p_ident(b, k - a.len()), a.len() as int),
        forall|k: int, c: char| #![trigger p_expect(a + b, k, c)] a.len() <= k <= a.len() + b.len()
            ==> p_expect(a + b, k, c) == shifted(p_expect(b, k - a.len(), c), a.len() as int),
        forall|k: int| #![trigger reg_digit(a + b, k)] a.len() <= k <= a.len() + b.len()
            ==> reg_digit(a + b, k) == shifted(reg_digit(b, k - a.len()), a.len() as int),
        forall|k: int| #![trigger number_start(a + b, k)] a.len() <= k <= a.len() + b.len()
            ==> number_start(a + b, k) == (number_start(b, k - a.len()).0, number_start(b, k - a.len()).1 + a.len()),
{
    lemma_runs_after(a, b);
    lemma_runs_in(b);
    let n = a.len() as int;
    assert forall|k: int| n <= k <= n + b.len() implies #[trigger] p_ident(a + b, k) == shifted(
        p_ident(b, k - n),
        n,
    ) by {
        let j = ws_end(b, k - n);
        if j < b.len() {
            assert((a + b)[n + j] == b[j]);
        }
    }
    assert forall|k: int, c: char| n <= k <= n + b.len() implies #[trigger] p_expect(a + b, k, c) == shifted(
        p_expect(b, k - n, c),
        n,
    ) by {
        let j = ws_end(b, k - n);
        if j < b.len() {
            assert((a + b)[n + j] == b[j]);
        }
    }
    assert forall|k: int| n <= k <= n + b.len() implies #[trigger] reg_digit(a + b, k) == shifted(
        reg_digit(b, k - n),
        n,
    ) by {
        if k < n + b.len() {
            assert((a + b)[k] == b[k - n]);
        }
    }
    assert forall|k: int| n <= k <= n + b.len() implies #[trigger] number_start(a + b, k) == (
        number_start(b, k - n).0,
        number_start(b, k - n).1 + n,
    ) by {
        if k < n + b.len() {
            assert((a + b)[k] == b[k - n]);
        }
        if k + 1 < n + b.len() {
            assert((a + b)[k + 1] == b[k + 1 - n]);
        }
    }
}

#[verifier::rlimit(60)]
#[verifier::spinoff_prover]
proof fn lemma_numbers_after(a: Seq<char>, b: Seq<char>)
    ensures
        forall|k: int, x: Seq<char>| #![trigger p_expect_ident(a + b, k, x)] a.len() <= k <= a.len() + b.len()
            ==> p_expect_ident(a + b, k, x) == shifted(p_expect_ident(b, k - a.len(), x), a.len() as int),
        forall|k: int| #![trigger p_comma(a + b, k)] a.len() <= k <= a.len() + b.len()
            ==> p_comma(a + b, k) == shifted(p_comma(b, k - a.len()), a.len() as int),
        forall|k: int| #![trigger p_register(a + b, k)] a.len() <= k <= a.len() + b.len()
            ==> p_register(a + b, k) == shifted(p_register(b, k - a.len()), a.len() as int),
        forall|k: int| #![trigger p_number(a + b, k)] a.len() <= k <= a.len() + b.len()
            ==> p_number(a + b, k) == shifted(p_number(b, k - a.len()), a.len() as int),
        forall|k: int| #![trigger p_byte(a + b, k)] a.len() <= k <= a.len() + b.len()
            ==> p_byte(a + b, k) == shifted(p_byte(b, k - a.len()), a.len() as int),
        forall|k: int| #![trigger p_nibble(a + b, k)] a.len() <= k <= a.len() + b.len()
            ==> p_nibble(a + b, k) == shifted(p_nibble(b, k - a.len()), a.len() as int),
        forall|k: int| #![trigger p_address(a + b, k)] a.len() <= k <= a.len() + b.len()
            ==> p_address(a + b, k) == shifted(p_address(b, k - a.len()), a.len() as int),
        forall|k: int| #![trigger p_addr(a + b, k)] a.len() <= k <= a.len() + b.len()
            ==> p_addr(a + b, k) == shifted(p_addr(b, k - a.len()), a.len() as int),
{
    lemma_runs_after(a, b);
    lemma_runs_in(b);
    lemma_tokens_after(a, b);
    let n = a.len() as int;
    assert forall|k: int, x: Seq<char>| n <= k <= n + b.len() implies #[trigger] p_expect_ident(a + b, k, x) == shifted(
        p_expect_ident(b, k - n, x),
        n,
    ) by {}
    assert forall|k: int| n <= k <= n + b.len() implies #[trigger] p_comma(a + b, k) == shifted(
        p_comma(b, k - n),
        n,
    ) by {}
    assert forall|k: int| n <= k <= n + b.len() implies #[trigger] p_register(a + b, k) == shifted(
        p_register(b, k - n),
        n,
    ) by {}
    assert forall|k: int| n <= k <= n + b.len() implies #[trigger] p_number(a + b, k) == shifted(
        p_number(b, k - n),
        n,
    ) by {}
    assert forall|k: int| n <= k <= n + b.len() implies #[trigger] p_byte(a + b, k) == shifted(
        p_byte(b, k - n),
        n,
    ) by {}
    assert forall|k: int| n <= k <= n + b.len() implies #[trigger] p_nibble(a + b, k) == shifted(
        p_nibble(b, k - n),
        n,
    ) by {}
    assert forall|k: int| n <= k <= n + b.len() implies #[trigger] p_address(a + b, k) == shifted(
        p_address(b, k - n),
        n,
    ) by {}
    assert forall|k: int| n <= k <= n + b.len() implies #[trigger] p_addr(a + b, k) == shifted(
        p_addr(b, k - n),
        n,
    ) by {}
}

#[verifier::rlimit(60)]
proof fn lemma_pairs_after(a: Seq<char>, b: Seq<char>)
    ensures
        forall|k: int| #![trigger p_reg_byte(a + b, k)] a.len() <= k <= a.len() + b.len()
            ==> p_reg_byte(a + b, k) == shifted(p_reg_byte(b, k - a.len()), a.len() as int),
        forall|k: int| #![trigger p_reg_reg(a + b, k)] a.len() <= k <= a.len() + b.len()
            ==> p_reg_reg(a + b, k) == shifted(p_reg_reg(b, k - a.len()), a.len() as int),
        forall|k: int| #![trigger p_mem_i(a + b, k)] a.len() <= k < a.len() + b.len()
            ==> p_mem_i(a + b, k) == shifted(p_mem_i(b, k - a.len()), a.len() as int),
{
    lemma_runs_after(a, b);
    lemma_runs_in(b);
    lemma_tokens_after(a, b);
    lemma_numbers_after(a, b);
    let n = a.len() as int;
    assert forall|k: int| n <= k <= n + b.len() implies #[trigger] p_reg_byte(a + b, k) == shifted(
        p_reg_byte(b, k - n),
        n,
    ) by {}
    assert forall|k: int| n <= k <= n + b.len() implies #[trigger] p_reg_reg(a + b, k) == shifted(
        p_reg_reg(b, k - n),
        n,
    ) by {}
    assert forall|k: int| n <= k < n + b.len() implies #[trigger] p_mem_i(a + b, k) == shifted(
        p_mem_i(b, k - n),
        n,
    ) by {}
}

#[verifier::rlimit(60)]
proof fn lemma_sprite_after(a: Seq<char>, b: Seq<char>)
    ensures
        forall|k: int| #![trigger p_sprite(a + b, k)] a.len() <= k <= a.len() + b.len()
            ==> p_sprite(a + b, k) == shifted(p_sprite(b, k - a.len()), a.len() as int),
{
    lemma_runs_after(a, b);
    lemma_runs_in(b);
    lemma_tokens_after(a, b);
    lemma_numbers_after(a, b);
    lemma_pairs_after(a, b);
    let n = a.len() as int;
    assert forall|k: int| n <= k <= n + b.len() implies #[trigger] p_sprite(a + b, k) == shifted(
        p_sprite(b, k - n),
        n,
    ) by {}
}

#[verifier::rlimit(60)]
proof fn lemma_seti_after(a: Seq<char>, b: Seq<char>)
    ensures
        forall|k: int| #![trigger p_seti(a + b, k)] a.len() <= k <= a.len() + b.len()
            ==> p_seti(a + b, k) == shifted(p_seti(b, k - a.len()), a.len() as int),
{
    lemma_runs_after(a, b);
    lemma_runs_in(b);
    lemma_tokens_after(a, b);
    lemma_numbers_after(a, b);
    lemma_pairs_after(a, b);
    let n = a.len() as int;
    assert forall|k: int| n <= k <= n + b.len() implies #[trigger] p_seti(a + b, k) == shifted(
        p_seti(b, k - n),
        n,
    ) by {}
}

#[verifier::rlimit(60)]
proof fn lemma_add_after(a: Seq<char>, b: Seq<char>)
    ensures
        forall|k: int| #![trigger p_add(a + b, k)] a.len() <= k <= a.len() + b.len()
            ==> p_add(a + b, k) == shifted(p_add(b, k - a.len()), a.len() as int),
{
    lemma_runs_after(a, b);
    lemma_runs_in(b);
    lemma_tokens_after(a, b);
    lemma_numbers_after(a, b);
    lemma_pairs_after(a, b);
    let n = a.len() as int;
    assert forall|k: int| n <= k <= n + b.len() implies #[trigger] p_add(a + b, k) == shifted(
        p_add(b, k - n),
        n,
    ) by {}
}

#[verifier::rlimit(60)]
proof fn lemma_shift_after(a: Seq<char>, b: Seq<char>)
    ensures
        forall|k: int, right: bool| #![trigger p_shift(a + b, k, right)] a.len() <= k <= a.len() + b.len()
            ==> p_shift(a + b, k, right) == shifted(p_shift(b, k - a.len(), right), a.len() as int),
{
    lemma_runs_after(a, b);
    lemma_runs_in(b);
    lemma_tokens_after(a, b);
    lemma_numbers_after(a, b);
    lemma_pairs_after(a, b);
    let n = a.len() as int;
    assert forall|k: int, right: bool| n <= k <= n + b.len() implies #[trigger] p_shift(a + b, k, right) == shifted(
        p_shift(b, k - n, right),
        n,
    ) by {}
}

#[verifier::rlimit(100)]
#[verifier::spinoff_prover]
proof fn lemma_set_after(a: Seq<char>, b: Seq<char>)
    ensures
        forall|k: int| #![trigger p_set(a + b, k)] a.len() <= k <= a.len() + b.len()
            ==> p_set(a + b, k) == shifted(p_set(b, k - a.len()), a.len() as int),
{
    lemma_runs_after(a, b);
    lemma_runs_in(b);
    lemma_tokens_after(a, b);
    lemma_numbers_after(a, b);
    lemma_pairs_after(a, b);
    let n = a.len() as int;
    assert forall|k: int| n <= k <= n + b.len() implies #[trigger] p_set(a + b, k) == shifted(
        p_set(b, k - n),
        n,
    ) by {}
}

#[verifier::rlimit(100)]
#[verifier::spinoff_prover]
proof fn lemma_operands_after(a: Seq<char>, b: Seq<char>, name: Seq<char>, k: int)
    requires
        a.len() <= k <= a.len() + b.len(),
    ensures
        p_operands(a + b, name, k) == shifted(p_operands(b, name, k - a.len()), a.len() as int),
{
    reveal(p_operands);
    lemma_runs_after(a, b);
    lemma_runs_in(b);
    lemma_tokens_after(a, b);
    lemma_numbers_after(a, b);
    lemma_pairs_after(a, b);
    lemma_sprite_after(a, b);
    lemma_seti_after(a, b);
    lemma_add_after(a, b);
    lemma_shift_after(a, b);
    lemma_set_after(a, b);
    if k < a.len() + b.len() {
        assert((a + b)[k] == b[k - a.len()]);
    }
}

proof fn lemma_instr_after(a: Seq<char>, b: Seq<char>, k: int)
    requires
        a.len() <= k <= a.len() + b.len(),
    ensures
        p_instr(a + b, k) == shifted(p_instr(b, k - a.len()), a.len() as int),
{
    reveal(p_instr);
    lemma_runs_in(b);
    lemma_tokens_after(a, b);
    lemma_numbers_after(a, b);
    let n = a.len() as int;
    if k < n + b.len() {
        assert((a + b)[k] == b[k - n]);
        if b[k - n] == '.' {
            match p_ident(b, k - n + 1) {
                Err(e) => {},
                Ok((d, j)) => {},
            }
        } else {
            match p_ident(b, k - n) {
                Err(e) => {},
                Ok((name, j)) => {
                    lemma_operands_after(a, b, name, j + n);
                },
            }
        }
    }
}

/// The program parsed from index `k` of `a + b`, where `k` lies in `b`, is the
/// program parsed from the same place in `b`: the parse never looks back.
pub proof fn lemma_program_after(a: Seq<char>, b: Seq<char>, k: int)
    requires
        a.len() <= k <= a.len() + b.len(),
    ensures
        p_program(a + b, k) == shifted_program(p_program(b, k - a.len()), a.len() as int),
    decreases a.len() + b.len() - k,
{
    let n = a.len() as int;
    let s = a + b;
    lemma_runs_after(a, b);
    lemma_runs_in(b);
    let j = ws_end(b, k - n);
    if j < b.len() {
        assert(s[j + n] == b[j]);
        if b[j] == '#' {
            let c = comment_end(b, j);
            if k - n < c <= b.len() {
                lemma_program_after(a, b, c + n);
            }
        } else {
            lemma_instr_after(a, b, j + n);
            match p_instr(b, j) {
                Err(e) => {},
                Ok((ins, e)) => {
                    if k - n < e <= b.len() {
                        lemma_program_after(a, b, e + n);
                    }
                },
            }
        }
    }
}

// ---------------------------------------------------------------------------
// A text before a newline and more text

/// `s` is `s1` followed by text that starts with a newline.
pub open spec fn newline_after(s: Seq<char>, s1: Seq<char>) -> bool {
    s.len() > s1.len() && s.subrange(0, s1.len() as int) == s1 && s[s1.len() as int] == '\n'
}

proof fn lemma_same_before(s: Seq<char>, s1: Seq<char>)
    requires
        newline_after(s, s1),
    ensures
        forall|j: int| #![trigger s1[j]] 0 <= j < s1.len() ==> s[j] == s1[j],
        forall|j: int, e: int| #![trigger s1.subrange(j, e)] 0 <= j <= e <= s1.len() ==> s.subrange(j, e) == s1.subrange(j, e),
{
    assert forall|j: int| 0 <= j < s1.len() implies s[j] == #[trigger] s1[j] by {
        assert(s.subrange(0, s1.len() as int)[j] == s[j]);
    }
    assert forall|j: int, e: int| 0 <= j <= e <= s1.len() implies s.subrange(j, e) == #[trigger] s1.subrange(j, e) by {
        assert(s.subrange(j, e) =~= s1.subrange(j, e));
    }
}

proof fn lemma_ws_before(s: Seq<char>, s1: Seq<char>, i: int)
    requires
        newline_after(s, s1),
        0 <= i <= s1.len(),
    ensures
        ws_end(s1, i) < s1.len() ==> ws_end(s, i) == ws_end(s1, i),
        ws_end(s1, i) >= s1.len() ==> ws_end(s, i) == ws_end(s, s1.len() as int),
    decreases s1.len() - i,
{
    lemma_same_before(s, s1);
    if i < s1.len() {
        assert(s[i] == s1[i]);
        lemma_ws_before(s, s1, i + 1);
    }
}

proof fn lemma_ident_before(s: Seq<char>, s1: Seq<char>, i: int)
    requires
        newline_after(s, s1),
        0 <= i <= s1.len(),
    ensures
        ident_end(s, i) == ident_end(s1, i),
    decreases s1.len() - i,
{
    lemma_same_before(s, s1);
    if i < s1.len() {
        assert(s[i] == s1[i]);
        lemma_ident_before(s, s1, i + 1);
    }
}

proof fn lemma_digits_before(s: Seq<char>, s1: Seq<char>, i: int, base: nat)
    requires
        newline_after(s, s1),
        0 <= i <= s1.len(),
    ensures
        digits_end(s, i, base) == digits_end(s1, i, base),
    decreases s1.len() - i,
{
    lemma_same_before(s, s1);
    if i < s1.len() {
        assert(s[i] == s1[i]);
        lemma_digits_before(s, s1, i + 1, base);
    }
}

proof fn lemma_comment_before(s: Seq<char>, s1: Seq<char>, i: int)
    requires
        newline_after(s, s1),
        0 <= i <= s1.len(),
    ensures
        comment_end(s, i) == comment_end(s1, i) || (comment_end(s1, i) == s1.len() && comment_end(s, i) == s1.len()
            + 1),
    decreases s1.len() - i,
{
    lemma_same_before(s, s1);
    if i < s1.len() {
        assert(s[i] == s1[i]);
        lemma_comment_before(s, s1, i + 1);
    }
}

proof fn lemma_runs_before(s: Seq<char>, s1: Seq<char>)
    requires
        newline_after(s, s1),
    ensures
        forall|i: int| #![trigger ws_end(s1, i)] 0 <= i <= s1.len() && ws_end(s1, i) < s1.len()
            ==> ws_end(s, i) == ws_end(s1, i),
        forall|i: int| #![trigger ident_end(s1, i)] 0 <= i <= s1.len() ==> ident_end(s, i) == ident_end(s1, i),
        forall|i: int, base: nat| #![trigger digits_end(s1, i, base)] 0 <= i <= s1.len()
            ==> digits_end(s, i, base) == digits_end(s1, i, base),
{
    assert forall|i: int| 0 <= i <= s1.len() && #[trigger] ws_end(s1, i) < s1.len() implies ws_end(s, i) == ws_end(
        s1,
        i,
    ) by {
        lemma_ws_before(s, s1, i);
    }
    assert forall|i: int| 0 <= i <= s1.len() implies ident_end(s, i) == #[trigger] ident_end(s1, i) by {
        lemma_ident_before(s, s1, i);
    }
    assert forall|i: int, base: nat| 0 <= i <= s1.len() implies digits_end(s, i, base) == #[trigger] digits_end(
        s1,
        i,
        base,
    ) by {
        lemma_digits_before(s, s1, i, base);
    }
}

/// A parse of `s1` that succeeds gives the same outcome on `s`.
pub open spec fn kept<T>(r: PRes<T>, r1: PRes<T>) -> bool {
    r1 is Ok ==> r == r1
}

proof fn lemma_tokens_before(s: Seq<char>, s1: Seq<char>)
    requires
        newline_after(s, s1),
    ensures
        forall|i: int| #![trigger p_ident(s1, i)] 0 <= i <= s1.len() ==> kept(p_ident(s, i), p_ident(s1, i)),
        forall|i: int, c: char| #![trigger p_expect(s1, i, c)] 0 <= i <= s1.len()
            ==> kept(p_expect(s, i, c), p_expect(s1, i, c)),
        forall|i: int| #![trigger reg_digit(s1, i)] 0 <= i <= s1.len() ==> kept(reg_digit(s, i), reg_digit(s1, i)),
{
    lemma_same_before(s, s1);
    lemma_runs_before(s, s1);
    lemma_runs_in(s1);
    assert forall|i: int| 0 <= i <= s1.len() implies kept(p_ident(s, i), #[trigger] p_ident(s1, i)) by {}
    assert forall|i: int, c: char| 0 <= i <= s1.len() implies kept(p_expect(s, i, c), #[trigger] p_expect(s1, i, c)) by {}
    assert forall|i: int| 0 <= i <= s1.len() implies kept(reg_digit(s, i), #[trigger] reg_digit(s1, i)) by {}
}

#[verifier::rlimit(60)]
#[verifier::spinoff_prover]
proof fn lemma_numbers_before(s: Seq<char>, s1: Seq<char>)
    requires
        newline_after(s, s1),
    ensures
        forall|i: int, x: Seq<char>| #![trigger p_expect_ident(s1, i, x)] 0 <= i <= s1.len() ==> kept(p_expect_ident(s, i, x), p_expect_ident(s1, i, x)),
        forall|i: int| #![trigger p_comma(s1, i)] 0 <= i <= s1.len() ==> kept(p_comma(s, i), p_comma(s1, i)),
        forall|i: int| #![trigger p_register(s1, i)] 0 <= i <= s1.len() ==> kept(p_register(s, i), p_register(s1, i)),
        forall|i: int| #![trigger p_number(s1, i)] 0 <= i <= s1.len() ==> kept(p_number(s, i), p_number(s1, i)),
        forall|i: int| #![trigger p_byte(s1, i)] 0 <= i <= s1.len() ==> kept(p_byte(s, i), p_byte(s1, i)),
        forall|i: int| #![trigger p_nibble(s1, i)] 0 <= i <= s1.len() ==> kept(p_nibble(s, i), p_nibble(s1, i)),
        forall|i: int| #![trigger p_address(s1, i)] 0 <= i <= s1.len() ==> kept(p_address(s, i), p_address(s1, i)),
        forall|i: int| #![trigger p_addr(s1, i)] 0 <= i <= s1.len() ==> kept(p_addr(s, i), p_addr(s1, i)),
{
    lemma_same_before(s, s1);
    lemma_runs_before(s, s1);
    lemma_runs_in(s1);
    lemma_tokens_before(s, s1);
    assert forall|i: int, x: Seq<char>| 0 <= i <= s1.len() implies kept(p_expect_ident(s, i, x), #[trigger] p_expect_ident(s1, i, x)) by {}
    assert forall|i: int| 0 <= i <= s1.len() implies kept(p_comma(s, i), #[trigger] p_comma(s1, i)) by {}
    assert forall|i: int| 0 <= i <= s1.len() implies kept(p_register(s, i), #[trigger] p_register(s1, i)) by {}
    assert forall|i: int| 0 <= i <= s1.len() implies kept(p_number(s, i), #[trigger] p_number(s1, i)) by {}
    assert forall|i: int| 0 <= i <= s1.len() implies kept(p_byte(s, i), #[trigger] p_byte(s1, i)) by {}
    assert forall|i: int| 0 <= i <= s1.len() implies kept(p_nibble(s, i), #[trigger] p_nibble(s1, i)) by {}
    assert forall|i: int| 0 <= i <= s1.len() implies kept(p_address(s, i), #[trigger] p_address(s1, i)) by {}
    assert forall|i: int| 0 <= i <= s1.len() implies kept(p_addr(s, i), #[trigger] p_addr(s1, i)) by {}
}

#[verifier::rlimit(60)]
#[verifier::spinoff_prover]
proof fn lemma_pairs_before(s: Seq<char>, s1: Seq<char>)
    requires
        newline_after(s, s1),
    ensures
        forall|i: int| #![trigger p_reg_byte(s1, i)] 0 <= i <= s1.len() ==> kept(p_reg_byte(s, i), p_reg_byte(s1, i)),
        forall|i: int| #![trigger p_reg_reg(s1, i)] 0 <= i <= s1.len() ==> kept(p_reg_reg(s, i), p_reg_reg(s1, i)),
        forall|i: int| #![trigger p_mem_i(s1, i)] 0 <= i < s1.len() ==> kept(p_mem_i(s, i), p_mem_i(s1, i)),
{
    lemma_same_before(s, s1);
    lemma_runs_before(s, s1);
    lemma_runs_in(s1);
    lemma_tokens_before(s, s1);
    lemma_numbers_before(s, s1);
    assert forall|i: int| 0 <= i <= s1.len() implies kept(p_reg_byte(s, i), #[trigger] p_reg_byte(s1, i)) by {}
    assert forall|i: int| 0 <= i <= s1.len() implies kept(p_reg_reg(s, i), #[trigger] p_reg_reg(s1, i)) by {}
    assert forall|i: int| 0 <= i < s1.len() implies kept(p_mem_i(s, i), #[trigger] p_mem_i(s1, i)) by {}
}

#[verifier::rlimit(60)]
#[verifier::spinoff_prover]
proof fn lemma_sprite_before(s: Seq<char>, s1: Seq<char>)
    requires
        newline_after(s, s1),
    ensures
        forall|i: int| #![trigger p_sprite(s1, i)] 0 <= i <= s1.len() ==> kept(p_sprite(s, i), p_sprite(s1, i)),
{
    lemma_same_before(s, s1);
    lemma_runs_before(s, s1);
    lemma_runs_in(s1);
    lemma_tokens_before(s, s1);
    lemma_numbers_before(s, s1);
    lemma_pairs_before(s, s1);
    assert forall|i: int| 0 <= i <= s1.len() implies kept(p_sprite(s, i), #[trigger] p_sprite(s1, i)) by {}
}

#[verifier::rlimit(60)]
#[verifier::spinoff_prover]
proof fn lemma_seti_before(s: Seq<char>, s1: Seq<char>)
    requires
        newline_after(s, s1),
    ensures
        forall|i: int| #![trigger p_seti(s1, i)] 0 <= i <= s1.len() ==> kept(p_seti(s, i), p_seti(s1, i)),
{
    lemma_same_before(s, s1);
    lemma_runs_before(s, s1);
    lemma_runs_in(s1);
    lemma_tokens_before(s, s1);
    lemma_numbers_before(s, s1);
    lemma_pairs_before(s, s1);
    assert forall|i: int| 0 <= i <= s1.len() implies kept(p_seti(s, i), #[trigger] p_seti(s1, i)) by {}
}

#[verifier::rlimit(60)]
#[verifier::spinoff_prover]
proof fn lemma_add_before(s: Seq<char>, s1: Seq<char>)
    requires
        newline_after(s, s1),
    ensures
        forall|i: int| #![trigger p_add(s1, i)] 0 <= i <= s1.len() ==> kept(p_add(s, i), p_add(s1, i)),
{
    lemma_same_before(s, s1);
    lemma_runs_before(s, s1);
    lemma_runs_in(s1);
    lemma_tokens_before(s, s1);
    lemma_numbers_before(s, s1);
    lemma_pairs_before(s, s1);
    assert forall|i: int| 0 <= i <= s1.len() implies kept(p_add(s, i), #[trigger] p_add(s1, i)) by {}
}

#[verifier::rlimit(60)]
#[verifier::spinoff_prover]
proof fn lemma_set_before(s: Seq<char>, s1: Seq<char>)
    requires
        newline_after(s, s1),
    ensures
        forall|i: int| #![trigger p_set(s1, i)] 0 <= i <= s1.len() ==> kept(p_set(s, i), p_set(s1, i)),
{
    lemma_same_before(s, s1);
    lemma_runs_before(s, s1);
    lemma_runs_in(s1);
    lemma_tokens_before(s, s1);
    lemma_numbers_before(s, s1);
    lemma_pairs_before(s, s1);
    assert forall|i: int| 0 <= i <= s1.len() implies kept(p_set(s, i), #[trigger] p_set(s1, i)) by {}
}

/// `r` is `r1` where `r1` succeeds, except that a parse of `s1` that stopped
/// at its end `n1` may stop, in `s`, after the whitespace that follows.
pub open spec fn kept_or_later<T>(r: PRes<T>, r1: PRes<T>, s: Seq<char>, n1: int) -> bool {
    match r1 {
        Ok((v, k)) => r == r1 || (k == n1 && r == PRes::<T>::Ok((v, ws_end(s, n1)))),
        Err(_) => true,
    }
}

/// In `s`, the first character after position `n1` that is not whitespace,
/// if any, is not a comma.
pub open spec fn no_comma_next(s: Seq<char>, n1: int) -> bool {
    ws_end(s, n1) >= s.len() || s[ws_end(s, n1)] != ','
}

#[verifier::spinoff_prover]
proof fn lemma_shift_before(s: Seq<char>, s1: Seq<char>, i: int, right: bool)
    requires
        newline_after(s, s1),
        no_comma_next(s, s1.len() as int),
        0 <= i <= s1.len(),
    ensures
        kept_or_later(p_shift(s, i, right), p_shift(s1, i, right), s, s1.len() as int),
{
    lemma_same_before(s, s1);
    lemma_runs_before(s, s1);
    lemma_runs_in(s1);
    lemma_tokens_before(s, s1);
    lemma_numbers_before(s, s1);
    match p_register(s1, i) {
        Err(e) => {},
        Ok((x, k1)) => {
            match p_comma(s1, k1) {
                Ok((_, k2)) => {},
                Err(_) => {
                    lemma_ws_before(s, s1, k1);
                    let j1 = ws_end(s1, k1);
                    if j1 < s1.len() {
                        assert(s[j1] == s1[j1]);
                    }
                },
            }
        },
    }
}

#[verifier::rlimit(60)]
#[verifier::spinoff_prover]
proof fn lemma_operands_before(s: Seq<char>, s1: Seq<char>, name: Seq<char>, k: int)
    requires
        newline_after(s, s1),
        no_comma_next(s, s1.len() as int),
        0 <= k <= s1.len(),
    ensures
        kept_or_later(p_operands(s, name, k), p_operands(s1, name, k), s, s1.len() as int),
{
    reveal(p_operands);
    lemma_same_before(s, s1);
    lemma_runs_in(s1);
    lemma_numbers_before(s, s1);
    lemma_pairs_before(s, s1);
    lemma_sprite_before(s, s1);
    lemma_seti_before(s, s1);
    lemma_add_before(s, s1);
    lemma_set_before(s, s1);
    lemma_shift_before(s, s1, k, true);
    lemma_shift_before(s, s1, k, false);
    if k < s1.len() {
        assert(s[k] == s1[k]);
    }
}

proof fn lemma_instr_before(s: Seq<char>, s1: Seq<char>, i: int)
    requires
        newline_after(s, s1),
        no_comma_next(s, s1.len() as int),
        0 <= i <= s1.len(),
    ensures
        kept_or_later(p_instr(s, i), p_instr(s1, i), s, s1.len() as int),
{
    reveal(p_instr);
    lemma_same_before(s, s1);
    lemma_runs_in(s1);
    lemma_tokens_before(s, s1);
    lemma_numbers_before(s, s1);
    if i < s1.len() {
        assert(s[i] == s1[i]);
        if s1[i] == '.' {
        } else {
            match p_ident(s1, i) {
                Err(e) => {},
                Ok((name, j)) => {
                    lemma_operands_before(s, s1, name, j);
                },
            }
        }
    }
}

proof fn lemma_ws_mid(s: Seq<char>, x: int, y: int)
    requires
        0 <= x <= y <= ws_end(s, x),
        x <= s.len(),
    ensures
        ws_end(s, y) == ws_end(s, x),
    decreases y - x,
{
    if x < y {
        lemma_ws_mid(s, x + 1, y);
    }
}

/// Whitespace before the next instruction does not change the program that
/// follows.
proof fn lemma_program_skip_ws(s: Seq<char>, x: int, y: int)
    requires
        0 <= x <= y <= ws_end(s, x),
        x <= s.len(),
    ensures
        p_program(s, x) == p_program(s, y),
{
    lemma_runs_in(s);
    lemma_ws_mid(s, x, y);
    let j = ws_end(s, x);
    if j < s.len() {
        if s[j] != '#' {
            lemma_instr_in_text(s, j);
        } else {
            lemma_comment_end_after(s, j);
        }
    }
}

proof fn lemma_comment_end_after(s: Seq<char>, j: int)
    requires
        0 <= j < s.len(),
    ensures
        j < comment_end(s, j) <= s.len(),
    decreases s.len() - j,
{
    if s[j] != '\n' {
        if j + 1 < s.len() {
            lemma_comment_end_after(s, j + 1);
        } else {
            assert(comment_end(s, j + 1) == j + 1);
        }
    }
}

/// A program of `s1` that parses: in `s`, where a newline and more text
/// follow `s1`, the same instructions come first, then what follows.
#[verifier::spinoff_prover]
proof fn lemma_program_before(s: Seq<char>, s1: Seq<char>, i: int)
    requires
        newline_after(s, s1),
        no_comma_next(s, s1.len() as int),
        0 <= i <= s1.len(),
        p_program(s1, i) is Ok,
    ensures
        p_program(s, i) == match p_program(s, s1.len() as int) {
            Ok(rest) => Ok(p_program(s1, i)->Ok_0 + rest),
            Err(e) => Err(e),
        },
    decreases s1.len() - i,
{
    let n1 = s1.len() as int;
    lemma_same_before(s, s1);
    lemma_runs_in(s1);
    lemma_runs_in(s);
    lemma_ws_before(s, s1, i);
    lemma_ws_run_nl(s, n1);
    let j = ws_end(s1, i);
    if j >= n1 {
        lemma_program_skip_ws(s, n1, ws_end(s, n1));
        lemma_program_skip_ws(s, i, ws_end(s, n1));
        assert(p_program(s1, i)->Ok_0 =~= Seq::<InstrV>::empty());
        match p_program(s, n1) {
            Ok(rest) => {
                assert(Seq::<InstrV>::empty() + rest =~= rest);
            },
            Err(e) => {},
        }
    } else if s1[j] == '#' {
        assert(s[j] == s1[j]);
        let c = comment_end(s1, j);
        lemma_comment_end_after(s1, j);
        lemma_comment_before(s, s1, j);
        assert(i < c <= n1);
        lemma_program_before(s, s1, c);
        if comment_end(s, j) != c {
            lemma_program_skip_ws(s, n1, n1 + 1);
            assert(p_program(s1, c)->Ok_0 =~= Seq::<InstrV>::empty());
        }
    } else {
        assert(s[j] == s1[j]);
        lemma_instr_before(s, s1, j);
        lemma_instr_in_text(s1, j);
        let k = p_instr(s1, j)->Ok_0.1;
        let ins = p_instr(s1, j)->Ok_0.0;
        assert(i < k <= n1);
        lemma_program_before(s, s1, k);
        if p_instr(s, j) != p_instr(s1, j) {
            lemma_program_skip_ws(s, n1, ws_end(s, n1));
            assert(p_program(s1, k)->Ok_0 =~= Seq::<InstrV>::empty());
        }
        match p_program(s, n1) {
            Ok(rest) => {
                assert(seq![ins] + (p_program(s1, k)->Ok_0 + rest) =~= (seq![ins] + p_program(s1, k)->Ok_0) + rest);
            },
            Err(e) => {},
        }
    }
}

proof fn lemma_ws_run_nl(s: Seq<char>, n1: int)
    requires
        0 <= n1 < s.len(),
        s[n1] == '\n',
    ensures
        n1 + 1 <= ws_end(s, n1),
        ws_end(s, n1) == ws_end(s, n1 + 1),
{
    lemma_ws_end(s, n1 + 1);
}

/// Joining two programs that parse with a newline between them parses to
/// the instructions of the first, then those of the second.
pub proof fn lemma_join_programs(s1: Seq<char>, s2: Seq<char>)
    requires
        parse_program(s1) is Ok,
        parse_program(s2) is Ok,
    ensures
        parse_program(s1 + "\n"@ + s2) == Ok::<Seq<InstrV>, (int, ErrorKind)>(
            parse_program(s1)->Ok_0 + parse_program(s2)->Ok_0,
        ),
{
    reveal_strlit("\n");
    let a = s1 + "\n"@;
    let s = a + s2;
    let n1 = s1.len() as int;
    assert(s.subrange(0, n1) =~= s1);
    assert(s[n1] == '\n');
    lemma_runs_in(s2);
    lemma_runs_in(s);
    lemma_runs_after(a, s2);
    lemma_program_after(a, s2, n1 + 1);
    lemma_ws_run_nl(s, n1);
    // the second program does not start with a comma
    let j2 = ws_end(s2, 0);
    if j2 < s2.len() && s2[j2] == ',' {
        reveal(p_instr);
        lemma_ws_end(s2, 0);
        assert(s2[j2] != '#');
        assert(p_instr(s2, j2) is Err);
        assert(false);
    }
    assert(ws_end(s, n1 + 1) == n1 + 1 + j2);
    if j2 < s2.len() {
        assert(s[n1 + 1 + j2] == s2[j2]);
    }
    lemma_program_before(s, s1, 0);
    lemma_program_skip_ws(s, n1, n1 + 1);
}

} // verus!
