//! The token grammar shared by the header and the ASCII pixel decoders.
//!
//! A token is a maximal run of bytes that are neither whitespace nor `#`.
//! Tokens are separated by runs of whitespace and of comments (`#` up to and
//! including the next line end).  Exactly one whitespace byte is consumed
//! after a token; that convention is what makes the pixel data offset of a
//! binary file land on the byte right after the separator that terminates
//! the last header token.

use vstd::prelude::*;

use crate::cursor::{
    spec_is_comment_start, spec_is_line_end, spec_is_token_byte, spec_is_whitespace, ByteCursor,
    is_line_end, is_whitespace,
};

verus! {

/// The position just past a comment whose body starts at `p` (the byte after
/// the `#`): one past the first line end at or after `p`, or the end of the
/// input if the comment is never closed.
pub open spec fn spec_comment_end(s: Seq<u8>, p: nat) -> nat
    decreases s.len() - p,
{
    if p >= s.len() {
        s.len()
    } else if spec_is_line_end(s[p as int]) {
        (p + 1) as nat
    } else {
        spec_comment_end(s, (p + 1) as nat)
    }
}

/// The comment scan stays within the input and never moves backwards.
proof fn lemma_comment_end_bounds(s: Seq<u8>, p: nat)
    requires
        p <= s.len(),
    ensures
        p <= spec_comment_end(s, p) <= s.len(),
    decreases s.len() - p,
{
    if p < s.len() && !spec_is_line_end(s[p as int]) {
        lemma_comment_end_bounds(s, (p + 1) as nat);
    }
}

/// The position of the next token byte at or after `p`, with every
/// whitespace run and comment before it skipped; the end of the input if
/// only separators remain.
pub open spec fn spec_skip_separators(s: Seq<u8>, p: nat) -> nat
    decreases s.len() - p,
    via spec_skip_separators_decreases
{
    if p >= s.len() {
        s.len()
    } else if spec_is_whitespace(s[p as int]) {
        spec_skip_separators(s, (p + 1) as nat)
    } else if spec_is_comment_start(s[p as int]) {
        spec_skip_separators(s, spec_comment_end(s, (p + 1) as nat))
    } else {
        p
    }
}

#[via_fn]
proof fn spec_skip_separators_decreases(s: Seq<u8>, p: nat) {
    if p < s.len() && !spec_is_whitespace(s[p as int]) && spec_is_comment_start(s[p as int]) {
        lemma_comment_end_bounds(s, (p + 1) as nat);
    }
}

/// Skipping stays within the input, never moves backwards, and stops either
/// at the end of the input or on a token byte.
pub proof fn lemma_skip_separators_bounds(s: Seq<u8>, p: nat)
    requires
        p <= s.len(),
    ensures
        p <= spec_skip_separators(s, p) <= s.len(),
        spec_skip_separators(s, p) < s.len() ==> spec_is_token_byte(
            s[spec_skip_separators(s, p) as int],
        ),
    decreases s.len() - p,
{
    if p < s.len() {
        if spec_is_whitespace(s[p as int]) {
            lemma_skip_separators_bounds(s, (p + 1) as nat);
        } else if spec_is_comment_start(s[p as int]) {
            lemma_comment_end_bounds(s, (p + 1) as nat);
            lemma_skip_separators_bounds(s, spec_comment_end(s, (p + 1) as nat));
        }
    }
}

/// The position of the first byte at or after `p` that cannot belong to a
/// token: the first whitespace, `#`, or the end of the input.
pub open spec fn spec_token_end(s: Seq<u8>, p: nat) -> nat
    decreases s.len() - p,
{
    if p >= s.len() {
        s.len()
    } else if spec_is_token_byte(s[p as int]) {
        spec_token_end(s, (p + 1) as nat)
    } else {
        p
    }
}

/// The token scan stays within the input, never moves backwards, covers only
/// token bytes, and stops either at the end of the input or on a separator.
proof fn lemma_token_end_bounds(s: Seq<u8>, p: nat)
    requires
        p <= s.len(),
    ensures
        p <= spec_token_end(s, p) <= s.len(),
        forall|i: int| p <= i < spec_token_end(s, p) ==> spec_is_token_byte(s[i]),
        spec_token_end(s, p) < s.len() ==> !spec_is_token_byte(s[spec_token_end(s, p) as int]),
    decreases s.len() - p,
{
    if p < s.len() && spec_is_token_byte(s[p as int]) {
        lemma_token_end_bounds(s, (p + 1) as nat);
    }
}

/// The next token at or after `p`, if any: its bytes and the position at
/// which scanning resumes.  When the token is terminated by a whitespace
/// byte, that single byte is consumed too; a terminating `#` or the end of
/// the input is not consumed.
pub open spec fn spec_next_token(s: Seq<u8>, p: nat) -> Option<(Seq<u8>, nat)> {
    let q = spec_skip_separators(s, p);
    if q >= s.len() {
        None
    } else {
        let e = spec_token_end(s, q);
        let next = if e < s.len() && spec_is_whitespace(s[e as int]) {
            (e + 1) as nat
        } else {
            e
        };
        Some((s.subrange(q as int, e as int), next))
    }
}

/// A token is nonempty and reading it advances the position — past the
/// separators before it too — while staying within the input.
proof fn lemma_next_token_advances(s: Seq<u8>, p: nat)
    requires
        p <= s.len(),
    ensures
        spec_next_token(s, p) matches Some(t) ==> {
            &&& t.0.len() >= 1
            &&& p < t.1 <= s.len()
            &&& spec_skip_separators(s, p) < t.1
        },
{
    lemma_skip_separators_bounds(s, p);
    let q = spec_skip_separators(s, p);
    if q < s.len() {
        lemma_token_end_bounds(s, q);
        assert(spec_token_end(s, q) >= q + 1) by {
            assert(spec_is_token_byte(s[q as int]));
        }
    }
}

/// True when every byte of `t` is an ASCII decimal digit.
pub open spec fn spec_all_digits(t: Seq<u8>) -> bool {
    forall|i: int| 0 <= i < t.len() ==> spec_is_digit(t[i])
}

/// True of the ASCII bytes `0` through `9`.
pub open spec fn spec_is_digit(b: u8) -> bool {
    0x30 <= b <= 0x39
}

/// The numeric value of `t` read as decimal digits, most significant first.
pub open spec fn spec_digits_value(t: Seq<u8>) -> nat
    decreases t.len(),
{
    if t.len() == 0 {
        0
    } else {
        spec_digits_value(t.drop_last()) * 10 + (t.last() - 0x30) as nat
    }
}

/// Reading one more digit multiplies the value by ten and adds the digit.
proof fn lemma_digits_value_push(t: Seq<u8>, b: u8)
    ensures
        spec_digits_value(t.push(b)) == spec_digits_value(t) * 10 + (b - 0x30) as nat,
{
    assert(t.push(b).drop_last() =~= t);
    assert(t.push(b).last() == b);
}

/// The outcome of reading one integer token.
pub ghost enum SpecIntToken {
    /// A token was read; `v` is its value and `next` the position at which
    /// scanning resumes.
    Value { v: nat, next: nat },
    /// A token was read but it is not a non-negative integer below `2^32`.
    Malformed,
    /// Only separators remained before the end of the input.
    EndOfInput,
}

/// Reads the next token as a non-negative integer.  A token containing a
/// non-digit byte, or whose value does not fit in 32 bits, is malformed.
pub open spec fn spec_next_uint(s: Seq<u8>, p: nat) -> SpecIntToken {
    match spec_next_token(s, p) {
        None => SpecIntToken::EndOfInput,
        Some(t) => {
            if spec_all_digits(t.0) && spec_digits_value(t.0) < 0x1_0000_0000 {
                SpecIntToken::Value { v: spec_digits_value(t.0), next: t.1 }
            } else {
                SpecIntToken::Malformed
            }
        },
    }
}

/// Reading an integer token advances the position — past the separators
/// before it too — while staying within the input.
pub proof fn lemma_next_uint_advances(s: Seq<u8>, p: nat)
    requires
        p <= s.len(),
    ensures
        spec_next_uint(s, p) matches SpecIntToken::Value { v, next } ==> {
            &&& p < next <= s.len()
            &&& spec_skip_separators(s, p) < next
        },
{
    lemma_next_token_advances(s, p);
}

/// True when `s2` is `s1` with `d` bytes inserted somewhere before
/// position `b` of `s1`: past `b`, the two inputs agree, shifted by `d`.
pub open spec fn spec_suffixes_agree(s1: Seq<u8>, s2: Seq<u8>, d: nat, b: nat) -> bool {
    &&& s2.len() == s1.len() + d
    &&& forall|i: int| b <= i < s1.len() ==> s2[i + d] == s1[i]
}

/// Where the two inputs agree, the comment scan lands on agreeing
/// positions.
proof fn lemma_shift_comment_end(s1: Seq<u8>, s2: Seq<u8>, d: nat, b: nat, q: nat)
    requires
        spec_suffixes_agree(s1, s2, d, b),
        b <= q <= s1.len(),
    ensures
        spec_comment_end(s2, q + d) == spec_comment_end(s1, q) + d,
    decreases s1.len() - q,
{
    if q < s1.len() && !spec_is_line_end(s1[q as int]) {
        lemma_shift_comment_end(s1, s2, d, b, q + 1);
    }
}

/// Where the two inputs agree, separator skipping lands on agreeing
/// positions.
pub proof fn lemma_shift_skip_separators(s1: Seq<u8>, s2: Seq<u8>, d: nat, b: nat, q: nat)
    requires
        spec_suffixes_agree(s1, s2, d, b),
        b <= q <= s1.len(),
    ensures
        spec_skip_separators(s2, q + d) == spec_skip_separators(s1, q) + d,
    decreases s1.len() - q,
{
    if q < s1.len() {
        if spec_is_whitespace(s1[q as int]) {
            lemma_shift_skip_separators(s1, s2, d, b, q + 1);
        } else if spec_is_comment_start(s1[q as int]) {
            lemma_comment_end_bounds(s1, q + 1);
            lemma_shift_comment_end(s1, s2, d, b, q + 1);
            lemma_shift_skip_separators(s1, s2, d, b, spec_comment_end(s1, q + 1));
        }
    }
}

/// Where the two inputs agree, the token scan lands on agreeing positions.
proof fn lemma_shift_token_end(s1: Seq<u8>, s2: Seq<u8>, d: nat, b: nat, q: nat)
    requires
        spec_suffixes_agree(s1, s2, d, b),
        b <= q <= s1.len(),
    ensures
        spec_token_end(s2, q + d) == spec_token_end(s1, q) + d,
    decreases s1.len() - q,
{
    if q < s1.len() && spec_is_token_byte(s1[q as int]) {
        lemma_shift_token_end(s1, s2, d, b, q + 1);
    }
}

/// Two scans whose separator skipping lands on agreeing positions read the
/// same token, or both reach the end of the input.
proof fn lemma_shift_next_token(
    s1: Seq<u8>,
    s2: Seq<u8>,
    d: nat,
    b: nat,
    p1: nat,
    p2: nat,
)
    requires
        spec_suffixes_agree(s1, s2, d, b),
        p1 <= s1.len(),
        p2 <= s2.len(),
        spec_skip_separators(s2, p2) == spec_skip_separators(s1, p1) + d,
        b <= spec_skip_separators(s1, p1),
    ensures
        match (spec_next_token(s1, p1), spec_next_token(s2, p2)) {
            (Some(t1), Some(t2)) => {
                &&& t2.0 == t1.0
                &&& t2.1 == t1.1 + d
            },
            (None, None) => true,
            _ => false,
        },
{
    let q1 = spec_skip_separators(s1, p1);
    lemma_skip_separators_bounds(s1, p1);
    if q1 < s1.len() {
        lemma_shift_token_end(s1, s2, d, b, q1);
        let e1 = spec_token_end(s1, q1);
        lemma_token_end_bounds(s1, q1);
        assert(s1.subrange(q1 as int, e1 as int) =~= s2.subrange(
            (q1 + d) as int,
            (e1 + d) as int,
        ));
        if e1 < s1.len() {
            assert(s2[(e1 + d) as int] == s1[e1 as int]);
        }
    }
}

/// Two scans whose separator skipping lands on agreeing positions read the
/// same integer token, malformed or missing in one exactly when in the
/// other.
pub proof fn lemma_shift_next_uint(s1: Seq<u8>, s2: Seq<u8>, d: nat, b: nat, p1: nat, p2: nat)
    requires
        spec_suffixes_agree(s1, s2, d, b),
        p1 <= s1.len(),
        p2 <= s2.len(),
        spec_skip_separators(s2, p2) == spec_skip_separators(s1, p1) + d,
        b <= spec_skip_separators(s1, p1),
    ensures
        match (spec_next_uint(s1, p1), spec_next_uint(s2, p2)) {
            (SpecIntToken::Value { v: v1, next: n1 }, SpecIntToken::Value { v: v2, next: n2 }) => {
                &&& v2 == v1
                &&& n2 == n1 + d
            },
            (SpecIntToken::Malformed, SpecIntToken::Malformed) => true,
            (SpecIntToken::EndOfInput, SpecIntToken::EndOfInput) => true,
            _ => false,
        },
{
    lemma_shift_next_token(s1, s2, d, b, p1, p2);
}

/// The outcome of reading one integer token with a cursor.
#[derive(Clone, Copy, Debug, PartialEq, Eq, Structural)]
pub enum IntToken {
    /// A token was read and parsed.
    Value(u32),
    /// A token was read but it is not a non-negative integer below `2^32`.
    Malformed,
    /// Only separators remained before the end of the input.
    EndOfInput,
}

/// Advances the cursor past separators and comments, leaving it at the next
/// token byte or at the end of the input.
fn skip_separators(cur: &mut ByteCursor<'_>)
    requires
        old(cur).wf(),
    ensures
        final(cur).wf(),
        final(cur).data() == old(cur).data(),
        final(cur).spec_pos() == spec_skip_separators(old(cur).data(), old(cur).spec_pos()),
{
    let ghost s = cur.data();
    let ghost p0 = cur.spec_pos();
    loop
        invariant
            cur.wf(),
            cur.data() == s,
            spec_skip_separators(s, p0) == spec_skip_separators(s, cur.spec_pos()),
        ensures
            cur.wf(),
            cur.data() == s,
            cur.spec_pos() == spec_skip_separators(s, p0),
        decreases s.len() - cur.spec_pos(),
    {
        match cur.peek() {
            None => {
                break ;
            },
            Some(b) => {
                if is_whitespace(b) {
                    let _ = cur.next_byte();
                } else if crate::cursor::is_comment_start(b) {
                    let _ = cur.next_byte();
                    let ghost c0 = cur.spec_pos();
                    loop
                        invariant_except_break
                            spec_comment_end(s, c0) == spec_comment_end(s, cur.spec_pos()),
                        invariant
                            cur.wf(),
                            cur.data() == s,
                        ensures
                            cur.wf(),
                            cur.data() == s,
                            cur.spec_pos() == spec_comment_end(s, c0),
                        decreases s.len() - cur.spec_pos(),
                    {
                        match cur.next_byte() {
                            None => {
                                break ;
                            },
                            Some(c) => {
                                if is_line_end(c) {
                                    break ;
                                }
                            },
                        }
                    }
                    proof {
                        lemma_comment_end_bounds(s, c0);
                    }
                } else {
                    break ;
                }
            },
        }
    }
}

/// Reads the next whitespace/comment-delimited token and parses it as a
/// non-negative integer, exactly as [`spec_next_uint`] describes.
pub fn read_uint_token(cur: &mut ByteCursor<'_>) -> (r: IntToken)
    requires
        old(cur).wf(),
    ensures
        final(cur).wf(),
        final(cur).data() == old(cur).data(),
        match spec_next_uint(old(cur).data(), old(cur).spec_pos()) {
            SpecIntToken::Value { v, next } => {
                &&& r == IntToken::Value(v as u32)
                &&& final(cur).spec_pos() == next
            },
            SpecIntToken::Malformed => r == IntToken::Malformed,
            SpecIntToken::EndOfInput => {
                &&& r == IntToken::EndOfInput
                &&& final(cur).spec_pos() == old(cur).data().len()
            },
        },
{
    let ghost s = cur.data();
    let ghost p0 = cur.spec_pos();
    proof {
        cur.lemma_wf_pos();
    }
    skip_separators(cur);
    let ghost q = cur.spec_pos();
    proof {
        lemma_skip_separators_bounds(s, p0);
    }
    if cur.peek().is_none() {
        return IntToken::EndOfInput;
    }
    let ghost e = spec_token_end(s, q);
    proof {
        lemma_token_end_bounds(s, q);
    }
    let mut val: u64 = 0;
    let mut nondigit: bool = false;
    let mut overflow: bool = false;
    loop
        invariant
            cur.wf(),
            cur.data() == s,
            q <= cur.spec_pos() <= e,
            e == spec_token_end(s, q),
            e <= s.len(),
            forall|i: int| q <= i < e ==> spec_is_token_byte(s[i]),
            e < s.len() ==> !spec_is_token_byte(s[e as int]),
            !nondigit ==> spec_all_digits(s.subrange(q as int, cur.spec_pos() as int)),
            nondigit ==> !spec_all_digits(s.subrange(q as int, e as int)),
            !nondigit && !overflow ==> {
                &&& val == spec_digits_value(s.subrange(q as int, cur.spec_pos() as int))
                &&& val < 0x1_0000_0000
            },
            !nondigit && overflow ==> spec_digits_value(s.subrange(q as int, cur.spec_pos() as int))
                >= 0x1_0000_0000,
        ensures
            cur.wf(),
            cur.data() == s,
            cur.spec_pos() == e,
            !nondigit ==> spec_all_digits(s.subrange(q as int, e as int)),
            nondigit ==> !spec_all_digits(s.subrange(q as int, e as int)),
            !nondigit && !overflow ==> {
                &&& val == spec_digits_value(s.subrange(q as int, e as int))
                &&& val < 0x1_0000_0000
            },
            !nondigit && overflow ==> spec_digits_value(s.subrange(q as int, e as int))
                >= 0x1_0000_0000,
        decreases e - cur.spec_pos(),
    {
        let stop = match cur.peek() {
            None => true,
            Some(b) => is_whitespace(b) || crate::cursor::is_comment_start(b),
        };
        if stop {
            proof {
                assert(cur.spec_pos() == e);
            }
            break ;
        }
        let b = match cur.next_byte() {
            Some(b) => b,
            None => vstd::pervasive::unreached(),
        };
        let ghost pos_before = (cur.spec_pos() - 1) as nat;
        proof {
            assert(pos_before < e);
            assert(s.subrange(q as int, cur.spec_pos() as int) =~= s.subrange(
                q as int,
                pos_before as int,
            ).push(b));
        }
        if b < 0x30 || b > 0x39 {
            nondigit = true;
            proof {
                let full = s.subrange(q as int, e as int);
                assert(full[pos_before - q] == b);
                assert(!spec_is_digit(b));
            }
        } else {
            proof {
                lemma_digits_value_push(s.subrange(q as int, pos_before as int), b);
            }
            if !nondigit && !overflow {
                let digit: u64 = (b - 0x30) as u64;
                let newval: u64 = val * 10 + digit;
                if newval >= 0x1_0000_0000 {
                    overflow = true;
                }
                val = newval;
            } else if !nondigit && overflow {
                proof {
                    let prev = spec_digits_value(s.subrange(q as int, pos_before as int));
                    assert(prev * 10 >= prev) by (nonlinear_arith)
                        requires
                            prev >= 0,
                    ;
                }
            }
        }
    }
    let token_ok = !nondigit && !overflow;
    if cur.peek_is_whitespace() {
        let _ = cur.next_byte();
    }
    if token_ok {
        IntToken::Value(val as u32)
    } else {
        IntToken::Malformed
    }
}

} // verus!
