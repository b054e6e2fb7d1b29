//! An interactive arithmetic expression engine: an expression builder that
//! grows a well-formed expression text one edit at a time, and an evaluator
//! that reduces such a text to a 64-bit floating-point value (carried as its
//! IEEE 754 bit pattern) honoring operator precedence and parentheses.
use vstd::prelude::*;

pub mod arith;
pub mod builder;
pub mod reduce;
pub mod scan;

use vstd::string::StrSliceExecFns;
use vstd::string::StringExecFns;

verus! {

/// True for the four binary operator characters.
pub open spec fn is_op_char(c: char) -> bool {
    c == '+' || c == '-' || c == '*' || c == '/'
}

/// True for an ASCII decimal digit.
pub open spec fn is_digit_char(c: char) -> bool {
    48 <= c as u32 <= 57
}

/// Exec counterpart of `is_digit_char`.
pub fn digit_char(c: char) -> (r: bool)
    ensures
        r == is_digit_char(c),
{
    let u = c as u32;
    48 <= u && u <= 57
}

/// True for the characters a numeric literal is made of.
pub open spec fn is_lit_char(c: char) -> bool {
    is_digit_char(c) || c == '.'
}

/// A plain numeric literal: one or more characters, each a digit or a `.`,
/// among them at least one digit and at most one `.`.
pub open spec fn is_plain_literal(s: Seq<char>) -> bool {
    s.len() > 0 && (forall|i: int| 0 <= i < s.len() ==> is_lit_char(#[trigger] s[i])) && (exists|
        i: int,
    |
        0 <= i < s.len() && is_digit_char(s[i])) && (forall|i: int, j: int|
        0 <= i < j < s.len() ==> !(#[trigger] s[i] == '.' && #[trigger] s[j] == '.'))
}

/// The characters an expression may contain (besides the spaces that the
/// evaluator strips before looking at it).
pub open spec fn is_alphabet_char(c: char) -> bool {
    is_digit_char(c) || is_op_char(c) || c == '.' || c == '(' || c == ')'
}

/// True when every character of the text is drawn from the alphabet.
pub open spec fn alphabet_ok(s: Seq<char>) -> bool {
    forall|i: int| 0 <= i < s.len() ==> is_alphabet_char(s[i])
}

/// The text with every space removed and all else kept in order.
pub open spec fn strip_spaces(s: Seq<char>) -> Seq<char>
    decreases s.len(),
{
    if s.len() == 0 {
        Seq::empty()
    } else if s.last() == ' ' {
        strip_spaces(s.drop_last())
    } else {
        strip_spaces(s.drop_last()).push(s.last())
    }
}

/// Copies the text with every space removed.
pub fn rm_whitespace(input: &str) -> (r: String)
    ensures
        r@ == strip_spaces(input@),
{
    let n = input.unicode_len();
    let mut out = String::new();
    let mut i: usize = 0;
    while i < n
        invariant
            n == input@.len(),
            i <= n,
            out@ == strip_spaces(input@.subrange(0, i as int)),
        decreases n - i,
    {
        let c = input.get_char(i);
        if c != ' ' {
            let piece = input.substring_char(i, i + 1);
            out.append(piece);
        }
        proof {
            assert(input@.subrange(0, i + 1 as int).drop_last() =~= input@.subrange(0, i as int));
            assert(input@.subrange(0, i + 1 as int).last() == input@[i as int]);
            if c != ' ' {
                assert(out@ =~= strip_spaces(input@.subrange(0, i as int)).push(input@[i as int]));
            }
        }
        i += 1;
    }
    proof {
        assert(input@.subrange(0, n as int) =~= input@);
    }
    out
}

} // verus!
