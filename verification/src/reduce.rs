//! The reduction passes of the evaluator.
//!
//! An expression is reduced entirely within its text: the first innermost
//! parenthesis pair is replaced by the printed value of its contents, then
//! every multiplicative span, then every additive span, left to right, until
//! a single literal remains.  Each pass is specified by a recursive spec
//! function that takes one rewriting step and recurses on the spliced text;
//! a fuel argument (one unit per operator of the pass, since every step
//! consumes exactly one) bounds the recursion.
use vstd::prelude::*;

use crate::alphabet_ok;
use crate::is_lit_char;
use crate::is_op_char;
use crate::is_plain_literal;
use crate::scan::lemma_as_scan_sentinel;
use crate::scan::lemma_bracket_scan_sentinel;
use crate::scan::lemma_md_scan_sentinel;
use crate::arith::dbl_add;
use crate::arith::dbl_div;
use crate::arith::dbl_mul;
use crate::arith::dbl_of_lit;
use crate::arith::dbl_sub;
use crate::arith::add_bits;
use crate::arith::div_bits;
use crate::arith::mul_bits;
use crate::arith::sub_bits;
use crate::arith::parse_lit;
use crate::arith::print_bits;
use crate::arith::spec_print;
use crate::digit_char;
use crate::rm_whitespace;
use crate::strip_spaces;
use crate::scan::get_as;
use crate::scan::get_bracket;
use crate::scan::get_md;
use crate::scan::get_left_num;
use crate::scan::get_right_num;
use crate::scan::left_lit;
use crate::scan::right_lit;
use crate::scan::spec_get_as;
use crate::scan::spec_get_bracket;
use crate::scan::spec_get_md;
use vstd::string::StrSliceExecFns;
use vstd::string::StringExecFns;

verus! {

/// How many multiplicative operators the text holds.
pub open spec fn md_ops(s: Seq<char>) -> nat
    decreases s.len(),
{
    if s.len() == 0 {
        0
    } else {
        md_ops(s.drop_last()) + if s.last() == '*' || s.last() == '/' {
            1nat
        } else {
            0nat
        }
    }
}

/// How many additive operators the text holds.
pub open spec fn as_ops(s: Seq<char>) -> nat
    decreases s.len(),
{
    if s.len() == 0 {
        0
    } else {
        as_ops(s.drop_last()) + if s.last() == '+' || s.last() == '-' {
            1nat
        } else {
            0nat
        }
    }
}

/// How many opening parentheses the text holds.
pub open spec fn opens(s: Seq<char>) -> nat
    decreases s.len(),
{
    if s.len() == 0 {
        0
    } else {
        opens(s.drop_last()) + if s.last() == '(' {
            1nat
        } else {
            0nat
        }
    }
}

/// Counts the multiplicative operators of the text.
fn count_md(input: &str) -> (r: usize)
    ensures
        r as nat == md_ops(input@),
{
    let n = input.unicode_len();
    let mut i: usize = 0;
    let mut cnt: usize = 0;
    while i < n
        invariant
            n == input@.len(),
            i <= n,
            cnt <= i,
            cnt as nat == md_ops(input@.subrange(0, i as int)),
        decreases n - i,
    {
        let c = input.get_char(i);
        if c == '*' || c == '/' {
            cnt += 1;
        }
        proof {
            assert(input@.subrange(0, i + 1 as int).drop_last() =~= input@.subrange(0, i as int));
        }
        i += 1;
    }
    proof {
        assert(input@.subrange(0, n as int) =~= input@);
    }
    cnt
}

/// Counts the additive operators of the text.
fn count_as(input: &str) -> (r: usize)
    ensures
        r as nat == as_ops(input@),
{
    let n = input.unicode_len();
    let mut i: usize = 0;
    let mut cnt: usize = 0;
    while i < n
        invariant
            n == input@.len(),
            i <= n,
            cnt <= i,
            cnt as nat == as_ops(input@.subrange(0, i as int)),
        decreases n - i,
    {
        let c = input.get_char(i);
        if c == '+' || c == '-' {
            cnt += 1;
        }
        proof {
            assert(input@.subrange(0, i + 1 as int).drop_last() =~= input@.subrange(0, i as int));
        }
        i += 1;
    }
    proof {
        assert(input@.subrange(0, n as int) =~= input@);
    }
    cnt
}

/// Counts the opening parentheses of the text.
fn count_opens(input: &str) -> (r: usize)
    ensures
        r as nat == opens(input@),
{
    let n = input.unicode_len();
    let mut i: usize = 0;
    let mut cnt: usize = 0;
    while i < n
        invariant
            n == input@.len(),
            i <= n,
            cnt <= i,
            cnt as nat == opens(input@.subrange(0, i as int)),
        decreases n - i,
    {
        let c = input.get_char(i);
        if c == '(' {
            cnt += 1;
        }
        proof {
            assert(input@.subrange(0, i + 1 as int).drop_last() =~= input@.subrange(0, i as int));
        }
        i += 1;
    }
    proof {
        assert(input@.subrange(0, n as int) =~= input@);
    }
    cnt
}

/// The multiplicative pass: while a `*`/`/` span remains, parse its two
/// operands, multiply or divide them as doubles, and splice the printed
/// value over the span.  `None` on adjacent operators or an operand that is
/// not a number.
pub open spec fn spec_strip_md(s: Seq<char>, fuel: nat) -> Option<Seq<char>>
    decreases fuel,
{
    match spec_get_md(s) {
        None => None,
        Some((st, en, div)) => {
            if st == 0 && en == 0 {
                Some(s)
            } else if fuel == 0 {
                None
            } else {
                let span = s.subrange(st, en);
                match (dbl_of_lit(left_lit(span)), dbl_of_lit(right_lit(span))) {
                    (Some(a), Some(b)) => {
                        let v = if div {
                            dbl_div(a, b)
                        } else {
                            dbl_mul(a, b)
                        };
                        spec_strip_md(
                            s.subrange(0, st) + spec_print(v) + s.subrange(en, s.len() as int),
                            (fuel - 1) as nat,
                        )
                    },
                    _ => None,
                }
            }
        },
    }
}

/// The additive pass before the final parse: while a `+`/`-` span remains,
/// parse its two operands, add or subtract them as doubles, and splice the
/// printed value over the span.
pub open spec fn spec_reduce_as(s: Seq<char>, fuel: nat) -> Option<Seq<char>>
    decreases fuel,
{
    match spec_get_as(s) {
        None => None,
        Some((st, en, sub)) => {
            if st == 0 && en == 0 {
                Some(s)
            } else if fuel == 0 {
                None
            } else {
                let span = s.subrange(st, en);
                match (dbl_of_lit(left_lit(span)), dbl_of_lit(right_lit(span))) {
                    (Some(a), Some(b)) => {
                        let v = if sub {
                            dbl_sub(a, b)
                        } else {
                            dbl_add(a, b)
                        };
                        spec_reduce_as(
                            s.subrange(0, st) + spec_print(v) + s.subrange(en, s.len() as int),
                            (fuel - 1) as nat,
                        )
                    },
                    _ => None,
                }
            }
        },
    }
}

/// The additive pass run to completion and the remaining literal parsed as
/// a double: the value of a text that holds no parenthesis and no `*`/`/`.
pub open spec fn spec_strip_as(s: Seq<char>) -> Option<u64> {
    match spec_reduce_as(s, as_ops(s)) {
        None => None,
        Some(w) => if w.len() == 0 {
            None
        } else {
            dbl_of_lit(w)
        },
    }
}

/// The parenthesis pass: while a parenthesis pair remains, reduce its
/// contents with the multiplicative and additive passes, and splice the
/// printed value over the pair.  `None` on a `)` before any `(`, an
/// unclosed `(`, or contents that do not reduce to a number.
pub open spec fn spec_strip_brackets(s: Seq<char>, fuel: nat) -> Option<Seq<char>>
    decreases fuel,
{
    match spec_get_bracket(s) {
        None => None,
        Some((st, en)) => {
            if st == 0 && en == 0 {
                Some(s)
            } else if fuel == 0 {
                None
            } else {
                let content = s.subrange(st, en);
                match spec_strip_md(content, md_ops(content)) {
                    None => None,
                    Some(m) => match spec_strip_as(m) {
                        None => None,
                        Some(b) => spec_strip_brackets(
                            s.subrange(0, st - 1) + spec_print(b) + s.subrange(
                                en + 1,
                                s.len() as int,
                            ),
                            (fuel - 1) as nat,
                        ),
                    },
                }
            }
        },
    }
}

/// What evaluating an expression text yields: spaces stripped, the alphabet
/// checked, the parenthesis, multiplicative and additive passes run in
/// order, and the final literal parsed as a double.  `None` wherever the
/// text is not (or not yet) evaluable.
pub open spec fn spec_evaluate(s: Seq<char>) -> Option<u64> {
    let t = strip_spaces(s);
    if !alphabet_ok(t) {
        None
    } else {
        match spec_strip_brackets(t, opens(t)) {
            None => None,
            Some(u) => match spec_strip_md(u, md_ops(u)) {
                None => None,
                Some(v) => spec_strip_as(v),
            },
        }
    }
}

/// One multiplicative pass with explicit fuel; each step consumes one `*`
/// or `/`, so the callers hand it one unit of fuel per such operator.
fn strip_md_fuel(input: String, fuel: usize) -> (r: Option<String>)
    ensures
        (match r {
            Some(out) => spec_strip_md(input@, fuel as nat) == Some(out@),
            None => spec_strip_md(input@, fuel as nat) is None,
        }),
    decreases fuel,
{
    match get_md(input.as_str()) {
        None => None,
        Some((st, en, div)) => {
            if st == 0 && en == 0 {
                Some(input)
            } else if fuel == 0 {
                None
            } else {
                let n = input.as_str().unicode_len();
                let span = input.as_str().substring_char(st, en);
                let left_val = get_left_num(span);
                let right_val = get_right_num(span);
                match (left_val, right_val) {
                    (Some(a), Some(b)) => {
                        let v = if div {
                            div_bits(a, b)
                        } else {
                            mul_bits(a, b)
                        };
                        let lit = print_bits(v);
                        let left = input.as_str().substring_char(0, st);
                        let right = input.as_str().substring_char(en, n);
                        let news = String::from_str(left).concat(lit.as_str()).concat(right);
                        proof {
                            assert(news@ =~= input@.subrange(0, st as int) + spec_print(v)
                                + input@.subrange(en as int, input@.len() as int));
                        }
                        strip_md_fuel(news, fuel - 1)
                    },
                    _ => None,
                }
            }
        },
    }
}

/// One additive pass with explicit fuel, one unit per `+` or `-`.
fn reduce_as_fuel(input: String, fuel: usize) -> (r: Option<String>)
    ensures
        (match r {
            Some(out) => spec_reduce_as(input@, fuel as nat) == Some(out@),
            None => spec_reduce_as(input@, fuel as nat) is None,
        }),
    decreases fuel,
{
    match get_as(input.as_str()) {
        None => None,
        Some((st, en, sub)) => {
            if st == 0 && en == 0 {
                Some(input)
            } else if fuel == 0 {
                None
            } else {
                let n = input.as_str().unicode_len();
                let span = input.as_str().substring_char(st, en);
                let left_val = get_left_num(span);
                let right_val = get_right_num(span);
                match (left_val, right_val) {
                    (Some(a), Some(b)) => {
                        let v = if sub {
                            sub_bits(a, b)
                        } else {
                            add_bits(a, b)
                        };
                        let lit = print_bits(v);
                        let left = input.as_str().substring_char(0, st);
                        let right = input.as_str().substring_char(en, n);
                        let news = String::from_str(left).concat(lit.as_str()).concat(right);
                        proof {
                            assert(news@ =~= input@.subrange(0, st as int) + spec_print(v)
                                + input@.subrange(en as int, input@.len() as int));
                        }
                        reduce_as_fuel(news, fuel - 1)
                    },
                    _ => None,
                }
            }
        },
    }
}

/// Runs the multiplicative pass over the text: every `*`/`/` span is folded
/// into its printed value, left to right, leaving only `+`/`-` operators.
pub fn strip_md(input: String) -> (r: Option<String>)
    ensures
        (match r {
            Some(out) => spec_strip_md(input@, md_ops(input@)) == Some(out@),
            None => spec_strip_md(input@, md_ops(input@)) is None,
        }),
{
    let fuel = count_md(input.as_str());
    strip_md_fuel(input, fuel)
}

/// Runs the additive pass over the text and parses the one literal that
/// remains: the double value of a parenthesis-free, `*`/`/`-free text.
/// A text that is already a plain numeric literal always succeeds.
pub fn strip_as(input: String) -> (r: Option<u64>)
    ensures
        r == spec_strip_as(input@),
        is_plain_literal(input@) ==> r is Some,
{
    let ghost t0 = input@;
    proof {
        if is_plain_literal(t0) {
            assert forall|k: int| 0 <= k < t0.len() implies !is_op_char(#[trigger] t0[k]) by {
                assert(is_lit_char(t0[k]));
            }
            lemma_as_scan_sentinel(t0, 0, 0, false);
        }
    }
    let fuel = count_as(input.as_str());
    match reduce_as_fuel(input, fuel) {
        None => None,
        Some(w) => {
            if w.as_str().unicode_len() == 0 {
                None
            } else {
                parse_lit(w.as_str())
            }
        },
    }
}

/// Runs the parenthesis pass over the text: every parenthesis pair is
/// folded, innermost first, into the printed value of its contents.
pub fn strip_brackets(input: String) -> (r: Option<String>)
    ensures
        (match r {
            Some(out) => spec_strip_brackets(input@, opens(input@)) == Some(out@),
            None => spec_strip_brackets(input@, opens(input@)) is None,
        }),
{
    let fuel = count_opens(input.as_str());
    strip_brackets_fuel(input, fuel)
}

/// One parenthesis pass with explicit fuel, one unit per `(`.
fn strip_brackets_fuel(input: String, fuel: usize) -> (r: Option<String>)
    ensures
        (match r {
            Some(out) => spec_strip_brackets(input@, fuel as nat) == Some(out@),
            None => spec_strip_brackets(input@, fuel as nat) is None,
        }),
    decreases fuel,
{
    match get_bracket(input.as_str()) {
        None => None,
        Some((st, en)) => {
            if st == 0 && en == 0 {
                Some(input)
            } else if fuel == 0 {
                None
            } else {
                let n = input.as_str().unicode_len();
                let content = String::from_str(input.as_str().substring_char(st, en));
                match strip_md(content) {
                    None => None,
                    Some(m) => match strip_as(m) {
                        None => None,
                        Some(b) => {
                            let lit = print_bits(b);
                            let left = input.as_str().substring_char(0, st - 1);
                            let right = input.as_str().substring_char(en + 1, n);
                            let news = String::from_str(left).concat(lit.as_str()).concat(right);
                            proof {
                                assert(news@ =~= input@.subrange(0, st - 1) + spec_print(b)
                                    + input@.subrange(en + 1, input@.len() as int));
                            }
                            strip_brackets_fuel(news, fuel - 1)
                        },
                    },
                }
            }
        },
    }
}

/// Evaluates an expression text to a double, carried as its IEEE 754 bit
/// pattern: spaces are stripped, the alphabet is checked, parentheses are
/// folded innermost-first, then `*`/`/` spans, then `+`/`-` spans, each left
/// to right, and the remaining literal is parsed.  `None` wherever the text
/// is not (or not yet) evaluable.  A text that is, after its spaces go, a
/// plain numeric literal always evaluates.
pub fn get_result_from_string(input: &str) -> (r: Option<u64>)
    ensures
        r == spec_evaluate(input@),
        is_plain_literal(strip_spaces(input@)) ==> r is Some,
{
    let t = rm_whitespace(input);
    let ghost t0 = t@;
    proof {
        if is_plain_literal(t0) {
            assert forall|k: int| 0 <= k < t0.len() implies !is_op_char(#[trigger] t0[k]) && t0[k]
                != '(' && t0[k] != ')' by {
                assert(is_lit_char(t0[k]));
            }
            lemma_bracket_scan_sentinel(t0, 0, 0);
            lemma_md_scan_sentinel(t0, 0, 0, false);
        }
    }
    let n = t.as_str().unicode_len();
    let mut i: usize = 0;
    while i < n
        invariant
            n == t@.len(),
            i <= n,
            t@ == t0,
            t@ == strip_spaces(input@),
            forall|j: int| 0 <= j < i ==> crate::is_alphabet_char(t@[j]),
        decreases n - i,
    {
        let c = t.as_str().get_char(i);
        let ok = digit_char(c) || c == '+' || c == '-' || c == '*' || c == '/' || c == '.' || c
            == '(' || c == ')';
        if !ok {
            proof {
                if is_plain_literal(t0) {
                    assert(is_lit_char(t0[i as int]));
                }
            }
            assert(!alphabet_ok(t@));
            return None;
        }
        i += 1;
    }
    assert(alphabet_ok(t@));
    match strip_brackets(t) {
        None => None,
        Some(u) => match strip_md(u) {
            None => None,
            Some(v) => strip_as(v),
        },
    }
}

} // verus!
