//! Scanning primitives of the evaluator.
//!
//! Each reduction step of the evaluator first locates the sub-expression to
//! reduce by a single left-to-right scan of the text: the first innermost
//! parenthesis pair, the first multiplicative (`*`/`/`) span, or the first
//! additive (`+`/`-`) span.  The scans are specified by spec functions that
//! walk the character sequence exactly as the executable loops do, and each
//! executable scanner is proved equal to its spec.
use vstd::prelude::*;

use crate::arith::dbl_of_lit;
use crate::arith::parse_lit;
use crate::is_op_char;
use vstd::string::StrSliceExecFns;

verus! {

/// Walk of the parenthesis scan: remembers the position after the most
/// recent `(` seen so far; the first `)` closes the pair.  A `)` before any
/// `(` is a failure, an unclosed `(` is a failure, and a text with no
/// parenthesis at all yields the sentinel pair `(0, 0)`.
pub open spec fn bracket_scan(s: Seq<char>, i: int, start: int, started: bool) -> Option<
    (int, int),
> decreases s.len() - i,
{
    if i >= s.len() {
        if started {
            None
        } else {
            Some((0int, 0int))
        }
    } else if s[i] == '(' {
        bracket_scan(s, i + 1, i + 1, true)
    } else if s[i] == ')' {
        if started {
            Some((start, i))
        } else {
            None
        }
    } else {
        bracket_scan(s, i + 1, start, started)
    }
}

/// The first innermost parenthesis pair of the text: `Some((start, end))`
/// frames its contents, the sentinel `(0, 0)` means no parenthesis remains,
/// and `None` means the text can never evaluate.
pub open spec fn spec_get_bracket(s: Seq<char>) -> Option<(int, int)> {
    bracket_scan(s, 0, 0, false)
}

/// Walk of the multiplicative scan.  `started` holds once the first `*` or
/// `/` is seen; `start` is the position after the last `+`/`-` before it;
/// the next operator of any kind ends the span.  Two adjacent operator
/// characters (`sign` holds right after any operator) are a failure.
pub open spec fn md_scan(
    s: Seq<char>,
    i: int,
    start: int,
    end: int,
    started: bool,
    div: bool,
    sign: bool,
) -> Option<(int, int, bool)>
    decreases s.len() - i,
{
    if i >= s.len() {
        if started {
            Some((start, end, div))
        } else {
            Some((0int, 0int, false))
        }
    } else if s[i] == '*' || s[i] == '/' {
        if sign {
            None
        } else if started {
            Some((start, i, div))
        } else {
            md_scan(s, i + 1, start, s.len() as int, true, s[i] == '/', true)
        }
    } else if s[i] == '+' || s[i] == '-' {
        if sign {
            None
        } else if started {
            Some((start, i, div))
        } else {
            md_scan(s, i + 1, i + 1, end, started, div, true)
        }
    } else {
        md_scan(s, i + 1, start, end, started, div, false)
    }
}

/// The first `left op right` span whose operator is `*` or `/`: the span's
/// bounds and whether it divides.  The sentinel `(0, 0, false)` means no
/// multiplicative operator remains; `None` means adjacent operators were
/// found, and the text can never evaluate.
pub open spec fn spec_get_md(s: Seq<char>) -> Option<(int, int, bool)> {
    md_scan(s, 0, 0, 0, false, false, false)
}

/// Walk of the additive scan, the mirror image of `md_scan` with `+`/`-`
/// opening the span and `*`/`/` moving its start.  One difference: a `-` at
/// position 0 is the sign of an already-reduced left operand, not an
/// operator, though an operator directly after it is still adjacency.
pub open spec fn as_scan(
    s: Seq<char>,
    i: int,
    start: int,
    end: int,
    started: bool,
    sub: bool,
    sign: bool,
) -> Option<(int, int, bool)>
    decreases s.len() - i,
{
    if i >= s.len() {
        if started {
            Some((start, end, sub))
        } else {
            Some((0int, 0int, false))
        }
    } else if i == 0 && s[i] == '-' {
        as_scan(s, i + 1, start, end, started, sub, true)
    } else if s[i] == '+' || s[i] == '-' {
        if sign {
            None
        } else if started {
            Some((start, i, sub))
        } else {
            as_scan(s, i + 1, start, s.len() as int, true, s[i] == '-', true)
        }
    } else if s[i] == '*' || s[i] == '/' {
        if sign {
            None
        } else if started {
            Some((start, i, sub))
        } else {
            as_scan(s, i + 1, i + 1, end, started, sub, true)
        }
    } else {
        as_scan(s, i + 1, start, end, started, sub, false)
    }
}

/// The first `left op right` span whose operator is `+` or `-`: the span's
/// bounds and whether it subtracts.  The sentinel `(0, 0, false)` means no
/// additive operator remains; `None` means adjacent operators were found.
pub open spec fn spec_get_as(s: Seq<char>) -> Option<(int, int, bool)> {
    as_scan(s, 0, 0, 0, false, false, false)
}

/// End of the left operand: the first operator character, except that a `-`
/// at position 0 belongs to the operand as its sign.
pub open spec fn left_end(s: Seq<char>, i: int) -> int
    decreases s.len() - i,
{
    if i >= s.len() {
        s.len() as int
    } else if is_op_char(s[i]) && !(i == 0 && s[i] == '-') {
        i
    } else {
        left_end(s, i + 1)
    }
}

/// The numeric literal that ends at the first operator of a span.
pub open spec fn left_lit(s: Seq<char>) -> Seq<char> {
    s.subrange(0, left_end(s, 0))
}

/// Start of the right operand: the position after the last operator
/// character of the span.
pub open spec fn right_start(s: Seq<char>, i: int, cur: int) -> int
    decreases s.len() - i,
{
    if i >= s.len() {
        cur
    } else if is_op_char(s[i]) {
        right_start(s, i + 1, i + 1)
    } else {
        right_start(s, i + 1, cur)
    }
}

/// The numeric literal that begins after the last operator of a span.
pub open spec fn right_lit(s: Seq<char>) -> Seq<char> {
    s.subrange(right_start(s, 0, 0), s.len() as int)
}

/// On a text with no parenthesis anywhere, the parenthesis scan lands on
/// its sentinel.
pub proof fn lemma_bracket_scan_sentinel(s: Seq<char>, i: int, start: int)
    requires
        0 <= i,
        forall|k: int| i <= k < s.len() ==> #[trigger] s[k] != '(' && s[k] != ')',
    ensures
        bracket_scan(s, i, start, false) == Some((0int, 0int)),
    decreases s.len() - i,
{
    if i < s.len() {
        lemma_bracket_scan_sentinel(s, i + 1, start);
    }
}

/// On a text with no operator character anywhere, the multiplicative scan
/// lands on its sentinel.
pub proof fn lemma_md_scan_sentinel(s: Seq<char>, i: int, start: int, sign: bool)
    requires
        0 <= i,
        forall|k: int| i <= k < s.len() ==> !is_op_char(#[trigger] s[k]),
    ensures
        md_scan(s, i, start, 0, false, false, sign) == Some((0int, 0int, false)),
    decreases s.len() - i,
{
    if i < s.len() {
        lemma_md_scan_sentinel(s, i + 1, start, false);
    }
}

/// On a text with no operator character anywhere, the additive scan lands
/// on its sentinel.
pub proof fn lemma_as_scan_sentinel(s: Seq<char>, i: int, start: int, sign: bool)
    requires
        0 <= i,
        forall|k: int| i <= k < s.len() ==> !is_op_char(#[trigger] s[k]),
    ensures
        as_scan(s, i, start, 0, false, false, sign) == Some((0int, 0int, false)),
    decreases s.len() - i,
{
    if i < s.len() {
        if i == 0 && s[i] == '-' {
            assert(is_op_char(s[0]));
        }
        lemma_as_scan_sentinel(s, i + 1, start, false);
    }
}

/// Locates the first innermost parenthesis pair of `input`.  Returns the
/// frame of its contents, the sentinel `(0, 0)` when no parenthesis occurs
/// anywhere, and `None` when a `)` comes before any `(` or a `(` is never
/// closed.
pub fn get_bracket(input: &str) -> (r: Option<(usize, usize)>)
    ensures
        (match r {
            Some((st, en)) => spec_get_bracket(input@) == Some((st as int, en as int)) && (st == 0
                && en == 0 || 1 <= st <= en < input@.len()),
            None => spec_get_bracket(input@) is None,
        }),
{
    let n = input.unicode_len();
    let mut i: usize = 0;
    let mut start: usize = 0;
    let mut started = false;
    while i < n
        invariant
            n == input@.len(),
            i <= n,
            spec_get_bracket(input@) == bracket_scan(input@, i as int, start as int, started),
            started ==> 1 <= start <= i,
            !started ==> start == 0,
        decreases n - i,
    {
        let c = input.get_char(i);
        if c == '(' {
            started = true;
            start = i + 1;
        } else if c == ')' {
            if !started {
                return None;
            }
            return Some((start, i));
        }
        i += 1;
    }
    if started {
        None
    } else {
        Some((0, 0))
    }
}

/// Locates the first multiplicative span of `input`: the maximal
/// `left op right` text around the first `*` or `/`.  Returns the sentinel
/// `(0, 0, false)` when no `*` or `/` occurs, and `None` on adjacent
/// operator characters.
pub fn get_md(input: &str) -> (r: Option<(usize, usize, bool)>)
    ensures
        (match r {
            Some((st, en, div)) => spec_get_md(input@) == Some((st as int, en as int, div)) && en
                <= input@.len() && (st == 0 && en == 0 || st <= en),
            None => spec_get_md(input@) is None,
        }),
{
    let n = input.unicode_len();
    let mut i: usize = 0;
    let mut start: usize = 0;
    let mut end: usize = 0;
    let mut started = false;
    let mut div = false;
    let mut sign = false;
    while i < n
        invariant
            n == input@.len(),
            i <= n,
            spec_get_md(input@) == md_scan(
                input@,
                i as int,
                start as int,
                end as int,
                started,
                div,
                sign,
            ),
            start <= i,
            started ==> start <= n && end == n,
            !started ==> end == 0 && !div,
        decreases n - i,
    {
        let c = input.get_char(i);
        if c == '*' || c == '/' {
            if sign {
                return None;
            }
            if started {
                return Some((start, i, div));
            }
            if c == '/' {
                div = true;
            }
            started = true;
            end = n;
            sign = true;
        } else if c == '+' || c == '-' {
            if sign {
                return None;
            }
            if started {
                return Some((start, i, div));
            }
            start = i + 1;
            sign = true;
        } else {
            sign = false;
        }
        i += 1;
    }
    if started {
        Some((start, end, div))
    } else {
        Some((0, 0, false))
    }
}

/// Locates the first additive span of `input`: the maximal `left op right`
/// text around the first `+` or `-` that is an operator (a `-` at position 0
/// signs the left operand instead).  Returns the sentinel `(0, 0, false)`
/// when no additive operator occurs, and `None` on adjacent operator
/// characters.
pub fn get_as(input: &str) -> (r: Option<(usize, usize, bool)>)
    ensures
        (match r {
            Some((st, en, sub)) => spec_get_as(input@) == Some((st as int, en as int, sub)) && en
                <= input@.len() && (st == 0 && en == 0 || st <= en),
            None => spec_get_as(input@) is None,
        }),
{
    let n = input.unicode_len();
    let mut i: usize = 0;
    let mut start: usize = 0;
    let mut end: usize = 0;
    let mut started = false;
    let mut sub = false;
    let mut sign = false;
    while i < n
        invariant
            n == input@.len(),
            i <= n,
            spec_get_as(input@) == as_scan(
                input@,
                i as int,
                start as int,
                end as int,
                started,
                sub,
                sign,
            ),
            start <= i,
            started ==> start <= n && end == n,
            !started ==> end == 0 && !sub,
        decreases n - i,
    {
        let c = input.get_char(i);
        if i == 0 && c == '-' {
            sign = true;
        } else if c == '+' || c == '-' {
            if sign {
                return None;
            }
            if started {
                return Some((start, i, sub));
            }
            if c == '-' {
                sub = true;
            }
            started = true;
            end = n;
            sign = true;
        } else if c == '*' || c == '/' {
            if sign {
                return None;
            }
            if started {
                return Some((start, i, sub));
            }
            start = i + 1;
            sign = true;
        } else {
            sign = false;
        }
        i += 1;
    }
    if started {
        Some((start, end, sub))
    } else {
        Some((0, 0, false))
    }
}

/// Parses the left operand of a span: the literal that runs up to the first
/// operator character (a `-` at position 0 is kept as the operand's sign).
/// `None` where that literal is empty or is not a number.
pub fn get_left_num(expression: &str) -> (r: Option<u64>)
    ensures
        r == dbl_of_lit(left_lit(expression@)),
{
    let n = expression.unicode_len();
    let mut i: usize = 0;
    while i < n
        invariant
            n == expression@.len(),
            i <= n,
            left_end(expression@, 0) == left_end(expression@, i as int),
        decreases n - i,
    {
        let c = expression.get_char(i);
        if (c == '+' || c == '-' || c == '*' || c == '/') && !(i == 0 && c == '-') {
            let lit = expression.substring_char(0, i);
            return parse_lit(lit);
        }
        i += 1;
    }
    proof {
        assert(expression@.subrange(0, expression@.len() as int) =~= expression@);
    }
    parse_lit(expression)
}

/// Parses the right operand of a span: the literal that begins after the
/// last operator character.  `None` where that literal is empty or is not a
/// number.
pub fn get_right_num(expression: &str) -> (r: Option<u64>)
    ensures
        r == dbl_of_lit(right_lit(expression@)),
{
    let n = expression.unicode_len();
    let mut i: usize = 0;
    let mut cur: usize = 0;
    while i < n
        invariant
            n == expression@.len(),
            i <= n,
            cur <= i,
            right_start(expression@, 0, 0) == right_start(expression@, i as int, cur as int),
        decreases n - i,
    {
        let c = expression.get_char(i);
        if c == '+' || c == '-' || c == '*' || c == '/' {
            cur = i + 1;
        }
        i += 1;
    }
    let lit = expression.substring_char(cur, n);
    parse_lit(lit)
}

} // verus!
