//! The expression builder.
//!
//! The builder owns the live expression text and the last successfully
//! computed result, and applies one editing command per call: a digit, an
//! operator, a decimal point, a parenthesis, delete-last, clear, or an
//! explicit evaluate.  Every command keeps the text syntactically
//! consistent — implicit multiplication is inserted between a closing
//! context and an opening one, a second operator corrects the first rather
//! than standing beside it, a duplicate decimal point is refused, and a `)`
//! is only appended while a `(` is still unmatched.  Invalid commands are
//! no-ops, never errors.
use vstd::prelude::*;

use crate::arith::print_bits;
use crate::arith::spec_print;
use crate::digit_char;
use crate::is_digit_char;
use crate::is_lit_char;
use crate::is_op_char;
use crate::reduce::get_result_from_string;
use crate::reduce::spec_evaluate;
use vstd::string::StrSliceExecFns;
use vstd::string::StringExecFns;

verus! {

/// Walk that finds where the literal ending the text begins: the position
/// after the last character that is neither a digit nor a `.`.
pub open spec fn lit_scan(s: Seq<char>, i: int, cur: int) -> int
    decreases s.len() - i,
{
    if i >= s.len() {
        cur
    } else if is_lit_char(s[i]) {
        lit_scan(s, i + 1, cur)
    } else {
        lit_scan(s, i + 1, i + 1)
    }
}

/// Start of the rightmost literal of the text.
pub open spec fn lit_start(s: Seq<char>) -> int {
    lit_scan(s, 0, 0)
}

/// True when the rightmost literal of the text already holds a decimal
/// point.
pub open spec fn lit_has_dot(s: Seq<char>) -> bool {
    exists|j: int| lit_start(s) <= j < s.len() && s[j] == '.'
}

/// How many more `(` than `)` the text holds.
pub open spec fn paren_balance(s: Seq<char>) -> int
    decreases s.len(),
{
    if s.len() == 0 {
        0
    } else {
        paren_balance(s.drop_last()) + if s.last() == '(' {
            1int
        } else if s.last() == ')' {
            -1int
        } else {
            0int
        }
    }
}

/// The text after a digit command: the digit, with a `*` before it when it
/// follows a closed group.
pub open spec fn spec_append_digit(t: Seq<char>, d: char) -> Seq<char> {
    if t.len() == 0 {
        seq![d]
    } else if t.last() == ')' {
        t + seq!['*', d]
    } else {
        t.push(d)
    }
}

/// The text after an operator command: a no-op on empty text; an operator
/// or dangling `.` at the end is replaced, anything else is extended.
pub open spec fn spec_append_operator(t: Seq<char>, op: char) -> Seq<char> {
    if t.len() == 0 {
        t
    } else if is_op_char(t.last()) || t.last() == '.' {
        t.drop_last().push(op)
    } else {
        t.push(op)
    }
}

/// The text after a decimal-point command: appended only when the text ends
/// in a digit and the literal that digit belongs to holds no `.` yet.
pub open spec fn spec_append_dot(t: Seq<char>) -> Seq<char> {
    if t.len() == 0 || !is_digit_char(t.last()) {
        t
    } else if lit_has_dot(t) {
        t
    } else {
        t.push('.')
    }
}

/// The text after an open-parenthesis command: `(`, with a `*` before it
/// when it follows a digit.
pub open spec fn spec_append_open(t: Seq<char>) -> Seq<char> {
    if t.len() == 0 {
        t.push('(')
    } else if is_digit_char(t.last()) {
        t + seq!['*', '(']
    } else {
        t.push('(')
    }
}

/// The text after a close-parenthesis command: a no-op unless a `(` is
/// unmatched; then `)` extends a digit or `)`, an empty just-opened group
/// collapses, and a dangling operator or `.` is dropped in favor of `)`.
pub open spec fn spec_append_close(t: Seq<char>) -> Seq<char> {
    if t.len() == 0 || paren_balance(t) <= 0 {
        t
    } else if is_digit_char(t.last()) || t.last() == ')' {
        t.push(')')
    } else if t.last() == '(' {
        t.drop_last()
    } else {
        t.drop_last().push(')')
    }
}

/// The result after a best-effort re-evaluation of the text: the new value
/// when the text evaluates, the old one when it does not.
pub open spec fn spec_result_after(t: Seq<char>, r: u64) -> u64 {
    match spec_evaluate(t) {
        Some(b) => b,
        None => r,
    }
}

/// The text after an evaluate command: the printed result when the text
/// evaluates, the text unchanged when it does not.
pub open spec fn spec_commit_text(t: Seq<char>) -> Seq<char> {
    match spec_evaluate(t) {
        Some(b) => spec_print(b),
        None => t,
    }
}

/// The result after an evaluate command.
pub open spec fn spec_commit_result(t: Seq<char>, r: u64) -> u64 {
    match spec_evaluate(t) {
        Some(b) => b,
        None => r,
    }
}

/// The one-character text of a digit.
fn digit_str(d: char) -> (r: &'static str)
    requires
        is_digit_char(d),
    ensures
        r@ == seq![d],
{
    if d == '0' {
        proof {
            reveal_strlit("0");
            assert("0"@ =~= seq!['0']);
        }
        "0"
    } else if d == '1' {
        proof {
            reveal_strlit("1");
            assert("1"@ =~= seq!['1']);
        }
        "1"
    } else if d == '2' {
        proof {
            reveal_strlit("2");
            assert("2"@ =~= seq!['2']);
        }
        "2"
    } else if d == '3' {
        proof {
            reveal_strlit("3");
            assert("3"@ =~= seq!['3']);
        }
        "3"
    } else if d == '4' {
        proof {
            reveal_strlit("4");
            assert("4"@ =~= seq!['4']);
        }
        "4"
    } else if d == '5' {
        proof {
            reveal_strlit("5");
            assert("5"@ =~= seq!['5']);
        }
        "5"
    } else if d == '6' {
        proof {
            reveal_strlit("6");
            assert("6"@ =~= seq!['6']);
        }
        "6"
    } else if d == '7' {
        proof {
            reveal_strlit("7");
            assert("7"@ =~= seq!['7']);
        }
        "7"
    } else if d == '8' {
        proof {
            reveal_strlit("8");
            assert("8"@ =~= seq!['8']);
        }
        "8"
    } else {
        proof {
            reveal_strlit("9");
            assert("9"@ =~= seq!['9']);
        }
        "9"
    }
}

/// The one-character text of an operator.
fn op_str(op: char) -> (r: &'static str)
    requires
        is_op_char(op),
    ensures
        r@ == seq![op],
{
    if op == '+' {
        proof {
            reveal_strlit("+");
            assert("+"@ =~= seq!['+']);
        }
        "+"
    } else if op == '-' {
        proof {
            reveal_strlit("-");
            assert("-"@ =~= seq!['-']);
        }
        "-"
    } else if op == '*' {
        proof {
            reveal_strlit("*");
            assert("*"@ =~= seq!['*']);
        }
        "*"
    } else {
        proof {
            reveal_strlit("/");
            assert("/"@ =~= seq!['/']);
        }
        "/"
    }
}

/// The live state of the engine: the expression text being edited, and the
/// last successfully computed result as IEEE 754 double bits.
pub struct Calculator {
    /// The expression text, as the display shows it.
    pub text: String,
    /// The last successfully evaluated value; kept across edits that fail
    /// to evaluate, and zero at the start and after a clear.
    pub result: u64,
}

impl Calculator {
    /// A fresh engine: empty text, result zero.
    pub fn new() -> (c: Calculator)
        ensures
            c.text@ == Seq::<char>::empty(),
            c.result == 0,
    {
        Calculator { text: String::new(), result: 0 }
    }

    /// The text without its last character (unchanged when empty).
    fn drop_last_char(&mut self)
        ensures
            old(self).text@.len() == 0 ==> final(self).text@ == old(self).text@,
            old(self).text@.len() > 0 ==> final(self).text@ == old(self).text@.drop_last(),
            final(self).result == old(self).result,
    {
        let n = self.text.as_str().unicode_len();
        if n > 0 {
            let shorter = String::from_str(self.text.as_str().substring_char(0, n - 1));
            proof {
                assert(old(self).text@.subrange(0, n - 1) =~= old(self).text@.drop_last());
            }
            self.text = shorter;
        }
    }

    /// Best-effort re-evaluation: the result is refreshed when the current
    /// text evaluates and kept when it does not.
    fn refresh_result(&mut self)
        ensures
            final(self).text == old(self).text,
            final(self).result == spec_result_after(old(self).text@, old(self).result),
    {
        match get_result_from_string(self.text.as_str()) {
            Some(b) => {
                self.result = b;
            },
            None => {},
        }
    }

    /// Appends a digit, with the implicit `*` after a closed group, then
    /// re-evaluates.
    pub fn append_digit(&mut self, d: char)
        requires
            is_digit_char(d),
        ensures
            final(self).text@ == spec_append_digit(old(self).text@, d),
            final(self).result == spec_result_after(
                spec_append_digit(old(self).text@, d),
                old(self).result,
            ),
    {
        let n = self.text.as_str().unicode_len();
        if n == 0 {
            self.text.append(digit_str(d));
        } else if self.text.as_str().get_char(n - 1) == ')' {
            self.text.append("*");
            self.text.append(digit_str(d));
            proof {
                reveal_strlit("*");
                assert(self.text@ =~= old(self).text@ + seq!['*', d]);
            }
        } else {
            self.text.append(digit_str(d));
        }
        proof {
            if old(self).text@.len() == 0 {
                assert(self.text@ =~= seq![d]);
            } else if old(self).text@.last() != ')' {
                assert(self.text@ =~= old(self).text@.push(d));
            }
        }
        self.refresh_result();
    }

    /// Appends an operator; a trailing operator or dangling `.` is replaced
    /// instead, and empty text is left alone.
    pub fn append_operator(&mut self, op: char)
        requires
            is_op_char(op),
        ensures
            final(self).text@ == spec_append_operator(old(self).text@, op),
            final(self).result == old(self).result,
    {
        let n = self.text.as_str().unicode_len();
        if n == 0 {
            return;
        }
        let last = self.text.as_str().get_char(n - 1);
        if last == '+' || last == '-' || last == '*' || last == '/' || last == '.' {
            self.drop_last_char();
            self.text.append(op_str(op));
            proof {
                assert(self.text@ =~= old(self).text@.drop_last().push(op));
            }
        } else {
            self.text.append(op_str(op));
            proof {
                assert(self.text@ =~= old(self).text@.push(op));
            }
        }
    }

    /// Appends a decimal point when the text ends in a digit whose literal
    /// holds no `.` yet; anything else is a no-op.
    pub fn append_decimal_point(&mut self)
        ensures
            final(self).text@ == spec_append_dot(old(self).text@),
            final(self).result == old(self).result,
    {
        let n = self.text.as_str().unicode_len();
        if n == 0 {
            return;
        }
        if !digit_char(self.text.as_str().get_char(n - 1)) {
            return;
        }
        let ghost t = self.text@;
        let mut i: usize = 0;
        let mut k: usize = 0;
        while i < n
            invariant
                n == t.len(),
                t == self.text@,
                i <= n,
                k <= i,
                lit_start(t) == lit_scan(t, i as int, k as int),
            decreases n - i,
        {
            let c = self.text.as_str().get_char(i);
            if !(digit_char(c) || c == '.') {
                k = i + 1;
            }
            i += 1;
        }
        let mut seen_dot = false;
        let mut j: usize = k;
        while j < n
            invariant
                n == t.len(),
                t == self.text@,
                k <= j <= n,
                lit_start(t) == k,
                seen_dot <==> exists|m: int| k <= m < j && t[m] == '.',
            decreases n - j,
        {
            if self.text.as_str().get_char(j) == '.' {
                seen_dot = true;
            }
            j += 1;
        }
        if !seen_dot {
            self.text.append(".");
            proof {
                reveal_strlit(".");
                assert(self.text@ =~= t.push('.'));
            }
        }
    }

    /// Appends `(`, with the implicit `*` after a digit.
    pub fn append_open_paren(&mut self)
        ensures
            final(self).text@ == spec_append_open(old(self).text@),
            final(self).result == old(self).result,
    {
        let n = self.text.as_str().unicode_len();
        if n == 0 {
            self.text.append("(");
            proof {
                reveal_strlit("(");
                assert(self.text@ =~= old(self).text@.push('('));
            }
        } else if digit_char(self.text.as_str().get_char(n - 1)) {
            self.text.append("*(");
            proof {
                reveal_strlit("*(");
                assert(self.text@ =~= old(self).text@ + seq!['*', '(']);
            }
        } else {
            self.text.append("(");
            proof {
                reveal_strlit("(");
                assert(self.text@ =~= old(self).text@.push('('));
            }
        }
    }

    /// Closes a group when a `(` is unmatched: `)` extends a digit or `)`,
    /// an empty just-opened group collapses, and a dangling operator or `.`
    /// is dropped in favor of `)`.  Then re-evaluates, no-op or not.
    pub fn append_close_paren(&mut self)
        ensures
            final(self).text@ == spec_append_close(old(self).text@),
            final(self).result == spec_result_after(
                spec_append_close(old(self).text@),
                old(self).result,
            ),
    {
        let n = self.text.as_str().unicode_len();
        if n == 0 {
            self.refresh_result();
            return;
        }
        let ghost t = self.text@;
        let mut bal: i128 = 0;
        let mut i: usize = 0;
        while i < n
            invariant
                n == t.len(),
                t == self.text@,
                i <= n,
                -(i as int) <= bal as int <= i as int,
                bal as int == paren_balance(t.subrange(0, i as int)),
            decreases n - i,
        {
            let c = self.text.as_str().get_char(i);
            if c == '(' {
                bal = bal + 1;
            } else if c == ')' {
                bal = bal - 1;
            }
            proof {
                assert(t.subrange(0, i + 1 as int).drop_last() =~= t.subrange(0, i as int));
            }
            i += 1;
        }
        proof {
            assert(t.subrange(0, n as int) =~= t);
        }
        if bal > 0 {
            let last = self.text.as_str().get_char(n - 1);
            if digit_char(last) || last == ')' {
                self.text.append(")");
                proof {
                    reveal_strlit(")");
                    assert(self.text@ =~= t.push(')'));
                }
            } else if last == '(' {
                self.drop_last_char();
            } else {
                self.drop_last_char();
                self.text.append(")");
                proof {
                    reveal_strlit(")");
                    assert(self.text@ =~= t.drop_last().push(')'));
                }
            }
        }
        self.refresh_result();
    }

    /// Removes the final character of the text, if any; never re-evaluates.
    pub fn delete_last(&mut self)
        ensures
            old(self).text@.len() == 0 ==> final(self).text@ == old(self).text@,
            old(self).text@.len() > 0 ==> final(self).text@ == old(self).text@.drop_last(),
            final(self).result == old(self).result,
    {
        self.drop_last_char();
    }

    /// Resets the text to empty and the result to zero.
    pub fn clear(&mut self)
        ensures
            final(self).text@ == Seq::<char>::empty(),
            final(self).result == 0,
    {
        self.text = String::new();
        self.result = 0;
    }

    /// The explicit evaluate command: when the text evaluates, it is
    /// replaced by the printed result and the result is stored; when it
    /// does not, both are left unchanged.
    pub fn commit(&mut self)
        ensures
            final(self).text@ == spec_commit_text(old(self).text@),
            final(self).result == spec_commit_result(old(self).text@, old(self).result),
            wf_text(old(self).text@) ==> wf_text(final(self).text@),
    {
        match get_result_from_string(self.text.as_str()) {
            Some(b) => {
                self.result = b;
                self.text = print_bits(b);
                proof {
                    let u = self.text@;
                    assert(no_adjacent_ops(u)) by {
                        assert forall|i: int|
                            0 <= i && i + 1 < u.len() implies !(is_op_char(#[trigger] u[i])
                            && is_op_char(u[i + 1])) by {
                            assert(!is_op_char(u[i + 1]) || (i + 1 == 0 && u[i + 1] == '-'));
                        }
                    }
                    lemma_prefixes_no_parens(u);
                }
            },
            None => {},
        }
    }
}

/// A text with no parenthesis at all never over-closes: every prefix is
/// balanced at zero.
proof fn lemma_prefixes_no_parens(s: Seq<char>)
    requires
        forall|i: int| 0 <= i < s.len() ==> #[trigger] s[i] != '(' && s[i] != ')',
    ensures
        prefixes_nonneg(s),
        paren_balance(s) == 0,
    decreases s.len(),
{
    if s.len() > 0 {
        assert forall|i: int| 0 <= i < s.drop_last().len() implies #[trigger] s.drop_last()[i]
            != '(' && s.drop_last()[i] != ')' by {
            assert(s.drop_last()[i] == s[i]);
        }
        lemma_prefixes_no_parens(s.drop_last());
    }
}

/// No two operator characters stand adjacent anywhere in the text.
pub open spec fn no_adjacent_ops(t: Seq<char>) -> bool {
    forall|i: int|
        0 <= i && i + 1 < t.len() ==> !(is_op_char(#[trigger] t[i]) && is_op_char(t[i + 1]))
}

/// Between any two decimal points of the text stands a character that is no
/// part of a literal: no single literal ever holds two points.
pub open spec fn one_dot_per_lit(t: Seq<char>) -> bool {
    forall|i: int, j: int|
        0 <= i < j < t.len() && #[trigger] t[i] == '.' && #[trigger] t[j] == '.' ==> exists|k: int|
            i < k < j && !is_lit_char(#[trigger] t[k])
}

/// Every decimal point of the text directly follows a digit.
pub open spec fn dot_after_digit(t: Seq<char>) -> bool {
    forall|i: int|
        0 <= i < t.len() && #[trigger] t[i] == '.' ==> i > 0 && is_digit_char(t[i - 1])
}

/// No prefix of the text closes more groups than it opens: a `)` only ever
/// stands where an earlier `(` is still unmatched.
pub open spec fn prefixes_nonneg(t: Seq<char>) -> bool
    decreases t.len(),
{
    if t.len() == 0 {
        true
    } else {
        prefixes_nonneg(t.drop_last()) && paren_balance(t) >= 0
    }
}

/// The builder's invariant over the expression text: no adjacent operators,
/// at most one decimal point per literal, each point after a digit, and no
/// prefix with more `)` than `(`.
pub open spec fn wf_text(t: Seq<char>) -> bool {
    no_adjacent_ops(t) && one_dot_per_lit(t) && dot_after_digit(t) && prefixes_nonneg(t)
}

/// The empty text (the start state, and the state after a clear) is
/// well-formed.
pub proof fn lemma_wf_empty()
    ensures
        wf_text(Seq::<char>::empty()),
{
    assert(prefixes_nonneg(Seq::<char>::empty()));
}

/// Extending the text by any character other than `.` disturbs neither the
/// one-point-per-literal rule nor the point-after-digit rule.
proof fn lemma_push_keeps_dots(t: Seq<char>, c: char)
    requires
        one_dot_per_lit(t),
        dot_after_digit(t),
        c != '.',
    ensures
        one_dot_per_lit(t.push(c)),
        dot_after_digit(t.push(c)),
{
    let u = t.push(c);
    assert forall|i: int, j: int|
        0 <= i < j < u.len() && #[trigger] u[i] == '.' && #[trigger] u[j] == '.' implies exists|
        k: int,
    | i < k < j && !is_lit_char(#[trigger] u[k]) by {
        assert(u[j] == t[j]);
        let k = choose|k: int| i < k < j && !is_lit_char(#[trigger] t[k]);
        assert(!is_lit_char(u[k]));
    }
    assert forall|i: int| 0 <= i < u.len() && #[trigger] u[i] == '.' implies i > 0
        && is_digit_char(u[i - 1]) by {
        assert(u[i] == t[i]);
    }
}

/// Balance bookkeeping for a one-character extension.
proof fn lemma_balance_push(t: Seq<char>, c: char)
    ensures
        paren_balance(t.push(c)) == paren_balance(t) + if c == '(' {
            1int
        } else if c == ')' {
            -1int
        } else {
            0int
        },
        prefixes_nonneg(t) && paren_balance(t.push(c)) >= 0 ==> prefixes_nonneg(t.push(c)),
{
    assert(t.push(c).drop_last() =~= t);
}

/// Law: a digit command preserves the text invariant.
pub proof fn lemma_wf_append_digit(t: Seq<char>, d: char)
    requires
        wf_text(t),
        is_digit_char(d),
    ensures
        wf_text(spec_append_digit(t, d)),
{
    assert(!is_op_char(d)) by {
        assert(d as u32 >= 48);
    }
    if t.len() == 0 {
        assert(spec_append_digit(t, d) =~= Seq::<char>::empty().push(d));
        lemma_push_keeps_dots(Seq::<char>::empty(), d);
        lemma_balance_push(Seq::<char>::empty(), d);
        assert(prefixes_nonneg(Seq::<char>::empty()));
    } else if t.last() == ')' {
        let v = t.push('*');
        let u = v.push(d);
        assert(spec_append_digit(t, d) =~= u);
        lemma_push_keeps_dots(t, '*');
        lemma_balance_push(t, '*');
        lemma_push_keeps_dots(v, d);
        lemma_balance_push(v, d);
        assert(no_adjacent_ops(u)) by {
            assert(v[v.len() - 2] == ')');
        }
    } else {
        lemma_push_keeps_dots(t, d);
        lemma_balance_push(t, d);
    }
}

/// Law: an operator command preserves the text invariant; in particular a
/// second operator never comes to stand beside the first.
pub proof fn lemma_wf_append_operator(t: Seq<char>, op: char)
    requires
        wf_text(t),
        is_op_char(op),
    ensures
        wf_text(spec_append_operator(t, op)),
{
    if t.len() == 0 {
    } else if is_op_char(t.last()) || t.last() == '.' {
        let v = t.drop_last();
        let u = v.push(op);
        assert(wf_text(v)) by {
            lemma_wf_drop_last(t);
        }
        lemma_push_keeps_dots(v, op);
        lemma_balance_push(v, op);
        assert(no_adjacent_ops(u)) by {
            if v.len() > 0 {
                if t.last() == '.' {
                    assert(t[t.len() - 1] == '.');
                    assert(is_digit_char(t[t.len() - 2]));
                    assert(!is_op_char(v.last())) by {
                        assert(v.last() as u32 >= 48);
                    }
                } else {
                    assert(!(is_op_char(t[t.len() - 2]) && is_op_char(t[t.len() - 1])));
                }
            }
        }
        assert(paren_balance(u) >= 0) by {
            assert(paren_balance(t) == paren_balance(v) + 0);
            assert(paren_balance(t) >= 0);
        }
    } else {
        lemma_push_keeps_dots(t, op);
        lemma_balance_push(t, op);
        assert(no_adjacent_ops(t.push(op))) by {
            assert(!is_op_char(t.last()));
        }
    }
}

/// Law: a decimal-point command preserves the text invariant; in particular
/// the literal it extends ends up with exactly one point.
pub proof fn lemma_wf_append_dot(t: Seq<char>)
    requires
        wf_text(t),
    ensures
        wf_text(spec_append_dot(t)),
{
    if t.len() == 0 || !is_digit_char(t.last()) {
    } else if lit_has_dot(t) {
    } else {
        let u = t.push('.');
        lemma_balance_push(t, '.');
        assert(no_adjacent_ops(u)) by {
            assert(!is_op_char(t.last())) by {
                assert(t.last() as u32 >= 48);
            }
        }
        assert(dot_after_digit(u)) by {
            assert(u[u.len() - 1] == '.' && is_digit_char(u[u.len() - 2]));
            assert forall|i: int| 0 <= i < u.len() - 1 && #[trigger] u[i] == '.' implies i > 0
                && is_digit_char(u[i - 1]) by {
                assert(u[i] == t[i]);
            }
        }
        lemma_lit_scan_props(t, 0, 0);
        let p = lit_start(t);
        assert(one_dot_per_lit(u)) by {
            assert forall|i: int, j: int|
                0 <= i < j < u.len() && #[trigger] u[i] == '.' && #[trigger] u[j] == '.' implies
                exists|k: int| i < k < j && !is_lit_char(#[trigger] u[k]) by {
                if j < t.len() {
                    let k = choose|k: int| i < k < j && !is_lit_char(#[trigger] t[k]);
                    assert(!is_lit_char(u[k]));
                } else {
                    assert(t[i] == '.');
                    assert(i < p) by {
                        assert(!(p <= i < t.len() && t[i] == '.'));
                    }
                    assert(p > 0 && !is_lit_char(t[p - 1])) by {
                        if p == 0 {
                            assert(t[i] == '.' && 0 <= i < t.len());
                        }
                    }
                    assert(i < p - 1 || i == p - 1);
                    assert(i != p - 1) by {
                        if i == p - 1 {
                            assert(!is_lit_char(t[i]));
                        }
                    }
                    assert(!is_lit_char(u[p - 1]));
                }
            }
        }
    }
}

/// What the literal scan guarantees: the scan lands at or after `cur`, the
/// character just before where it lands is no literal character, and every
/// character from there on is one.
proof fn lemma_lit_scan_props(s: Seq<char>, i: int, cur: int)
    requires
        0 <= cur <= i <= s.len(),
        cur > 0 ==> !is_lit_char(s[cur - 1]),
    ensures
        ({
            let p = lit_scan(s, i, cur);
            cur <= p <= s.len() && (p > 0 ==> !is_lit_char(s[p - 1])) && forall|m: int|
                p <= m < s.len() && m >= i ==> is_lit_char(#[trigger] s[m])
        }),
    decreases s.len() - i,
{
    if i >= s.len() {
    } else if is_lit_char(s[i]) {
        lemma_lit_scan_props(s, i + 1, cur);
    } else {
        lemma_lit_scan_props(s, i + 1, i + 1);
    }
}

/// Law: an open-parenthesis command preserves the text invariant.
pub proof fn lemma_wf_append_open(t: Seq<char>)
    requires
        wf_text(t),
    ensures
        wf_text(spec_append_open(t)),
{
    if t.len() == 0 {
        assert(spec_append_open(t) =~= Seq::<char>::empty().push('('));
        lemma_push_keeps_dots(Seq::<char>::empty(), '(');
        lemma_balance_push(Seq::<char>::empty(), '(');
        assert(prefixes_nonneg(Seq::<char>::empty()));
    } else if is_digit_char(t.last()) {
        let v = t.push('*');
        let u = v.push('(');
        assert(spec_append_open(t) =~= u);
        lemma_push_keeps_dots(t, '*');
        lemma_balance_push(t, '*');
        lemma_push_keeps_dots(v, '(');
        lemma_balance_push(v, '(');
        assert(no_adjacent_ops(u)) by {
            assert(!is_op_char(t.last())) by {
                assert(t.last() as u32 >= 48);
            }
            assert(v[v.len() - 2] == t.last());
        }
    } else {
        lemma_push_keeps_dots(t, '(');
        lemma_balance_push(t, '(');
    }
}

/// Law: a close-parenthesis command preserves the text invariant; in
/// particular a `)` is only ever appended over a positive balance, so no
/// prefix of the text ever over-closes.
pub proof fn lemma_wf_append_close(t: Seq<char>)
    requires
        wf_text(t),
    ensures
        wf_text(spec_append_close(t)),
{
    if t.len() == 0 || paren_balance(t) <= 0 {
    } else if is_digit_char(t.last()) || t.last() == ')' {
        lemma_push_keeps_dots(t, ')');
        lemma_balance_push(t, ')');
    } else if t.last() == '(' {
        lemma_wf_drop_last(t);
    } else {
        let v = t.drop_last();
        let u = v.push(')');
        lemma_wf_drop_last(t);
        lemma_push_keeps_dots(v, ')');
        lemma_balance_push(v, ')');
        assert(paren_balance(u) >= 0) by {
            assert(paren_balance(t) == paren_balance(v) + 0);
        }
    }
}

/// Law: removing the last character preserves the text invariant.
pub proof fn lemma_wf_drop_last(t: Seq<char>)
    requires
        wf_text(t),
        t.len() > 0,
    ensures
        wf_text(t.drop_last()),
{
    let v = t.drop_last();
    assert forall|i: int, j: int|
        0 <= i < j < v.len() && #[trigger] v[i] == '.' && #[trigger] v[j] == '.' implies exists|
        k: int,
    | i < k < j && !is_lit_char(#[trigger] v[k]) by {
        assert(t[i] == '.' && t[j] == '.');
        let k = choose|k: int| i < k < j && !is_lit_char(#[trigger] t[k]);
        assert(!is_lit_char(v[k]));
    }
    assert forall|i: int| 0 <= i < v.len() && #[trigger] v[i] == '.' implies i > 0 && is_digit_char(
        v[i - 1],
    ) by {
        assert(t[i] == '.');
    }
}

/// Law: a close-parenthesis command on a text with no unmatched `(` leaves
/// the text exactly as it was.
pub proof fn lemma_close_paren_unmatched_noop(t: Seq<char>)
    requires
        paren_balance(t) <= 0,
    ensures
        spec_append_close(t) == t,
{
}

/// Law: an evaluate command on a text that is already the printed form of
/// its own value leaves both the text and the result unchanged.
pub proof fn lemma_commit_idempotent(t: Seq<char>, r: u64)
    requires
        spec_evaluate(t) == Some(r),
        t == spec_print(r),
    ensures
        spec_commit_text(t) == t,
        spec_commit_result(t, r) == r,
{
}

/// Law: a decimal-point command on a text whose rightmost literal already
/// holds a `.` leaves the text exactly as it was.
pub proof fn lemma_decimal_guard(t: Seq<char>)
    requires
        lit_has_dot(t),
    ensures
        spec_append_dot(t) == t,
{
}

} // verus!
