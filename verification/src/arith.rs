//! Numeric layer of the evaluator.
//!
//! The evaluator rewrites expression text, so every number passes through two
//! textual frontiers: a numeric literal is parsed to an IEEE 754 double, and a
//! computed double is printed back as a literal to splice into the text.  The
//! doubles themselves are carried as their 64-bit IEEE bit patterns (`u64`),
//! and the parsing, printing and the four binary operations are performed by
//! `rustc_apfloat`'s software implementation of IEEE 754 binary64 arithmetic.
//! Each of those operations is a pure function of its arguments, so each is
//! given an uninterpreted name here, and the trusted wrappers below tie the
//! outside calls to those names.
use vstd::prelude::*;

use rustc_apfloat::Float;
use vstd::string::StringExecFns;

verus! {

/// What parsing a decimal literal to an IEEE 754 double yields: the bit
/// pattern of the nearest double (ties to even), or `None` where the text is
/// not a numeric literal.
pub uninterp spec fn dbl_of_lit(s: Seq<char>) -> Option<u64>;

/// The decimal literal that printing a finite IEEE 754 double yields.
pub uninterp spec fn lit_of_dbl(bits: u64) -> Seq<char>;

/// IEEE 754 binary64 addition (round to nearest, ties to even), on bit patterns.
pub uninterp spec fn dbl_add(a: u64, b: u64) -> u64;

/// IEEE 754 binary64 subtraction (round to nearest, ties to even), on bit patterns.
pub uninterp spec fn dbl_sub(a: u64, b: u64) -> u64;

/// IEEE 754 binary64 multiplication (round to nearest, ties to even), on bit patterns.
pub uninterp spec fn dbl_mul(a: u64, b: u64) -> u64;

/// IEEE 754 binary64 division (round to nearest, ties to even), on bit patterns.
pub uninterp spec fn dbl_div(a: u64, b: u64) -> u64;

/// True when the bit pattern is a finite double: the exponent field is not
/// all ones (which would mark an infinity or a NaN).
pub open spec fn is_finite_bits(bits: u64) -> bool {
    (bits >> 52) & 0x7ff != 0x7ff
}

/// Relies on `rustc_apfloat::ieee::Double`'s `FromStr`: correctly rounded
/// decimal-to-binary64 conversion, `Err` (never a panic) on text that is not
/// a numeric literal.  The result depends on the characters alone, and the
/// parser accepts every plain literal: a run of digits with at most one
/// `.`, with or without a fractional part, never fails to parse.
#[verifier::external_body]
pub(crate) fn parse_lit(s: &str) -> (r: Option<u64>)
    ensures
        r == dbl_of_lit(s@),
        crate::is_plain_literal(s@) ==> r is Some,
{
    match s.parse::<rustc_apfloat::ieee::Double>() {
        Ok(d) => Some(d.to_bits() as u64),
        Err(_) => None,
    }
}

/// Relies on `rustc_apfloat::ieee::Double`'s `Display`: exact decimal digits
/// of a finite double, in plain (never scientific) notation once the width
/// and precision are large enough for every finite binary64 value.  The
/// result depends on the bits alone, and its shape is fixed by the printing
/// algorithm: digits and at most one `.`, with a digit always written
/// before the `.`, and a `-` sign first for a negative value.
#[verifier::external_body]
pub(crate) fn print_finite(bits: u64) -> (r: String)
    requires
        is_finite_bits(bits),
    ensures
        r@ == lit_of_dbl(bits),
        forall|i: int|
            0 <= i < r@.len() ==> crate::is_digit_char(#[trigger] r@[i]) || r@[i] == '.' || (i == 0
                && r@[i] == '-'),
        forall|i: int, j: int| 0 <= i < j < r@.len() ==> !(#[trigger] r@[i] == '.' && #[trigger] r@[j] == '.'),
        forall|i: int|
            0 <= i < r@.len() && #[trigger] r@[i] == '.' ==> i > 0 && crate::is_digit_char(
                r@[i - 1],
            ),
{
    let d = rustc_apfloat::ieee::Double::from_bits(bits as u128);
    format!("{:400.400}", d)
}

/// Relies on `rustc_apfloat::Float::add_r`: IEEE 754 binary64 addition,
/// round to nearest, ties to even.
#[verifier::external_body]
pub(crate) fn add_bits(a: u64, b: u64) -> (r: u64)
    ensures
        r == dbl_add(a, b),
{
    let x = rustc_apfloat::ieee::Double::from_bits(a as u128);
    let y = rustc_apfloat::ieee::Double::from_bits(b as u128);
    x.add_r(y, rustc_apfloat::Round::NearestTiesToEven).value.to_bits() as u64
}

/// Relies on `rustc_apfloat::Float::sub_r`: IEEE 754 binary64 subtraction,
/// round to nearest, ties to even.
#[verifier::external_body]
pub(crate) fn sub_bits(a: u64, b: u64) -> (r: u64)
    ensures
        r == dbl_sub(a, b),
{
    let x = rustc_apfloat::ieee::Double::from_bits(a as u128);
    let y = rustc_apfloat::ieee::Double::from_bits(b as u128);
    x.sub_r(y, rustc_apfloat::Round::NearestTiesToEven).value.to_bits() as u64
}

/// Relies on `rustc_apfloat::Float::mul_r`: IEEE 754 binary64 multiplication,
/// round to nearest, ties to even.
#[verifier::external_body]
pub(crate) fn mul_bits(a: u64, b: u64) -> (r: u64)
    ensures
        r == dbl_mul(a, b),
{
    let x = rustc_apfloat::ieee::Double::from_bits(a as u128);
    let y = rustc_apfloat::ieee::Double::from_bits(b as u128);
    x.mul_r(y, rustc_apfloat::Round::NearestTiesToEven).value.to_bits() as u64
}

/// Relies on `rustc_apfloat::Float::div_r`: IEEE 754 binary64 division,
/// round to nearest, ties to even; division by zero yields an infinity or a
/// NaN, never a panic.
#[verifier::external_body]
pub(crate) fn div_bits(a: u64, b: u64) -> (r: u64)
    ensures
        r == dbl_div(a, b),
{
    let x = rustc_apfloat::ieee::Double::from_bits(a as u128);
    let y = rustc_apfloat::ieee::Double::from_bits(b as u128);
    x.div_r(y, rustc_apfloat::Round::NearestTiesToEven).value.to_bits() as u64
}

/// The text that printing any double yields: the decimal literal of a finite
/// value, and the fixed spellings of the infinities and of NaN.
pub open spec fn spec_print(v: u64) -> Seq<char> {
    if is_finite_bits(v) {
        lit_of_dbl(v)
    } else if v & 0xf_ffff_ffff_ffff != 0 {
        seq!['N', 'a', 'N']
    } else if v >> 63 == 1 {
        seq!['-', 'i', 'n', 'f']
    } else {
        seq!['i', 'n', 'f']
    }
}

/// Prints a double of any category as the evaluator splices it into the
/// text: its decimal literal when finite, else `inf`, `-inf` or `NaN`.
/// Whatever the category, the printed text holds no parenthesis, no
/// operator character past a leading `-` sign, and at most one decimal
/// point, which directly follows a digit.
pub fn print_bits(v: u64) -> (r: String)
    ensures
        r@ == spec_print(v),
        forall|i: int|
            0 <= i < r@.len() ==> !crate::is_op_char(#[trigger] r@[i]) || (i == 0 && r@[i] == '-'),
        forall|i: int| 0 <= i < r@.len() ==> #[trigger] r@[i] != '(' && r@[i] != ')',
        forall|i: int, j: int|
            0 <= i < j < r@.len() ==> !(#[trigger] r@[i] == '.' && #[trigger] r@[j] == '.'),
        forall|i: int|
            0 <= i < r@.len() && #[trigger] r@[i] == '.' ==> i > 0 && crate::is_digit_char(
                r@[i - 1],
            ),
{
    let exp = (v >> 52) & 0x7ff;
    if exp != 0x7ff {
        print_finite(v)
    } else if (v & 0xf_ffff_ffff_ffff) != 0 {
        let r = String::from_str("NaN");
        proof {
            reveal_strlit("NaN");
            assert(r@ =~= seq!['N', 'a', 'N']);
        }
        r
    } else if (v >> 63) == 1 {
        let r = String::from_str("-inf");
        proof {
            reveal_strlit("-inf");
            assert(r@ =~= seq!['-', 'i', 'n', 'f']);
        }
        r
    } else {
        let r = String::from_str("inf");
        proof {
            reveal_strlit("inf");
            assert(r@ =~= seq!['i', 'n', 'f']);
        }
        r
    }
}

} // verus!
