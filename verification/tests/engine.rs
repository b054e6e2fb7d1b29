//! Tests of the expression evaluator: the scanning primitives, the three
//! reduction passes, and full evaluation.  Doubles are carried as IEEE 754
//! bit patterns, so expected values are written as `f64` literals and
//! compared through `to_bits`.
use calculator::reduce::get_result_from_string;
use calculator::reduce::strip_as;
use calculator::reduce::strip_brackets;
use calculator::reduce::strip_md;
use calculator::rm_whitespace;
use calculator::scan::get_as;
use calculator::scan::get_bracket;
use calculator::scan::get_left_num;
use calculator::scan::get_md;
use calculator::scan::get_right_num;

#[test]
fn get_bracket_works() {
    let s1 = "shabadooo(145+452)iensenpinpb(1442388)";
    let (t1s, t1e) = get_bracket(s1).unwrap();
    assert_eq!(&s1[t1s..t1e], "145+452");

    let s2 = "inetiersntiersntiersntifsryunwfrnfwpynpwnfuybfwnybnwu";
    assert_eq!(get_bracket(s2), Some((0, 0)));

    let s3 = ")45+2()";
    assert_eq!(get_bracket(s3), None);
}

#[test]
fn get_md_works() {
    let s = "234832+234948/4838*243";
    let (start, end, division) = get_md(s).unwrap();
    assert_eq!(&s[start..end], "234948/4838");
    assert!(division);
}

#[test]
fn get_as_works() {
    let s = "234832+234948/4838*243";
    let (start, end, subtraction) = get_as(s).unwrap();
    assert_eq!(&s[start..end], "234832+234948");
    assert!(!subtraction);
}

#[test]
fn get_left_num_works() {
    assert_eq!(
        get_left_num("43.4525252/485835295285994"),
        Some(43.4525252f64.to_bits())
    );
    assert_eq!(
        get_left_num("9328429838952/34.3984858"),
        Some(9328429838952.0f64.to_bits())
    );
}

#[test]
fn get_right_num_works() {
    assert_eq!(
        get_right_num("9328429838952/34.3984858"),
        Some(34.3984858f64.to_bits())
    );
}

#[test]
fn strip_brackets_works() {
    assert_eq!(
        strip_brackets("834834+100293904*8340030*(405*4+2/1)+(8/4*2)".to_string()),
        Some("834834+100293904*8340030*1622+4".to_string())
    );
    assert_eq!(strip_brackets("())".to_string()), None);
}

#[test]
fn strip_md_works() {
    assert_eq!(
        strip_md("304*208+48/12".to_string()).unwrap(),
        "63232+4".to_string()
    );
}

#[test]
fn strip_as_works() {
    assert_eq!(
        strip_as("405+2-4+5+6+2-2-4-5-1".to_string()).unwrap(),
        ((405 + 2 - 4 + 5 + 6 + 2 - 2 - 4 - 5 - 1) as f64).to_bits()
    );
}

#[test]
fn result_works() {
    assert_eq!(
        get_result_from_string("4+2*8/(4/2)*1+4*(3+4)-5.0*(2/8)").unwrap(),
        38.75f64.to_bits()
    );
}

#[test]
fn multiply_divide_before_add() {
    assert_eq!(
        get_result_from_string("304*208+48/12"),
        Some(63236.0f64.to_bits())
    );
}

#[test]
fn brackets_resolve_before_outer_reduction() {
    let expected = (834834f64 + 100293904f64 * 8340030f64 * 1622f64) + 4f64;
    assert_eq!(
        get_result_from_string("834834+100293904*8340030*(405*4+2/1)+(8/4*2)"),
        Some(expected.to_bits())
    );
}

#[test]
fn unmatched_leading_close_paren_fails() {
    assert_eq!(get_result_from_string(")45+2("), None);
    assert_eq!(get_result_from_string(")"), None);
    assert_eq!(get_result_from_string(")3+4"), None);
}

#[test]
fn unclosed_open_paren_fails() {
    assert_eq!(get_result_from_string("(3+4"), None);
    assert_eq!(get_result_from_string("("), None);
}

#[test]
fn empty_group_fails() {
    assert_eq!(get_result_from_string("()"), None);
}

#[test]
fn consecutive_operators_fail() {
    assert_eq!(get_result_from_string("4++5"), None);
    assert_eq!(get_result_from_string("4*-5"), None);
    assert_eq!(get_result_from_string("4+-5"), None);
}

#[test]
fn dangling_operator_fails() {
    assert_eq!(get_result_from_string("5+"), None);
    assert_eq!(get_result_from_string("+5"), None);
}

#[test]
fn empty_and_stray_characters_fail() {
    assert_eq!(get_result_from_string(""), None);
    assert_eq!(get_result_from_string("abc"), None);
    assert_eq!(get_result_from_string("3+4x"), None);
}

#[test]
fn malformed_literal_fails() {
    assert_eq!(get_result_from_string("3.5.2+1"), None);
}

#[test]
fn whitespace_is_tolerated() {
    assert_eq!(rm_whitespace("3 + 4 "), "3+4".to_string());
    assert_eq!(get_result_from_string(" 3 + 4 "), Some(7.0f64.to_bits()));
}

#[test]
fn division_by_zero_passes_through_infinity() {
    assert_eq!(
        get_result_from_string("1/0"),
        Some(f64::INFINITY.to_bits())
    );
}

#[test]
fn negative_group_result_keeps_reducing() {
    assert_eq!(
        get_result_from_string("(0-5)*2"),
        Some((-10.0f64).to_bits())
    );
    assert_eq!(
        get_result_from_string("(1-2)+3"),
        Some(2.0f64.to_bits())
    );
}

#[test]
fn fractional_arithmetic_is_exact_double() {
    assert_eq!(
        get_result_from_string("3.5*2"),
        Some(7.0f64.to_bits())
    );
    assert_eq!(
        get_result_from_string("1/4+1/2"),
        Some(0.75f64.to_bits())
    );
}

#[test]
fn single_literal_evaluates_to_itself() {
    assert_eq!(get_result_from_string("42"), Some(42.0f64.to_bits()));
    assert_eq!(get_result_from_string("3.25"), Some(3.25f64.to_bits()));
}
