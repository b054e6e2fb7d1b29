//! Tests of the expression builder: one editing command per call, implicit
//! multiplication, the decimal guard, parenthesis balance, and the explicit
//! evaluate command.
use calculator::builder::Calculator;

#[test]
fn digits_append_in_order() {
    let mut c = Calculator::new();
    c.append_digit('1');
    c.append_digit('2');
    c.append_digit('3');
    assert_eq!(c.text.as_str(), "123");
    assert_eq!(c.result, 123.0f64.to_bits());
}

#[test]
fn close_paren_without_open_is_noop() {
    let mut c = Calculator::new();
    c.append_digit('4');
    c.append_digit('5');
    c.append_close_paren();
    assert_eq!(c.text.as_str(), "45");
}

#[test]
fn open_paren_after_digit_inserts_multiplication() {
    let mut c = Calculator::new();
    c.append_digit('2');
    c.append_open_paren();
    assert_eq!(c.text.as_str(), "2*(");
}

#[test]
fn digit_after_close_paren_inserts_multiplication() {
    let mut c = Calculator::new();
    c.append_open_paren();
    c.append_digit('3');
    c.append_close_paren();
    c.append_digit('4');
    assert_eq!(c.text.as_str(), "(3)*4");
    assert_eq!(c.result, 12.0f64.to_bits());
}

#[test]
fn operator_on_empty_text_is_noop() {
    let mut c = Calculator::new();
    c.append_operator('+');
    assert_eq!(c.text.as_str(), "");
}

#[test]
fn second_operator_replaces_first() {
    let mut c = Calculator::new();
    c.append_digit('3');
    c.append_operator('+');
    c.append_operator('-');
    assert_eq!(c.text.as_str(), "3-");
}

#[test]
fn operator_replaces_dangling_decimal_point() {
    let mut c = Calculator::new();
    c.append_digit('3');
    c.append_decimal_point();
    assert_eq!(c.text.as_str(), "3.");
    c.append_operator('*');
    assert_eq!(c.text.as_str(), "3*");
}

#[test]
fn decimal_point_after_trailing_dot_is_noop() {
    let mut c = Calculator::new();
    c.append_digit('3');
    c.append_decimal_point();
    c.append_decimal_point();
    assert_eq!(c.text.as_str(), "3.");
}

#[test]
fn decimal_point_in_fractional_literal_is_noop() {
    let mut c = Calculator::new();
    c.append_digit('3');
    c.append_decimal_point();
    c.append_digit('5');
    c.append_decimal_point();
    assert_eq!(c.text.as_str(), "3.5");
}

#[test]
fn decimal_point_allowed_in_fresh_literal() {
    let mut c = Calculator::new();
    c.append_digit('3');
    c.append_decimal_point();
    c.append_digit('5');
    c.append_operator('+');
    c.append_digit('1');
    c.append_decimal_point();
    assert_eq!(c.text.as_str(), "3.5+1.");
}

#[test]
fn close_paren_collapses_empty_group() {
    let mut c = Calculator::new();
    c.append_open_paren();
    c.append_close_paren();
    assert_eq!(c.text.as_str(), "");
}

#[test]
fn close_paren_drops_dangling_operator() {
    let mut c = Calculator::new();
    c.append_open_paren();
    c.append_digit('3');
    c.append_operator('+');
    c.append_close_paren();
    assert_eq!(c.text.as_str(), "(3)");
}

#[test]
fn delete_last_removes_one_character() {
    let mut c = Calculator::new();
    c.append_digit('1');
    c.append_digit('2');
    c.delete_last();
    assert_eq!(c.text.as_str(), "1");
    c.delete_last();
    c.delete_last();
    assert_eq!(c.text.as_str(), "");
}

#[test]
fn clear_resets_text_and_result() {
    let mut c = Calculator::new();
    c.append_digit('7');
    assert_eq!(c.result, 7.0f64.to_bits());
    c.clear();
    assert_eq!(c.text.as_str(), "");
    assert_eq!(c.result, 0);
}

#[test]
fn failed_evaluation_keeps_last_result() {
    let mut c = Calculator::new();
    c.append_digit('7');
    assert_eq!(c.result, 7.0f64.to_bits());
    c.append_operator('+');
    c.append_open_paren();
    // "7+(" does not evaluate, so the digit's refresh keeps the old value
    c.append_digit('2');
    assert_eq!(c.text.as_str(), "7+(2");
    assert_eq!(c.result, 7.0f64.to_bits());
}

#[test]
fn commit_replaces_text_with_printed_result() {
    let mut c = Calculator::new();
    c.append_digit('3');
    c.append_operator('+');
    c.append_digit('4');
    c.commit();
    assert_eq!(c.text.as_str(), "7");
    assert_eq!(c.result, 7.0f64.to_bits());
}

#[test]
fn commit_on_own_printed_form_changes_nothing() {
    let mut c = Calculator::new();
    c.append_digit('1');
    c.append_digit('2');
    c.commit();
    let text_before = c.text.clone();
    let result_before = c.result;
    c.commit();
    assert_eq!(c.text, text_before);
    assert_eq!(c.result, result_before);
}

#[test]
fn commit_on_unevaluable_text_changes_nothing() {
    let mut c = Calculator::new();
    c.append_digit('5');
    c.append_operator('*');
    c.commit();
    assert_eq!(c.text.as_str(), "5*");
    assert_eq!(c.result, 5.0f64.to_bits());
}
