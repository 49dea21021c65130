use clac::evaluate;

fn ev(s: &str) -> Option<f64> {
    evaluate(s.to_string()).map(f64::from_bits)
}

fn line(s: &str) -> Result<f64, String> {
    clac::evaluate_line(s, None).map(f64::from_bits)
}

fn line_with(s: &str, ans: f64) -> Result<f64, String> {
    clac::evaluate_line(s, Some(ans.to_bits())).map(f64::from_bits)
}

#[test]
fn zero() {
    assert_eq!(Some(0.0), ev("0"));
}

#[test]
fn single_digit_number() {
    assert_eq!(Some(5.0), ev("5"));
}

#[test]
fn negative_number() {
    assert_eq!(Some(-5.0), ev("-5"));
}

#[test]
fn multi_digit_number() {
    assert_eq!(Some(123.0), ev("123"));
}

#[test]
fn multi_digit_negative_number() {
    assert_eq!(Some(-52.0), ev("-52"));
}

#[test]
fn addition() {
    assert_eq!(Some(3.0), ev("1 + 2"));
}

#[test]
fn multi_digit_addition() {
    assert_eq!(Some(27.0), ev("13 + 14"));
}

#[test]
fn subtraction() {
    assert_eq!(Some(5.0), ev("7 - 2"));
}

#[test]
fn negative_number_subtraction() {
    assert_eq!(Some(-5.0), ev("2 - 7"));
}

#[test]
fn complex_equation_1() {
    assert_eq!(Some(-15.0), ev("1 + 2 - (3 + 6) * 2"));
}

#[test]
fn decimal_literals() {
    assert_eq!(Ok(3.25), line("3.25"));
    assert_eq!(Ok(0.5), line(".5"));
    assert_eq!(Ok(5.0), line("5."));
    assert_eq!(Ok(7.0), line("007"));
    assert_eq!(Ok(-2.5), line("-2.5"));
}

#[test]
fn left_associativity() {
    assert_eq!(Ok(-4.0), line("1 - 2 - 3"));
}

#[test]
fn precedence() {
    assert_eq!(Ok(7.0), line("1 + 2 * 3"));
    assert_eq!(Ok(9.0), line("(1 + 2) * 3"));
}

#[test]
fn exponent_left_associativity() {
    assert_eq!(Ok(64.0), line("2 ^ 3 ^ 2"));
}

#[test]
fn unary_chaining() {
    assert_eq!(Ok(5.0), line("--5"));
}

#[test]
fn ans_resolution() {
    assert_eq!(Ok(6.0), line_with("ans + 1", 5.0));
    assert_eq!(Ok(0.0), line("ans"));
}

#[test]
fn unknown_identifier() {
    assert_eq!(Err("Unknown identifier \"foo\"".to_string()), line("foo"));
}

#[test]
fn unbalanced_parenthesis() {
    assert_eq!(
        Err("Expected \")\" after expression.".to_string()),
        line("(1 + 2")
    );
    // A trailing token after a complete expression is left unread by the
    // grammar, not reported.
    assert_eq!(Ok(3.0), line("1 + 2)"));
}

#[test]
fn idempotence() {
    let first = clac::evaluate_line("2 ^ 0.5 + ans / 3", Some(1.0f64.to_bits()));
    let second = clac::evaluate_line("2 ^ 0.5 + ans / 3", Some(1.0f64.to_bits()));
    assert_eq!(first, second);
    let e1 = clac::evaluate_line("foo + 1", None);
    let e2 = clac::evaluate_line("foo + 1", None);
    assert_eq!(e1, e2);
}

#[test]
fn empty_line_is_an_error() {
    assert_eq!(Err("Expected expression.".to_string()), line(""));
    assert_eq!(Err("Expected expression.".to_string()), line("   "));
}

#[test]
fn unrecognized_character() {
    assert_eq!(Err("Failed to parse \"$\"".to_string()), line("1 $ 2"));
    assert_eq!(Err("Failed to parse \"#\"".to_string()), line("#"));
}

#[test]
fn lone_dot_literal() {
    assert_eq!(
        Err("Failed to parse \".\" (invalid float literal)".to_string()),
        line(".")
    );
}

#[test]
fn newline_ends_the_line() {
    assert_eq!(Ok(3.0), line("1 + 2\n* 3"));
}

#[test]
fn division_follows_ieee() {
    assert_eq!(Ok(f64::INFINITY), line("1 / 0"));
    assert_eq!(Ok(f64::NEG_INFINITY), line("-1 / 0"));
    assert!(line("0 / 0").unwrap().is_nan());
}

#[test]
fn power_function() {
    assert_eq!(Ok(1024.0), line("2 ^ 10"));
    assert_eq!(Ok(2.0f64.sqrt()), line("2 ^ 0.5"));
    assert_eq!(Ok(0.25), line("2 ^ -2"));
    // A negative base with a fractional exponent has no real value.
    assert!(line("(0 - 8) ^ 0.5").unwrap().is_nan());
}

#[test]
fn fractional_arithmetic() {
    assert_eq!(Ok(0.1 + 0.2), line("0.1 + 0.2"));
    assert_eq!(Ok(2.5 * 1.5), line("2.5 * 1.5"));
    assert_eq!(Ok(1.0 / 3.0), line("1 / 3"));
    assert_eq!(Ok(7.25 - 0.125), line("7.25 - 0.125"));
}
