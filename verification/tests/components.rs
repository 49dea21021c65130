use clac::expr::Expr;
use clac::token::Token;

#[test]
fn tokenize_source_order() {
    let ts = Token::tokenize("1 + (2.5 * ans)".to_string()).unwrap();
    assert_eq!(ts.len(), 7);
    assert!(matches!(ts[0], Token::Number(b) if f64::from_bits(b) == 1.0));
    assert!(matches!(ts[1], Token::Add));
    assert!(matches!(ts[2], Token::LeftParen));
    assert!(matches!(ts[3], Token::Number(b) if f64::from_bits(b) == 2.5));
    assert!(matches!(ts[4], Token::Multiply));
    assert!(matches!(&ts[5], Token::Identifier(s) if s == "ans"));
    assert!(matches!(ts[6], Token::RightParen));
}

#[test]
fn tokenize_skips_whitespace_and_stops_at_newline() {
    let ts = Token::tokenize("\t 1\r + 2 \n 3".to_string()).unwrap();
    assert_eq!(ts.len(), 3);
    assert!(matches!(ts[2], Token::Number(b) if f64::from_bits(b) == 2.0));
}

#[test]
fn tokenize_identifier_stops_at_digit() {
    let ts = Token::tokenize("abc1".to_string()).unwrap();
    assert_eq!(ts.len(), 2);
    assert!(matches!(&ts[0], Token::Identifier(s) if s == "abc"));
    assert!(matches!(ts[1], Token::Number(b) if f64::from_bits(b) == 1.0));
}

#[test]
fn parse_builds_a_grouped_tree() {
    let ts = Token::tokenize("(1 + 2) * 3".to_string()).unwrap();
    let tree = Expr::from(ts, None).unwrap();
    match &tree {
        Expr::Binary(l, Token::Multiply, r) => {
            assert!(matches!(&**l, Expr::Grouping(_)));
            assert!(matches!(&**r, Expr::Literal(b) if f64::from_bits(*b) == 3.0));
        }
        other => panic!("unexpected tree shape: {other:?}"),
    }
    assert_eq!(tree.evaluate().map(f64::from_bits), Ok(9.0));
}

#[test]
fn parse_resolves_ans_at_parse_time() {
    let ts = Token::tokenize("ans".to_string()).unwrap();
    let tree = Expr::from(ts, Some(2.5f64.to_bits())).unwrap();
    assert!(matches!(tree, Expr::Literal(b) if f64::from_bits(b) == 2.5));
}

#[test]
fn parse_reports_exhausted_input() {
    let ts = Token::tokenize("1 +".to_string()).unwrap();
    match Expr::from(ts, None) {
        Err(m) => assert_eq!(m, "Expected expression."),
        Ok(t) => panic!("expected an error, parsed {t:?}"),
    }
}

#[test]
fn evaluate_rejects_a_unary_operator_outside_the_grammar() {
    let tree = Expr::Unary(Token::Add, Box::new(Expr::Literal(5.0f64.to_bits())));
    assert_eq!(
        tree.evaluate().map(f64::from_bits),
        Err("Failed to evaluate: \"+\"".to_string())
    );
}

#[test]
fn evaluate_rejects_a_binary_operator_outside_the_grammar() {
    let one = 1.0f64.to_bits();
    let tree = Expr::Binary(
        Box::new(Expr::Literal(one)),
        Token::LeftParen,
        Box::new(Expr::Literal(one)),
    );
    assert_eq!(
        tree.evaluate().map(f64::from_bits),
        Err("Failed to evaluate".to_string())
    );
}

#[test]
fn token_text_renders_numbers() {
    assert_eq!(Token::Number(3.5f64.to_bits()).text(), "3.5");
    assert_eq!(Token::Number(150.0f64.to_bits()).text(), "150");
    assert_eq!(Token::Identifier("ans".to_string()).text(), "ans");
    assert_eq!(Token::Exponent.text(), "^");
}

#[test]
fn rendering_round_trips() {
    let ts = Token::tokenize("1 + 2 * (3 - --4.5) ^ 2".to_string()).unwrap();
    let tree = Expr::from(ts, None).unwrap();
    let direct = tree.evaluate().map(f64::from_bits).unwrap();
    let text = tree.to_text();
    let again = clac::evaluate_line(&text, None)
        .map(f64::from_bits)
        .unwrap();
    assert_eq!(direct, again);
}

#[test]
fn rendering_is_canonical() {
    let ts = Token::tokenize("1 + 2 * 3".to_string()).unwrap();
    let tree = Expr::from(ts, None).unwrap();
    assert_eq!(tree.to_text(), "(1 + (2 * 3))");

    let ts = Token::tokenize("ans".to_string()).unwrap();
    let tree = Expr::from(ts, Some((-2.5f64).to_bits())).unwrap();
    assert_eq!(tree.to_text(), "-2.5");
    assert_eq!(
        clac::evaluate_line("-2.5", None).map(f64::from_bits),
        Ok(-2.5)
    );
}
