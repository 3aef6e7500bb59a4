use expr_parser::evaluate;
use expr_parser::ParseError;
use expr_parser::Rat;

/// The value of an expression as a float, for expressions whose exact value
/// is representable.
fn val(s: &str) -> f64 {
    let r = evaluate(s)
        .expect("expression should be valid")
        .expect("expression should have an exact value");
    r.num as f64 / r.den as f64
}

/// The exact value of an expression.
fn exact(s: &str) -> Rat {
    evaluate(s)
        .expect("expression should be valid")
        .expect("expression should have an exact value")
}

/// Whether an expression is rejected.
fn fails(s: &str) -> bool {
    matches!(evaluate(s), Err(ParseError::InvalidExpression))
}

#[test]
fn test_single() {
    assert_eq!(val("1"), 1.0);
}

#[test]
fn test_single_neg() {
    assert_eq!(val("-(1)"), -1.0);
}

#[test]
fn test_simple_add() {
    assert_eq!(val("1+2"), 3.0);
}

#[test]
fn test_space() {
    assert_eq!(val("1+ 2"), 3.0);
}

#[test]
fn test_simple_minus() {
    assert_eq!(val("1-2"), -1.0);
}

#[test]
fn test_simple_mul() {
    assert_eq!(val("1*2"), 2.0);
}

#[test]
fn test_simple_div() {
    assert_eq!(val("1/2"), 0.5);
}

#[test]
fn test_add_negative() {
    assert_eq!(val("1+(-2)"), -1.0);
}

#[test]
fn test_minus_negative() {
    assert_eq!(val("1-(-2)"), 3.0);
}

#[test]
fn test_mul_negative() {
    assert_eq!(val("1*(-2)"), -2.0);
}

#[test]
fn test_div_negative() {
    assert_eq!(val("1/(-2)"), -0.5);
}

#[test]
fn test_minus_whole_expr() {
    assert_eq!(val("-(1+2)"), -3.0);
}

#[test]
fn test_nested_brackets() {
    assert_eq!(val("((1+2))"), 3.0);
}

#[test]
fn test_complex_expr() {
    assert_eq!(val("1+2*3-4/5"), 6.2);
    let r = exact("1+2*3-4/5");
    assert_eq!(r.num, 31);
    assert_eq!(r.den, 5);
}

#[test]
fn test_log() {
    assert_eq!(val("log(1)"), 0.0);
    // ln(3) is irrational: the expression is valid but has no exact value.
    assert_eq!(evaluate("log(1+2)"), Ok(None));
}

#[test]
fn test_sqrt() {
    assert_eq!(val("sqrt(4)"), 2.0);
    assert_eq!(val("sqrt(2+7)"), 3.0);
}

#[test]
fn test_log_invalid_arg() {
    assert!(fails("log(0)"));
    assert!(fails("log(-5)"));
}

#[test]
fn test_sqrt_invalid_argument() {
    assert!(fails("sqrt(-1)"));
}

#[test]
fn test_invalid_operator() {
    assert!(fails("1++2"));
    assert!(fails("1*/2"));
}

#[test]
fn test_invalid_empty() {
    assert!(fails(""));
}

#[test]
fn test_invalid_unbalanced_brackets() {
    assert!(fails("(1+2"));
}

#[test]
fn test_invalid_minus_after_minus() {
    assert!(fails("-(-1)"));
}

#[test]
fn test_letters() {
    assert!(fails("abc"));
}
