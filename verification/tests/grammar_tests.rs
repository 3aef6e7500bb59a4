use expr_parser::check_balanced_brackets;
use expr_parser::evaluate_with_trace;
use expr_parser::Outcome;
use expr_parser::Rat;
use expr_parser::evaluate;
use expr_parser::operator_trace;
use expr_parser::parse_expr;
use expr_parser::remove_outer_brackets;
use expr_parser::render_integer;
use expr_parser::Expr;
use expr_parser::ParseError;

fn value(s: &str) -> f64 {
    let r = evaluate(s)
        .expect("expression should be valid")
        .expect("expression should have an exact value");
    r.num as f64 / r.den as f64
}

fn rejected(s: &str) -> bool {
    matches!(evaluate(s), Err(ParseError::InvalidExpression))
}

#[test]
fn test_balanced_brackets_detection() {
    assert!(check_balanced_brackets(""));
    assert!(check_balanced_brackets("(1+2)*(3+4)"));
    assert!(check_balanced_brackets("((()))"));
    assert!(!check_balanced_brackets("(1+2"));
    assert!(!check_balanced_brackets("1+2)"));
    assert!(!check_balanced_brackets(")("));
}

#[test]
fn test_remove_outer_brackets_strips_one_layer() {
    assert_eq!(remove_outer_brackets("(1+2)"), Some("1+2"));
    assert_eq!(remove_outer_brackets("((1+2))"), Some("(1+2)"));
    assert_eq!(remove_outer_brackets("()"), Some(""));
}

#[test]
fn test_remove_outer_brackets_refuses_early_close() {
    assert_eq!(remove_outer_brackets("(1+2)*(3+4)"), None);
    assert_eq!(remove_outer_brackets("(1)(2)"), None);
    assert_eq!(remove_outer_brackets("1+2"), None);
    assert_eq!(remove_outer_brackets("(1+2"), None);
    assert_eq!(remove_outer_brackets(""), None);
}

#[test]
fn test_whitespace_trimming() {
    assert_eq!(value("  42  "), 42.0);
    assert_eq!(value("\t1 + 2\n"), 3.0);
}

#[test]
fn test_unicode_whitespace_is_insignificant() {
    // Vertical tab, form feed, next line, no-break space, em space,
    // narrow no-break space, ideographic space.
    assert_eq!(value("\u{000B}1"), 1.0);
    assert_eq!(value("\u{000C}2+3\u{0085}"), 5.0);
    assert_eq!(value("\u{00A0}4*2\u{3000}"), 8.0);
    assert_eq!(value("1\u{2003}+\u{202F}2"), 3.0);
    assert!(rejected("\u{00A0}\u{2028}"));
}

#[test]
fn test_digits_join_across_spaces() {
    // Whitespace inside the numeral scan is dropped, so split digit runs
    // join into one numeral.
    assert_eq!(value("1 2+3"), 15.0);
}

#[test]
fn test_signed_literals() {
    assert_eq!(value("+5"), 5.0);
    assert_eq!(value("-5"), -5.0);
    assert_eq!(value("5."), 5.0);
    assert_eq!(value(".5"), 0.5);
    assert_eq!(value("-1.25"), -1.25);
}

#[test]
fn test_decimal_arithmetic_is_exact() {
    let r = evaluate("1.5+2.5").unwrap().unwrap();
    assert_eq!(r.num, 400);
    assert_eq!(r.den, 100);
    let t = evaluate("0.1+0.2").unwrap().unwrap();
    assert_eq!(t.num, 30);
    assert_eq!(t.den, 100);
    assert_eq!(value("0.1+0.2"), 0.3);
}

#[test]
fn test_precedence_two_products() {
    assert_eq!(value("2*3+4*5"), 26.0);
    assert_eq!(value("2+3*4"), 14.0);
    assert_eq!(value("(2+3)*4"), 20.0);
}

#[test]
fn test_unary_minus_after_operator() {
    assert_eq!(value("1*-2"), -2.0);
    assert_eq!(value("1--2"), 3.0);
    assert_eq!(value("-2+1"), -1.0);
    assert_eq!(value("- (1+2)"), -3.0);
}

#[test]
fn test_division_by_zero_fails() {
    assert!(rejected("1/0"));
    assert!(rejected("1/(2-2)"));
    assert!(rejected("1/0.0"));
}

#[test]
fn test_sqrt_of_exact_squares() {
    assert_eq!(value("sqrt(0)"), 0.0);
    assert_eq!(value("sqrt(2.25)"), 1.5);
    assert_eq!(evaluate("sqrt(2)"), Ok(None));
}

#[test]
fn test_log_inside_brackets_is_rejected() {
    // Named functions span the whole expression only; inside a compound the
    // letters are no numeral.
    assert!(rejected("1+log(2)"));
    assert!(rejected("log (1)"));
}

#[test]
fn test_adjacent_operands_are_rejected() {
    assert!(rejected("2(3)+1"));
    assert!(rejected("(2)(3)"));
    assert!(rejected("(1+2)5"));
}

#[test]
fn test_empty_groups_are_rejected() {
    assert!(rejected("()"));
    assert!(rejected("( )"));
    assert!(rejected("   "));
    assert!(rejected("1+"));
    assert!(rejected("+1+2"));
    assert!(rejected("(1))"));
}

#[test]
fn test_huge_literal_is_indeterminate() {
    assert_eq!(evaluate("9999999999999999999999"), Ok(None));
}

#[test]
fn test_operator_trace_keeps_additive_operators() {
    let e = parse_expr("1+2*3-4/5").unwrap();
    assert_eq!(operator_trace(&e), vec!['+', '-']);
    let e2 = parse_expr("log(1+2)").unwrap();
    assert_eq!(operator_trace(&e2), vec!['+']);
    let e3 = parse_expr("42").unwrap();
    assert_eq!(operator_trace(&e3), Vec::<char>::new());
    let e4 = parse_expr("2*3").unwrap();
    assert_eq!(operator_trace(&e4), Vec::<char>::new());
}

#[test]
fn test_parse_tree_shape() {
    match parse_expr("1+2").unwrap() {
        Expr::Compound { compound } => {
            assert_eq!(compound.operands.len(), 2);
            assert_eq!(compound.operators.len(), 1);
        },
        _ => panic!("expected a compound expression"),
    }
    assert!(matches!(parse_expr("log(1)").unwrap(), Expr::Log { .. }));
    assert!(matches!(parse_expr("sqrt(4)").unwrap(), Expr::Sqrt { .. }));
    assert!(matches!(parse_expr("3.5").unwrap(), Expr::Literal { .. }));
}

#[test]
fn test_round_trip_integer_result() {
    // Re-evaluating the decimal rendering of an integer-valued result gives
    // the same value.
    let r = evaluate("2+3*4").unwrap().unwrap();
    assert_eq!(r.den, 1);
    let rendered: String = render_integer(r).into_iter().collect();
    assert_eq!(rendered, "14");
    let again = evaluate(&rendered).unwrap().unwrap();
    assert_eq!(again, r);

    let neg = evaluate("-(2+3)").unwrap().unwrap();
    let rendered_neg: String = render_integer(neg).into_iter().collect();
    assert_eq!(rendered_neg, "-5");
    let back = evaluate(&rendered_neg).unwrap().unwrap();
    assert_eq!(back, neg);

    let zero = evaluate("1-1").unwrap().unwrap();
    let rendered_zero: String = render_integer(zero).into_iter().collect();
    assert_eq!(rendered_zero, "0");
    assert_eq!(evaluate(&rendered_zero).unwrap().unwrap(), zero);
}

#[test]
fn test_evaluation_traces() {
    let r = evaluate_with_trace("1+2*3-4/5").unwrap();
    assert_eq!(r.value, Outcome::Rational(Rat { num: 31, den: 5 }));
    assert_eq!(
        r.operands,
        vec![
            Outcome::Rational(Rat { num: 1, den: 1 }),
            Outcome::Rational(Rat { num: 6, den: 1 }),
            Outcome::Rational(Rat { num: 4, den: 5 }),
        ]
    );
    assert_eq!(r.operators, vec!['+', '-']);

    let single = evaluate_with_trace("7").unwrap();
    assert_eq!(single.value, Outcome::Rational(Rat { num: 7, den: 1 }));
    assert_eq!(single.operands, vec![Outcome::Rational(Rat { num: 7, den: 1 })]);
    assert_eq!(single.operators, Vec::<char>::new());

    // log and sqrt pass the interior's trace through.
    let logged = evaluate_with_trace("log(1+2)").unwrap();
    assert_eq!(logged.value, Outcome::Indeterminate);
    assert_eq!(
        logged.operands,
        vec![
            Outcome::Rational(Rat { num: 1, den: 1 }),
            Outcome::Rational(Rat { num: 2, den: 1 }),
        ]
    );
    assert_eq!(logged.operators, vec!['+']);

    assert!(evaluate_with_trace("1/0").is_err());
    assert!(evaluate_with_trace("(1+2").is_err());
}

#[test]
fn test_nested_functions() {
    assert_eq!(value("log(sqrt(1))"), 0.0);
    assert_eq!(value("sqrt(sqrt(16))"), 2.0);
    assert_eq!(value("sqrt((1+3)*4)"), 4.0);
}
