use lumin::calculator::{BinaryOp, Calc, CalcValue, Expr};

/// IEEE-754 double precision: the intended arithmetic domain of the
/// evaluator, supplied from outside the verified core.
#[derive(Debug, Clone, Copy, PartialEq)]
struct F64Value(f64);

impl CalcValue for F64Value {
    fn parse_literal(s: &str) -> Option<F64Value> {
        s.parse::<f64>().ok().map(F64Value)
    }

    fn apply_binary(op: BinaryOp, lhs: &F64Value, rhs: &F64Value) -> F64Value {
        F64Value(match op {
            BinaryOp::Plus => lhs.0 + rhs.0,
            BinaryOp::Minus => lhs.0 - rhs.0,
            BinaryOp::Multiply => lhs.0 * rhs.0,
            BinaryOp::Divide => lhs.0 / rhs.0,
            BinaryOp::Power => lhs.0.powf(rhs.0),
            BinaryOp::Modulo => lhs.0 % rhs.0,
        })
    }

    fn negate(v: &F64Value) -> F64Value {
        F64Value(-v.0)
    }

    fn render(v: &F64Value) -> String {
        format!("{}", v.0)
    }

    fn zero() -> F64Value {
        F64Value(0.0)
    }
}

type FCalc = Calc<F64Value>;

fn num(v: f64) -> Expr<F64Value> {
    Expr::Number(F64Value(v))
}

fn eval(s: &str) -> f64 {
    FCalc::calculate_str(s).unwrap().0
}

#[test]
fn can_convert_source_to_tokenvec() {
    assert_eq!(
        FCalc::tokenize("1 + 22-1*2.7 + 12^2").unwrap(),
        vec![
            num(1.0),
            Expr::Plus,
            num(22.0),
            Expr::Minus,
            num(1.0),
            Expr::Multiply,
            num(2.7),
            Expr::Plus,
            num(12.0),
            Expr::Power,
            num(2.0),
        ]
    );
    assert_eq!(
        FCalc::tokenize("1+22").unwrap(),
        vec![num(1.0), Expr::Plus, num(22.0),]
    );
}

#[test]
fn can_parse_unary_minus() {
    assert_eq!(
        FCalc::parse_unary_minus(vec![Expr::Minus, num(1.0)]),
        vec![Expr::UnaryMinus, num(1.0)]
    );

    assert_eq!(
        FCalc::parse_unary_minus(vec![Expr::Power, Expr::Minus, num(1.0)]),
        vec![Expr::Power, Expr::UnaryMinus, num(1.0)]
    );
}

#[test]
fn can_parse_brackets() {
    assert_eq!(
        FCalc::evaluate_brackets(FCalc::tokenize("((1+4)*2)").unwrap()).unwrap(),
        vec![Expr::Bracket(vec![
            Expr::Bracket(vec![num(1.0), Expr::Plus, num(4.0)]),
            Expr::Multiply,
            num(2.0)
        ])]
    );
}

#[test]
fn can_do_math() {
    assert_eq!(eval("2(2)"), 4.0);
    assert_eq!(eval("2^(1+2)"), 8.0);
    assert_eq!(eval("12 / 2 * 3 "), 18.0);
    assert_eq!(eval("((5^3 + 2) *(6 / 2)) / 3"), 127.0);

    assert_eq!(eval("(144/12 + 8^2) - (2^4 * 7) + 3^3 + 0.5"), -8.5);

    assert_eq!(eval("12^2"), 144.0);

    assert_eq!(
        eval("((5^3 + 4^2) * (12^2 - 6^3)) / (3^2 + 7) + (144/12 + 8^2) - (2^4 * 7) + 3^3 + 0.5"),
        -643.0
    );
    // Unary minus
    assert_eq!(eval("2^-3"), 0.125);
}

#[test]
fn power_is_left_associative() {
    assert_eq!(eval("2^3^2"), 64.0);
}

#[test]
fn division_by_zero_follows_float_semantics() {
    assert_eq!(eval("1/0"), f64::INFINITY);
    assert!(eval("0/0").is_nan());
}

#[test]
fn missing_right_operand_is_an_error() {
    assert!(FCalc::calculate_str("2 + ").is_err());
}

#[test]
fn unbalanced_parentheses_are_an_error() {
    assert!(FCalc::calculate_str("(1+2").is_err());
    assert!(FCalc::calculate_str("1+2)").is_err());
}

#[test]
fn unknown_token_is_an_error() {
    let err = FCalc::calculate_str("1 + a").unwrap_err();
    assert_eq!(err.message, "Unknown token a");
    assert_eq!(err.equation, "1 + a");
    assert_eq!(err.error_idx, 4);
}

#[test]
fn bad_number_is_an_error() {
    assert!(FCalc::calculate_str("1.2.3 + 1").is_err());
}

#[test]
fn error_display_has_three_lines_and_a_caret() {
    let err = FCalc::calculate_str("2 + + 2").unwrap_err();
    let shown = err.display_string();
    let lines: Vec<&str> = shown.split('\n').collect();
    assert_eq!(lines.len(), 4);
    assert_eq!(lines[0], "Calc Error! ");
    assert!(lines[1].starts_with("Message: "));
    assert!(lines[3].ends_with('^'));
}

#[test]
fn calc_state_updates_on_text_change() {
    let mut c: FCalc = Calc::new();
    assert_eq!(c.answer.as_ref().unwrap().0, 0.0);
    c.update(&lumin::module::ModuleMessage::TextChanged("6*7".to_string()));
    assert_eq!(c.answer.as_ref().unwrap().0, 42.0);
    c.update(&lumin::module::ModuleMessage::SelectionUp);
    assert_eq!(c.answer.as_ref().unwrap().0, 42.0);
}
