use render_md::condition::{parse_condition, parse_operand, CompareOp, Condition, ConditionParseError, Operand};

fn v(s: &str) -> Operand {
    Operand::Var(s.to_string())
}

fn l(s: &str) -> Operand {
    Operand::Literal(s.to_string())
}

#[test]
fn test_parse_condition_truthy_var() {
    let cond = parse_condition("flag").unwrap();
    assert_eq!(cond, Condition::Truthy { operand: v("flag"), negate: false });
}

#[test]
fn test_parse_condition_negated_var() {
    let cond = parse_condition("!flag").unwrap();
    assert_eq!(cond, Condition::Truthy { operand: v("flag"), negate: true });
}

#[test]
fn test_parse_condition_negated_var_tolerates_space() {
    let cond = parse_condition("! flag").unwrap();
    assert_eq!(cond, Condition::Truthy { operand: v("flag"), negate: true });
}

#[test]
fn test_parse_condition_eq_literal() {
    let cond = parse_condition(r#"name == "Bob""#).unwrap();
    assert_eq!(cond, Condition::Compare { lhs: v("name"), op: CompareOp::Eq, rhs: l("Bob") });
}

#[test]
fn test_parse_condition_ne_literal() {
    let cond = parse_condition(r#"name != "Bob""#).unwrap();
    assert_eq!(cond, Condition::Compare { lhs: v("name"), op: CompareOp::Ne, rhs: l("Bob") });
}

#[test]
fn test_parse_condition_eq_var_var() {
    let cond = parse_condition("a == b").unwrap();
    assert_eq!(cond, Condition::Compare { lhs: v("a"), op: CompareOp::Eq, rhs: v("b") });
}

#[test]
fn test_parse_condition_literal_lhs() {
    let cond = parse_condition(r#""value" == var"#).unwrap();
    assert_eq!(cond, Condition::Compare { lhs: l("value"), op: CompareOp::Eq, rhs: v("var") });
}

#[test]
fn test_parse_condition_unterminated_quote_errors() {
    let err = parse_condition(r#"name == "unterminated"#).unwrap_err();
    assert_eq!(err, ConditionParseError::UnterminatedQuote);
}

#[test]
fn test_parse_condition_missing_operator_errors() {
    let err = parse_condition("var extra").unwrap_err();
    assert_eq!(err, ConditionParseError::MissingOperator);
}

#[test]
fn test_parse_condition_trailing_garbage_after_compare_errors() {
    let err = parse_condition(r#"var == "x" extra"#).unwrap_err();
    assert_eq!(err, ConditionParseError::TrailingGarbage("extra".to_string()));
}

#[test]
fn test_parse_condition_empty_operand_after_operator_errors() {
    let err = parse_condition("var == ").unwrap_err();
    assert_eq!(err, ConditionParseError::MissingOperand);
}

#[test]
fn test_parse_condition_tolerates_extra_whitespace() {
    let cond = parse_condition(r#"  name   ==   "Bob"  "#).unwrap();
    assert_eq!(cond, Condition::Compare { lhs: v("name"), op: CompareOp::Eq, rhs: l("Bob") });
}

#[test]
fn empty_condition_is_empty_operand() {
    assert_eq!(parse_condition("   ").unwrap_err(), ConditionParseError::EmptyOperand);
    assert_eq!(parse_condition("!").unwrap_err(), ConditionParseError::EmptyOperand);
}

#[test]
fn negated_condition_rejects_trailing_text() {
    assert_eq!(
        parse_condition("!flag other").unwrap_err(),
        ConditionParseError::TrailingGarbage("other".to_string())
    );
}

#[test]
fn parse_error_messages() {
    assert_eq!(ConditionParseError::UnterminatedQuote.message(), "unterminated quoted string");
    assert_eq!(ConditionParseError::EmptyOperand.message(), "expected a variable name or a quoted string");
    assert_eq!(ConditionParseError::MissingOperator.message(), "expected '==' or '!=' after the first operand");
    assert_eq!(ConditionParseError::MissingOperand.message(), "expected an operand after the comparison operator");
    assert_eq!(
        ConditionParseError::TrailingGarbage("x y".to_string()).message(),
        "unexpected trailing text: 'x y'"
    );
}

#[test]
fn truth_of_conditions() {
    let truthy = parse_condition("flag").unwrap();
    assert!(truthy.truth(Some("1".to_string()), None));
    assert!(!truthy.truth(Some(String::new()), None));
    assert!(!truthy.truth(None, None));
    let negated = parse_condition("!flag").unwrap();
    assert!(negated.truth(None, None));
    assert!(!negated.truth(Some("x".to_string()), None));
    let eq = parse_condition(r#"a == "x""#).unwrap();
    assert!(eq.truth(Some("x".to_string()), Some("x".to_string())));
    assert!(!eq.truth(Some("y".to_string()), Some("x".to_string())));
    let ne = parse_condition("a != b").unwrap();
    assert!(ne.truth(None, Some("x".to_string())));
    assert!(!ne.truth(None, Some(String::new())));
}

#[test]
fn operand_parsing_returns_rest() {
    let (op, rest) = parse_operand(r#""a b"   == c"#).unwrap();
    assert_eq!(op, l("a b"));
    assert_eq!(rest, "== c");
    let (op, rest) = parse_operand("name rest").unwrap();
    assert_eq!(op, v("name"));
    assert_eq!(rest, "rest");
    assert_eq!(parse_operand("").unwrap_err(), ConditionParseError::EmptyOperand);
    assert_eq!(parse_operand("\"open").unwrap_err(), ConditionParseError::UnterminatedQuote);
}

#[test]
fn comparison_operators_need_whitespace_on_both_sides() {
    assert_eq!(parse_condition("a ==b"), Err(ConditionParseError::MissingOperator));
    assert_eq!(parse_condition("a== b"), Err(ConditionParseError::MissingOperator));
    assert_eq!(parse_condition("\"x\"== b"), Err(ConditionParseError::MissingOperator));
    assert_eq!(parse_condition("a !=b"), Err(ConditionParseError::MissingOperator));
    assert_eq!(parse_condition("a ==").unwrap_err(), ConditionParseError::MissingOperand);
    assert_eq!(
        parse_condition("\"x\" == b"),
        Ok(Condition::Compare { lhs: Operand::Literal("x".to_string()), op: CompareOp::Eq, rhs: v("b") })
    );
}
