//! The contract-expression evaluator, form by form.

use ridl_sem::exact::ExactValue;
use ridl_sem::expr::NumericBacking;
use ridl_sem::expr_eval::{eval_expr, parse_contract_expr, EvalEnv, EvalError, Value, MAX_DEPTH};
use ridl_sem::syntax::Expr;

fn parse(text: &str) -> Expr {
    parse_contract_expr(text).unwrap_or_else(|| panic!("`{text}` must parse"))
}

/// An integer-backed number.
fn int_value(text: &str) -> Value {
    Value::Num(
        ExactValue::parse(text).unwrap_or_else(|| panic!("`{text}` must parse")),
        NumericBacking::Integer,
    )
}

/// A float-backed number.
fn num(text: &str) -> Value {
    Value::Num(
        ExactValue::parse(text).unwrap_or_else(|| panic!("`{text}` must parse")),
        NumericBacking::Float,
    )
}

fn dur(us: &str) -> Value {
    Value::Dur(ExactValue::parse(us).unwrap_or_else(|| panic!("`{us}` must parse")))
}

/// An environment binding `params`, with no `result` and no constants.
fn env(params: &[(String, Value)]) -> EvalEnv<'_> {
    EvalEnv {
        params,
        result: None,
        consts: &[],
    }
}

fn eval_in(text: &str, env: &EvalEnv) -> Result<Value, EvalError> {
    eval_expr(&parse(text), env)
}

/// Evaluates `text` in an empty environment.
fn eval_bare(text: &str) -> Result<Value, EvalError> {
    eval_in(text, &env(&[]))
}

fn assert_true(text: &str) {
    assert_eq!(eval_bare(text), Ok(Value::Bool(true)), "`{text}`");
}

fn assert_false(text: &str) {
    assert_eq!(eval_bare(text), Ok(Value::Bool(false)), "`{text}`");
}

// --- the guaranteed subset, form by form ------------------------------

#[test]
fn comparison_over_numbers() {
    for text in ["1 < 2", "2.5 <= 2.5", "3 > 2", "3 >= 3", "1 == 1", "1 != 2"] {
        assert_true(text);
    }
    for text in ["2 < 1", "3 <= 2", "2 > 3", "2 >= 3", "1 == 2", "1 != 1"] {
        assert_false(text);
    }
}

#[test]
fn boolean_connectives() {
    assert_true("true && true");
    assert_false("true && false");
    assert_true("false || true");
    assert_false("false || false");
    assert_true("!false");
    assert_false("!true");
}

#[test]
fn boolean_connectives_short_circuit() {
    // Short-circuiting is observable through the division fault: neither
    // clause may evaluate its right operand.
    let params = [("x".to_string(), num("0"))];
    let env = env(&params);
    assert_eq!(
        eval_in("x != 0 && 1 / x > 2", &env),
        Ok(Value::Bool(false)),
        "`&&` must not evaluate the right operand when the left is false"
    );
    assert_eq!(
        eval_in("x == 0 || 1 / x > 2", &env),
        Ok(Value::Bool(true)),
        "`||` must not evaluate the right operand when the left is true"
    );
    // Without the guard the same divisor does fault, which is what makes
    // the two assertions above meaningful.
    assert_eq!(eval_in("1 / x > 2", &env), Err(EvalError::DivisionByZero));
}

#[test]
fn arithmetic_over_exact_numbers() {
    assert_true("1 + 2 == 3");
    assert_true("5 - 8 == -3");
    assert_true("3 * 4 == 12");
    assert_true("7.5 / 2.5 == 3.0");
    assert_true("- 3 + 1 == -2");
}

#[test]
fn integer_division_truncates_toward_zero() {
    // Division over integer-backed operands truncates toward zero.
    assert_true("7 / 2 == 3");
    assert_true("-7 / 2 == -3");
    assert_true("7 / -2 == -3");
}

#[test]
fn remainder_takes_the_dividend_sign() {
    // The remainder takes the sign of the dividend.
    assert_true("7 % 3 == 1");
    assert_true("-7 % 3 == -1");
    assert_true("7 % -3 == 1");
    assert_true("6 % 3 == 0");
}

#[test]
fn remainder_reads_the_backing_not_the_value() {
    // `%` requires integer-backed operands. The rule is
    // about the operands' type, so a float-backed operand is refused even
    // when its value is integral — `6.0 % 3.0` is as much a refusal as
    // `7.5 % 2`.
    for text in ["7.5 % 2 == 0", "6.0 % 3.0 == 0.0", "6 % 3.0 == 0.0"] {
        assert!(
            matches!(eval_bare(text), Err(EvalError::TypeMismatch(_))),
            "`{text}` must be refused, got {:?}",
            eval_bare(text)
        );
    }
    // A float-backed parameter holding an integral value is refused too.
    let params = [("speed".to_string(), num("6.0"))];
    assert!(matches!(
        eval_in("speed % 3 == 0", &env(&params)),
        Err(EvalError::TypeMismatch(_))
    ));
}

#[test]
fn division_reads_the_backing_not_the_value() {
    // The case that makes the backing load-bearing: both operands are
    // integral, so a value-only rule would truncate. They are float-backed,
    // so the division is exact.
    assert_true("1.0 / 3.0 * 3.0 == 1.0");
    assert_true("5.0 / 2.0 == 2.5");
    // Two float-backed parameters holding integral values divide exactly.
    let params = [("a".to_string(), num("5.0")), ("b".to_string(), num("2.0"))];
    assert_eq!(
        eval_in("a / b == 2.5", &env(&params)),
        Ok(Value::Bool(true))
    );
    // Two integer-backed parameters truncate.
    let ints = [("a".to_string(), int_value("5")), ("b".to_string(), int_value("2"))];
    assert_eq!(eval_in("a / b == 2", &env(&ints)), Ok(Value::Bool(true)));
}

#[test]
fn enum_member_access_and_equality() {
    let gear = [
        (
            "GearPosition.PARK".to_string(),
            Value::EnumVal("veh.common.GearPosition".into(), 0),
        ),
        (
            "GearPosition.DRIVE".to_string(),
            Value::EnumVal("veh.common.GearPosition".into(), 1),
        ),
    ];
    let params = [(
        "position".to_string(),
        Value::EnumVal("veh.common.GearPosition".into(), 0),
    )];
    let env = EvalEnv {
        params: &params,
        result: None,
        consts: &gear,
    };
    assert_eq!(
        eval_in("position == GearPosition.PARK", &env),
        Ok(Value::Bool(true))
    );
    assert_eq!(
        eval_in("position != GearPosition.DRIVE", &env),
        Ok(Value::Bool(true))
    );
}

#[test]
fn tuple_field_access() {
    let result = Value::Tuple(vec![
        ("min".to_string(), num("0.0")),
        ("max".to_string(), num("250.0")),
    ]);
    let env = EvalEnv {
        params: &[],
        result: Some(result),
        consts: &[],
    };
    assert_eq!(eval_in("result.min >= 0.0", &env), Ok(Value::Bool(true)));
    assert_eq!(
        eval_in("result.max <= result.min", &env),
        Ok(Value::Bool(false))
    );
}

#[test]
fn duration_comparison_is_exact_microseconds() {
    // 1s == 1000ms == 1000000us.
    assert_true("1s == 1000ms");
    assert_true("1000ms == 1000000us");
    assert_true("10ms > 500us");
    assert_true("1.5ms == 1500us");
    let params = [("window".to_string(), dur("2000000"))];
    let env = env(&params);
    assert_eq!(eval_in("window > 0ms", &env), Ok(Value::Bool(true)));
    assert_eq!(eval_in("window == 2s", &env), Ok(Value::Bool(true)));
}

#[test]
fn parentheses_and_precedence() {
    assert_true("(1 + 2) * 3 == 9");
    assert_true("1 + 2 * 3 == 7");
    assert_true("(true || false) && false == false");
    assert_true("!(1 > 2)");
    assert_true("((((1)))) == 1");
}

// --- exactness ---------------------------------------------------------

#[test]
fn arithmetic_is_exact_where_a_float_would_round() {
    // The canonical case: in IEEE-754, 0.1 + 0.2 is 0.30000000000000004 and
    // this comparison is false. Over exact rationals it holds. The float result is asserted alongside so the test states the
    // difference rather than merely assuming it.
    assert_ne!(0.1_f64 + 0.2_f64, 0.3_f64);
    assert_true("0.1 + 0.2 == 0.3");

    // A third that no binary float represents: (1/3)*3 is exactly 1 here.
    assert_true("1.0 / 3.0 * 3.0 == 1.0");

    // And a value past f64's 53-bit mantissa, where the two integers are
    // not even distinguishable as floats — 2^53 and 2^53 + 1 collapse onto
    // one f64. Over exact rationals they stay distinct.
    assert_eq!(9007199254740993.0_f64, 9007199254740992.0_f64);
    assert_true("9007199254740992 + 1 == 9007199254740993");
    assert_true("9007199254740992 + 1 != 9007199254740992");
}

#[test]
fn division_stays_exact_rather_than_rounding() {
    // 0.3 / 0.1 is 2.9999999999999996 in f64, so this would be false.
    assert_ne!(0.3_f64 / 0.1_f64, 3.0_f64);
    assert_true("0.3 / 0.1 == 3.0");
}

// --- the single defined fault -----------------------------------------

#[test]
fn division_by_zero_is_the_defined_fault() {
    for text in [
        "1 / 0 > 0",
        "1.0 / 0.0 > 0.0",
        "1 % 0 == 0",
        "1 / (2 - 2) > 0",
    ] {
        assert_eq!(eval_bare(text), Err(EvalError::DivisionByZero), "`{text}`");
    }
}

#[test]
fn division_by_a_zero_valued_parameter_faults() {
    let params = [("divisor".to_string(), num("0.0"))];
    assert_eq!(
        eval_in("100.0 / divisor > 1.0", &env(&params)),
        Err(EvalError::DivisionByZero)
    );
}

// --- the error variants ------------------------------------------------

#[test]
fn unbound_ref_for_a_name_the_environment_does_not_bind() {
    assert_eq!(
        eval_bare("missing > 0"),
        Err(EvalError::UnboundRef("missing".to_string()))
    );
}

#[test]
fn unbound_ref_for_result_outside_an_ensure() {
    assert_eq!(
        eval_bare("result > 0"),
        Err(EvalError::UnboundRef("result".to_string()))
    );
}

#[test]
fn unbound_ref_for_a_signal_read() {
    // A `require` reading a signal has no binding here — `ridl test`
    // reports such a clause as skipped rather than evaluating it, and a
    // caller that evaluates one anyway gets a refusal, not a wrong answer.
    assert_eq!(
        eval_bare("currentSpeed == 0.0"),
        Err(EvalError::UnboundRef("currentSpeed".to_string()))
    );
}

#[test]
fn unbound_ref_for_an_absent_tuple_field() {
    let env = EvalEnv {
        params: &[],
        result: Some(Value::Tuple(vec![("min".to_string(), num("1"))])),
        consts: &[],
    };
    assert_eq!(
        eval_in("result.max > 0", &env),
        Err(EvalError::UnboundRef("result.max".to_string()))
    );
}

#[test]
fn type_mismatch_across_domains() {
    let params = [
        ("window".to_string(), dur("1000")),
        ("speed".to_string(), num("10.0")),
        ("flag".to_string(), Value::Bool(true)),
    ];
    let env = env(&params);
    for text in [
        // duration against a number
        "window > speed",
        // duration arithmetic — comparison only in the subset
        "window + window > window",
        // a boolean where a number is required
        "flag + 1 > 0",
        // a number where a boolean is required
        "speed && flag",
        // `!` on a number
        "!speed",
        // unary `-` on a duration
        "- window > window",
        // a string operand
        "speed == \"x\"",
    ] {
        assert!(
            matches!(eval_in(text, &env), Err(EvalError::TypeMismatch(_))),
            "`{text}` must be a type mismatch, got {:?}",
            eval_in(text, &env)
        );
    }
}

#[test]
fn type_mismatch_for_field_access_on_a_non_tuple() {
    let params = [("speed".to_string(), num("10.0"))];
    assert!(matches!(
        eval_in("speed.min > 0.0", &env(&params)),
        Err(EvalError::TypeMismatch(_))
    ));
}

#[test]
fn type_mismatch_across_two_enum_types() {
    let params = [
        ("a".to_string(), Value::EnumVal("p.A".into(), 0)),
        ("b".to_string(), Value::EnumVal("p.B".into(), 0)),
    ];
    assert!(matches!(
        eval_in("a == b", &env(&params)),
        Err(EvalError::TypeMismatch(_))
    ));
}

// --- totality ----------------------------------------------------------

#[test]
fn deep_nesting_is_refused_rather_than_exhausting_the_stack() {
    // A LEFT-NESTED BINARY CHAIN, not parenthesis nesting: the parser caps
    // type/paren depth at 128, below this guard's 256, so a paren tower can
    // never reach the guard and a test built on one would pass whatever
    // MAX_DEPTH said. `1 + 1 + 1 + …` nests one level per operator and does
    // reach it.
    // The ceiling is rowan's, not this module's: dropping a syntax tree
    // thousands of levels deep recurses inside the library and overflows
    // before anything here runs. These sizes are all far past MAX_DEPTH,
    // which is what the test is about.
    for terms in [300, 1000, 2000] {
        let chain = vec!["1"; terms].join(" + ");
        let text = format!("{chain} == 1");
        let Some(expr) = parse_contract_expr(&text) else {
            panic!("a {terms}-term chain must parse");
        };
        match eval_expr(&expr, &env(&[])) {
            Err(EvalError::TypeMismatch(message)) => assert!(
                message.contains(&format!("nests deeper than {MAX_DEPTH}")),
                "the depth guard is what refused it, not something else: {message}"
            ),
            other => panic!("a {terms}-term chain must hit the depth guard, got {other:?}"),
        }
    }
    // And just under the guard the same shape still evaluates, so the guard
    // is not simply refusing everything.
    let shallow = ["1"; 8].join(" + ");
    let expr = parse(&format!("{shallow} == 8"));
    assert_eq!(eval_expr(&expr, &env(&[])), Ok(Value::Bool(true)));
}

#[test]
fn an_integer_backed_operand_holding_a_fraction_is_refused_not_panicked_on() {
    // `Value` is public and its value and backing are independent, so a
    // caller can build an integer-backed half. Truncating it to an integer
    // would make `a / half` a division by zero inside `BigInt` — a panic —
    // and would silently change the dividend. Both operators refuse it.
    let params = [
        ("a".to_string(), int_value("7")),
        (
            "half".to_string(),
            Value::Num(
                ExactValue::parse("0.5").expect("0.5 parses"),
                NumericBacking::Integer,
            ),
        ),
    ];
    let env = env(&params);
    for text in ["a / half > 1", "a % half == 0", "half / a > 1"] {
        assert!(
            matches!(eval_in(text, &env), Err(EvalError::TypeMismatch(_))),
            "`{text}` must be refused, got {:?}",
            eval_in(text, &env)
        );
    }
}

#[test]
fn every_parseable_expression_yields_a_value_or_an_error() {
    // Totality over a corpus that mixes well-typed, ill-typed, unbound,
    // faulting, and half-parsed forms: the contract is that `eval_expr`
    // returns — it never panics.
    let params = [
        ("speed".to_string(), num("10.0")),
        ("count".to_string(), int_value("3")),
        ("window".to_string(), dur("1000")),
        ("flag".to_string(), Value::Bool(true)),
    ];
    let max = [("MAX".to_string(), num("100"))];
    let env = EvalEnv {
        params: &params,
        result: Some(Value::Tuple(vec![("min".to_string(), num("1"))])),
        consts: &max,
    };
    for text in [
        "speed > 0.0",
        "count % 2 == 0",
        "count / 0 == 0",
        "speed / (speed - speed) > 0.0",
        "window >= 1ms && flag",
        "result.min == 1",
        "result.absent == 1",
        "MAX > speed",
        "MISSING > speed",
        "speed +",
        "( ",
        "!!flag",
        "- - count == count",
        "speed == \"text\"",
        "flag == 1",
        "GearPosition.PARK == 1",
        "1 == 1 == true",
    ] {
        let Some(expr) = parse_contract_expr(text) else {
            continue;
        };
        // The assertion is that this call returns at all.
        let _ = eval_expr(&expr, &env);
    }
}

fn refusal(text: &str) -> String {
    match eval_bare(text) {
        Err(EvalError::TypeMismatch(message)) => message,
        other => panic!("`{text}` must be refused, got {other:?}"),
    }
}

#[test]
fn refusals_name_the_operator_and_what_it_found() {
    assert_eq!(refusal("true + 1"), "`+` requires numeric operands, found a boolean and a number");
    assert_eq!(refusal("1 < true"), "`<` requires operands of one ordered domain, found a number and a boolean");
    assert_eq!(refusal("1 == true"), "`==` requires operands of one domain, found a number and a boolean");
    assert_eq!(refusal("!1"), "`!` requires a boolean operand, found a number");
    assert_eq!(refusal("-true"), "unary `-` requires a numeric operand, found a boolean");
    assert_eq!(refusal("1 && true"), "`&&` requires boolean operands, found a number");
    assert_eq!(refusal("false || 2"), "`||` requires boolean operands, found a number");
    assert_eq!(refusal("7.5 % 2.0"), "`%` requires integer-backed operands (expr-core §5.3)");
    assert_eq!(refusal("\"text\""), "a string or regex literal — no operator of the guaranteed subset works over strings or bytes (expr-core §5.3)");
}
