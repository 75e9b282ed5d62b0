//! The contract-expression checker: typing, canonical text, references.

use ridl_sem::diag::{DiagCode, Diagnostic, Severity};
use ridl_sem::expr::{
    canonical_expr_text, check_contract_expr, collect_refs, qualified_ref, ContractScope,
    ContractVocabulary, EnumDecl, ExprRefs, ExprType, NumericBacking,
};
use ridl_sem::exact::ExactValue;
use ridl_sem::expr_eval::parse_contract_expr;
use ridl_sem::resolve::{Resolution, Symbol, SymbolKind};
use ridl_sem::syntax::{Expr, TextRange};

/// The expression of a `require`/`ensure` clause written as `text`.
fn parse_expr(text: &str) -> Expr {
    parse_contract_expr(text)
        .unwrap_or_else(|| panic!("`{text}` does not parse as a contract expression"))
}

/// The resolved vocabulary a contract may name: `MAX_SPEED : Speed`,
/// `MAX_COUNT : Count` (integer-backed), and the `GearPosition` enum with
/// its members.
fn vocabulary() -> ContractVocabulary {
    let mut built = ContractVocabulary::default();
    built.insert_const("MAX_SPEED".to_string(), speed());
    built.insert_const("MAX_COUNT".to_string(), count());
    built.insert_enum(
        "GearPosition".to_string(),
        EnumDecl {
            reference: "veh.common.GearPosition".to_string(),
            members: vec!["PARK".to_string(), "DRIVE".to_string()],
        },
    );
    built
}

fn symbol(name: &str, kind: SymbolKind) -> Symbol {
    Symbol {
        name: name.to_string(),
        package: "veh.common".to_string(),
        kind,
        internal: false,
        is_error: false,
        file: 0,
        range: TextRange { start: 0, end: 0 },
    }
}

/// A resolution holding the symbol view: `Speed` and `Torque` (types),
/// `GearPosition` (enum), `MAX_SPEED` (constant), `DoorPayload` (struct).
fn resolution() -> Resolution {
    let mut symbols = Vec::new();
    for (name, kind) in [
        ("Speed", SymbolKind::Type),
        ("Torque", SymbolKind::Type),
        ("GearPosition", SymbolKind::Enum),
        ("MAX_SPEED", SymbolKind::Const),
        ("DoorPayload", SymbolKind::Struct),
    ] {
        symbols.push((name.to_string(), symbol(name, kind)));
    }
    Resolution {
        symbols,
        diagnostics: Vec::new(),
    }
}

fn speed() -> ExprType {
    ExprType::Numeric("veh.common.Speed".to_string(), NumericBacking::Float)
}

/// An integer-backed named type — the `%` rule's legal operand.
fn count() -> ExprType {
    ExprType::Numeric("veh.common.Count".to_string(), NumericBacking::Integer)
}

fn torque() -> ExprType {
    ExprType::Numeric("veh.common.Torque".to_string(), NumericBacking::Float)
}

fn gear() -> ExprType {
    ExprType::EnumType("veh.common.GearPosition".to_string())
}

fn codes(diagnostics: &[Diagnostic]) -> Vec<&str> {
    diagnostics
        .iter()
        .map(|diagnostic| diagnostic.code.as_str())
        .collect()
}

#[test]
fn ridl_13_examples_type_check_clean() {
    let resolution = resolution();
    let vocabulary = vocabulary();

    // `command setRange(min: Speed, max: Speed)`
    let set_range = [("min".to_string(), speed()), ("max".to_string(), speed())];
    for text in ["min < max", "max <= MAX_SPEED"] {
        let scope = ContractScope {
            params: &set_range,
            result: None,
            signals: &[],
            vocabulary: &vocabulary,
            resolution: &resolution,
        };
        let (ty, diagnostics) = check_contract_expr(&parse_expr(text), &scope);
        assert_eq!(ty, Some(ExprType::Boolean), "`{text}`");
        assert!(diagnostics.is_empty(), "`{text}`: {diagnostics:?}");
    }

    // `query getAverageSpeed(window: Duration): Speed`
    let window = [("window".to_string(), ExprType::Duration)];
    let require = ContractScope {
        params: &window,
        result: None,
        signals: &[],
        vocabulary: &vocabulary,
        resolution: &resolution,
    };
    let (ty, diagnostics) = check_contract_expr(&parse_expr("window > 0ms"), &require);
    assert_eq!(ty, Some(ExprType::Boolean));
    assert!(diagnostics.is_empty(), "{diagnostics:?}");

    let ensure = ContractScope {
        params: &window,
        result: Some(speed()),
        signals: &[],
        vocabulary: &vocabulary,
        resolution: &resolution,
    };
    let (ty, diagnostics) = check_contract_expr(&parse_expr("result >= 0.0"), &ensure);
    assert_eq!(ty, Some(ExprType::Boolean));
    assert!(diagnostics.is_empty(), "{diagnostics:?}");

    // `command setGear(position: GearPosition)` inside an interface that
    // declares `signal currentSpeed : Speed`.
    let position = [("position".to_string(), gear())];
    let signals = [("currentSpeed".to_string(), speed())];
    let set_gear = ContractScope {
        params: &position,
        result: None,
        signals: &signals,
        vocabulary: &vocabulary,
        resolution: &resolution,
    };
    let (ty, diagnostics) = check_contract_expr(
        &parse_expr("position != GearPosition.PARK || currentSpeed == 0.0"),
        &set_gear,
    );
    assert_eq!(ty, Some(ExprType::Boolean));
    assert!(diagnostics.is_empty(), "{diagnostics:?}");

    // The tuple form: `query getRange(): (min: Speed, max: Speed)`.
    let tuple = ExprType::tuple(&[
        ("min".to_string(), Some(speed())),
        ("max".to_string(), Some(speed())),
    ]);
    let range_ensure = ContractScope {
        params: &[],
        result: Some(tuple),
        signals: &[],
        vocabulary: &vocabulary,
        resolution: &resolution,
    };
    let (ty, diagnostics) = check_contract_expr(&parse_expr("result.min >= 0.0"), &range_ensure);
    assert_eq!(ty, Some(ExprType::Boolean));
    assert!(diagnostics.is_empty(), "{diagnostics:?}");
}

#[test]
fn ridl_306_unknown_reference() {
    let resolution = resolution();
    let vocabulary = vocabulary();
    let scope = ContractScope {
        params: &[],
        result: None,
        signals: &[],
        vocabulary: &vocabulary,
        resolution: &resolution,
    };
    let (ty, diagnostics) = check_contract_expr(&parse_expr("unknownName > 0"), &scope);
    assert_eq!(ty, None);
    assert_eq!(codes(&diagnostics), vec!["RIDL-306"]);
    assert!(
        diagnostics[0].message.contains("unknownName"),
        "the message names the offending form: {}",
        diagnostics[0].message
    );
}

#[test]
fn ridl_306_cross_domain_arithmetic() {
    let resolution = resolution();
    let vocabulary = vocabulary();
    let params = [
        ("speed".to_string(), speed()),
        ("window".to_string(), ExprType::Duration),
    ];
    let scope = ContractScope {
        params: &params,
        result: None,
        signals: &[],
        vocabulary: &vocabulary,
        resolution: &resolution,
    };
    let (ty, diagnostics) = check_contract_expr(&parse_expr("speed + window > 0"), &scope);
    assert_eq!(ty, None);
    assert_eq!(codes(&diagnostics), vec!["RIDL-306"]);
}

#[test]
fn ridl_306_cross_named_type_arithmetic() {
    let resolution = resolution();
    let vocabulary = vocabulary();
    let params = [
        ("speed".to_string(), speed()),
        ("torque".to_string(), torque()),
    ];
    let scope = ContractScope {
        params: &params,
        result: None,
        signals: &[],
        vocabulary: &vocabulary,
        resolution: &resolution,
    };
    let (ty, diagnostics) = check_contract_expr(&parse_expr("speed + torque > 0.0"), &scope);
    assert_eq!(ty, None);
    assert_eq!(codes(&diagnostics), vec!["RIDL-306"]);
}

#[test]
fn ridl_306_non_boolean_root() {
    let resolution = resolution();
    let vocabulary = vocabulary();
    let scope = ContractScope {
        params: &[],
        result: None,
        signals: &[],
        vocabulary: &vocabulary,
        resolution: &resolution,
    };
    let (ty, diagnostics) = check_contract_expr(&parse_expr("3"), &scope);
    assert_eq!(ty, None);
    assert_eq!(codes(&diagnostics), vec!["RIDL-306"]);
    assert!(
        diagnostics[0].message.contains("boolean"),
        "{}",
        diagnostics[0].message
    );
}

#[test]
fn ridl_306_signal_read_in_an_ensure() {
    // An `ensure` is scoped to `result` and the parameters, so the scope of
    // an ensure carries no signals at all.
    let resolution = resolution();
    let vocabulary = vocabulary();
    let scope = ContractScope {
        params: &[],
        result: Some(speed()),
        signals: &[],
        vocabulary: &vocabulary,
        resolution: &resolution,
    };
    let (ty, diagnostics) = check_contract_expr(&parse_expr("currentSpeed >= 0.0"), &scope);
    assert_eq!(ty, None);
    assert_eq!(codes(&diagnostics), vec!["RIDL-306"]);
    assert!(
        diagnostics[0].message.contains("`require`"),
        "the message points at the require-only scope: {}",
        diagnostics[0].message
    );
}

#[test]
fn ridl_306_qualified_member_chain() {
    // A CamelCase segment after `.` parses, so
    // `veh.common.GearPosition.PARK` is nested member access, which the
    // subset does not express.
    let resolution = resolution();
    let vocabulary = vocabulary();
    let params = [("position".to_string(), gear())];
    let scope = ContractScope {
        params: &params,
        result: None,
        signals: &[],
        vocabulary: &vocabulary,
        resolution: &resolution,
    };
    let (ty, diagnostics) = check_contract_expr(
        &parse_expr("position == veh.common.GearPosition.PARK"),
        &scope,
    );
    assert_eq!(ty, None);
    assert_eq!(codes(&diagnostics), vec!["RIDL-306"]);
    assert!(
        diagnostics[0].message.contains("GearPosition"),
        "the message names the offending segment: {}",
        diagnostics[0].message
    );
}

#[test]
fn ridl_306_further_boundary_forms() {
    let resolution = resolution();
    let vocabulary = vocabulary();
    let params = [
        ("speed".to_string(), speed()),
        ("window".to_string(), ExprType::Duration),
        ("position".to_string(), gear()),
        ("flag".to_string(), ExprType::Boolean),
    ];
    for text in [
        // duration arithmetic
        "window + 10ms < 1s",
        // enum ordering
        "position < GearPosition.DRIVE",
        // `%` over a float-backed operand
        "speed % 0.5 == 0.0",
        // a string operand
        "speed == \"x\"",
        // a boolean where a number is required
        "flag + 1 > 0",
        // an enum type name in value position
        "GearPosition == 0",
        // field access on a non-tuple
        "speed.min >= 0.0",
        // `result` in a require
        "result >= 0.0",
    ] {
        let scope = ContractScope {
            params: &params,
            result: None,
            signals: &[],
            vocabulary: &vocabulary,
            resolution: &resolution,
        };
        let (ty, diagnostics) = check_contract_expr(&parse_expr(text), &scope);
        assert_eq!(ty, None, "`{text}` must not type-check");
        assert!(
            codes(&diagnostics).contains(&"RIDL-306"),
            "`{text}`: {diagnostics:?}"
        );
    }
}

#[test]
fn ridl_305_ensure_without_result() {
    let resolution = resolution();
    let vocabulary = vocabulary();
    let params = [("window".to_string(), ExprType::Duration)];
    let scope = ContractScope {
        params: &params,
        result: Some(speed()),
        signals: &[],
        vocabulary: &vocabulary,
        resolution: &resolution,
    };
    let (ty, diagnostics) = check_contract_expr(&parse_expr("window > 0ms"), &scope);
    assert_eq!(ty, Some(ExprType::Boolean), "the clause is well-typed");
    assert_eq!(codes(&diagnostics), vec!["RIDL-305"]);
    assert_eq!(diagnostics[0].severity, Severity::Warning);
}

#[test]
fn canonical_text_normalizes_spacing_and_parentheses() {
    for (written, canonical) in [
        ("result>=0.0", "result >= 0.0"),
        ("( result ) >= ( 0.0 )", "result >= 0.0"),
        ("(min < max)", "min < max"),
        ("min<max&&max<=MAX_SPEED", "min < max && max <= MAX_SPEED"),
        ("a || (b && c)", "a || b && c"),
        ("(a || b) && c", "(a || b) && c"),
        ("a + b * c < d", "a + b * c < d"),
        ("(a + b) * c < d", "(a + b) * c < d"),
        ("a - (b - c) < d", "a - (b - c) < d"),
        ("a - b + c < d", "a - b + c < d"),
        ("!a && b", "!a && b"),
        ("!(a && b)", "!(a && b)"),
        (
            "position !=GearPosition . PARK||currentSpeed== 0.0",
            "position != GearPosition.PARK || currentSpeed == 0.0",
        ),
        ("result . min>=0.0", "result.min >= 0.0"),
    ] {
        let rendered = canonical_expr_text(&parse_expr(written));
        assert_eq!(rendered, canonical, "`{written}`");
        assert_eq!(
            canonical_expr_text(&parse_expr(&rendered)),
            rendered,
            "`{written}` renders idempotently"
        );
    }
}

#[test]
fn canonical_text_renders_literals_by_value() {
    for (written, canonical) in [
        ("x >= 0.00", "x >= 0.0"),
        ("x >= 1.50", "x >= 1.5"),
        ("x >= 250.0", "x >= 250.0"),
        ("x >= 007", "x >= 7"),
        ("x >= 1000ms", "x >= 1000ms"),
        ("- -a < b", "-(-a) < b"),
    ] {
        assert_eq!(canonical_expr_text(&parse_expr(written)), canonical, "`{written}`");
    }
}

#[test]
fn collect_refs_reads_the_appendix_a_set_gear_require() {
    let resolution = resolution();
    let vocabulary = vocabulary();
    let params = [("position".to_string(), gear())];
    let signals = [("currentSpeed".to_string(), speed())];
    let scope = ContractScope {
        params: &params,
        result: None,
        signals: &signals,
        vocabulary: &vocabulary,
        resolution: &resolution,
    };
    let refs = collect_refs(
        &parse_expr("position != GearPosition.PARK || currentSpeed == 0.0"),
        &scope,
    );
    assert_eq!(refs.params, vec!["position".to_string()]);
    assert_eq!(refs.signals, vec!["currentSpeed".to_string()]);
    assert!(!refs.uses_result, "a require never reads `result`");
    assert!(refs.consts.is_empty(), "the enum type name is not a read");
    assert_eq!(refs.enum_types, vec!["GearPosition".to_string()]);
}

#[test]
fn collect_refs_reads_constants_and_result() {
    let resolution = resolution();
    let vocabulary = vocabulary();
    let params = [("max".to_string(), speed())];
    let scope = ContractScope {
        params: &params,
        result: Some(speed()),
        signals: &[],
        vocabulary: &vocabulary,
        resolution: &resolution,
    };
    let refs = collect_refs(&parse_expr("result <= MAX_SPEED && result >= max"), &scope);
    assert!(refs.uses_result);
    assert_eq!(refs.consts, vec!["MAX_SPEED".to_string()]);
    assert_eq!(refs.params, vec!["max".to_string()]);
}

#[test]
fn collect_refs_lists_each_name_once_in_first_mention_order() {
    let resolution = resolution();
    let vocabulary = vocabulary();
    let params = [("a".to_string(), speed()), ("b".to_string(), speed())];
    let scope = ContractScope {
        params: &params,
        result: None,
        signals: &[],
        vocabulary: &vocabulary,
        resolution: &resolution,
    };
    let refs = collect_refs(&parse_expr("b < a && a < b && b < MAX_SPEED"), &scope);
    assert_eq!(refs.params, vec!["b".to_string(), "a".to_string()]);
    assert_eq!(refs.consts, vec!["MAX_SPEED".to_string()]);
    assert_eq!(ExprRefs::default().params.len(), 0);
}

#[test]
fn qualified_ref_joins_package_and_name() {
    assert_eq!(
        qualified_ref(&symbol("Speed", SymbolKind::Type)),
        "veh.common.Speed"
    );
}

#[test]
fn diagnostics_of_a_clause_are_detached() {
    let resolution = resolution();
    let vocabulary = vocabulary();
    let scope = ContractScope {
        params: &[],
        result: None,
        signals: &[],
        vocabulary: &vocabulary,
        resolution: &resolution,
    };
    let (_, diagnostics) = check_contract_expr(&parse_expr("nothing"), &scope);
    assert_eq!(diagnostics.len(), 1);
    assert_eq!(diagnostics[0].code, DiagCode::RIDL_306);
    assert_eq!(diagnostics[0].file, ridl_sem::diag::DETACHED);
}

#[test]
fn rendering_depends_on_the_tree_not_the_layout() {
    for (a, b) in [
        ("a+b*c", "  a + ( b*c )  "),
        ("((x))", "x"),
        ("!(ok)&&ready", "! ok && (ready)"),
        ("result . min>=0.0", "(result.min) >= 0.0"),
    ] {
        assert_eq!(canonical_expr_text(&parse_expr(a)), canonical_expr_text(&parse_expr(b)), "`{a}` vs `{b}`");
    }
}

#[test]
fn canonical_numbers_read_back_as_the_same_value() {
    for (written, canonical) in [("1.50", "1.5"), ("007", "7"), ("2.000", "2.0"), ("0.0625", "0.0625")] {
        let rendered = canonical_expr_text(&parse_expr(&format!("x >= {written}")));
        assert_eq!(rendered, format!("x >= {canonical}"));
        let a = ExactValue::parse(written).expect("the written number parses");
        let b = ExactValue::parse(canonical).expect("the canonical number parses");
        assert!(a.equals(&b), "`{written}` and `{canonical}`");
    }
}

#[test]
fn tuple_fields_read_back_from_the_encoding() {
    let tuple = ExprType::tuple(&[
        ("min".to_string(), Some(ExprType::Numeric("veh.Speed".to_string(), NumericBacking::Float))),
        ("ok".to_string(), Some(ExprType::Boolean)),
        ("min".to_string(), Some(ExprType::Duration)),
        ("raw".to_string(), None),
    ]);
    let encoded = match &tuple {
        ExprType::Tuple(encoded) => encoded.clone(),
        other => panic!("not a tuple: {other:?}"),
    };
    assert_eq!(
        ExprType::tuple_field(&encoded, "min"),
        Some(ExprType::Numeric("veh.Speed".to_string(), NumericBacking::Float))
    );
    assert_eq!(ExprType::tuple_field(&encoded, "ok"), Some(ExprType::Boolean));
    assert_eq!(
        ExprType::tuple_field(&encoded, "raw"),
        Some(ExprType::Unsupported("a type outside the guaranteed subset".to_string()))
    );
    assert_eq!(ExprType::tuple_field(&encoded, "absent"), None);
}
