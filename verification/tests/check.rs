//! The checker's value-level rules.

use ridl_sem::check::{
    check_string_init, exact_is_positive, exact_to_i64, exact_to_u64, int64_edge,
    is_lowercase_name_segment, kind_article, kind_noun, len_bounds, lower_declared_init,
    out_of_bounds, primitive_noun, range_accepts, regex_body, render_bound, validate_regex,
    BackingClass, ConstValue, InitLiteral, LenBound, MemberKind, ScalarParts,
};
use ridl_sem::diag::{DiagCode, Severity};
use ridl_sem::exact::ExactValue;
use ridl_sem::init::Constraint;
use ridl_sem::resolve::SymbolKind;
use ridl_sem::syntax::TextRange;

fn exact(text: &str) -> ExactValue {
    ExactValue::parse(text).unwrap_or_else(|| panic!("`{text}` must parse"))
}

fn at() -> TextRange {
    TextRange { start: 3, end: 9 }
}

fn strings(len_min: u64, len_max: u64, pattern: Option<&str>) -> Constraint {
    Constraint {
        min: None,
        max: None,
        step: None,
        len_min: Some(len_min),
        len_max: Some(len_max),
        pattern: pattern.map(str::to_string),
        pattern_const: None,
    }
}

#[test]
fn regex_body_strips_the_delimiters_only_when_both_are_there() {
    assert_eq!(regex_body("/^[A-Z]+$/"), "^[A-Z]+$");
    assert_eq!(regex_body("/"), "/");
    assert_eq!(regex_body("//"), "");
    assert_eq!(regex_body("abc/"), "abc/");
}

#[test]
fn typl_106_invalid_regex() {
    let diagnostic = validate_regex("/[unclosed/", at()).expect("an unclosed class is invalid");
    assert_eq!(diagnostic.code, DiagCode::TYPL_106);
    assert_eq!(diagnostic.severity, Severity::Error);
    assert_eq!(diagnostic.range, at());
    assert!(validate_regex("/^[A-Z]{3}$/", at()).is_none());
}

#[test]
fn lowercase_name_segments() {
    for good in ["veh", "a1", "x"] {
        assert!(is_lowercase_name_segment(good), "{good}");
    }
    for bad in ["", "Veh", "1a", "ve_h", "vé"] {
        assert!(!is_lowercase_name_segment(bad), "{bad}");
    }
}

#[test]
fn nouns_and_articles() {
    assert_eq!(MemberKind::Query.noun(), "query");
    assert_eq!(MemberKind::Final.noun(), "final");
    assert_eq!(primitive_noun(BackingClass::Str), "string");
    assert_eq!(primitive_noun(BackingClass::Unknown), "unknown");
    assert_eq!(kind_noun(SymbolKind::Const), "constant");
    assert_eq!(kind_article(SymbolKind::Enum), "an");
    assert_eq!(kind_article(SymbolKind::Interface), "an");
    assert_eq!(kind_article(SymbolKind::Struct), "a");
}

#[test]
fn range_membership_is_inclusive_and_open_sides_accept() {
    let min = exact("0");
    let max = exact("10.5");
    assert!(range_accepts(&exact("0"), Some(&min), Some(&max)));
    assert!(range_accepts(&exact("10.5"), Some(&min), Some(&max)));
    assert!(!range_accepts(&exact("10.51"), Some(&min), Some(&max)));
    assert!(out_of_bounds(&exact("-0.1"), Some(&min), None));
    assert!(!out_of_bounds(&exact("-1000"), None, Some(&max)));
    assert_eq!(render_bound(Some(&max)), "10.5");
    assert_eq!(render_bound(None), "..");
}

#[test]
fn exact_conversions() {
    assert!(exact_is_positive(&exact("0.001")));
    assert!(!exact_is_positive(&exact("0")));
    assert!(!exact_is_positive(&exact("-2")));
    assert_eq!(exact_to_u64(&exact("42")), Some(42));
    assert_eq!(exact_to_u64(&exact("-1")), None);
    assert_eq!(exact_to_u64(&exact("1.5")), None);
    assert_eq!(exact_to_i64(&exact("-9223372036854775808")), Some(i64::MIN));
    assert_eq!(exact_to_i64(&exact("9223372036854775808")), None);
}

#[test]
fn omitted_bound_still_defaults_to_the_int64_edge() {
    assert_eq!(int64_edge(true).to_decimal_string(), "9223372036854775807");
    assert_eq!(int64_edge(false).to_decimal_string(), "-9223372036854775808");
}

#[test]
fn typl_103_string_without_bounds_gets_the_default() {
    let (min, max, warning) = len_bounds(None, "string", at());
    assert_eq!((min, max), (0, 256));
    let warning = warning.expect("the default bound warns");
    assert_eq!(warning.code, DiagCode::TYPL_103);
    assert_eq!(warning.severity, Severity::Warning);
    assert!(warning.message.contains("`string`"));
    let fixed = LenBound {
        min: Some(17),
        max: None,
        range: false,
    };
    assert_eq!(len_bounds(Some(fixed), "bytes", at()).0, 17);
    assert_eq!(len_bounds(Some(fixed), "bytes", at()).1, 17);
    let open = LenBound {
        min: None,
        max: Some(8),
        range: true,
    };
    let (min, max, warning) = len_bounds(Some(open), "string", at());
    assert_eq!((min, max), (0, 8));
    assert!(warning.is_none());
}

#[test]
fn typl_109_string_init_too_long() {
    let diagnostics = check_string_init("abcdef", Some(&strings(0, 4, None)), at(), DiagCode::TYPL_109);
    assert_eq!(diagnostics.len(), 1);
    assert_eq!(diagnostics[0].code, DiagCode::TYPL_109);
    assert!(diagnostics[0].message.contains("exceeds the declared maximum 4"), "{}", diagnostics[0].message);
    let short = check_string_init("a", Some(&strings(2, 4, None)), at(), DiagCode::RIDL_110);
    assert_eq!(short.len(), 1);
    assert_eq!(short[0].code, DiagCode::RIDL_110);
    assert!(short[0].message.contains("below the declared minimum 2"));
}

#[test]
fn typl_109_string_init_does_not_match_pattern() {
    let pattern = strings(0, 32, Some("/^[A-Z]{3}$/"));
    let diagnostics = check_string_init("abc", Some(&pattern), at(), DiagCode::TYPL_109);
    assert_eq!(diagnostics.len(), 1);
    assert!(diagnostics[0].message.contains("does not match"));
}

#[test]
fn conforming_string_init_is_clean() {
    let pattern = strings(0, 32, Some("/^[A-Z]{3}$/"));
    assert!(check_string_init("ABC", Some(&pattern), at(), DiagCode::TYPL_109).is_empty());
    assert!(check_string_init("anything", None, at(), DiagCode::TYPL_109).is_empty());
    // An invalid pattern is reported at its own site, not here.
    let broken = strings(0, 32, Some("/[/"));
    assert!(check_string_init("x", Some(&broken), at(), DiagCode::TYPL_109).is_empty());
    // Length counts characters, not bytes.
    assert!(check_string_init("ééé", Some(&strings(0, 3, None)), at(), DiagCode::TYPL_109).is_empty());
}

#[test]
fn typl_109_declared_init_outside_the_range() {
    let parts = ScalarParts {
        constraint: None,
        min: Some(exact("0")),
        max: Some(exact("100")),
    };
    let (text, diagnostics) =
        lower_declared_init(&InitLiteral::Number(exact("150.0")), &parts, at(), DiagCode::TYPL_109);
    assert_eq!(text, "150");
    assert_eq!(diagnostics.len(), 1);
    assert_eq!(
        diagnostics[0].message,
        "init value 150 is outside the declared range [0..100]"
    );
    let (text, diagnostics) =
        lower_declared_init(&InitLiteral::Number(exact("42")), &parts, at(), DiagCode::TYPL_109);
    assert_eq!(text, "42");
    assert!(diagnostics.is_empty());
}

#[test]
fn a_constant_reference_in_a_declared_init_lowers_as_the_referenced_value() {
    let parts = ScalarParts {
        constraint: None,
        min: None,
        max: Some(exact("10")),
    };
    let (text, diagnostics) = lower_declared_init(
        &InitLiteral::Const(ConstValue::Number(exact("12.50"))),
        &parts,
        at(),
        DiagCode::TYPL_109,
    );
    assert_eq!(text, "12.5");
    assert_eq!(
        diagnostics[0].message,
        "init value 12.5 is outside the declared range [....10]"
    );
    let (text, diagnostics) =
        lower_declared_init(&InitLiteral::Const(ConstValue::Bool(true)), &parts, at(), DiagCode::TYPL_109);
    assert_eq!(text, "true");
    assert!(diagnostics.is_empty());
    let (text, _) = lower_declared_init(
        &InitLiteral::Written("UNKNOWN_CONST".to_string()),
        &parts,
        at(),
        DiagCode::TYPL_109,
    );
    assert_eq!(text, "UNKNOWN_CONST");
    let strings_parts = ScalarParts {
        constraint: Some(strings(0, 2, None)),
        min: None,
        max: None,
    };
    let (text, diagnostics) = lower_declared_init(
        &InitLiteral::Const(ConstValue::Text("abc".to_string())),
        &strings_parts,
        at(),
        DiagCode::TYPL_109,
    );
    assert_eq!(text, "abc");
    assert_eq!(diagnostics.len(), 1);
}

use ridl_sem::check::{const_value, const_value_of, ConstEntry};
use ridl_sem::decls::LitKind;
use ridl_sem::resolve::{Resolution, Symbol};

fn entry(package: &str, name: &str, value: Option<LitKind>, next: Option<(&str, &str)>) -> ConstEntry {
    ConstEntry {
        package: package.to_string(),
        name: name.to_string(),
        kind: SymbolKind::Const,
        value,
        next: next.map(|(p, n)| (p.to_string(), n.to_string())),
    }
}

fn reference(name: &str) -> Option<LitKind> {
    Some(LitKind::ConstRef(name.to_string()))
}

#[test]
fn const_value_follows_chains_and_guards_cycles() {
    let graph = vec![
        entry("app", "A", reference("B"), Some(("app", "B"))),
        entry("app", "B", reference("C"), Some(("lib", "C"))),
        entry("lib", "C", Some(LitKind::Number(exact("42.50"))), None),
        entry("app", "LOOP", reference("LOOP2"), Some(("app", "LOOP2"))),
        entry("app", "LOOP2", reference("LOOP"), Some(("app", "LOOP"))),
        entry("app", "SELF", reference("SELF"), Some(("app", "SELF"))),
        entry("app", "FLAG", Some(LitKind::Bool(true)), None),
        entry("app", "DANGLING", reference("NOWHERE"), None),
        entry("app", "BAD", Some(LitKind::Malformed), None),
    ];
    match const_value_of(&graph, "app", "A") {
        Some(ConstValue::Number(v)) => assert_eq!(v.to_decimal_string(), "42.5"),
        other => panic!("expected a number, got {other:?}"),
    }
    assert_eq!(const_value_of(&graph, "app", "LOOP"), None);
    assert_eq!(const_value_of(&graph, "app", "SELF"), None);
    assert_eq!(const_value_of(&graph, "app", "FLAG"), Some(ConstValue::Bool(true)));
    assert_eq!(const_value_of(&graph, "app", "DANGLING"), None);
    assert_eq!(const_value_of(&graph, "app", "BAD"), None);
    assert_eq!(const_value_of(&graph, "app", "MISSING"), None);

    let mut symbol = Symbol {
        name: "A".to_string(),
        package: "app".to_string(),
        kind: SymbolKind::Const,
        internal: false,
        is_error: false,
        file: 0,
        range: at(),
    };
    let res = Resolution {
        symbols: vec![("Alias".to_string(), symbol)],
        diagnostics: Vec::new(),
    };
    assert!(matches!(const_value(&graph, &res, "Alias"), Some(ConstValue::Number(_))));
    assert_eq!(const_value(&graph, &res, "A"), None, "the package view does not bind `A`");
    symbol = Symbol {
        name: "A".to_string(),
        package: "app".to_string(),
        kind: SymbolKind::Type,
        internal: false,
        is_error: false,
        file: 0,
        range: at(),
    };
    let res = Resolution {
        symbols: vec![("A".to_string(), symbol)],
        diagnostics: Vec::new(),
    };
    assert_eq!(const_value(&graph, &res, "A"), None, "a type has no constant value");
}
