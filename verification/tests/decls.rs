//! The checker's declaration rules.

use ridl_sem::check::{ConstEntry, ConstValue, LenBound};
use ridl_sem::decls::{
    literal_kind, lower_const, lower_const_in, lower_enum, lower_len_scalar, lower_union, ArmType, ConstDecl,
    ConstTypeRef, EnumMember, LitKind, PatternLiteral, ReservedEntry, UnionMember,
};
use ridl_sem::diag::{Diagnostic, Severity};
use ridl_sem::exact::ExactValue;
use ridl_sem::resolve::{Symbol, SymbolKind};
use ridl_sem::syntax::{TextRange, TokenKind};

fn at(start: usize) -> TextRange {
    TextRange { start, end: start + 1 }
}

fn exact(text: &str) -> ExactValue {
    ExactValue::parse(text).unwrap_or_else(|| panic!("`{text}` must parse"))
}

fn number(text: &str) -> Option<LitKind> {
    Some(LitKind::Number(exact(text)))
}

fn codes(diagnostics: &[Diagnostic]) -> Vec<&str> {
    diagnostics.iter().map(|d| d.code.as_str()).collect()
}

fn value(name: &str, v: Option<LitKind>, start: usize) -> EnumMember {
    EnumMember::Value {
        name: Some(name.to_string()),
        name_range: at(start),
        value: v,
        value_range: at(start + 10),
    }
}

fn reserved_name(name: &str, start: usize) -> ReservedEntry {
    ReservedEntry {
        name: Some(name.to_string()),
        value: None,
        range: at(start),
    }
}

fn reserved_value(v: &str, start: usize) -> ReservedEntry {
    ReservedEntry {
        name: None,
        value: number(v),
        range: at(start),
    }
}

#[test]
fn literals_classify_by_token() {
    assert_eq!(literal_kind(TokenKind::TrueKw, "true"), LitKind::Bool(true));
    assert_eq!(literal_kind(TokenKind::String, "\"abc\""), LitKind::Str("abc".to_string()));
    assert_eq!(literal_kind(TokenKind::Regex, "/a+/"), LitKind::Regex("/a+/".to_string()));
    assert_eq!(literal_kind(TokenKind::Ident, "MAX"), LitKind::ConstRef("MAX".to_string()));
    assert_eq!(literal_kind(TokenKind::FloatNumber, "1.50"), LitKind::Number(exact("1.5")));
    assert_eq!(literal_kind(TokenKind::IntNumber, "1x"), LitKind::Malformed);
    assert_eq!(literal_kind(TokenKind::Plus, "+"), LitKind::Malformed);
}

#[test]
fn typl_203_duplicate_enum_value() {
    let members = vec![
        value("PARK", number("0"), 1),
        value("DRIVE", number("1"), 2),
        value("REVERSE", number("1"), 3),
        value("NEUTRAL", None, 4),
    ];
    let (def, diagnostics) = lower_enum(&members, false);
    assert_eq!(codes(&diagnostics), vec!["TYPL-203", "TYPL-203"]);
    assert_eq!(diagnostics[0].message, "duplicate enum value 1");
    assert_eq!(diagnostics[0].range, at(13));
    assert_eq!(diagnostics[1].message, "enum value `NEUTRAL` has no explicit integer value");
    assert_eq!(def.values.len(), 3, "a value without a number is dropped");
}

#[test]
fn typl_210_enum_value_redeclared_under_reserved() {
    let members = vec![
        EnumMember::Reserved(reserved_name("OLD", 1)),
        EnumMember::Reserved(reserved_value("7", 2)),
        value("OLD", number("3"), 3),
        value("NEW", number("7"), 4),
    ];
    let (def, diagnostics) = lower_enum(&members, false);
    assert_eq!(codes(&diagnostics), vec!["TYPL-210", "TYPL-210"]);
    assert_eq!(diagnostics[1].message, "enum value 7 re-uses a `reserved` value");
    assert_eq!(def.reserved.len(), 2);
    assert_eq!(def.reserved[0].ordinal, 0);
    assert_eq!(def.reserved[1].value, Some(7));
}

#[test]
fn typl_211_duplicate_reserved_entry() {
    let members = vec![
        EnumMember::Reserved(reserved_name("OLD", 1)),
        EnumMember::Reserved(reserved_name("OLD", 2)),
        EnumMember::Reserved(reserved_value("-4", 3)),
        EnumMember::Reserved(reserved_value("-4", 4)),
    ];
    let (_, diagnostics) = lower_enum(&members, false);
    assert_eq!(codes(&diagnostics), vec!["TYPL-211", "TYPL-211"]);
    assert!(diagnostics.iter().all(|d| d.severity == Severity::Warning));
    assert_eq!(diagnostics[1].message, "duplicate `reserved` entry -4");
}

#[test]
fn error_enum_stratum_2_category_draws_ridl_307() {
    let members = vec![value("PRECONDITION_FAILED", number("1"), 1), value("TIMEOUT", number("2"), 2)];
    let (_, diagnostics) = lower_enum(&members, true);
    assert_eq!(codes(&diagnostics), vec!["RIDL-307"]);
    assert_eq!(diagnostics[0].severity, Severity::Warning);
    let (_, diagnostics) = lower_enum(&members, false);
    assert!(diagnostics.is_empty(), "an ordinary enum may use the name");
}

fn arm(name: &str, ty: ArmType) -> UnionMember {
    UnionMember::Arm {
        name: Some(name.to_string()),
        name_range: at(1),
        ty,
    }
}

fn named(reference: &str, is_error: bool) -> ArmType {
    ArmType::Named {
        written: reference.to_string(),
        range: at(5),
        resolved: Some((reference.to_string(), is_error)),
        found: Some((SymbolKind::Struct, is_error)),
    }
}

#[test]
fn result_union_two_arms_sets_is_result() {
    let members = vec![arm("ok", named("app.Reading", false)), arm("err", named("app.Fault", true))];
    let (def, diagnostics) = lower_union(&members, false, at(0));
    assert!(diagnostics.is_empty(), "{diagnostics:?}");
    assert!(def.is_result);
    assert_eq!(def.arms[1].type_ref, "app.Fault");
    assert_eq!(def.arms[1].ordinal, 2);
}

#[test]
fn typl_213_three_arm_mix_is_rejected() {
    let members = vec![
        arm("a", named("app.A", false)),
        arm("b", named("app.B", false)),
        arm("e", named("app.E", true)),
    ];
    let (def, diagnostics) = lower_union(&members, false, at(0));
    assert_eq!(codes(&diagnostics), vec!["TYPL-213"]);
    assert_eq!(diagnostics[0].message, "union mixes 2 success and 1 error arms — a result union has exactly one of each");
    assert!(!def.is_result);
}

#[test]
fn typl_204_union_arm_with_primitive() {
    let members = vec![
        arm("raw", ArmType::Primitive { keyword: "integer".to_string(), range: at(7) }),
        arm("e", named("app.E", true)),
    ];
    let (def, diagnostics) = lower_union(&members, false, at(0));
    assert_eq!(codes(&diagnostics), vec!["TYPL-204"]);
    assert_eq!(def.arms[0].type_ref, "integer");
    assert!(!def.is_result, "a union with an unresolved arm is no result union");
}

#[test]
fn typl_214_error_union_with_non_error_arm() {
    let members = vec![
        arm("a", named("app.Fault", true)),
        arm("b", named("app.Reading", false)),
        arm(
            "c",
            ArmType::Named {
                written: "LIMIT".to_string(),
                range: at(9),
                resolved: None,
                found: Some((SymbolKind::Const, false)),
            },
        ),
    ];
    let (_, diagnostics) = lower_union(&members, true, at(0));
    assert_eq!(codes(&diagnostics), vec!["TYPL-214"]);
    assert_eq!(diagnostics[0].message, "`error union` arm `b` is not error-typed");
}

#[test]
fn tombstone_example_assigns_ordinals_around_the_slot() {
    let members = vec![
        arm("a", named("app.A", false)),
        UnionMember::Reserved(reserved_name("gone", 3)),
        arm("c", named("app.C", false)),
        UnionMember::Arm { name: None, name_range: at(4), ty: ArmType::Missing },
        arm("gone", named("app.D", false)),
    ];
    let (def, diagnostics) = lower_union(&members, false, at(0));
    assert_eq!(codes(&diagnostics), vec!["TYPL-210"]);
    let ordinals: Vec<u32> = def.arms.iter().map(|a| a.ordinal).collect();
    assert_eq!(ordinals, vec![1, 3, 5]);
    assert_eq!(def.reserved[0].ordinal, 2);
}

fn speed_type() -> Option<ConstTypeRef> {
    Some(ConstTypeRef::Named {
        canonical: "Speed".to_string(),
        is_type: true,
        bounds: Some((Some(exact("0")), Some(exact("300")))),
    })
}

fn constant(value: Option<LitKind>, written: &str) -> ConstDecl {
    ConstDecl {
        name: "MAX".to_string(),
        value,
        written: written.to_string(),
        value_range: at(20),
        type_ref: speed_type(),
        nominal_violation: None,
        referenced_number: None,
        referenced_value: None,
    }
}

#[test]
fn typl_108_const_value_outside_its_type_range() {
    let (def, diagnostics) = lower_const(&constant(number("350.0"), "350.0"));
    assert_eq!(codes(&diagnostics), vec!["TYPL-108"]);
    assert_eq!(diagnostics[0].message, "const `MAX` value 350 outside `Speed` range [0, 300]");
    assert_eq!(def.value, "350");
    assert_eq!(def.type_ref.as_deref(), Some("Speed"));
}

#[test]
fn typl_108_nominal_const_init_from_a_different_named_type() {
    let mut decl = constant(Some(LitKind::ConstRef("LIMIT".to_string())), "LIMIT");
    decl.nominal_violation = Some(("Speed".to_string(), "Torque".to_string()));
    decl.referenced_number = Some(exact("999"));
    decl.referenced_value = Some(ConstValue::Number(exact("999")));
    let (def, diagnostics) = lower_const(&decl);
    assert_eq!(codes(&diagnostics), vec!["TYPL-108"], "one init reports one TYPL-108");
    assert!(diagnostics[0].message.contains("nominal types are not interchangeable"));
    assert_eq!(def.value, "999");
}

#[test]
fn typl_108_constref_init_out_of_range() {
    let mut decl = constant(Some(LitKind::ConstRef("LIMIT".to_string())), "LIMIT");
    decl.referenced_number = Some(exact("-1"));
    decl.referenced_value = Some(ConstValue::Number(exact("-1")));
    let (def, diagnostics) = lower_const(&decl);
    assert_eq!(codes(&diagnostics), vec!["TYPL-108"]);
    assert_eq!(def.value, "-1");
}

#[test]
fn a_constant_reference_lowers_as_the_referenced_value() {
    // const SECRET : Tick = 7        const NAMED : Tick = SECRET
    // const WHOLE : integer = 7      const INT : integer = WHOLE
    // const RATIO : float = 3.5      const FLOAT : float = RATIO
    // const FLAG : boolean = true    const BOOL : boolean = FLAG
    // const GREETING : string = "hello"   const TEXT : string = GREETING
    // const VIN_PATTERN = /^[A-Z0-9]{17}$/   const ALIAS = VIN_PATTERN
    // const HOP : integer = INT
    let literal = |name: &str, value: LitKind| ConstEntry {
        package: "app".to_string(),
        name: name.to_string(),
        kind: SymbolKind::Const,
        value: Some(value),
        next: None,
    };
    let reference = |name: &str, target: &str| ConstEntry {
        package: "app".to_string(),
        name: name.to_string(),
        kind: SymbolKind::Const,
        value: Some(LitKind::ConstRef(target.to_string())),
        next: Some(("app".to_string(), target.to_string())),
    };
    let graph = vec![
        literal("SECRET", LitKind::Number(exact("7"))),
        reference("NAMED", "SECRET"),
        literal("WHOLE", LitKind::Number(exact("7"))),
        reference("INT", "WHOLE"),
        literal("RATIO", LitKind::Number(exact("3.5"))),
        reference("FLOAT", "RATIO"),
        literal("FLAG", LitKind::Bool(true)),
        reference("BOOL", "FLAG"),
        literal("GREETING", LitKind::Str("hello".to_string())),
        reference("TEXT", "GREETING"),
        literal("VIN_PATTERN", LitKind::Regex("/^[A-Z0-9]{17}$/".to_string())),
        reference("ALIAS", "VIN_PATTERN"),
        reference("HOP", "INT"),
    ];
    let symbols: Vec<(String, Symbol)> = graph
        .iter()
        .map(|e| {
            (
                e.name.clone(),
                Symbol {
                    name: e.name.clone(),
                    package: "app".to_string(),
                    kind: SymbolKind::Const,
                    internal: false,
                    is_error: false,
                    file: 0,
                    range: at(0),
                },
            )
        })
        .collect();
    let lowered = |target: &str| {
        let mut decl = constant(Some(LitKind::ConstRef(target.to_string())), target);
        decl.type_ref = None;
        let (def, diagnostics) = lower_const_in(&decl, &graph, &symbols);
        assert!(diagnostics.is_empty(), "got: {diagnostics:?}");
        def
    };
    for (target, expected) in [
        ("SECRET", "7"),
        ("WHOLE", "7"),
        ("RATIO", "3.5"),
        ("FLAG", "true"),
        ("GREETING", "hello"),
        // Two hops: the chain is followed to the literal, not one step.
        ("INT", "7"),
    ] {
        let def = lowered(target);
        assert_eq!(def.value, expected, "a reference to `{target}` must lower as the referenced value, not its name");
        assert_eq!(def.regex, None);
    }
    // A reference to a regex constant becomes a regex constant.
    let alias = lowered("VIN_PATTERN");
    assert_eq!(alias.regex.as_deref(), Some("/^[A-Z0-9]{17}$/"));
    assert_eq!(alias.value, "");
    // The value the checker found rides along for `lower_const`.
    let mut decl = constant(Some(LitKind::ConstRef("NAME".to_string())), "NAME");
    decl.type_ref = Some(ConstTypeRef::Primitive("string".to_string()));
    decl.referenced_value = Some(ConstValue::Text("hello".to_string()));
    let (def, diagnostics) = lower_const(&decl);
    assert!(diagnostics.is_empty());
    assert_eq!(def.value, "hello");
    assert_eq!(def.type_ref.as_deref(), Some("string"));
}

#[test]
fn a_constant_chain_that_loops_keeps_the_written_text() {
    let entry = |name: &str, target: &str| ConstEntry {
        package: "app".to_string(),
        name: name.to_string(),
        kind: SymbolKind::Const,
        value: Some(LitKind::ConstRef(target.to_string())),
        next: Some(("app".to_string(), target.to_string())),
    };
    let graph = vec![entry("A", "B"), entry("B", "A")];
    let symbols: Vec<(String, Symbol)> = ["A", "B"]
        .iter()
        .map(|n| {
            (
                n.to_string(),
                Symbol {
                    name: n.to_string(),
                    package: "app".to_string(),
                    kind: SymbolKind::Const,
                    internal: false,
                    is_error: false,
                    file: 0,
                    range: at(0),
                },
            )
        })
        .collect();
    let mut decl = constant(Some(LitKind::ConstRef("A".to_string())), "A");
    decl.type_ref = None;
    let (def, _) = lower_const_in(&decl, &graph, &symbols);
    assert_eq!(def.value, "A");
}

#[test]
fn an_unresolvable_constant_reference_keeps_the_written_text() {
    let decl = constant(Some(LitKind::ConstRef("MISSING".to_string())), "MISSING");
    let (def, _) = lower_const(&decl);
    assert_eq!(def.value, "MISSING");
}

#[test]
fn typl_106_invalid_regex_constant() {
    let mut decl = constant(Some(LitKind::Regex("/(/".to_string())), "/(/");
    decl.type_ref = None;
    let (def, diagnostics) = lower_const(&decl);
    assert_eq!(codes(&diagnostics), vec!["TYPL-106"]);
    assert_eq!(def.value, "");
    assert_eq!(def.regex.as_deref(), Some("/(/"));
    let mut valid = constant(Some(LitKind::Regex("/^[A-Z]+$/".to_string())), "/^[A-Z]+$/");
    valid.type_ref = None;
    assert!(lower_const(&valid).1.is_empty());
}

#[test]
fn typl_106_invalid_inline_match_regex() {
    let pattern = Some(PatternLiteral {
        kind: LitKind::Regex("/[a-/".to_string()),
        range: at(30),
        regex_const: None,
    });
    let bound = Some(LenBound { min: Some(1), max: Some(8), range: true });
    let (constraint, diagnostics) = lower_len_scalar("string", true, bound, &pattern, at(0));
    assert_eq!(codes(&diagnostics), vec!["TYPL-106"]);
    assert_eq!(diagnostics[0].range, at(30));
    assert_eq!(constraint.len_min, Some(1));
    assert_eq!(constraint.pattern.as_deref(), Some("/[a-/"));
}

#[test]
fn typl_103_and_named_pattern_constants() {
    let pattern = Some(PatternLiteral {
        kind: LitKind::ConstRef("VIN".to_string()),
        range: at(30),
        regex_const: Some(("/^[A-Z0-9]{17}$/".to_string(), "veh.common.VIN".to_string())),
    });
    let (constraint, diagnostics) = lower_len_scalar("string", true, None, &pattern, at(0));
    assert_eq!(codes(&diagnostics), vec!["TYPL-103"]);
    assert_eq!((constraint.len_min, constraint.len_max), (Some(0), Some(256)));
    assert_eq!(constraint.pattern_const.as_deref(), Some("veh.common.VIN"));
    let (bytes, _) = lower_len_scalar("bytes", false, None, &pattern, at(0));
    assert_eq!(bytes.pattern, None, "bytes carry no pattern");
    assert_eq!(bytes.pattern_const, None);
}

use ridl_sem::decls::{lower_enum_set, EnumSetBacking, EnumSetBit};

fn bit(name: &str, position: &str) -> EnumSetBit {
    EnumSetBit {
        name: Some(name.to_string()),
        name_range: at(1),
        value: number(position),
        value_range: Some(at(9)),
    }
}

#[test]
fn typl_207_duplicate_enumset_bits() {
    let bits = vec![bit("A", "0"), bit("B", "1"), bit("C", "1")];
    let (def, diagnostics) = lower_enum_set(&None, &bits, at(0));
    assert_eq!(codes(&diagnostics), vec!["TYPL-207"]);
    assert_eq!(diagnostics[0].message, "duplicate enumset bit position 1");
    assert_eq!(def.bits.len(), 3);
    assert_eq!(def.highest_bit, 1);
    assert_eq!(def.width, Width::U8);
    assert_eq!(def.backing_enum, None);
}

#[test]
fn enumset_bit_past_63_is_typl_111() {
    let bits = vec![bit("A", "3"), bit("B", "64"), bit("C", "-1")];
    let (def, diagnostics) = lower_enum_set(&None, &bits, at(0));
    assert_eq!(codes(&diagnostics), vec!["TYPL-111", "TYPL-111"]);
    assert_eq!(diagnostics[0].message, "enumset bit position 64 is outside the int64 domain (bits 0..63)");
    assert_eq!(diagnostics[0].range, at(0));
    assert_eq!(def.highest_bit, 3);
}

#[test]
fn derived_enumset_copies_bits() {
    let backing = Some(EnumSetBacking::Enum {
        canonical: "app.Door".to_string(),
        values: vec![
            (Some("FRONT".to_string()), number("0")),
            (Some("REAR".to_string()), number("5")),
            (None, number("6")),
            (Some("BROKEN".to_string()), None),
        ],
    });
    let (def, diagnostics) = lower_enum_set(&backing, &[bit("IGNORED", "1")], at(0));
    assert!(diagnostics.is_empty());
    assert_eq!(def.backing_enum.as_deref(), Some("app.Door"));
    let names: Vec<&str> = def.bits.iter().map(|b| b.name.as_str()).collect();
    assert_eq!(names, ["FRONT", "REAR"]);
    assert_eq!(def.highest_bit, 5);
    assert_eq!(def.width, Width::U8);
    let other = Some(EnumSetBacking::Other {
        canonical: "app.Speed".to_string(),
        name: "Speed".to_string(),
        kind: SymbolKind::Type,
        range: at(4),
    });
    let (def, diagnostics) = lower_enum_set(&other, &[], at(0));
    assert_eq!(diagnostics[0].message, "expected an enum, but `Speed` names a type");
    assert_eq!(def.backing_enum.as_deref(), Some("app.Speed"));
}

use ridl_sem::decls::{
    int_width, lower_float_scalar, lower_integer_scalar, resolve_range_bound, BoundLiteral, RangeConstraint,
    Width, WidthBasis,
};

fn num(text: &str, start: usize) -> Option<BoundLiteral> {
    Some(BoundLiteral {
        kind: LitKind::Number(exact(text)),
        range: at(start),
        int_form: !text.contains('.'),
        constant: None,
    })
}

fn const_bound(name: &str, constant: Option<ConstValue>, start: usize) -> Option<BoundLiteral> {
    Some(BoundLiteral {
        kind: LitKind::ConstRef(name.to_string()),
        range: at(start),
        int_form: false,
        constant,
    })
}

fn range(min: Option<BoundLiteral>, max: Option<BoundLiteral>, step: Option<BoundLiteral>) -> Option<RangeConstraint> {
    Some(RangeConstraint {
        range: TextRange { start: 20, end: 40 },
        min,
        max,
        step,
    })
}

fn decl_span() -> TextRange {
    TextRange { start: 0, end: 50 }
}

fn width_range(width: &WidthBasis) -> Option<(String, String, Option<String>)> {
    match width {
        WidthBasis::Range { min, max, step } => Some((
            min.to_decimal_string(),
            max.to_decimal_string(),
            step.as_ref().map(ExactValue::to_decimal_string),
        )),
        _ => None,
    }
}

#[test]
fn primitive_integer_range_keeps_its_bounds() {
    let (scalar, diagnostics) = lower_integer_scalar(range(num("0", 21), num("65535", 24), None).as_ref(), decl_span());
    assert!(diagnostics.is_empty(), "{diagnostics:?}");
    let constraint = scalar.parts.constraint.as_ref().unwrap();
    assert_eq!(constraint.min.as_deref(), Some("0"));
    assert_eq!(constraint.max.as_deref(), Some("65535"));
    assert_eq!(constraint.step, None);
    assert_eq!(width_range(&scalar.width), Some(("0".to_string(), "65535".to_string(), None)));
    assert_eq!(scalar.storage, Some(Width::U16));
}

#[test]
fn typl_101_integer_without_range_warns() {
    let (scalar, diagnostics) = lower_integer_scalar(None, decl_span());
    assert_eq!(codes(&diagnostics), vec!["TYPL-101"]);
    assert_eq!(diagnostics[0].severity, Severity::Warning);
    assert_eq!(diagnostics[0].range, decl_span());
    // No range derives int64.
    assert_eq!(scalar.width, WidthBasis::Int64);
    assert_eq!(scalar.storage, Some(Width::I64));
    assert!(scalar.parts.constraint.is_none());
}

#[test]
fn typl_102_float_without_step_warns() {
    let (scalar, diagnostics) = lower_float_scalar(range(num("0.0", 21), num("1.0", 26), None).as_ref(), decl_span());
    assert_eq!(codes(&diagnostics), vec!["TYPL-102"]);
    assert_eq!(diagnostics[0].severity, Severity::Warning);
    // Both bounds are written, so the width follows from the range alone.
    assert_eq!(width_range(&scalar.width), Some(("0".to_string(), "1".to_string(), None)));
    // No step: float64.
    assert_eq!(scalar.storage, Some(Width::F64));

    let (bare, diagnostics) = lower_float_scalar(None, decl_span());
    assert_eq!(codes(&diagnostics), vec!["TYPL-102"]);
    assert_eq!(bare.width, WidthBasis::Float64);
    assert_eq!(bare.storage, Some(Width::F64));
}

#[test]
fn typl_104_min_greater_than_max() {
    let (_, diagnostics) = lower_integer_scalar(range(num("10", 21), num("5", 25), None).as_ref(), decl_span());
    assert_eq!(codes(&diagnostics), vec!["TYPL-104"]);
    assert_eq!(diagnostics[0].severity, Severity::Error);
    assert_eq!(diagnostics[0].message, "range minimum 10 is greater than maximum 5");
}

#[test]
fn typl_105_step_on_an_integer_type() {
    let (_, diagnostics) = lower_integer_scalar(range(num("0", 21), num("10", 24), num("2", 32)).as_ref(), decl_span());
    assert_eq!(codes(&diagnostics), vec!["TYPL-105"]);
    assert_eq!(diagnostics[0].range, at(32));
}

#[test]
fn typl_105_integer_form_step_on_a_float_type() {
    let (_, diagnostics) = lower_float_scalar(range(num("0.0", 21), num("10.0", 26), num("1", 36)).as_ref(), decl_span());
    assert_eq!(codes(&diagnostics), vec!["TYPL-105"]);
    // The float-form spelling of the same value is fine.
    let (ok, diagnostics) = lower_float_scalar(range(num("0.0", 21), num("10.0", 26), num("1.0", 36)).as_ref(), decl_span());
    assert!(diagnostics.is_empty(), "got: {diagnostics:?}");
    assert_eq!(ok.parts.constraint.as_ref().unwrap().step.as_deref(), Some("1"));
}

#[test]
fn typl_105_non_positive_and_oversized_steps() {
    let (_, zero) = lower_float_scalar(range(num("0.0", 21), num("10.0", 26), num("0.0", 36)).as_ref(), decl_span());
    assert_eq!(codes(&zero), vec!["TYPL-105"]);
    assert_eq!(zero[0].message, "`step` must be positive");
    let (_, large) = lower_float_scalar(range(num("0.0", 21), num("10.0", 26), num("20.0", 36)).as_ref(), decl_span());
    assert_eq!(codes(&large), vec!["TYPL-105"]);
    assert_eq!(large[0].message, "`step` is larger than the range");
    // Without both bounds only the sign of the step is checked.
    let (_, open) = lower_float_scalar(range(num("0.0", 21), None, num("-0.5", 36)).as_ref(), decl_span());
    assert_eq!(codes(&open), vec!["TYPL-105", "TYPL-102"]);
}

#[test]
fn unit_float_range_with_step_keeps_the_step() {
    let (scalar, diagnostics) =
        lower_float_scalar(range(num("0.0", 21), num("250.0", 26), num("0.5", 36)).as_ref(), decl_span());
    assert!(diagnostics.is_empty(), "{diagnostics:?}");
    assert_eq!(scalar.parts.constraint.as_ref().unwrap().step.as_deref(), Some("0.5"));
    assert_eq!(
        width_range(&scalar.width),
        Some(("0".to_string(), "250".to_string(), Some("0.5".to_string())))
    );
}

#[test]
fn typl_111_integer_range_outside_int64() {
    let (scalar, diagnostics) =
        lower_integer_scalar(range(num("0", 21), num("9223372036854775808", 24), None).as_ref(), decl_span());
    assert_eq!(codes(&diagnostics), vec!["TYPL-111"]);
    // No width fits a range outside the int64 domain.
    assert_eq!(scalar.width, WidthBasis::Deferred);
    assert_eq!(scalar.storage, None);
}

#[test]
fn omitted_integer_bound_takes_the_int64_edge() {
    let (scalar, diagnostics) = lower_integer_scalar(range(num("0", 21), None, None).as_ref(), decl_span());
    assert!(diagnostics.is_empty(), "{diagnostics:?}");
    assert_eq!(
        width_range(&scalar.width),
        Some(("0".to_string(), i64::MAX.to_string(), None))
    );
    assert_eq!(scalar.storage, Some(Width::U64));
    assert_eq!(scalar.parts.constraint.as_ref().unwrap().max, None);
}

#[test]
fn non_numeric_constant_bound_borrows_typl_105() {
    let (scalar, diagnostics) = lower_integer_scalar(
        range(num("0", 21), const_bound("FLAG", Some(ConstValue::Bool(true)), 24), None).as_ref(),
        decl_span(),
    );
    assert_eq!(codes(&diagnostics), vec!["TYPL-105"]);
    assert!(diagnostics[0].message.contains("FLAG"));
    assert_eq!(scalar.width, WidthBasis::Deferred);
}

#[test]
fn unresolved_constant_bound_defers_the_width() {
    let (scalar, diagnostics) =
        lower_integer_scalar(range(num("0", 21), const_bound("LOOP", None, 24), None).as_ref(), decl_span());
    assert_eq!(codes(&diagnostics), vec![""]);
    assert!(diagnostics[0].message.contains("LOOP"));
    assert_eq!(scalar.width, WidthBasis::Deferred);

    let (chained, diagnostics) = lower_integer_scalar(
        range(num("0", 21), const_bound("MAX", Some(ConstValue::Number(exact("255"))), 24), None).as_ref(),
        decl_span(),
    );
    assert!(diagnostics.is_empty(), "{diagnostics:?}");
    assert_eq!(width_range(&chained.width), Some(("0".to_string(), "255".to_string(), None)));
    assert_eq!(chained.storage, Some(Width::U8));
}

#[test]
fn resolve_range_bound_reads_literals_and_constants() {
    let (value, diagnostic) = resolve_range_bound(&num("2.50", 1).unwrap());
    assert_eq!(value.map(|v| v.to_decimal_string()), Some("2.5".to_string()));
    assert!(diagnostic.is_none());
    let (value, diagnostic) = resolve_range_bound(&const_bound("PATTERN", Some(ConstValue::Regex("/a/".into())), 3).unwrap());
    assert!(value.is_none());
    assert_eq!(diagnostic.unwrap().message, "range bound constant `PATTERN` is not numeric");
}

use ridl_sem::check::{BackingClass, InitLiteral};
use ridl_sem::decls::{
    check_bare_primitive, lower_backing, lower_scalar, lower_type, BackingSpec, ScalarConstraint,
};
use ridl_sem::init::{Backing, PrimitiveType};

fn numeric_constraint(min: &str, max: &str, step: Option<&str>) -> Option<ScalarConstraint> {
    Some(ScalarConstraint {
        numeric: range(num(min, 21), num(max, 25), step.and_then(|s| num(s, 33))).unwrap(),
        len: None,
        pattern: None,
    })
}

fn len_constraint(min: u64, max: u64) -> Option<ScalarConstraint> {
    Some(ScalarConstraint {
        numeric: RangeConstraint { range: at(20), min: None, max: None, step: None },
        len: Some(LenBound { min: Some(min), max: Some(max), range: true }),
        pattern: None,
    })
}

#[test]
fn primitive_backing_lowers_to_backing_primitive() {
    let (def, diagnostics) = lower_type(
        "Counter",
        at(13),
        &Some(BackingSpec::Primitive(PrimitiveType::Integer)),
        at(23),
        &numeric_constraint("0", "65535", None),
        &None,
    );
    assert!(diagnostics.is_empty(), "{diagnostics:?}");
    assert_eq!(def.backing, Some(Backing::Primitive(PrimitiveType::Integer)));
    let constraint = def.scalar.parts.constraint.as_ref().unwrap();
    assert_eq!(constraint.min.as_deref(), Some("0"));
    assert_eq!(constraint.max.as_deref(), Some("65535"));
    assert_eq!(def.scalar.storage, Some(Width::U16));
    assert_eq!(def.init.value.as_deref(), Some("0"));
}

#[test]
fn unit_backing_lowers_to_canonical_unit() {
    let unit = BackingSpec::Unit { written: "km/h".to_string(), range: at(15), canonical: Some("km/h".to_string()) };
    let (def, diagnostics) =
        lower_type("Speed", at(5), &Some(unit), at(15), &numeric_constraint("0.0", "250.0", Some("0.5")), &None);
    assert!(diagnostics.is_empty(), "{diagnostics:?}");
    assert_eq!(def.backing, Some(Backing::Unit("km/h".to_string())));
    assert_eq!(
        def.scalar.storage,
        Some(Width::F32),
        "[0.0..250.0 step 0.5] has 501 values and representable bounds",
    );
    assert_eq!(def.scalar.parts.constraint.as_ref().unwrap().step.as_deref(), Some("0.5"));
}

#[test]
fn typl_110_unknown_unit() {
    let unit = BackingSpec::Unit { written: "xyz".to_string(), range: at(9), canonical: None };
    let (def, diagnostics) =
        lower_type("X", at(5), &Some(unit), at(9), &numeric_constraint("0.0", "1.0", Some("0.1")), &None);
    assert_eq!(codes(&diagnostics), vec!["TYPL-110"]);
    // The text as written is carried.
    assert_eq!(def.backing, Some(Backing::Unit("xyz".to_string())));
    let (_, class, _) = lower_backing(&Some(BackingSpec::Unit { written: "xyz".to_string(), range: at(9), canonical: None }));
    assert_eq!(class, BackingClass::Float);
}

#[test]
fn string_types_default_their_bounds_and_may_not_derive_an_init() {
    let string = Some(BackingSpec::Primitive(PrimitiveType::String));
    let (tag, diagnostics) = lower_type("Tag", at(5), &string, at(11), &None, &None);
    assert_eq!(codes(&diagnostics), vec!["TYPL-103"]);
    let constraint = tag.scalar.parts.constraint.as_ref().unwrap();
    assert_eq!((constraint.len_min, constraint.len_max), (Some(0), Some(256)));
    // `[2..8]` forbids the empty string: TYPL-115 (info).
    let (t, diagnostics) = lower_type("T", at(5), &string, at(9), &len_constraint(2, 8), &None);
    assert_eq!(codes(&diagnostics), vec!["TYPL-115"]);
    assert_eq!(diagnostics[0].severity, Severity::Info);
    assert!(!t.init.derivable);
}

#[test]
fn typl_109_declared_init_out_of_range_type_and_field() {
    let unit = BackingSpec::Unit { written: "km/h".to_string(), range: at(15), canonical: Some("km/h".to_string()) };
    let init = Some((InitLiteral::Number(exact("300.0")), at(40)));
    let (def, diagnostics) =
        lower_type("Speed", at(5), &Some(unit), at(15), &numeric_constraint("0.0", "250.0", Some("0.5")), &init);
    assert_eq!(codes(&diagnostics), vec!["TYPL-109"]);
    assert_eq!(def.declared_init.as_deref(), Some("300"));
    assert_eq!(def.init.value.as_deref(), Some("300"));
}

#[test]
fn a_boolean_takes_no_constraint() {
    let (scalar, diagnostics) = lower_scalar(BackingClass::Boolean, &numeric_constraint("0", "1", None), at(3));
    assert!(diagnostics.is_empty());
    assert!(scalar.parts.constraint.is_none());
}

#[test]
fn typl_208_bare_string_field() {
    let diagnostic = check_bare_primitive(BackingClass::Str, at(15), false).expect("a bare string");
    assert_eq!(diagnostic.code.as_str(), "TYPL-208");
    assert_eq!(diagnostic.message, "`string` must not be used directly as a field type — define a named `type`");
    assert!(check_bare_primitive(BackingClass::Str, at(15), true).is_none());
    assert_eq!(check_bare_primitive(BackingClass::Integer, at(15), false).unwrap().code.as_str(), "TYPL-101");
    assert_eq!(check_bare_primitive(BackingClass::Float, at(15), false).unwrap().severity, Severity::Warning);
    assert!(check_bare_primitive(BackingClass::Boolean, at(15), false).is_none());
}

#[test]
fn integer_width_is_the_smallest_that_holds_the_range() {
    for (lo, hi, width) in [
        ("0", "255", Width::U8),
        ("0", "256", Width::U16),
        ("0", "4294967295", Width::U32),
        ("0", "4294967296", Width::U64),
        ("-128", "127", Width::I8),
        ("-129", "127", Width::I16),
        ("-1", "40000", Width::I32),
        ("-1", "4294967296", Width::I64),
    ] {
        assert_eq!(int_width(&exact(lo), &exact(hi)), width, "[{lo}..{hi}]");
    }
}

#[test]
fn enumset_width_follows_the_highest_bit() {
    let (def, _) = lower_enum_set(&None, &[bit("A", "0"), bit("B", "9")], at(1));
    assert_eq!(def.width, Width::U16);
    let (def, _) = lower_enum_set(&None, &[bit("A", "40")], at(1));
    assert_eq!(def.width, Width::U64);
}

#[test]
fn union_messages_name_the_arm() {
    let members = vec![
        UnionMember::Reserved(reserved_name("gone", 2)),
        arm("gone", named("app.A", false)),
        arm("raw", ArmType::Primitive { keyword: "integer".to_string(), range: at(7) }),
    ];
    let (_, diagnostics) = lower_union(&members, false, at(0));
    assert_eq!(codes(&diagnostics), vec!["TYPL-210", "TYPL-204"]);
    assert_eq!(diagnostics[0].message, "union arm `gone` re-declares a `reserved` name");
    assert_eq!(
        diagnostics[1].message,
        "union arm `raw` has primitive type `integer` — arms reference named types only"
    );
}

#[test]
fn float_width_counts_the_values_of_a_stepped_range() {
    // 250 / 0.5 + 1 = 501 values, both bounds binary32 values: float32.
    let (scalar, _) = lower_float_scalar(range(num("0.0", 21), num("250.0", 26), num("0.5", 33)).as_ref(), decl_span());
    assert_eq!(scalar.storage, Some(Width::F32));
    // 2^24 + 1 values need more than a binary32 significand: float64.
    let (many, _) =
        lower_float_scalar(range(num("0.0", 21), num("16777216.0", 26), num("1.0", 40)).as_ref(), decl_span());
    assert_eq!(many.storage, Some(Width::F64));
    // Exactly 2^24 values still fit.
    let (edge, _) =
        lower_float_scalar(range(num("0.0", 21), num("16777215.0", 26), num("1.0", 40)).as_ref(), decl_span());
    assert_eq!(edge.storage, Some(Width::F32));
    // 0.1 is no binary32 value: float64.
    let (tenth, _) = lower_float_scalar(range(num("0.1", 21), num("1.0", 26), num("0.1", 33)).as_ref(), decl_span());
    assert_eq!(tenth.storage, Some(Width::F64));
    // A non-positive step gives no count: float64.
    let (zero, _) = lower_float_scalar(range(num("0.0", 21), num("10.0", 26), num("0.0", 33)).as_ref(), decl_span());
    assert_eq!(zero.storage, Some(Width::F64));
}

#[test]
fn a_constant_reference_is_range_checked_with_the_value_at_the_end_of_its_chain() {
    // const LIMIT = 400; const FAST = LIMIT; const MAX : Speed = FAST
    let graph = vec![
        ConstEntry {
            package: "app".to_string(),
            name: "LIMIT".to_string(),
            kind: SymbolKind::Const,
            value: Some(LitKind::Number(exact("400"))),
            next: None,
        },
        ConstEntry {
            package: "app".to_string(),
            name: "FAST".to_string(),
            kind: SymbolKind::Const,
            value: Some(LitKind::ConstRef("LIMIT".to_string())),
            next: Some(("app".to_string(), "LIMIT".to_string())),
        },
    ];
    let symbols: Vec<(String, Symbol)> = ["LIMIT", "FAST"]
        .iter()
        .map(|n| {
            (
                n.to_string(),
                Symbol {
                    name: n.to_string(),
                    package: "app".to_string(),
                    kind: SymbolKind::Const,
                    internal: false,
                    is_error: false,
                    file: 0,
                    range: at(0),
                },
            )
        })
        .collect();
    let decl = constant(Some(LitKind::ConstRef("FAST".to_string())), "FAST");
    let (def, diagnostics) = lower_const_in(&decl, &graph, &symbols);
    assert_eq!(codes(&diagnostics), vec!["TYPL-108"]);
    assert_eq!(diagnostics[0].message, "const `MAX` value 400 outside `Speed` range [0, 300]");
    assert_eq!(def.value, "400");
}
