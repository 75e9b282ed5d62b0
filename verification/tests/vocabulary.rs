//! The typing environment of contract expressions.

use ridl_sem::check::BackingClass;
use ridl_sem::expr::{ExprType, NumericBacking};
use ridl_sem::resolve::{Symbol, SymbolKind};
use ridl_sem::syntax::TextRange;
use ridl_sem::vocabulary::{
    build_contract_vocabulary, const_expr_type, expr_type_of_field_type, expr_type_of_path,
    param_expr_types, result_expr_type, ConstLiteral, ConstTyping, NamedRef, ParamSpot,
    ParamTyping, ResultSpot, TypeSpot, TypedDecl, VocabEntry,
};

fn symbol(package: &str, name: &str, kind: SymbolKind) -> Symbol {
    Symbol {
        name: name.to_string(),
        package: package.to_string(),
        kind,
        internal: false,
        is_error: false,
        file: 0,
        range: TextRange { start: 0, end: 1 },
    }
}

fn named(package: &str, name: &str, kind: SymbolKind, backing: Option<BackingClass>) -> NamedRef {
    NamedRef {
        written: name.to_string(),
        found: Some(TypedDecl {
            symbol: symbol(package, name, kind),
            backing,
        }),
    }
}

fn unresolved(written: &str) -> NamedRef {
    NamedRef {
        written: written.to_string(),
        found: None,
    }
}

#[test]
fn declared_types_map_onto_the_five_domains() {
    assert_eq!(
        expr_type_of_path(&named("app", "Speed", SymbolKind::Type, Some(BackingClass::Float))),
        ExprType::Numeric("app.Speed".to_string(), NumericBacking::Float)
    );
    assert_eq!(
        expr_type_of_path(&named("app", "Count", SymbolKind::Type, Some(BackingClass::Integer))),
        ExprType::Numeric("app.Count".to_string(), NumericBacking::Integer)
    );
    assert_eq!(
        expr_type_of_path(&named("app", "Flag", SymbolKind::Type, Some(BackingClass::Boolean))),
        ExprType::Boolean
    );
    assert_eq!(
        expr_type_of_path(&named("ridl.std", "Duration", SymbolKind::Type, Some(BackingClass::Integer))),
        ExprType::Duration
    );
    assert_eq!(
        expr_type_of_path(&named("app", "Gear", SymbolKind::Enum, None)),
        ExprType::EnumType("app.Gear".to_string())
    );
}

#[test]
fn out_of_domain_declarations_report_their_type_not_their_resolution() {
    assert_eq!(
        expr_type_of_path(&named("app", "Name", SymbolKind::Type, Some(BackingClass::Str))),
        ExprType::Unsupported("app.Name".to_string())
    );
    assert_eq!(
        expr_type_of_path(&named("app", "Pose", SymbolKind::Struct, None)),
        ExprType::Unsupported("app.Pose".to_string())
    );
    assert_eq!(expr_type_of_path(&unresolved("Missing")), ExprType::Unsupported("Missing".to_string()));
    assert_eq!(expr_type_of_field_type(&TypeSpot::Dictionary), ExprType::Unsupported("a map".to_string()));
    assert_eq!(
        expr_type_of_field_type(&TypeSpot::Primitive("integer".to_string())),
        ExprType::Unsupported("integer".to_string())
    );
}

#[test]
fn parameters_keep_every_named_one_in_order() {
    let params = vec![
        ParamTyping {
            name: Some("speed".to_string()),
            ty: Some(ParamSpot::Field(TypeSpot::Named(named("app", "Speed", SymbolKind::Type, Some(BackingClass::Float))))),
        },
        ParamTyping { name: None, ty: Some(ParamSpot::Stream) },
        ParamTyping { name: Some("chunks".to_string()), ty: Some(ParamSpot::Stream) },
        ParamTyping { name: Some("untyped".to_string()), ty: None },
    ];
    let typed = param_expr_types(&params);
    assert_eq!(
        typed,
        vec![
            ("speed".to_string(), ExprType::Numeric("app.Speed".to_string(), NumericBacking::Float)),
            ("chunks".to_string(), ExprType::Unsupported("a stream".to_string())),
        ]
    );
}

#[test]
fn result_is_the_success_arm_or_the_named_tuple() {
    let ok = named("app", "Report", SymbolKind::Struct, None);
    assert_eq!(result_expr_type(&ResultSpot::Fallible(Some(ok))), ExprType::Unsupported("app.Report".to_string()));
    assert_eq!(result_expr_type(&ResultSpot::Stream), ExprType::Unsupported("a stream".to_string()));
    assert_eq!(result_expr_type(&ResultSpot::Tuple(vec![])), ExprType::Unsupported("an empty tuple".to_string()));
    let tuple = ResultSpot::Tuple(vec![
        (
            Some("min".to_string()),
            Some(TypeSpot::Named(named("app", "Speed", SymbolKind::Type, Some(BackingClass::Float)))),
        ),
        (Some("ok".to_string()), Some(TypeSpot::Named(named("app", "Flag", SymbolKind::Type, Some(BackingClass::Boolean))))),
    ]);
    assert_eq!(
        result_expr_type(&tuple),
        ExprType::tuple(&[
            ("min".to_string(), Some(ExprType::Numeric("app.Speed".to_string(), NumericBacking::Float))),
            ("ok".to_string(), Some(ExprType::Boolean)),
        ])
    );
}

#[test]
fn constants_take_their_declared_type_and_follow_chains() {
    let table = vec![
        // const MAX_SPEED : Speed = 250.0
        ConstTyping {
            found: true,
            declared: Some(named("app", "Speed", SymbolKind::Type, Some(BackingClass::Float))),
            value: Some(ConstLiteral::Number { float_form: true }),
        },
        // const CRUISE = MAX_SPEED
        ConstTyping { found: true, declared: None, value: Some(ConstLiteral::Ref(Some(0))) },
        // const LIMIT = 3
        ConstTyping { found: true, declared: None, value: Some(ConstLiteral::Number { float_form: false }) },
        // const LOOP = LOOP
        ConstTyping { found: true, declared: None, value: Some(ConstLiteral::Ref(Some(3))) },
        // const NAME = "x"
        ConstTyping { found: true, declared: None, value: Some(ConstLiteral::Str) },
    ];
    let speed = ExprType::Numeric("app.Speed".to_string(), NumericBacking::Float);
    assert_eq!(const_expr_type(&table, 0), speed);
    assert_eq!(const_expr_type(&table, 1), speed);
    assert_eq!(const_expr_type(&table, 2), ExprType::Numeric(String::new(), NumericBacking::Integer));
    assert_eq!(const_expr_type(&table, 3), ExprType::Unsupported("an unresolved constant".to_string()));
    assert_eq!(const_expr_type(&table, 4), ExprType::Unsupported("a string constant".to_string()));

    let bindings = vec![
        ("CRUISE".to_string(), VocabEntry::Const(1)),
        (
            "Gear".to_string(),
            VocabEntry::Enum {
                symbol: symbol("app", "Gear", SymbolKind::Enum),
                values: Some(vec![Some("PARK".to_string()), None, Some("DRIVE".to_string())]),
            },
        ),
        ("Speed".to_string(), VocabEntry::Other),
        (
            "Lost".to_string(),
            VocabEntry::Enum { symbol: symbol("app", "Lost", SymbolKind::Enum), values: None },
        ),
    ];
    let vocabulary = build_contract_vocabulary(&bindings, &table);
    assert_eq!(vocabulary.consts, vec![("CRUISE".to_string(), speed)]);
    assert_eq!(vocabulary.enums.len(), 1);
    assert_eq!(vocabulary.enums[0].0, "Gear");
    assert_eq!(vocabulary.enums[0].1.reference, "app.Gear");
    assert_eq!(vocabulary.enums[0].1.members, vec!["PARK".to_string(), "DRIVE".to_string()]);
}
