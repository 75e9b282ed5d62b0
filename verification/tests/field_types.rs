//! Field-type lowering and struct fields.

use ridl_sem::check::{InitLiteral, LenBound};
use ridl_sem::decls::{BoundLiteral, LitKind, RangeConstraint, ScalarConstraint};
use ridl_sem::diag::{Diagnostic, Severity};
use ridl_sem::exact::ExactValue;
use ridl_sem::check::{BackingClass, ConstValue};
use ridl_sem::decls::PatternLiteral;
use ridl_sem::field_types::{
    lower_field, lower_field_type, lower_map_key, named_scalar_bounds, named_string_constraint, resolve_type_path,
    FieldTypeSyntax, NamedType, PathType, TupleFieldSyntax,
};
use ridl_sem::init::{Backing, Constraint, FieldKind, FieldType, InitValue, PrimitiveType};
use ridl_sem::layout::CollectionBound;
use ridl_sem::resolve::SymbolKind;
use ridl_sem::syntax::TextRange;

fn at(start: usize) -> TextRange {
    TextRange { start, end: start + 4 }
}

fn exact(text: &str) -> ExactValue {
    ExactValue::parse(text).unwrap_or_else(|| panic!("`{text}` must parse"))
}

fn num(text: &str, start: usize) -> Option<BoundLiteral> {
    Some(BoundLiteral {
        kind: LitKind::Number(exact(text)),
        range: at(start),
        int_form: !text.contains('.'),
        constant: None,
    })
}

fn codes(diagnostics: &[Diagnostic]) -> Vec<&str> {
    diagnostics.iter().map(|d| d.code.as_str()).collect()
}

fn integer_range(min: &str, max: &str, start: usize) -> FieldTypeSyntax {
    FieldTypeSyntax::Primitive {
        range: at(start),
        primitive: PrimitiveType::Integer,
        constraint: Some(ScalarConstraint {
            numeric: RangeConstraint { range: at(start + 8), min: num(min, start + 9), max: num(max, start + 12), step: None },
            len: None,
            pattern: None,
        }),
    }
}

fn bare(primitive: PrimitiveType, start: usize) -> FieldTypeSyntax {
    FieldTypeSyntax::Primitive { range: at(start), primitive, constraint: None }
}

fn declaration(canonical: &str, kind: SymbolKind, string_backed: bool) -> NamedType {
    NamedType {
        canonical: canonical.to_string(),
        name: canonical.rsplit('.').next().unwrap_or(canonical).to_string(),
        kind,
        string_backed,
        bounds: None,
        string_constraint: None,
    }
}

fn path(written: &str, start: usize, lookup: Option<NamedType>) -> FieldTypeSyntax {
    FieldTypeSyntax::Path(PathType { written: written.to_string(), range: at(start), lookup })
}

fn count(text: &str) -> Option<ExactValue> {
    Some(exact(text))
}

fn bounded(min: &str, max: &str) -> Option<CollectionBound> {
    Some(CollectionBound { range: true, min: count(min), max: count(max) })
}

fn integer_constraint(min: &str, max: &str) -> Option<Constraint> {
    Some(Constraint {
        min: Some(min.to_string()),
        max: Some(max.to_string()),
        step: None,
        len_min: None,
        len_max: None,
        pattern: None,
        pattern_const: None,
    })
}

#[test]
fn optional_inline_integer_keeps_its_bounds() {
    let syntax = FieldTypeSyntax::Optional { range: at(0), inner: Some(Box::new(integer_range("0", "10", 1))) };
    let (lowered, diagnostics) = lower_field_type(syntax, false);
    assert!(diagnostics.is_empty());
    assert!(lowered.ty.optional);
    match &lowered.ty.kind {
        Some(FieldKind::InlineScalar(t)) => {
            assert_eq!(t.backing, Some(Backing::Primitive(PrimitiveType::Integer)));
            assert_eq!(t.constraint, integer_constraint("0", "10"));
        },
        other => panic!("expected an inline scalar, got {other:?}"),
    }
    let (min, max) = lowered.scalar_bounds.expect("an inline integer carries its bounds");
    assert_eq!(min.map(|v| v.to_decimal_string()), Some("0".to_string()));
    assert_eq!(max.map(|v| v.to_decimal_string()), Some("10".to_string()));
    assert_eq!(lowered.init_constraint, None);
}

#[test]
fn bare_string_field_is_typl_208() {
    let (lowered, diagnostics) = lower_field_type(bare(PrimitiveType::String, 3), false);
    assert_eq!(codes(&diagnostics), vec!["TYPL-208"]);
    assert_eq!(diagnostics[0].severity, Severity::Error);
    assert_eq!(diagnostics[0].range, at(3));
    assert_eq!(lowered.ty, FieldType { optional: false, kind: Some(FieldKind::Primitive(PrimitiveType::String)) });
}

#[test]
fn bare_integer_warns_outside_a_map_key_only() {
    let (_, diagnostics) = lower_field_type(bare(PrimitiveType::Integer, 0), false);
    assert_eq!(codes(&diagnostics), vec!["TYPL-101"]);
    assert_eq!(diagnostics[0].severity, Severity::Warning);
    let (_, diagnostics) = lower_field_type(bare(PrimitiveType::Float, 0), false);
    assert_eq!(codes(&diagnostics), vec!["TYPL-102"]);
    let (_, diagnostics) = lower_field_type(bare(PrimitiveType::Boolean, 0), false);
    assert!(diagnostics.is_empty());
    let (key, diagnostics) = lower_map_key(bare(PrimitiveType::Integer, 0));
    assert!(diagnostics.is_empty());
    assert_eq!(key, FieldType { optional: false, kind: Some(FieldKind::Primitive(PrimitiveType::Integer)) });
}

#[test]
fn bounded_map_lowers_key_value_and_bounds() {
    let syntax = FieldTypeSyntax::Dictionary {
        range: at(0),
        key: Some(Box::new(bare(PrimitiveType::Integer, 4))),
        value: Some(Box::new(integer_range("0", "5", 10))),
        bound: bounded("0", "4"),
    };
    let (lowered, diagnostics) = lower_field_type(syntax, false);
    assert!(diagnostics.is_empty());
    match &lowered.ty.kind {
        Some(FieldKind::Dictionary { key, value, min, max }) => {
            assert_eq!((*min, *max), (0, 4));
            assert_eq!(
                key.as_deref(),
                Some(&FieldType { optional: false, kind: Some(FieldKind::Primitive(PrimitiveType::Integer)) })
            );
            assert!(matches!(value.as_deref(), Some(FieldType { optional: false, kind: Some(FieldKind::InlineScalar(_)) })));
        },
        other => panic!("expected a map, got {other:?}"),
    }
    assert_eq!(lowered.scalar_bounds, None);
}

#[test]
fn array_without_bounds_is_typl_201() {
    let syntax = FieldTypeSyntax::Array { range: at(7), element: Some(Box::new(bare(PrimitiveType::Boolean, 9))), bound: None };
    let (lowered, diagnostics) = lower_field_type(syntax, false);
    assert_eq!(codes(&diagnostics), vec!["TYPL-201"]);
    assert_eq!(diagnostics[0].range, at(7));
    match &lowered.ty.kind {
        Some(FieldKind::Array { element, min, max }) => {
            assert_eq!((*min, *max), (0, 0));
            assert!(element.is_some());
        },
        other => panic!("expected an array, got {other:?}"),
    }
    // A single count bounds both ends.
    let syntax = FieldTypeSyntax::Array {
        range: at(7),
        element: Some(Box::new(bare(PrimitiveType::Boolean, 9))),
        bound: Some(CollectionBound { range: false, min: count("3"), max: None }),
    };
    let (lowered, diagnostics) = lower_field_type(syntax, false);
    assert!(diagnostics.is_empty());
    assert!(matches!(lowered.ty.kind, Some(FieldKind::Array { min: 3, max: 3, .. })));
}

#[test]
fn open_map_is_typl_202_after_its_parts() {
    let syntax = FieldTypeSyntax::Dictionary {
        range: at(0),
        key: Some(Box::new(path("Name", 4, Some(declaration("app.Name", SymbolKind::Type, true))))),
        value: Some(Box::new(bare(PrimitiveType::Integer, 10))),
        bound: Some(CollectionBound { range: true, min: count("1"), max: None }),
    };
    let (lowered, diagnostics) = lower_field_type(syntax, false);
    assert_eq!(codes(&diagnostics), vec!["TYPL-101", "TYPL-202"]);
    assert_eq!(diagnostics[1].range, at(0));
    assert!(matches!(lowered.ty.kind, Some(FieldKind::Dictionary { min: 1, max: 0, .. })));
}

#[test]
fn map_key_must_be_a_string_type_or_a_primitive() {
    // A struct as the key.
    let (key, diagnostics) = lower_map_key(path("Point", 4, Some(declaration("app.Point", SymbolKind::Struct, false))));
    assert_eq!(codes(&diagnostics), vec!["TYPL-209"]);
    assert_eq!(diagnostics[0].range, at(4));
    assert_eq!(key.kind, Some(FieldKind::Named("app.Point".to_string())));
    // A scalar type backed by bytes, not string.
    let (_, diagnostics) = lower_map_key(path("Blob", 4, Some(declaration("app.Blob", SymbolKind::Type, false))));
    assert_eq!(codes(&diagnostics), vec!["TYPL-209"]);
    // A string-backed type is accepted.
    let (_, diagnostics) = lower_map_key(path("Name", 4, Some(declaration("app.Name", SymbolKind::Type, true))));
    assert!(diagnostics.is_empty());
    // Any other shape draws TYPL-209 first, then lowers in key position.
    let tuple = FieldTypeSyntax::Tuple {
        range: at(20),
        fields: vec![TupleFieldSyntax { name: "a".to_string(), ty: Some(bare(PrimitiveType::Integer, 22)) }],
    };
    let (key, diagnostics) = lower_map_key(tuple);
    assert_eq!(codes(&diagnostics), vec!["TYPL-209", "TYPL-101"]);
    assert_eq!(diagnostics[0].range, at(20));
    assert!(matches!(key.kind, Some(FieldKind::Tuple(_))));
    // An unresolved key is reported as unresolved, not as TYPL-209.
    let (key, diagnostics) = lower_map_key(path("Nope", 4, None));
    assert_eq!(codes(&diagnostics), vec![""]);
    assert_eq!(key.kind, Some(FieldKind::Named("Nope".to_string())));
}

#[test]
fn type_path_to_a_constant_or_an_interface_is_not_a_type() {
    for (kind, text) in [
        (SymbolKind::Const, "expected a type, but `LIMIT` names a constant"),
        (SymbolKind::Interface, "expected a type, but `LIMIT` names an interface"),
    ] {
        let (target, diagnostic) = resolve_type_path(PathType {
            written: "LIMIT".to_string(),
            range: at(5),
            lookup: Some(declaration("app.LIMIT", kind, false)),
        });
        assert_eq!(target, Err("LIMIT".to_string()));
        let d = diagnostic.expect("a non-type draws an error");
        assert_eq!(d.message, text);
        assert_eq!(d.severity, Severity::Error);
        assert_eq!(d.range, at(5));
    }
    let (target, diagnostic) = resolve_type_path(PathType { written: "Gear".to_string(), range: at(5), lookup: None });
    assert_eq!(target, Err("Gear".to_string()));
    assert_eq!(diagnostic.map(|d| d.message), Some("unknown type name `Gear`".to_string()));
    let (target, diagnostic) = resolve_type_path(PathType {
        written: "Gear".to_string(),
        range: at(5),
        lookup: Some(declaration("app.Gear", SymbolKind::Enum, false)),
    });
    assert_eq!(target.map(|n| n.canonical), Ok("app.Gear".to_string()));
    assert!(diagnostic.is_none());
}

#[test]
fn named_scalar_type_carries_its_bounds_and_constraint() {
    let mut speed = declaration("app.Speed", SymbolKind::Type, false);
    speed.bounds = Some((count("0"), count("300")));
    let (lowered, diagnostics) = lower_field_type(path("Speed", 0, Some(speed)), false);
    assert!(diagnostics.is_empty());
    assert_eq!(lowered.ty.kind, Some(FieldKind::Named("app.Speed".to_string())));
    let (_, max) = lowered.scalar_bounds.expect("a scalar type carries its bounds");
    assert_eq!(max.map(|v| v.to_decimal_string()), Some("300".to_string()));
    // A struct carries nothing, though its lookup does.
    let mut point = declaration("app.Point", SymbolKind::Struct, false);
    point.bounds = Some((count("0"), count("1")));
    let (lowered, _) = lower_field_type(path("Point", 0, Some(point)), false);
    assert_eq!(lowered.scalar_bounds, None);
}

#[test]
fn inline_string_carries_its_length_bound() {
    let syntax = FieldTypeSyntax::Primitive {
        range: at(0),
        primitive: PrimitiveType::String,
        constraint: Some(ScalarConstraint {
            numeric: RangeConstraint { range: at(6), min: None, max: None, step: None },
            len: Some(LenBound { min: Some(1), max: Some(8), range: true }),
            pattern: None,
        }),
    };
    let (lowered, diagnostics) = lower_field_type(syntax, false);
    assert!(diagnostics.is_empty());
    let expected = Some(Constraint {
        min: None,
        max: None,
        step: None,
        len_min: Some(1),
        len_max: Some(8),
        pattern: None,
        pattern_const: None,
    });
    assert_eq!(lowered.init_constraint, expected);
    match &lowered.ty.kind {
        Some(FieldKind::InlineScalar(t)) => assert_eq!(t.constraint, expected),
        other => panic!("expected an inline scalar, got {other:?}"),
    }
}

#[test]
fn tuple_fields_lower_in_order() {
    let syntax = FieldTypeSyntax::Tuple {
        range: at(0),
        fields: vec![
            TupleFieldSyntax { name: "a".to_string(), ty: Some(integer_range("0", "3", 2)) },
            TupleFieldSyntax { name: "b".to_string(), ty: Some(path("Unknown", 20, None)) },
            TupleFieldSyntax { name: "c".to_string(), ty: None },
        ],
    };
    let (lowered, diagnostics) = lower_field_type(syntax, false);
    assert_eq!(codes(&diagnostics), vec![""]);
    assert_eq!(diagnostics[0].range, at(20));
    match &lowered.ty.kind {
        Some(FieldKind::Tuple(fields)) => {
            let names: Vec<&str> = fields.iter().map(|f| f.name.as_str()).collect();
            assert_eq!(names, vec!["a", "b", "c"]);
            assert_eq!(
                fields[1].ty,
                Some(FieldType { optional: false, kind: Some(FieldKind::Named("Unknown".to_string())) })
            );
            assert_eq!(fields[2].ty, None);
        },
        other => panic!("expected a tuple, got {other:?}"),
    }
}

#[test]
fn field_declared_init_is_checked_against_its_type() {
    let (field, diagnostics) = lower_field(
        "speed".to_string(),
        3,
        Some(integer_range("0", "100", 10)),
        Some((InitLiteral::Number(exact("150")), at(30))),
        &[],
    );
    assert_eq!(codes(&diagnostics), vec!["TYPL-109"]);
    assert_eq!(diagnostics[0].range, at(30));
    assert_eq!(field.name, "speed");
    assert_eq!(field.ordinal, 3);
    assert_eq!(field.declared_init.as_deref(), Some("150"));
    assert_eq!(field.init, Some(InitValue { derivable: true, value: Some("150".to_string()) }));
}

#[test]
fn field_without_init_derives_one() {
    // The minimum, when zero lies outside the range.
    let (field, diagnostics) = lower_field("count".to_string(), 1, Some(integer_range("5", "10", 10)), None, &[]);
    assert!(diagnostics.is_empty());
    assert_eq!(field.declared_init, None);
    assert_eq!(field.init, Some(InitValue { derivable: true, value: Some("5".to_string()) }));
    // A named type takes its own init.
    let named = vec![("app.Gear".to_string(), InitValue { derivable: true, value: Some("PARK".to_string()) })];
    let gear = path("Gear", 4, Some(declaration("app.Gear", SymbolKind::Enum, false)));
    let (field, _) = lower_field("gear".to_string(), 2, Some(gear), None, &named);
    assert_eq!(field.init, Some(InitValue { derivable: true, value: Some("PARK".to_string()) }));
    // An optional field is absent by default.
    let optional = FieldTypeSyntax::Optional { range: at(0), inner: Some(Box::new(bare(PrimitiveType::Boolean, 1))) };
    let (field, _) = lower_field("flag".to_string(), 4, Some(optional), None, &[]);
    assert_eq!(field.init, Some(InitValue { derivable: true, value: None }));
    // A field without a type has no init at all.
    let (field, diagnostics) = lower_field("broken".to_string(), 5, None, None, &[]);
    assert_eq!(field.ty, None);
    assert_eq!(field.init, None);
    assert!(diagnostics.is_empty());
}

#[test]
fn string_field_init_checks_the_length_bound() {
    let syntax = FieldTypeSyntax::Primitive {
        range: at(0),
        primitive: PrimitiveType::String,
        constraint: Some(ScalarConstraint {
            numeric: RangeConstraint { range: at(6), min: None, max: None, step: None },
            len: Some(LenBound { min: Some(2), max: Some(4), range: true }),
            pattern: None,
        }),
    };
    let (field, diagnostics) =
        lower_field("code".to_string(), 1, Some(syntax), Some((InitLiteral::Str("toolong".to_string()), at(40))), &[]);
    assert_eq!(codes(&diagnostics), vec!["TYPL-109"]);
    assert_eq!(field.declared_init.as_deref(), Some("toolong"));
}

#[test]
fn named_string_type_constraint_reads_length_and_pattern() {
    let pattern = Some(PatternLiteral {
        kind: LitKind::ConstRef("VIN_PATTERN".to_string()),
        range: at(12),
        regex_const: Some(("/^[A-Z0-9]{17}$/".to_string(), "app.VIN_PATTERN".to_string())),
    });
    let constraint = named_string_constraint(
        BackingClass::Str,
        Some(LenBound { min: Some(17), max: None, range: false }),
        &pattern,
    );
    assert_eq!(
        constraint,
        Some(Constraint {
            min: None,
            max: None,
            step: None,
            len_min: Some(17),
            len_max: Some(17),
            pattern: Some("/^[A-Z0-9]{17}$/".to_string()),
            pattern_const: Some("app.VIN_PATTERN".to_string()),
        })
    );
    // Without a length bound, the default `[0..256]`.
    let open = named_string_constraint(BackingClass::Bytes, None, &None).expect("bytes carry a constraint");
    assert_eq!((open.len_min, open.len_max), (Some(0), Some(256)));
    // A numeric type carries none.
    assert_eq!(named_string_constraint(BackingClass::Integer, None, &None), None);
}

#[test]
fn named_scalar_bounds_read_numbers_and_numeric_constants() {
    let constraint = Some(ScalarConstraint {
        numeric: RangeConstraint {
            range: at(10),
            min: num("-40", 11),
            max: Some(BoundLiteral {
                kind: LitKind::ConstRef("MAX_SPEED".to_string()),
                range: at(16),
                int_form: false,
                constant: Some(ConstValue::Number(exact("250.5"))),
            }),
            step: None,
        },
        len: None,
        pattern: None,
    });
    let (min, max) = named_scalar_bounds(&constraint).expect("a constrained type has bounds");
    assert_eq!(min.map(|v| v.to_decimal_string()), Some("-40".to_string()));
    assert_eq!(max.map(|v| v.to_decimal_string()), Some("250.5".to_string()));
    // A constant that is not numeric gives no bound.
    let text_bound = Some(ScalarConstraint {
        numeric: RangeConstraint {
            range: at(10),
            min: Some(BoundLiteral {
                kind: LitKind::ConstRef("NAME".to_string()),
                range: at(11),
                int_form: false,
                constant: Some(ConstValue::Text("x".to_string())),
            }),
            max: None,
            step: None,
        },
        len: None,
        pattern: None,
    });
    assert_eq!(named_scalar_bounds(&text_bound), Some((None, None)));
    assert_eq!(named_scalar_bounds(&None), None);
}

fn iv(derivable: bool, value: Option<&str>) -> Option<InitValue> {
    Some(InitValue { derivable, value: value.map(str::to_string) })
}

fn len_scalar(primitive: PrimitiveType, min: u64, max: u64, range: bool, pattern: Option<&str>) -> FieldTypeSyntax {
    FieldTypeSyntax::Primitive {
        range: at(30),
        primitive,
        constraint: Some(ScalarConstraint {
            numeric: RangeConstraint { range: at(36), min: None, max: None, step: None },
            len: Some(LenBound { min: Some(min), max: Some(max), range }),
            pattern: pattern.map(|p| PatternLiteral { kind: LitKind::Regex(p.to_string()), range: at(40), regex_const: None }),
        }),
    }
}

/// A named string type `name` declared `string [min..max]`, with an
/// optional `match` pattern.
fn string_type(name: &str, min: u64, max: u64, pattern: Option<&str>) -> NamedType {
    let pattern = pattern.map(|p| PatternLiteral { kind: LitKind::Regex(p.to_string()), range: at(40), regex_const: None });
    NamedType {
        canonical: name.to_string(),
        name: name.to_string(),
        kind: SymbolKind::Type,
        string_backed: true,
        bounds: named_scalar_bounds(&None),
        string_constraint: named_string_constraint(
            BackingClass::Str,
            Some(LenBound { min: Some(min), max: Some(max), range: true }),
            &pattern,
        ),
    }
}

fn speed_table() -> Vec<(String, InitValue)> {
    vec![
        ("Speed".to_string(), InitValue { derivable: true, value: Some("0".to_string()) }),
        ("ridl.std.Name".to_string(), InitValue { derivable: false, value: None }),
        ("Label".to_string(), InitValue { derivable: true, value: Some("".to_string()) }),
    ]
}

fn speed_path(start: usize) -> FieldTypeSyntax {
    path("Speed", start, Some(declaration("Speed", SymbolKind::Type, false)))
}

#[test]
fn constrained_bytes_field_is_an_inline_scalar() {
    let (field, diagnostics) =
        lower_field("frame".to_string(), 1, Some(len_scalar(PrimitiveType::Bytes, 8, 8, false, None)), None, &[]);
    assert!(diagnostics.is_empty(), "got: {:?}", diagnostics);
    let Some(FieldKind::InlineScalar(inline)) = &field.ty.as_ref().unwrap().kind else {
        panic!("expected an inline scalar");
    };
    let constraint = inline.constraint.as_ref().unwrap();
    assert_eq!(constraint.len_min, Some(8));
    assert_eq!(constraint.len_max, Some(8));
}

#[test]
fn derived_struct_field_inits_recurse_with_optional_absent() {
    let table = speed_table();
    // An inline numeric field derives 0-in-range.
    let (count, d1) = lower_field("count".to_string(), 1, Some(integer_range("0", "10", 10)), None, &table);
    assert_eq!(count.init, iv(true, Some("0")));
    // A named numeric type field materializes the type's init.
    let (speed, d2) = lower_field("speed".to_string(), 2, Some(speed_path(20)), None, &table);
    assert_eq!(speed.init, iv(true, Some("0")));
    // An optional field is absent — derivable, no value.
    let over = FieldTypeSyntax::Optional { range: at(40), inner: Some(Box::new(speed_path(40))) };
    let (over, d3) = lower_field("over".to_string(), 3, Some(over), None, &table);
    assert_eq!(over.init, iv(true, None));
    assert!(d1.is_empty() && d2.is_empty() && d3.is_empty());
}

#[test]
fn derived_tuple_field_init_is_a_derivable_composite() {
    let tuple = FieldTypeSyntax::Tuple {
        range: at(10),
        fields: vec![
            TupleFieldSyntax { name: "min".to_string(), ty: Some(speed_path(12)) },
            TupleFieldSyntax { name: "max".to_string(), ty: Some(speed_path(24)) },
        ],
    };
    let (range, _) = lower_field("range".to_string(), 1, Some(tuple), None, &speed_table());
    assert_eq!(range.init, iv(true, None));
}

#[test]
fn derived_collection_field_init_follows_the_min_count() {
    let table = speed_table();
    let name = || path("Name", 30, Some(declaration("ridl.std.Name", SymbolKind::Type, true)));
    // A fixed array of a derivable element is derivable.
    let array = FieldTypeSyntax::Array {
        range: at(10),
        element: Some(Box::new(speed_path(11))),
        bound: Some(CollectionBound { range: false, min: count("8"), max: None }),
    };
    let (xs, _) = lower_field("xs".to_string(), 1, Some(array), None, &table);
    assert_eq!(xs.init, iv(true, None));

    // A `min = 0` collection is empty, hence derivable regardless of its
    // (non-derivable) element types.
    let map = FieldTypeSyntax::Dictionary {
        range: at(10),
        key: Some(Box::new(path("Label", 11, Some(declaration("Label", SymbolKind::Type, true))))),
        value: Some(Box::new(name())),
        bound: bounded("0", "4"),
    };
    let (m, _) = lower_field("m".to_string(), 1, Some(map), None, &table);
    assert_eq!(m.init, iv(true, None));

    // A `min > 0` array of a non-derivable element (a `match`-typed
    // `ridl.std.Name`) is not derivable.
    let bounded_names = FieldTypeSyntax::Array { range: at(10), element: Some(Box::new(name())), bound: bounded("1", "4") };
    let (names, _) = lower_field("names".to_string(), 1, Some(bounded_names), None, &table);
    assert_eq!(names.init, iv(false, None));
}

#[test]
fn typl_109_string_field_init_too_long_via_named_type() {
    let tag = FieldTypeSyntax::Path(PathType { written: "Tag".to_string(), range: at(20), lookup: Some(string_type("Tag", 0, 4, None)) });
    let (_, diagnostics) =
        lower_field("tag".to_string(), 1, Some(tag), Some((InitLiteral::Str("toolong".to_string()), at(30))), &[]);
    assert_eq!(codes(&diagnostics), vec!["TYPL-109"]);
    assert!(diagnostics[0].message.contains("length"));
}

#[test]
fn typl_109_string_field_init_too_long_inline() {
    let inline = len_scalar(PrimitiveType::String, 0, 4, true, None);
    let (_, diagnostics) =
        lower_field("tag".to_string(), 1, Some(inline), Some((InitLiteral::Str("toolong".to_string()), at(50))), &[]);
    assert_eq!(codes(&diagnostics), vec!["TYPL-109"]);
    assert!(diagnostics[0].message.contains("length"));
}

#[test]
fn typl_109_string_field_init_violates_named_pattern() {
    let code = FieldTypeSyntax::Path(PathType {
        written: "Code".to_string(),
        range: at(20),
        lookup: Some(string_type("Code", 1, 8, Some("/^[A-Z]+$/"))),
    });
    let (_, diagnostics) =
        lower_field("code".to_string(), 1, Some(code), Some((InitLiteral::Str("abc".to_string()), at(30))), &[]);
    assert!(codes(&diagnostics).contains(&"TYPL-109"), "got: {:?}", diagnostics);
    assert!(diagnostics.iter().any(|diagnostic| diagnostic.message.contains("pattern")));
}

#[test]
fn conforming_string_field_init_via_named_type_is_clean() {
    let tag = FieldTypeSyntax::Path(PathType { written: "Tag".to_string(), range: at(20), lookup: Some(string_type("Tag", 0, 8, None)) });
    let (field, diagnostics) =
        lower_field("tag".to_string(), 1, Some(tag), Some((InitLiteral::Str("hello".to_string()), at(30))), &[]);
    assert!(codes(&diagnostics).is_empty(), "got: {:?}", diagnostics);
    assert_eq!(field.declared_init.as_deref(), Some("hello"));
}
