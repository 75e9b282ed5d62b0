//! Init-value derivation.

use ridl_sem::exact::ExactValue;
use ridl_sem::init::{
    derive_field_init, derive_primitive_init, derive_type_init, numeric_zero_or_min, string_init,
    Backing, Constraint, FieldKind, FieldType, InitValue, PrimitiveType, TupleField, TypeDef,
};

fn constraint() -> Constraint {
    Constraint {
        min: None,
        max: None,
        step: None,
        len_min: None,
        len_max: None,
        pattern: None,
        pattern_const: None,
    }
}

fn boolean() -> TypeDef {
    TypeDef {
        backing: Some(Backing::Primitive(PrimitiveType::Boolean)),
        constraint: None,
    }
}

fn numeric(min: &str, max: &str) -> TypeDef {
    TypeDef {
        backing: Some(Backing::Primitive(PrimitiveType::Integer)),
        constraint: Some(Constraint {
            min: Some(min.to_string()),
            max: Some(max.to_string()),
            ..constraint()
        }),
    }
}

fn string(len_min: u64, len_max: u64, pattern: Option<&str>) -> TypeDef {
    TypeDef {
        backing: Some(Backing::Primitive(PrimitiveType::String)),
        constraint: Some(Constraint {
            len_min: Some(len_min),
            len_max: Some(len_max),
            pattern: pattern.map(str::to_string),
            ..constraint()
        }),
    }
}

fn some(value: &str) -> InitValue {
    InitValue {
        derivable: true,
        value: Some(value.to_string()),
    }
}

fn composite() -> InitValue {
    InitValue {
        derivable: true,
        value: None,
    }
}

fn not_derivable() -> InitValue {
    InitValue {
        derivable: false,
        value: None,
    }
}

fn exact(text: &str) -> ExactValue {
    ExactValue::parse(text).unwrap_or_else(|| panic!("`{text}` must parse"))
}

fn field(kind: FieldKind) -> FieldType {
    FieldType {
        optional: false,
        kind: Some(kind),
    }
}

#[test]
fn boolean_derives_false() {
    assert_eq!(derive_type_init(&boolean()), some("false"));
}

#[test]
fn numeric_derives_zero_in_range_else_min() {
    assert_eq!(derive_type_init(&numeric("0", "20")), some("0"));
    assert_eq!(derive_type_init(&numeric("10", "20")), some("10"));
    // A range entirely below zero derives its minimum.
    assert_eq!(derive_type_init(&numeric("-100", "-10")), some("-100"));
}

#[test]
fn string_derives_empty_or_not_derivable() {
    assert_eq!(derive_type_init(&string(0, 8, None)), some(""));
    assert_eq!(derive_type_init(&string(2, 8, None)), not_derivable());
    // A `match` pattern makes even a zero-length-admitting type
    // non-derivable.
    assert_eq!(
        derive_type_init(&string(0, 8, Some("/^[A-Z]*$/"))),
        not_derivable()
    );
}

#[test]
fn derived_numeric_values_are_terminating_decimals() {
    // The chosen minimum is rendered through the exact value: a value with a
    // terminating decimal keeps that form, never a raw fraction.
    assert_eq!(
        derive_type_init(&numeric("0.5", "1.0")).value.as_deref(),
        Some("0.5")
    );
}

#[test]
fn derived_bounds_render_positionally_whatever_their_spelling() {
    // Trailing fraction zeros reduce away; the value stays positional.
    assert_eq!(
        derive_type_init(&numeric("0.50000000", "1.0")).value.as_deref(),
        Some("0.5")
    );
    // A range entirely below zero takes its minimum.
    assert_eq!(
        derive_type_init(&numeric("-2.125", "-1")).value.as_deref(),
        Some("-2.125")
    );
    assert_eq!(
        derive_type_init(&numeric("0.0625", "9")).value.as_deref(),
        Some("0.0625")
    );
}

#[test]
fn numeric_zero_or_min_takes_the_maximum_below_an_open_minimum() {
    assert_eq!(numeric_zero_or_min(None, Some(exact("-3"))), some("-3"));
    assert_eq!(numeric_zero_or_min(None, None), some("0"));
    assert_eq!(numeric_zero_or_min(Some(exact("2.25")), None), some("2.25"));
    assert_eq!(numeric_zero_or_min(Some(exact("-1")), Some(exact("1"))), some("0"));
}

#[test]
fn unit_backing_is_numeric_and_unspecified_is_composite() {
    let unit = TypeDef {
        backing: Some(Backing::Unit("km/h".to_string())),
        constraint: Some(Constraint {
            min: Some("5".to_string()),
            max: Some("300.0".to_string()),
            ..constraint()
        }),
    };
    assert_eq!(derive_type_init(&unit), some("5"));
    let bare = TypeDef {
        backing: None,
        constraint: None,
    };
    assert_eq!(derive_type_init(&bare), composite());
    let unspecified = TypeDef {
        backing: Some(Backing::Primitive(PrimitiveType::Unspecified)),
        constraint: None,
    };
    assert_eq!(derive_type_init(&unspecified), composite());
}

#[test]
fn string_init_reads_the_named_pattern_too() {
    let named = Constraint {
        pattern_const: Some("VIN_PATTERN".to_string()),
        ..constraint()
    };
    assert_eq!(string_init(Some(&named)), not_derivable());
    assert_eq!(string_init(None), some(""));
}

#[test]
fn primitive_inits() {
    assert_eq!(derive_primitive_init(PrimitiveType::Boolean), some("false"));
    assert_eq!(derive_primitive_init(PrimitiveType::Integer), some("0"));
    assert_eq!(derive_primitive_init(PrimitiveType::Float), some("0"));
    assert_eq!(derive_primitive_init(PrimitiveType::String), some(""));
    assert_eq!(derive_primitive_init(PrimitiveType::Bytes), some(""));
    assert_eq!(derive_primitive_init(PrimitiveType::Unspecified), composite());
}

#[test]
fn field_inits_follow_the_shape() {
    let named = vec![
        ("app.Speed".to_string(), some("0")),
        ("app.Vin".to_string(), not_derivable()),
    ];
    // An optional field is absent, whatever its type.
    let optional = FieldType {
        optional: true,
        kind: Some(FieldKind::Named("app.Vin".to_string())),
    };
    assert_eq!(derive_field_init(&optional, &named), composite());
    // A named reference takes the referenced type's init; an unresolved one
    // is a derivable composite.
    assert_eq!(
        derive_field_init(&field(FieldKind::Named("app.Speed".to_string())), &named),
        some("0")
    );
    assert_eq!(
        derive_field_init(&field(FieldKind::Named("app.Other".to_string())), &named),
        composite()
    );
    // A tuple derives when every field does.
    let tuple = field(FieldKind::Tuple(vec![
        TupleField {
            name: "a".to_string(),
            ty: Some(field(FieldKind::Primitive(PrimitiveType::Integer))),
        },
        TupleField {
            name: "b".to_string(),
            ty: Some(field(FieldKind::Named("app.Vin".to_string()))),
        },
    ]));
    assert_eq!(derive_field_init(&tuple, &named), not_derivable());
    // A collection derives when its minimum count is zero or its element does.
    let empty_ok = field(FieldKind::Array {
        element: Some(Box::new(field(FieldKind::Named("app.Vin".to_string())))),
        min: 0,
        max: 4,
    });
    assert_eq!(derive_field_init(&empty_ok, &named), composite());
    let needs_one = field(FieldKind::Dictionary {
        key: Some(Box::new(field(FieldKind::Primitive(PrimitiveType::Integer)))),
        value: Some(Box::new(field(FieldKind::Named("app.Vin".to_string())))),
        min: 1,
        max: 4,
    });
    assert_eq!(derive_field_init(&needs_one, &named), not_derivable());
    assert_eq!(derive_field_init(&field(FieldKind::Stream(None)), &named), not_derivable());
    assert_eq!(
        derive_field_init(&field(FieldKind::InlineScalar(boolean())), &named),
        some("false")
    );
}

use ridl_sem::check::{BackingClass, ConstValue, InitLiteral};
use ridl_sem::decls::LitKind;
use ridl_sem::init::{
    declared_type_init, named_ref_init, named_type_init, type_symbol_is_derivable, NamedDecl,
    ScalarTypeDecl, UnionFirstArm,
};

fn scalar_type(class: BackingClass) -> ScalarTypeDecl {
    ScalarTypeDecl {
        class,
        declared: None,
        min: None,
        max: None,
        string: None,
    }
}

fn string_constraint(len_min: u64, pattern: Option<&str>) -> Constraint {
    Constraint {
        len_min: Some(len_min),
        len_max: Some(8),
        pattern: pattern.map(str::to_string),
        ..constraint()
    }
}

#[test]
fn derived_boolean_init_is_false() {
    let flag = NamedDecl::Type(scalar_type(BackingClass::Boolean));
    assert_eq!(named_type_init(&flag), some("false"));
}

#[test]
fn derived_numeric_init_is_zero_in_range_else_min() {
    let mut a = scalar_type(BackingClass::Integer);
    a.min = Some(exact("0"));
    a.max = Some(exact("20"));
    assert_eq!(named_type_init(&NamedDecl::Type(a)), some("0"));
    let mut b = scalar_type(BackingClass::Integer);
    b.min = Some(exact("10"));
    b.max = Some(exact("20"));
    assert_eq!(named_type_init(&NamedDecl::Type(b)), some("10"));
}

#[test]
fn derived_string_init_is_empty_or_non_derivable() {
    let mut s = scalar_type(BackingClass::Str);
    s.string = Some(string_constraint(0, None));
    assert_eq!(named_type_init(&NamedDecl::Type(s)), some(""));
    let mut t = scalar_type(BackingClass::Str);
    t.string = Some(string_constraint(2, None));
    assert_eq!(named_type_init(&NamedDecl::Type(t)), not_derivable());
    let mut h = scalar_type(BackingClass::Bytes);
    h.string = Some(Constraint { len_min: Some(32), len_max: Some(32), ..constraint() });
    assert_eq!(named_type_init(&NamedDecl::Type(h)), not_derivable());
}

#[test]
fn a_declared_type_init_wins_over_derivation() {
    let mut a = scalar_type(BackingClass::Integer);
    a.min = Some(exact("10"));
    a.declared = Some(InitLiteral::Number(exact("12.50")));
    assert_eq!(named_type_init(&NamedDecl::Type(a)), some("12.5"));
    // A constant-valued init resolves to the constant's value.
    let mut b = scalar_type(BackingClass::Boolean);
    b.declared = Some(InitLiteral::Const(ConstValue::Bool(true)));
    assert_eq!(named_type_init(&NamedDecl::Type(b)), some("true"));
    // A reference that does not resolve falls back to derivation.
    let mut c = scalar_type(BackingClass::Str);
    c.declared = Some(InitLiteral::Written("MISSING".to_string()));
    assert_eq!(named_type_init(&NamedDecl::Type(c)), some(""));
    assert_eq!(declared_type_init(&InitLiteral::Regex("/a/".to_string())), None);
    assert_eq!(declared_type_init(&InitLiteral::Str("idle".to_string())), Some(some("idle")));
}

#[test]
fn derived_enumset_field_init_is_empty() {
    assert_eq!(named_type_init(&NamedDecl::EnumSet), some(""));
}

#[test]
fn derived_enum_init_is_zero_if_declared_else_lowest() {
    let values = |xs: &[&str]| NamedDecl::Enum(xs.iter().map(|x| Some(LitKind::Number(exact(x)))).collect());
    assert_eq!(named_type_init(&values(&["3", "0", "7"])), some("0"));
    assert_eq!(named_type_init(&values(&["3", "2", "7"])), some("2"));
    assert_eq!(named_type_init(&NamedDecl::Enum(vec![None])), not_derivable());
}

#[test]
fn derived_union_field_init_reflects_first_arm() {
    // First arm `Speed`: a derivable composite.
    let speed = UnionFirstArm::ScalarType(scalar_type(BackingClass::Float));
    assert_eq!(named_type_init(&NamedDecl::Union(speed)), composite());
    // First arm a `match`-typed string: not derivable.
    let mut code = scalar_type(BackingClass::Str);
    code.string = Some(string_constraint(1, Some("/^[A-Z]+$/")));
    assert!(!type_symbol_is_derivable(&code));
    assert_eq!(named_type_init(&NamedDecl::Union(UnionFirstArm::ScalarType(code))), not_derivable());
    // A union without an arm is not derivable; any other first arm is.
    assert_eq!(named_type_init(&NamedDecl::Union(UnionFirstArm::NoArm)), not_derivable());
    assert_eq!(named_type_init(&NamedDecl::Union(UnionFirstArm::Other)), composite());
}

#[test]
fn structs_constants_and_unresolved_references() {
    assert_eq!(named_type_init(&NamedDecl::Struct), composite());
    assert_eq!(named_type_init(&NamedDecl::Const), not_derivable());
    assert_eq!(named_ref_init(&None), composite());
    assert_eq!(named_ref_init(&Some(NamedDecl::Missing)), composite());
}
