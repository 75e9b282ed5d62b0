//! Fixed-width analysis and struct bodies.

use ridl_sem::check::BackingClass;
use ridl_sem::decls::{LitKind, ReservedEntry};
use ridl_sem::exact::ExactValue;
use ridl_sem::diag::DiagCode;
use ridl_sem::layout::{
    bound_is_fixed, check_map_key, collection_bounds, field_type_is_fixed, lower_struct,
    ArrayBound, CollectionBound, DeclShape, FieldShape, MapKey, StructMember, StructSlot,
    TypeBacking,
};
use ridl_sem::resolve::SymbolKind;
use ridl_sem::syntax::TextRange;

fn at(start: usize) -> TextRange {
    TextRange { start, end: start + 3 }
}

fn field(name: &str, ty: FieldShape, start: usize) -> StructMember {
    StructMember::Field {
        name: Some(name.to_string()),
        name_range: at(start),
        ty: Some(ty),
    }
}

fn exact(text: &str) -> ExactValue {
    ExactValue::parse(text).unwrap()
}

/// `type Frame : bytes [8]`, `type Tag : string [4]`,
/// `type Speed : km/h [...]`, and a struct of two speeds.
fn vehicle_table() -> Vec<DeclShape> {
    vec![
        DeclShape::Type(TypeBacking::Primitive(BackingClass::Bytes)),
        DeclShape::Type(TypeBacking::Primitive(BackingClass::Str)),
        DeclShape::Type(TypeBacking::Unit),
        DeclShape::Struct(vec![
            Some(Some(FieldShape::Named(Some(2)))),
            Some(Some(FieldShape::Named(Some(2)))),
        ]),
    ]
}

#[test]
fn string_or_bytes_backed_named_field_is_not_fixed_layout() {
    let table = vehicle_table();
    let (has_bytes, _) = lower_struct(&table, &[field("frame", FieldShape::Named(Some(0)), 1)]);
    assert!(!has_bytes.fixed_layout);
    let (has_string, _) = lower_struct(&table, &[field("tag", FieldShape::Named(Some(1)), 1)]);
    assert!(!has_string.fixed_layout);
    let (all_scalar, diagnostics) = lower_struct(
        &table,
        &[field("a", FieldShape::Named(Some(2)), 1), field("b", FieldShape::Named(Some(2)), 5)],
    );
    assert!(all_scalar.fixed_layout);
    assert!(diagnostics.is_empty());
    assert_eq!(
        all_scalar.members,
        vec![
            StructSlot::Field { name: "a".to_string(), ordinal: 1 },
            StructSlot::Field { name: "b".to_string(), ordinal: 2 },
        ]
    );
}

#[test]
fn nested_fixed_structs_and_arrays_stay_fixed() {
    let table = vehicle_table();
    // A field of the all-scalar struct, and a `[Speed; 4]` array.
    let array = FieldShape::Array {
        bound: Some(ArrayBound { range: false, min_written: true, min: Some(exact("4")), max: None }),
        element: Some(Box::new(FieldShape::Named(Some(2)))),
    };
    assert!(field_type_is_fixed(&table, &FieldShape::Named(Some(3))));
    assert!(field_type_is_fixed(&table, &array));
    // A `[Speed; 1..4]` range bound does not fix the length; `[Speed; 4..4]` does.
    let ranged = |min: &str, max: &str| FieldShape::Array {
        bound: Some(ArrayBound { range: true, min_written: true, min: Some(exact(min)), max: Some(exact(max)) }),
        element: Some(Box::new(FieldShape::Named(Some(2)))),
    };
    assert!(!field_type_is_fixed(&table, &ranged("1", "4")));
    assert!(field_type_is_fixed(&table, &ranged("4", "4.0")));
    // A tuple is fixed when every field is.
    let tuple = FieldShape::Tuple(vec![
        Some(FieldShape::Primitive(BackingClass::Integer)),
        Some(FieldShape::Named(Some(2))),
    ]);
    assert!(field_type_is_fixed(&table, &tuple));
    let loose = FieldShape::Tuple(vec![Some(FieldShape::Primitive(BackingClass::Str))]);
    assert!(!field_type_is_fixed(&table, &loose));
    // Optionals, maps and unresolved names never are.
    assert!(!field_type_is_fixed(&table, &FieldShape::Optional));
    assert!(!field_type_is_fixed(&table, &FieldShape::Dictionary));
    assert!(!field_type_is_fixed(&table, &FieldShape::Named(None)));
}

#[test]
fn a_recursive_struct_is_not_fixed() {
    // struct Node { next : Node }
    let table = vec![DeclShape::Struct(vec![Some(Some(FieldShape::Named(Some(0))))])];
    assert!(!field_type_is_fixed(&table, &FieldShape::Named(Some(0))));
}

#[test]
fn a_tombstone_or_an_optional_field_makes_the_layout_evolvable() {
    let table = vehicle_table();
    let tombstone = StructMember::Reserved(ReservedEntry {
        name: Some("legacy".to_string()),
        value: None,
        range: at(1),
    });
    let (evolved, diagnostics) = lower_struct(&table, &[tombstone, field("speed", FieldShape::Named(Some(2)), 9)]);
    assert!(!evolved.fixed_layout);
    assert!(diagnostics.is_empty());
    let (optional, _) = lower_struct(&table, &[field("speed", FieldShape::Optional, 9)]);
    assert!(!optional.fixed_layout);
    // An empty struct is not a fixed layout either.
    let (empty, _) = lower_struct(&table, &[]);
    assert!(!empty.fixed_layout);
}

#[test]
fn typl_210_field_redeclared_under_reserved() {
    // struct S { reserved legacyChecksum  legacyChecksum : Name }
    let table = vec![DeclShape::Type(TypeBacking::Primitive(BackingClass::Str))];
    let members = vec![
        StructMember::Reserved(ReservedEntry { name: Some("legacyChecksum".to_string()), value: None, range: at(1) }),
        field("legacyChecksum", FieldShape::Named(Some(0)), 20),
    ];
    let (_, diagnostics) = lower_struct(&table, &members);
    assert_eq!(diagnostics.iter().map(|d| d.code.as_str()).collect::<Vec<_>>(), vec!["TYPL-210"]);
}

#[test]
fn retired_twice_warns_before_a_field_reuses_the_name() {
    let table = vehicle_table();
    let members = vec![
        StructMember::Reserved(ReservedEntry { name: Some("speed".to_string()), value: None, range: at(1) }),
        StructMember::Reserved(ReservedEntry { name: Some("speed".to_string()), value: None, range: at(5) }),
        StructMember::Reserved(ReservedEntry { name: None, value: Some(LitKind::Number(exact("3"))), range: at(9) }),
        field("speed", FieldShape::Named(Some(2)), 20),
    ];
    let (layout, diagnostics) = lower_struct(&table, &members);
    assert_eq!(
        diagnostics.iter().map(|d| d.code.as_str()).collect::<Vec<_>>(),
        vec!["TYPL-211", "TYPL-210"]
    );
    assert_eq!(diagnostics[1].message, "field `speed` re-declares a `reserved` name");
    assert_eq!(diagnostics[1].range, at(20));
    assert_eq!(layout.members.len(), 4);
    assert_eq!(layout.members[3], StructSlot::Field { name: "speed".to_string(), ordinal: 4 });
}

#[test]
fn bound_is_fixed_reads_single_counts_and_equal_ranges() {
    assert!(bound_is_fixed(&ArrayBound { range: false, min_written: true, min: None, max: None }));
    assert!(!bound_is_fixed(&ArrayBound { range: false, min_written: false, min: None, max: None }));
    assert!(!bound_is_fixed(&ArrayBound { range: true, min_written: true, min: Some(exact("2")), max: None }));
}

#[test]
fn typl_201_array_without_bounds() {
    let (min, max, diagnostic) = collection_bounds(&None, at(30), DiagCode::TYPL_201, "array");
    assert_eq!((min, max), (0, 0));
    let diagnostic = diagnostic.expect("an unbounded array");
    assert_eq!(diagnostic.code.as_str(), "TYPL-201");
    assert_eq!(diagnostic.message, "array without explicit bounds");
}

#[test]
fn typl_202_map_without_bounds() {
    // `[K : V; 0..]`: an open upper bound is unbounded too.
    let open = Some(CollectionBound { range: true, min: Some(exact("0")), max: None });
    let (min, max, diagnostic) = collection_bounds(&open, at(30), DiagCode::TYPL_202, "map");
    assert_eq!((min, max), (0, 0));
    assert_eq!(diagnostic.expect("an unbounded map").code.as_str(), "TYPL-202");
}

#[test]
fn collection_bounds_read_ranges_and_single_counts() {
    let ranged = Some(CollectionBound { range: true, min: Some(exact("2")), max: Some(exact("8")) });
    assert_eq!(collection_bounds(&ranged, at(1), DiagCode::TYPL_201, "array"), (2, 8, None));
    let single = Some(CollectionBound { range: false, min: Some(exact("4")), max: None });
    assert_eq!(collection_bounds(&single, at(1), DiagCode::TYPL_201, "array"), (4, 4, None));
    // A bound that is not a count reads as zero.
    let fraction = Some(CollectionBound { range: false, min: Some(exact("2.5")), max: None });
    assert_eq!(collection_bounds(&fraction, at(1), DiagCode::TYPL_201, "array"), (0, 0, None));
}

#[test]
fn typl_209_map_key_not_a_named_string_type() {
    let speed = MapKey::Named { range: at(17), resolved: Some(("Speed".to_string(), SymbolKind::Type, false)) };
    let diagnostic = check_map_key(&speed).expect("a float key");
    assert_eq!(diagnostic.code.as_str(), "TYPL-209");
    assert_eq!(diagnostic.message, "map key `Speed` is not a named string type or a primitive");
    let label = MapKey::Named { range: at(17), resolved: Some(("Label".to_string(), SymbolKind::Type, true)) };
    assert!(check_map_key(&label).is_none());
    assert!(check_map_key(&MapKey::Primitive).is_none());
    assert!(check_map_key(&MapKey::Named { range: at(17), resolved: None }).is_none());
    assert_eq!(check_map_key(&MapKey::Other(at(3))).unwrap().range, at(3));
}
