use ridl_sem::check::{ConstEntry, InitLiteral, LenBound};
use ridl_sem::decls::{BackingSpec, BoundLiteral, ConstDecl, LitKind, RangeConstraint, ScalarConstraint};
use ridl_sem::definitions::{
    DeclBody, Definition, InterfaceDecl, LoweredDecl, LoweredShape, ServiceDecl, ServiceShape,
};
use ridl_sem::diag::{DiagCode, DETACHED};
use ridl_sem::exact::ExactValue;
use ridl_sem::init::Backing;
use ridl_sem::interactions::StreamParent;
use ridl_sem::package::{check_package, PackageFile};
use ridl_sem::recursion::CompositeNode;
use ridl_sem::resolve::{Symbol, SymbolKind};
use ridl_sem::syntax::TextRange;

fn range(start: usize, end: usize) -> TextRange {
    TextRange { start, end }
}

fn symbol(name: &str, kind: SymbolKind, file: usize, at: TextRange) -> (String, Symbol) {
    (
        name.to_string(),
        Symbol {
            name: name.to_string(),
            package: "app".to_string(),
            kind,
            internal: false,
            is_error: false,
            file,
            range: at,
        },
    )
}

fn bound(text: &str, start: usize) -> Option<BoundLiteral> {
    Some(BoundLiteral {
        kind: LitKind::Number(ExactValue::parse(text).unwrap()),
        range: range(start, start + text.len()),
        int_form: !text.contains('.'),
        constant: None,
    })
}

fn declaration(name: &str, at: TextRange, composite: Option<usize>, body: DeclBody) -> Definition {
    Definition {
        name: Some(name.to_string()),
        name_range: at,
        internal: false,
        is_error: false,
        docs: Vec::new(),
        gap: None,
        composite,
        body,
    }
}

/// `type <name>: <unit> [0.0..<max> step 0.5]` with its name at `at`.
fn unit_type(name: &str, at: TextRange, unit: &str, max: &str) -> Definition {
    let body = DeclBody::Type {
        backing: Some(BackingSpec::Unit {
            written: unit.to_string(),
            range: range(at.end + 2, at.end + 2 + unit.len()),
            canonical: Some(unit.to_string()),
        }),
        span: range(at.end + 2, at.end + 2 + unit.len()),
        constraint: Some(ScalarConstraint {
            numeric: RangeConstraint {
                range: range(at.end + 8, at.end + 30),
                min: bound("0.0", at.end + 9),
                max: bound(max, at.end + 14),
                step: bound("0.5", at.end + 25),
            },
            len: None,
            pattern: None,
        }),
        init: None,
    };
    declaration(name, at, None, body)
}

fn file(definitions: Vec<Definition>, services: Vec<ServiceDecl>) -> PackageFile {
    PackageFile {
        ridl_profile: false,
        definitions,
        interfaces: Vec::new(),
        services,
        items: Vec::new(),
        streams: Vec::new(),
    }
}

fn service(name: &str) -> ServiceDecl {
    let mut segments = Vec::new();
    let mut start = 8;
    for part in name.split('.').filter(|p| !p.is_empty()) {
        segments.push((part.to_string(), range(start, start + part.len())));
        start += part.len() + 1;
    }
    ServiceDecl {
        name: name.to_string(),
        segments,
        docs: vec![format!("/// The {name} service.")],
        shape: ServiceShape::Inline(Vec::new()),
    }
}

fn codes(checked: &ridl_sem::package::CheckedPackage) -> Vec<&str> {
    checked.diagnostics.iter().map(|d| d.code.as_str()).collect()
}

#[test]
fn duplicate_declaration_lowers_only_the_first() {
    // package app
    // type Speed: km/h [0.0..250.0 step 0.5]
    // type Speed: m/s [0.0..70.0 step 0.5]
    // The resolver bound `Speed` to the first declaration.
    let first = range(17, 22);
    let second = range(56, 61);
    let symbols = vec![symbol("Speed", SymbolKind::Type, 0, first)];
    let files = vec![file(
        vec![unit_type("Speed", first, "km/h", "250.0"), unit_type("Speed", second, "m/s", "70.0")],
        Vec::new(),
    )];
    let checked = check_package("app", &symbols, &files, None, &[], &[], &[], &[], &[]);
    let speeds: Vec<_> = checked.decls.iter().filter(|d| d.lowered.name == "Speed").collect();
    assert_eq!(speeds.len(), 1, "the duplicate lowers exactly once");
    assert_eq!((speeds[0].file, speeds[0].index), (0, 0));
    let LoweredDecl::Type(def) = &speeds[0].lowered.decl else {
        panic!("Speed is a type def");
    };
    assert_eq!(def.backing, Some(Backing::Unit("km/h".to_string())), "the first declaration's unit wins");
    assert!(!codes(&checked).contains(&"TYPL-009"), "the checker does not repeat the resolver's TYPL-009");
}

#[test]
fn only_the_resolvers_winner_lowers() {
    // `Speed` is declared in two files; the resolver bound the first. The
    // second one's declared init is out of range, but it never lowers.
    let at = range(10, 15);
    let symbols = vec![symbol("Speed", SymbolKind::Type, 0, at)];
    let mut loser = unit_type("Speed", at, "km/h", "250.0");
    if let DeclBody::Type { init, .. } = &mut loser.body {
        *init = Some((InitLiteral::Number(ExactValue::parse("300.0").unwrap()), range(50, 55)));
    }
    let files = vec![
        file(vec![unit_type("Speed", at, "km/h", "250.0")], Vec::new()),
        file(vec![loser], Vec::new()),
    ];
    let checked = check_package("app", &symbols, &files, None, &[], &[], &[], &[], &[]);
    assert_eq!(checked.decls.len(), 1);
    assert_eq!(checked.decls[0].file, 0);
    assert!(checked.diagnostics.is_empty(), "{:?}", checked.diagnostics);
}

#[test]
fn a_winners_lowering_diagnostics_point_into_its_file() {
    let at = range(10, 15);
    let symbols = vec![symbol("Speed", SymbolKind::Type, 1, at)];
    let mut speed = unit_type("Speed", at, "km/h", "250.0");
    if let DeclBody::Type { init, .. } = &mut speed.body {
        *init = Some((InitLiteral::Number(ExactValue::parse("300.0").unwrap()), range(50, 55)));
    }
    let files = vec![file(Vec::new(), Vec::new()), file(vec![speed], Vec::new())];
    let checked = check_package("app", &symbols, &files, None, &[], &[], &[], &[], &[]);
    assert_eq!(codes(&checked), vec!["TYPL-109"]);
    assert_eq!(checked.diagnostics[0].file, 1);
    let LoweredDecl::Type(def) = &checked.decls[0].lowered.decl else {
        panic!("Speed is a type def");
    };
    assert_eq!(def.declared_init.as_deref(), Some("300"));
}

#[test]
fn a_declaration_of_another_package_does_not_lower() {
    let at = range(10, 15);
    let mut symbols = vec![symbol("Speed", SymbolKind::Type, 0, at)];
    symbols[0].1.package = "other".to_string();
    let files = vec![file(vec![unit_type("Speed", at, "km/h", "250.0")], Vec::new())];
    let checked = check_package("app", &symbols, &files, None, &[], &[], &[], &[], &[]);
    assert!(checked.decls.is_empty());
    assert!(checked.diagnostics.is_empty());
}

#[test]
fn a_service_name_lowers_once_and_a_nameless_one_never() {
    let files = vec![
        file(Vec::new(), vec![service("veh.svc"), service("")]),
        file(Vec::new(), vec![service("veh.svc"), service("veh.Other")]),
    ];
    let checked = check_package("app", &[], &files, None, &[], &[], &[], &[], &[]);
    let kept: Vec<(usize, usize, &str)> =
        checked.services.iter().map(|s| (s.file, s.index, s.lowered.name.as_str())).collect();
    assert_eq!(kept, vec![(0, 0, "veh.svc"), (1, 1, "veh.Other")]);
    assert_eq!(checked.services[0].lowered.shape, LoweredShape::Inline(Vec::new()));
    assert_eq!(checked.services[0].lowered.doc.doc, "The veh.svc service.");
    // Only the kept `veh.Other` is checked: its uppercase segment, in file 1.
    assert_eq!(codes(&checked).len(), 1);
    assert_eq!(checked.diagnostics[0].file, 1);
    assert_eq!(checked.diagnostics[0].range, range(12, 17));
}

#[test]
fn a_winning_interface_lowers_and_reports_its_error_modifier() {
    let at = range(10, 17);
    let symbols = vec![symbol("Control", SymbolKind::Interface, 0, at)];
    let mut f = file(Vec::new(), Vec::new());
    f.interfaces = vec![InterfaceDecl {
        name: Some("Control".to_string()),
        name_range: at,
        internal: true,
        is_error: true,
        docs: vec!["/// Drives the vehicle.".to_string()],
        members: Vec::new(),
    }];
    let checked = check_package("app", &symbols, &vec![f], None, &[], &[], &[], &[], &[]);
    assert_eq!(checked.interfaces.len(), 1);
    assert_eq!(checked.interfaces[0].lowered.name, "Control");
    assert!(checked.interfaces[0].lowered.internal);
    assert_eq!(checked.interfaces[0].lowered.doc.doc, "Drives the vehicle.");
    assert_eq!(codes(&checked), vec!["TYPL-212"]);
    assert_eq!(checked.diagnostics[0].file, 0);
    assert_eq!(checked.diagnostics[0].range, at);
}

#[test]
fn a_malformed_timing_default_is_mani_009_at_the_first_file() {
    let files = vec![file(Vec::new(), Vec::new())];
    let checked = check_package("app", &[], &files, Some("missing `..`"), &[], &[], &[], &[], &[]);
    assert_eq!(checked.diagnostics.len(), 1);
    let d = &checked.diagnostics[0];
    assert_eq!(d.code, DiagCode::MANI_009);
    assert_eq!(d.code.as_str(), "MANI-009");
    assert_eq!(d.file, 0);
    assert_eq!(d.range, range(0, 0));
    assert_eq!(d.message, "invalid `[defaults].timing` in the package manifest: missing `..`");
    let empty = check_package("app", &[], &Vec::new(), Some("bad"), &[], &[], &[], &[], &[]);
    assert_eq!(empty.diagnostics[0].file, DETACHED);
}

#[test]
fn a_self_referencing_struct_is_reported_after_the_files() {
    let at = range(7, 11);
    let symbols = vec![symbol("Node", SymbolKind::Type, 0, at)];
    let files = vec![file(vec![declaration("Node", at, Some(0), DeclBody::Struct(Vec::new()))], Vec::new())];
    let nodes = vec![CompositeNode { package: "app".to_string(), name: "Node".to_string() }];
    let edges = vec![vec![0usize]];
    let checked = check_package("app", &symbols, &files, None, &[], &[], &nodes, &edges, &[]);
    assert_eq!(checked.decls.len(), 1);
    let last = checked.diagnostics.last().unwrap();
    assert_eq!(last.code, DiagCode::TYPL_206);
    assert_eq!(last.range, at);
    assert_eq!(last.message, "recursive composite reference: `Node` -> `Node`");
}

#[test]
fn stream_positions_are_checked_in_ridl_files_only() {
    let mut ridl = file(Vec::new(), Vec::new());
    ridl.ridl_profile = true;
    ridl.streams = vec![(StreamParent::Signal, range(3, 9))];
    let mut typl = file(Vec::new(), Vec::new());
    typl.streams = vec![(StreamParent::Signal, range(3, 9))];
    let checked = check_package("app", &[], &vec![typl, ridl], None, &[], &[], &[], &[], &[]);
    assert_eq!(checked.diagnostics.len(), 1);
    assert_eq!(checked.diagnostics[0].code, DiagCode::RIDL_201);
    assert_eq!(checked.diagnostics[0].file, 1);
}

#[test]
fn the_length_bound_of_a_string_type_is_lowered_in_the_package() {
    let at = range(5, 8);
    let symbols = vec![symbol("Tag", SymbolKind::Type, 0, at)];
    let body = DeclBody::Type {
        backing: Some(BackingSpec::Primitive(ridl_sem::init::PrimitiveType::String)),
        span: range(10, 16),
        constraint: Some(ScalarConstraint {
            numeric: RangeConstraint { range: range(17, 23), min: None, max: None, step: None },
            len: Some(LenBound { min: Some(2), max: Some(8), range: true }),
            pattern: None,
        }),
        init: None,
    };
    let files = vec![file(vec![declaration("Tag", at, None, body)], Vec::new())];
    let checked = check_package("app", &symbols, &files, None, &[], &[], &[], &[], &[]);
    // `[2..8]` forbids the empty string: TYPL-115 (info), at the name.
    assert_eq!(codes(&checked), vec!["TYPL-115"]);
    assert_eq!(checked.diagnostics[0].range, at);
}

#[test]
fn a_constant_reference_lowers_as_the_value_at_the_end_of_its_chain() {
    // const WHOLE : integer = 7; const INT : integer = WHOLE; const HOP : integer = INT
    let entry = |name: &str, value: LitKind, next: Option<&str>| ConstEntry {
        package: "app".to_string(),
        name: name.to_string(),
        kind: SymbolKind::Const,
        value: Some(value),
        next: next.map(|n| ("app".to_string(), n.to_string())),
    };
    let consts = vec![
        entry("WHOLE", LitKind::Number(ExactValue::parse("7").unwrap()), None),
        entry("INT", LitKind::ConstRef("WHOLE".to_string()), Some("WHOLE")),
        entry("HOP", LitKind::ConstRef("INT".to_string()), Some("INT")),
    ];
    let hop_at = range(60, 63);
    let symbols = vec![
        symbol("WHOLE", SymbolKind::Const, 0, range(6, 11)),
        symbol("INT", SymbolKind::Const, 0, range(32, 35)),
        symbol("HOP", SymbolKind::Const, 0, hop_at),
    ];
    let hop = ConstDecl {
        name: "HOP".to_string(),
        value: Some(LitKind::ConstRef("INT".to_string())),
        written: "INT".to_string(),
        value_range: range(76, 79),
        type_ref: None,
        nominal_violation: None,
        referenced_number: None,
        referenced_value: None,
    };
    let files = vec![file(vec![declaration("HOP", hop_at, None, DeclBody::Const(hop))], Vec::new())];
    let checked = check_package("app", &symbols, &files, None, &[], &consts, &[], &[], &[]);
    assert!(checked.diagnostics.is_empty(), "{:?}", checked.diagnostics);
    let LoweredDecl::Const(def) = &checked.decls[0].lowered.decl else {
        panic!("HOP is a constant");
    };
    assert_eq!(def.value, "7");
}
