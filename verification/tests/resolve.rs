//! Name resolution: local declarations, imports, cycles, `ridl.std`.

use ridl_sem::diag::{Diagnostic, Severity};
use ridl_sem::resolve::{
    apply_imports, collect_imports, detect_cycles, longest_import_prefix, reaches, resolve_package, resolve_package_imports,
    resolve_source, ImportDecl, ImportRecord, ImportShape, MemberPackage, PackageSource,
    Resolution, Symbol, SymbolKind,
};
use ridl_sem::resolve::{import_shape, qualified_segments, Following, PathToken};
use ridl_sem::syntax::TextRange;

fn symbol(package: &str, name: &str, kind: SymbolKind, start: usize) -> Symbol {
    Symbol {
        name: name.to_string(),
        package: package.to_string(),
        kind,
        internal: false,
        is_error: false,
        file: 0,
        range: TextRange {
            start,
            end: start + name.len(),
        },
    }
}

fn import(path: &str, name: &str, alias: Option<&str>, bound: Option<Symbol>, member: Option<usize>) -> ImportRecord {
    ImportRecord {
        local_name: alias.unwrap_or(name).to_string(),
        base_name: name.to_string(),
        aliased: alias.is_some(),
        package_path: path.to_string(),
        file: 0,
        range: TextRange { start: 10, end: 20 },
        bound,
        member,
        remote_url: None,
        unknown: false,
    }
}

fn codes(diagnostics: &[Diagnostic]) -> Vec<&str> {
    diagnostics.iter().map(|d| d.code.as_str()).collect()
}

fn lookup<'a>(resolution: &'a Resolution, name: &str) -> Option<&'a Symbol> {
    resolution
        .symbols
        .iter()
        .find(|(bound, _)| bound == name)
        .map(|(_, symbol)| symbol)
}

fn names(list: &[&str]) -> Vec<String> {
    list.iter().map(|name| name.to_string()).collect()
}

#[test]
fn resolution_order_prefers_the_longest_import_alias() {
    let imports = vec![
        ("veh".to_string(), "https://registry.example.com/veh@v1".to_string()),
        ("veh.common".to_string(), "https://registry.example.com/pkg@v1".to_string()),
        ("veh.comm".to_string(), "https://registry.example.com/wrong@v1".to_string()),
    ];
    assert_eq!(
        longest_import_prefix(&imports, "veh.common").as_deref(),
        Some("https://registry.example.com/pkg@v1")
    );
    assert_eq!(
        longest_import_prefix(&imports, "veh.common.sub").as_deref(),
        Some("https://registry.example.com/pkg@v1")
    );
    assert_eq!(
        longest_import_prefix(&imports, "veh.body").as_deref(),
        Some("https://registry.example.com/veh@v1")
    );
    assert_eq!(longest_import_prefix(&imports, "vehicle"), None);
    assert_eq!(longest_import_prefix(&[], "veh"), None);
}

#[test]
fn duplicate_declaration_is_typl_009_on_the_later_and_the_first_wins() {
    let declared = vec![
        ("Speed".to_string(), symbol("app", "Speed", SymbolKind::Type, 17)),
        ("Speed".to_string(), symbol("app", "Speed", SymbolKind::Type, 34)),
    ];
    let edges = vec![Vec::new()];
    let resolution = resolve_package(&declared, &[], &[], &[], 0, "app", &edges);
    assert_eq!(codes(&resolution.diagnostics), vec!["TYPL-009"]);
    assert_eq!(lookup(&resolution, "Speed").unwrap().range.start, 17, "the first wins");
    assert_eq!(resolution.diagnostics[0].range.start, 34, "the later is flagged");
}

#[test]
fn cross_package_cycle_is_typl_004() {
    // Package 0 (`a`) imports `b.T`; package 1 (`b`) imports `a.S`.
    let edges = vec![vec![1], vec![0]];
    let records = vec![import("b", "T", None, Some(symbol("b", "T", SymbolKind::Struct, 0)), Some(1))];
    let declared = vec![("S".to_string(), symbol("a", "S", SymbolKind::Struct, 30))];
    let used = names(&["T"]);
    let resolution = resolve_package(&declared, &records, &used, &[], 0, "a", &edges);
    assert_eq!(codes(&resolution.diagnostics), vec!["TYPL-004"]);
    assert!(resolution.diagnostics[0].message.contains("`a`"));
    assert!(resolution.diagnostics[0].message.contains("`b`"));
}

#[test]
fn reachability_follows_member_edges_transitively() {
    let edges = vec![vec![1], vec![2], vec![], vec![3]];
    assert!(reaches(&edges, 0, 2));
    assert!(reaches(&edges, 0, 1));
    assert!(!reaches(&edges, 2, 0));
    assert!(!reaches(&edges, 0, 0), "no edge leads back to the start");
    assert!(reaches(&edges, 3, 3), "a self edge is a one-step walk");
    let mut diagnostics = Vec::new();
    let records = vec![import("c", "X", None, None, Some(2))];
    detect_cycles(0, "a", &records, &edges, &mut diagnostics);
    assert!(diagnostics.is_empty());
}

#[test]
fn conflicting_imports_without_alias_is_typl_006() {
    let records = vec![
        import("x", "Speed", None, Some(symbol("x", "Speed", SymbolKind::Type, 0)), Some(1)),
        import("y", "Speed", None, Some(symbol("y", "Speed", SymbolKind::Type, 0)), Some(2)),
    ];
    let declared = vec![("S".to_string(), symbol("a", "S", SymbolKind::Struct, 40))];
    let edges = vec![vec![1, 2], vec![], vec![]];
    let resolution = resolve_package(&declared, &records, &names(&["Speed"]), &[], 0, "a", &edges);
    assert_eq!(codes(&resolution.diagnostics), vec!["TYPL-006"]);
    assert_eq!(lookup(&resolution, "Speed").unwrap().package, "x", "first import wins the binding");
}

#[test]
fn unused_import_is_typl_007() {
    let records = vec![import("x", "Speed", None, Some(symbol("x", "Speed", SymbolKind::Type, 0)), Some(1))];
    let edges = vec![vec![1], vec![]];
    let resolution = resolve_package(&[], &records, &[], &[], 0, "a", &edges);
    assert_eq!(codes(&resolution.diagnostics), vec!["TYPL-007"]);
    assert_eq!(resolution.diagnostics[0].severity, Severity::Warning);
}

#[test]
fn alias_without_collision_is_typl_008() {
    let records = vec![import("x", "Speed", Some("XSpeed"), Some(symbol("x", "Speed", SymbolKind::Type, 0)), Some(1))];
    let edges = vec![vec![1], vec![]];
    let resolution = resolve_package(&[], &records, &names(&["XSpeed"]), &[], 0, "a", &edges);
    assert_eq!(codes(&resolution.diagnostics), vec!["TYPL-008"]);
    assert_eq!(lookup(&resolution, "XSpeed").unwrap().name, "Speed");
}

#[test]
fn needed_alias_resolves_a_collision_without_diagnostics() {
    let records = vec![
        import("x", "Speed", None, Some(symbol("x", "Speed", SymbolKind::Type, 0)), Some(1)),
        import("y", "Speed", Some("YSpeed"), Some(symbol("y", "Speed", SymbolKind::Type, 0)), Some(2)),
    ];
    let edges = vec![vec![1, 2], vec![], vec![]];
    let resolution = resolve_package(&[], &records, &names(&["Speed", "YSpeed"]), &[], 0, "a", &edges);
    assert!(codes(&resolution.diagnostics).is_empty(), "{:?}", resolution.diagnostics);
    assert_eq!(lookup(&resolution, "Speed").unwrap().package, "x");
    assert_eq!(lookup(&resolution, "YSpeed").unwrap().package, "y");
}

#[test]
fn remote_and_unknown_imports_report_and_bind_nothing() {
    let mut remote = import("veh.common", "Speed", None, None, None);
    remote.remote_url = Some("https://registry.example.com/pkg@v1".to_string());
    let mut unknown = import("nowhere", "Thing", None, None, None);
    unknown.unknown = true;
    let mut symbols = Vec::new();
    let mut diagnostics = Vec::new();
    apply_imports(&[remote, unknown], &[], &[], &mut symbols, &mut diagnostics);
    assert!(symbols.is_empty());
    assert_eq!(diagnostics.len(), 2);
    assert_eq!(diagnostics[0].severity, Severity::Info);
    assert!(diagnostics[0].message.contains("registry.example.com/pkg@v1"));
    assert_eq!(diagnostics[1].severity, Severity::Error);
    assert!(diagnostics[1].message.contains("nowhere"));
}

#[test]
fn ridl_std_names_are_implicitly_available() {
    let mut hidden = symbol("ridl.std", "Hidden", SymbolKind::Type, 0);
    hidden.internal = true;
    let std = vec![
        ("Name".to_string(), symbol("ridl.std", "Name", SymbolKind::Type, 0)),
        ("Hidden".to_string(), hidden),
    ];
    let edges = vec![vec![]];
    let resolution = resolve_package(&[], &[], &[], &std, 0, "app", &edges);
    assert_eq!(lookup(&resolution, "Name").unwrap().package, "ridl.std");
    assert!(lookup(&resolution, "Hidden").is_none(), "an internal std name is not visible");
}

#[test]
fn a_local_declaration_shadows_a_ridl_std_name_and_an_import() {
    let std = vec![("Name".to_string(), symbol("ridl.std", "Name", SymbolKind::Type, 0))];
    let declared = vec![("Name".to_string(), symbol("app", "Name", SymbolKind::Struct, 5))];
    let records = vec![import("x", "Name", None, Some(symbol("x", "Name", SymbolKind::Type, 0)), Some(1))];
    let edges = vec![vec![1], vec![]];
    let resolution = resolve_package(&declared, &records, &names(&["Name"]), &std, 0, "app", &edges);
    assert_eq!(lookup(&resolution, "Name").unwrap().package, "app");
    assert_eq!(lookup(&resolution, "Name").unwrap().kind, SymbolKind::Struct);
}

#[test]
fn interface_duplicating_a_type_is_typl_009_and_the_type_wins() {
    let declared = vec![
        ("Drive".to_string(), symbol("app", "Drive", SymbolKind::Type, 10)),
        ("Drive".to_string(), symbol("app", "Drive", SymbolKind::Interface, 50)),
    ];
    let edges = vec![vec![]];
    let resolution = resolve_package(&declared, &[], &[], &[], 0, "app", &edges);
    assert_eq!(codes(&resolution.diagnostics), vec!["TYPL-009"]);
    assert_eq!(lookup(&resolution, "Drive").unwrap().kind, SymbolKind::Type);
    assert_eq!(resolution.kind_of("Drive"), Some(SymbolKind::Type));
}

fn decl(shape: ImportShape, alias: Option<&str>) -> ImportDecl {
    ImportDecl {
        shape,
        has_as: alias.is_some(),
        alias: alias.map(|a| a.to_string()),
        file: 0,
        range: TextRange { start: 3, end: 9 },
    }
}

fn named(path: &str, name: &str) -> ImportShape {
    ImportShape::Named {
        package_path: path.to_string(),
        symbol_name: name.to_string(),
    }
}

fn vehicle_member() -> MemberPackage {
    let mut hidden = symbol("veh.common", "Secret", SymbolKind::Struct, 40);
    hidden.internal = true;
    MemberPackage {
        name: "veh.common".to_string(),
        symbols: vec![
            ("Speed".to_string(), symbol("veh.common", "Speed", SymbolKind::Type, 5)),
            ("Secret".to_string(), hidden),
        ],
    }
}

#[test]
fn resolve_source_prefers_members_then_package_then_workspace_imports() {
    let members = vec![vehicle_member()];
    let pkg = vec![("veh".to_string(), "https://pkg.example/veh".to_string())];
    let ws = vec![
        ("veh".to_string(), "https://ws.example/veh".to_string()),
        ("geo".to_string(), "https://ws.example/geo".to_string()),
    ];
    assert_eq!(resolve_source(&members, &pkg, &ws, "veh.common"), PackageSource::Member(0));
    assert_eq!(
        resolve_source(&members, &pkg, &ws, "veh.other"),
        PackageSource::Remote("https://pkg.example/veh".to_string())
    );
    assert_eq!(
        resolve_source(&members, &pkg, &ws, "geo.shapes"),
        PackageSource::Remote("https://ws.example/geo".to_string())
    );
    assert_eq!(resolve_source(&members, &pkg, &ws, "nowhere"), PackageSource::Unknown);
}

#[test]
fn collect_imports_rejects_wildcard_and_relative_imports() {
    let imports = vec![
        decl(ImportShape::Wildcard, None),
        decl(ImportShape::Relative, None),
        decl(ImportShape::Malformed, None),
    ];
    let (records, diagnostics) = collect_imports(&imports, &[], &[], &[]);
    assert!(records.is_empty());
    assert_eq!(codes(&diagnostics), vec!["TYPL-003", "TYPL-003"]);
    assert_eq!(diagnostics[0].severity, Severity::Error);
    assert_eq!(diagnostics[0].range, TextRange { start: 3, end: 9 });
}

#[test]
fn collect_imports_binds_public_member_symbols_only() {
    let members = vec![vehicle_member()];
    let ws = vec![("geo".to_string(), "https://ws.example/geo".to_string())];
    let imports = vec![
        decl(named("veh.common", "Speed"), Some("Velocity")),
        decl(named("veh.common", "Secret"), None),
        decl(named("geo.shapes", "Point"), None),
        decl(named("missing.pkg", "Thing"), None),
    ];
    let (records, diagnostics) = collect_imports(&imports, &members, &[], &ws);
    assert!(diagnostics.is_empty());
    assert_eq!(records.len(), 4);

    assert_eq!(records[0].local_name, "Velocity");
    assert_eq!(records[0].base_name, "Speed");
    assert!(records[0].aliased);
    assert_eq!(records[0].member, Some(0));
    assert_eq!(records[0].bound.as_ref().map(|s| s.name.as_str()), Some("Speed"));

    assert_eq!(records[1].local_name, "Secret");
    assert_eq!(records[1].member, Some(0));
    assert!(records[1].bound.is_none());

    assert_eq!(records[2].remote_url.as_deref(), Some("https://ws.example/geo"));
    assert!(records[2].bound.is_none());
    assert!(!records[2].unknown);

    assert!(records[3].unknown);
    assert_eq!(records[3].member, None);
}

fn tokens(path: &str) -> Vec<PathToken> {
    let mut out = Vec::new();
    for (i, part) in path.split('.').enumerate() {
        if i > 0 {
            out.push(PathToken::Dot);
        }
        if !part.is_empty() {
            out.push(PathToken::Text(part.to_string()));
        }
    }
    out
}

#[test]
fn import_shapes_by_path() {
    assert_eq!(
        import_shape(&Some(tokens("veh.common.Speed")), &[]),
        ImportShape::Named {
            package_path: "veh.common".to_string(),
            symbol_name: "Speed".to_string()
        }
    );
    // A keyword segment resolves like any other.
    assert_eq!(
        import_shape(&Some(tokens("veh.integer")), &[]),
        ImportShape::Named {
            package_path: "veh".to_string(),
            symbol_name: "integer".to_string()
        }
    );
    // `veh.common.*` keeps a dangling `.`: a wildcard.
    assert_eq!(import_shape(&Some(tokens("veh.common.")), &[]), ImportShape::Wildcard);
    // One segment names no package.
    assert_eq!(import_shape(&Some(tokens("Speed")), &[]), ImportShape::Malformed);
    // No path, and a leading-dot error node after it: a relative import.
    let relative = [Following::Trivia, Following::ErrorNode { starts_with_dots: true }];
    assert_eq!(import_shape(&None, &relative), ImportShape::Relative);
    let other = [Following::Trivia, Following::Other, Following::ErrorNode { starts_with_dots: true }];
    assert_eq!(import_shape(&None, &other), ImportShape::Malformed);
}

#[test]
fn qualified_segments_split_at_dots() {
    let parts = vec![
        PathToken::Text("veh".to_string()),
        PathToken::Dot,
        PathToken::Text("com".to_string()),
        PathToken::Text("mon".to_string()),
        PathToken::Dot,
        PathToken::Text("Speed".to_string()),
    ];
    assert_eq!(qualified_segments(&parts), vec!["veh", "common", "Speed"]);
    assert_eq!(qualified_segments(&[]), vec![""]);
}

#[test]
fn resolution_order_prefers_member_then_package_then_workspace_imports() {
    // `app` imports `veh.common.Speed`, and `veh.common` is at once a
    // workspace member, aliased in `app`'s own `[imports]`, and aliased in
    // the workspace `[imports]`; `Speed` is used in `struct S { p: Speed }`.
    let veh = MemberPackage {
        name: "veh.common".to_string(),
        symbols: vec![("Speed".to_string(), symbol("veh.common", "Speed", SymbolKind::Type, 24))],
    };
    let pkg_imports = vec![("veh.common".to_string(), "https://registry.example.com/pkg@v1".to_string())];
    let ws_imports = vec![("veh.common".to_string(), "https://registry.example.com/ws@v1".to_string())];
    let imports = vec![decl(named("veh.common", "Speed"), None)];
    let declared = vec![("S".to_string(), symbol("app", "S", SymbolKind::Struct, 43))];
    let used = names(&["Speed"]);
    let edges = vec![vec![], vec![]];

    // The workspace member wins: `Speed` binds to the real declaration.
    let members = vec![veh];
    let (member_first, _) =
        resolve_package_imports(&declared, &imports, &members, &pkg_imports, &ws_imports, &used, &[], 0, "app", &edges);
    assert!(codes(&member_first.diagnostics).is_empty(), "{:?}", member_first.diagnostics);
    assert_eq!(lookup(&member_first, "Speed").map(|s| s.package.as_str()), Some("veh.common"));

    // Without the member, `app`'s own `[imports]` alias wins.
    let (package_import, records) =
        resolve_package_imports(&declared, &imports, &[], &pkg_imports, &ws_imports, &used, &[], 0, "app", &edges);
    assert!(lookup(&package_import, "Speed").is_none(), "a remote import binds nothing");
    assert_eq!(records[0].remote_url.as_deref(), Some("https://registry.example.com/pkg@v1"));
    assert!(
        package_import.diagnostics.iter().any(|d| d.message.contains("registry.example.com/pkg@v1")),
        "{:?}",
        package_import.diagnostics,
    );

    // Without the package alias, the workspace `[imports]` wins.
    let (workspace_import, _) =
        resolve_package_imports(&declared, &imports, &[], &[], &ws_imports, &used, &[], 0, "app", &edges);
    assert!(
        workspace_import.diagnostics.iter().any(|d| d.message.contains("registry.example.com/ws@v1")),
        "{:?}",
        workspace_import.diagnostics,
    );
}
