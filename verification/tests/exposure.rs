//! TYPL-005 and RIDL-143.

use ridl_sem::exposure::{check_exposure, report_exposures, ExposedItem, ExposureRef};
use ridl_sem::resolve::{Symbol, SymbolKind};
use ridl_sem::syntax::TextRange;

fn at(start: usize) -> TextRange {
    TextRange { start, end: start + 6 }
}

fn symbol(package: &str, name: &str, kind: SymbolKind, internal: bool) -> Symbol {
    Symbol {
        name: name.to_string(),
        package: package.to_string(),
        kind,
        internal,
        is_error: false,
        file: 0,
        range: at(0),
    }
}

fn path(found: Symbol, start: usize) -> ExposureRef {
    ExposureRef::Path { range: at(start), found: Some(found), service_shape: false }
}

fn item(name: &str, internal: bool, refs: Vec<ExposureRef>) -> ExposedItem {
    ExposedItem { internal, name: Some(name.to_string()), refs }
}

#[test]
fn typl_005_public_struct_exposes_internal_field_type() {
    let secret = symbol("app", "Secret", SymbolKind::Type, true);
    let diagnostics = check_exposure(&[item("Public", false, vec![path(secret, 40)])], "app");
    assert_eq!(diagnostics.iter().map(|d| d.code.as_str()).collect::<Vec<_>>(), vec!["TYPL-005"]);
    assert!(diagnostics[0].message.contains("Secret"));
    assert_eq!(diagnostics[0].range, at(40));
}

#[test]
fn internal_declaration_may_reference_an_internal_type() {
    let secret = symbol("app", "Secret", SymbolKind::Type, true);
    assert!(check_exposure(&[item("Helper", true, vec![path(secret, 40)])], "app").is_empty());
}

#[test]
fn typl_005_public_type_exposes_internal_bound_constant() {
    let bound = ExposureRef::BoundsConstant {
        range: at(60),
        found: Some(symbol("app", "SECRET_MAX", SymbolKind::Const, true)),
    };
    let diagnostics = check_exposure(&[item("Level", false, vec![bound])], "app");
    assert_eq!(diagnostics.iter().map(|d| d.code.as_str()).collect::<Vec<_>>(), vec!["TYPL-005"]);
    assert!(diagnostics[0].message.contains("SECRET_MAX"));
    assert!(diagnostics[0].message.contains("internal constant"));
}

#[test]
fn ridl_143_service_publishes_an_internal_interface() {
    let shape = ExposureRef::Path {
        range: at(80),
        found: Some(symbol("app", "Hidden", SymbolKind::Interface, true)),
        service_shape: true,
    };
    let diagnostics = report_exposures(&[shape], "app.panel", "app");
    assert_eq!(diagnostics.iter().map(|d| d.code.as_str()).collect::<Vec<_>>(), vec!["RIDL-143"]);
    let message = &diagnostics[0].message;
    assert!(message.contains("`app.panel`") && message.contains("`Hidden`"), "{message}");
    assert!(message.contains("inline shape"), "{message}");
}

#[test]
fn an_interface_outside_a_service_shape_and_other_packages_are_not_exposures() {
    let refs = vec![
        // An interface in type position is type resolution's to report.
        path(symbol("app", "Hidden", SymbolKind::Interface, true), 1),
        // Another package's internal declaration is not this package's surface.
        path(symbol("lib", "Secret", SymbolKind::Type, true), 2),
        // A public declaration is fine.
        path(symbol("app", "Open", SymbolKind::Struct, false), 3),
        ExposureRef::Path { range: at(4), found: None, service_shape: false },
    ];
    assert!(report_exposures(&refs, "Public", "app").is_empty());
    // A declaration the parser recovered without a name is not checked.
    let nameless = ExposedItem {
        internal: false,
        name: None,
        refs: vec![path(symbol("app", "Secret", SymbolKind::Type, true), 5)],
    };
    assert!(check_exposure(&[nameless], "app").is_empty());
}
