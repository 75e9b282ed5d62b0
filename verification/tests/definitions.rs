//! Lowering one top-level declaration, interface or service.

use ridl_sem::decls::{ConstDecl, ConstTypeRef, LitKind};
use ridl_sem::definitions::{
    lower_definition, lower_interface, lower_service, DeclBody, Definition, InterfaceDecl, LoweredDecl,
    LoweredShape, ServiceDecl, ServiceShape,
};
use ridl_sem::exact::ExactValue;
use ridl_sem::interactions::BodyMember;
use ridl_sem::syntax::TextRange;

fn range(start: usize, end: usize) -> TextRange {
    TextRange { start, end }
}

fn codes(diagnostics: &[ridl_sem::diag::Diagnostic]) -> Vec<&str> {
    diagnostics.iter().map(|d| d.code.as_str()).collect()
}

fn limit(name: Option<&str>, is_error: bool, docs: Vec<String>) -> Definition {
    Definition {
        name: name.map(|n| n.to_string()),
        name_range: range(6, 11),
        internal: false,
        is_error,
        docs,
        gap: None,
        composite: None,
        body: DeclBody::Const(ConstDecl {
            name: "LIMIT".to_string(),
            value: Some(LitKind::Number(ExactValue::parse("42").unwrap())),
            written: "42".to_string(),
            value_range: range(24, 26),
            type_ref: Some(ConstTypeRef::Primitive("integer".to_string())),
            nominal_violation: None,
            referenced_number: None,
            referenced_value: None,
        }),
    }
}

#[test]
fn an_error_constant_lowers_and_reports_the_modifier_at_its_name() {
    let (lowered, diagnostics) =
        lower_definition(&limit(Some("LIMIT"), true, vec!["/// The cap.".to_string()]), &[], &[], &[]).unwrap();
    assert_eq!(codes(&diagnostics), vec!["TYPL-212"]);
    assert_eq!(diagnostics[0].range, range(6, 11));
    assert_eq!(
        diagnostics[0].message,
        "`error` is not valid on a `const` declaration — only `struct`, `enum`, and `union`"
    );
    assert_eq!(lowered.name, "LIMIT");
    assert!(lowered.is_error);
    assert_eq!(lowered.doc.doc, "The cap.");
    let LoweredDecl::Const(def) = &lowered.decl else {
        panic!("LIMIT is a constant");
    };
    assert_eq!(def.value, "42");
    assert_eq!(def.type_ref.as_deref(), Some("integer"));
}

#[test]
fn a_nameless_declaration_lowers_to_nothing() {
    assert!(lower_definition(&limit(None, false, Vec::new()), &[], &[], &[]).is_none());
}

#[test]
fn an_interface_body_takes_ordinal_slots_and_reports_duplicates() {
    let member = |name: &str, start: usize| BodyMember::Interaction { name: Some(name.to_string()), range: range(start, start + name.len()) };
    let decl = InterfaceDecl {
        name: Some("Cluster".to_string()),
        name_range: range(10, 17),
        internal: false,
        is_error: false,
        docs: Vec::new(),
        members: vec![member("speed", 30), member("speed", 50), member("gear", 70)],
    };
    let (lowered, diagnostics) = lower_interface(&decl);
    assert_eq!(lowered.name, "Cluster");
    let slots: Vec<(usize, u32)> = lowered.slots.iter().map(|s| (s.member, s.ordinal)).collect();
    assert_eq!(slots, vec![(0, 1), (2, 2)]);
    assert_eq!(codes(&diagnostics), vec!["RIDL-402"]);
    assert_eq!(diagnostics[0].range, range(50, 55));
}

#[test]
fn a_service_naming_no_interface_is_ridl_141() {
    let decl = ServiceDecl {
        name: "veh.cluster".to_string(),
        segments: vec![("veh".to_string(), range(8, 11)), ("cluster".to_string(), range(12, 19))],
        docs: Vec::new(),
        shape: ServiceShape::Named { written: "Missing".to_string(), range: range(22, 29), lookup: None },
    };
    let (lowered, diagnostics) = lower_service(&decl);
    assert_eq!(codes(&diagnostics), vec!["RIDL-141"]);
    assert_eq!(diagnostics[0].range, range(22, 29));
    assert_eq!(lowered.shape, LoweredShape::InterfaceRef("Missing".to_string()));
}
