//! Interaction members: streams, `final`, `event`, `command`, `query`, and
//! a service's named interface.

use ridl_sem::check::{Attribute, LenBound};
use ridl_sem::decls::{RangeConstraint, ScalarConstraint};
use ridl_sem::diag::{Diagnostic, Severity};
use ridl_sem::exact::ExactValue;
use ridl_sem::fallible::{LoweredParam, LoweredParamType, LoweredReturn, ParamDecl, ParamType, ReturnShape, TypeRef};
use ridl_sem::field_types::{FieldTypeSyntax, NamedType, PathType};
use ridl_sem::init::{FieldKind, FieldType, PrimitiveType, StreamElement};
use ridl_sem::layout::CollectionBound;
use ridl_sem::members::{
    lower_command, lower_event, lower_final, lower_query, lower_service_ref, lower_stream, StreamElementSyntax,
};
use ridl_sem::resolve::SymbolKind;
use ridl_sem::syntax::TextRange;

fn at(start: usize) -> TextRange {
    TextRange { start, end: start + 3 }
}

fn codes(diagnostics: &[Diagnostic]) -> Vec<&str> {
    diagnostics.iter().map(|d| d.code.as_str()).collect()
}

fn declaration(canonical: &str, kind: SymbolKind) -> NamedType {
    NamedType {
        canonical: canonical.to_string(),
        name: canonical.to_string(),
        kind,
        string_backed: false,
        bounds: None,
        string_constraint: None,
    }
}

fn path(written: &str, start: usize, lookup: Option<NamedType>) -> PathType {
    PathType { written: written.to_string(), range: at(start), lookup }
}

fn speed() -> PathType {
    path("Speed", 30, Some(declaration("Speed", SymbolKind::Type)))
}

fn version() -> FieldTypeSyntax {
    FieldTypeSyntax::Path(path("Version", 40, Some(declaration("Version", SymbolKind::Type))))
}

#[test]
fn ridl_202_stream_element_not_a_named_type() {
    let (lowered, diagnostics) = lower_stream(StreamElementSyntax::Path(path("integer", 12, None)));
    assert_eq!(codes(&diagnostics), vec!["RIDL-202"]);
    assert_eq!(diagnostics[0].range, at(12));
    assert!(diagnostics[0].message.starts_with("`integer` is a primitive"));
    assert_eq!(
        lowered.kind,
        Some(FieldKind::Stream(Some(StreamElement::Named("integer".to_string()))))
    );

    // Named elements and the raw `string`/`bytes` exception are legal.
    let (named, diagnostics) = lower_stream(StreamElementSyntax::Path(speed()));
    assert!(diagnostics.is_empty());
    assert_eq!(named.kind, Some(FieldKind::Stream(Some(StreamElement::Named("Speed".to_string())))));
    let (raw, diagnostics) = lower_stream(StreamElementSyntax::Str);
    assert!(diagnostics.is_empty());
    assert_eq!(
        raw,
        FieldType {
            optional: false,
            kind: Some(FieldKind::Stream(Some(StreamElement::Primitive(PrimitiveType::String))))
        }
    );
}

#[test]
fn stream_of_an_unknown_name_keeps_the_written_text() {
    let (lowered, diagnostics) = lower_stream(StreamElementSyntax::Path(path("Missing", 5, None)));
    assert_eq!(codes(&diagnostics), vec![""]);
    assert_eq!(diagnostics[0].message, "unknown type name `Missing`");
    assert_eq!(lowered.kind, Some(FieldKind::Stream(Some(StreamElement::Named("Missing".to_string())))));
    let (bytes, _) = lower_stream(StreamElementSyntax::Bytes);
    assert_eq!(bytes.kind, Some(FieldKind::Stream(Some(StreamElement::Primitive(PrimitiveType::Bytes)))));
    let (missing, _) = lower_stream(StreamElementSyntax::Missing);
    assert_eq!(missing.kind, Some(FieldKind::Stream(None)));
}

#[test]
fn ridl_106_timing_or_attr_block_on_final() {
    let (payload, attributed) = lower_final(
        Some(version()),
        None,
        None,
        Some(at(50)),
        &[Attribute::Key(Some("persist".to_string()), at(52))],
    );
    assert_eq!(codes(&attributed), vec!["RIDL-106", "FORM-107"]);
    assert!(
        attributed[0].message.starts_with("an attribute block is not valid on `final`"),
        "got: {}",
        attributed[0].message,
    );
    assert_eq!(payload, Some(FieldType { optional: false, kind: Some(FieldKind::Named("Version".to_string())) }));

    let (_, good) = lower_final(Some(version()), None, None, None, &[]);
    assert!(codes(&good).is_empty(), "got: {:?}", good);

    let (_, timed) = lower_final(Some(version()), None, Some(at(48)), None, &[]);
    assert_eq!(codes(&timed), vec!["RIDL-106"]);
    assert_eq!(timed[0].range, at(48));
}

#[test]
fn init_value_on_event_or_final_is_form_102() {
    let (_, on_event) = lower_event(Some(FieldTypeSyntax::Path(speed())), Some(at(36)), &[]);
    assert_eq!(codes(&on_event), vec!["FORM-102"]);
    assert_eq!(on_event[0].message, "init value not valid on event");

    let (_, on_final) = lower_final(Some(version()), Some(at(46)), None, None, &[]);
    assert_eq!(codes(&on_final), vec!["FORM-102"]);
    assert_eq!(on_final[0].message, "init value not valid on final");
}

#[test]
fn final_payload_is_a_named_type_or_an_array() {
    let array = FieldTypeSyntax::Array {
        range: at(10),
        element: Some(Box::new(version())),
        bound: Some(CollectionBound { range: true, min: ExactValue::parse("0"), max: ExactValue::parse("4") }),
    };
    let (payload, diagnostics) = lower_final(Some(array), None, None, None, &[]);
    assert!(diagnostics.is_empty());
    match payload {
        Some(FieldType { optional: false, kind: Some(FieldKind::Array { element, min: 0, max: 4 }) }) => {
            assert_eq!(element.map(|e| e.kind), Some(Some(FieldKind::Named("Version".to_string()))));
        },
        other => panic!("expected an array payload, got {other:?}"),
    }

    let inline = FieldTypeSyntax::Primitive {
        range: at(10),
        primitive: PrimitiveType::String,
        constraint: Some(ScalarConstraint {
            numeric: RangeConstraint { range: at(16), min: None, max: None, step: None },
            len: Some(LenBound { min: Some(1), max: Some(4), range: true }),
            pattern: None,
        }),
    };
    let (payload, diagnostics) = lower_final(Some(inline), None, None, None, &[]);
    assert_eq!(codes(&diagnostics), vec!["FORM-102"]);
    assert_eq!(diagnostics[0].message, "final payload must be a named type or an array");
    assert_eq!(payload, None);
}

#[test]
fn event_payload_must_be_a_named_type() {
    let (payload, diagnostics) = lower_event(Some(FieldTypeSyntax::Path(speed())), None, &[]);
    assert!(diagnostics.is_empty());
    assert_eq!(payload, "Speed");

    let tuple = FieldTypeSyntax::Tuple { range: at(20), fields: vec![] };
    let (payload, diagnostics) = lower_event(Some(tuple), None, &[]);
    assert_eq!(codes(&diagnostics), vec!["FORM-102"]);
    assert_eq!(diagnostics[0].message, "event payload must be a named type");
    assert_eq!(diagnostics[0].range, at(20));
    assert_eq!(payload, "");

    // An event takes no contract.
    let (_, diagnostics) = lower_event(Some(FieldTypeSyntax::Path(speed())), None, &[Attribute::Require(at(60))]);
    assert_eq!(codes(&diagnostics), vec!["RIDL-301"]);
}

#[test]
fn ridl_104_return_type_on_command() {
    let (_, bad) = lower_command(Some(at(24)), None, &[], &[]);
    assert_eq!(codes(&bad), vec!["RIDL-104"]);
    assert_eq!(bad[0].severity, Severity::Error);
    assert_eq!(
        bad[0].message,
        "return type on command — a command always returns `()`; use `query` for a result"
    );

    let (_, good) = lower_command(None, None, &[], &[]);
    assert!(codes(&good).is_empty(), "got: {:?}", good);
}

#[test]
fn command_checks_come_in_source_order() {
    let params = vec![ParamDecl { name: Some("t".to_string()), ty: ParamType::Other(at(30)) }];
    let (lowered, diagnostics) =
        lower_command(Some(at(10)), Some(at(20)), &params, &[Attribute::Ensure(at(40))]);
    assert_eq!(codes(&diagnostics), vec!["RIDL-104", "RIDL-106", "FORM-102", "RIDL-302"]);
    assert_eq!(lowered, vec![LoweredParam { name: "t".to_string(), ty: None }]);
}

#[test]
fn query_lowers_its_parameters_and_return() {
    let params = vec![ParamDecl {
        name: Some("at".to_string()),
        ty: ParamType::Named(TypeRef { canonical: "Speed".to_string(), range: at(8), symbol: None }),
    }];
    let ret = ReturnShape::Named(TypeRef { canonical: "Speed".to_string(), range: at(20), symbol: None });
    let (lowered, lowered_return, diagnostics) = lower_query(Some(at(30)), &params, &ret, at(20), &[]);
    assert_eq!(codes(&diagnostics), vec!["RIDL-106"]);
    assert_eq!(
        lowered,
        vec![LoweredParam { name: "at".to_string(), ty: Some(LoweredParamType::Named("Speed".to_string())) }]
    );
    assert_eq!(lowered_return, Some(LoweredReturn::Named("Speed".to_string())));

    let (_, lowered_return, diagnostics) = lower_query(None, &[], &ReturnShape::Unit, at(20), &[]);
    assert_eq!(codes(&diagnostics), vec!["RIDL-105"]);
    assert_eq!(lowered_return, None);
}

#[test]
fn ridl_141_service_names_a_type_not_an_interface() {
    let (shape, diagnostic) =
        lower_service_ref("Speed".to_string(), at(25), Some(("Speed".to_string(), SymbolKind::Type)));
    let d = diagnostic.expect("a type is not an interface");
    assert_eq!(d.code.as_str(), "RIDL-141");
    assert_eq!(d.range, at(25));
    // The service still lowers — a diagnostic does not suppress the shape.
    assert_eq!(shape, "Speed");
}

#[test]
fn service_naming_an_interface_lowers_its_reference() {
    let (shape, diagnostic) = lower_service_ref(
        "CruiseControl".to_string(),
        at(25),
        Some(("CruiseControl".to_string(), SymbolKind::Interface)),
    );
    assert!(diagnostic.is_none());
    assert_eq!(shape, "CruiseControl");

    let (shape, diagnostic) = lower_service_ref("Nowhere".to_string(), at(25), None);
    assert_eq!(shape, "Nowhere");
    assert!(diagnostic.map(|d| d.message).unwrap_or_default().contains("does not resolve"));
}
