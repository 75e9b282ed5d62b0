//! The failure channel: result unions, query returns, parameters.

use ridl_sem::decls::{ArmType, UnionMember};
use ridl_sem::fallible::{
    lower_params, lower_query_return, union_is_result, LoweredParam, LoweredParamType,
    LoweredReturn, ParamDecl, ParamType, RefSymbol, ReturnShape, TypeRef,
};
use ridl_sem::diag::{Diagnostic, Severity};
use ridl_sem::resolve::SymbolKind;
use ridl_sem::syntax::TextRange;

fn at(start: usize) -> TextRange {
    TextRange { start, end: start + 5 }
}

fn codes(diagnostics: &[Diagnostic]) -> Vec<&str> {
    diagnostics.iter().map(|d| d.code.as_str()).collect()
}

fn type_ref(name: &str, is_error: bool, start: usize) -> TypeRef {
    TypeRef {
        canonical: name.to_string(),
        range: at(start),
        symbol: Some(RefSymbol {
            name: name.to_string(),
            is_error,
            is_result: false,
        }),
    }
}

fn arm(name: &str, found: Option<(SymbolKind, bool)>) -> UnionMember {
    UnionMember::Arm {
        name: Some(name.to_string()),
        name_range: at(1),
        ty: ArmType::Named {
            written: name.to_string(),
            range: at(2),
            resolved: None,
            found,
        },
    }
}

#[test]
fn fallible_query_checks_clean_and_lowers_canonical_arms() {
    let shape = ReturnShape::Fallible {
        ok: Some(type_ref("CalReport", false, 30)),
        err: Some(type_ref("veh.common.CalError", true, 42)),
    };
    let (lowered, diagnostics) = lower_query_return(&shape, at(30));
    assert!(diagnostics.is_empty(), "{diagnostics:?}");
    assert_eq!(
        lowered,
        Some(LoweredReturn::Fallible {
            ok: "CalReport".to_string(),
            err: "veh.common.CalError".to_string()
        })
    );
}

#[test]
fn swapped_arms_success_arm_is_error_draws_ridl_303() {
    let shape = ReturnShape::Fallible {
        ok: Some(type_ref("CalError", true, 30)),
        err: Some(type_ref("CalReport", false, 41)),
    };
    let (_, diagnostics) = lower_query_return(&shape, at(30));
    assert_eq!(codes(&diagnostics), vec!["RIDL-303"]);
    assert!(
        diagnostics[0].message.contains("success arm") && diagnostics[0].message.contains("is an error type"),
        "got: {}",
        diagnostics[0].message
    );
    assert_eq!(diagnostics[0].range, at(30));
}

#[test]
fn right_arm_not_error_draws_ridl_303() {
    let shape = ReturnShape::Fallible {
        ok: Some(type_ref("CalReport", false, 30)),
        err: Some(type_ref("Speed", false, 42)),
    };
    let (_, diagnostics) = lower_query_return(&shape, at(30));
    assert_eq!(codes(&diagnostics), vec!["RIDL-303"]);
    assert!(diagnostics[0].message.contains("is not an error type"), "got: {}", diagnostics[0].message);
    assert_eq!(diagnostics[0].range, at(42));
}

#[test]
fn bare_error_type_return_draws_ridl_303() {
    let (lowered, diagnostics) = lower_query_return(&ReturnShape::Named(type_ref("CalError", true, 30)), at(30));
    assert_eq!(codes(&diagnostics), vec!["RIDL-303"]);
    // It still lowers honestly as a named value.
    assert_eq!(lowered, Some(LoweredReturn::Named("CalError".to_string())));
}

#[test]
fn both_arms_error_draws_ridl_303() {
    let shape = ReturnShape::Fallible {
        ok: Some(type_ref("CalError", true, 30)),
        err: Some(type_ref("CalError", true, 41)),
    };
    let (_, diagnostics) = lower_query_return(&shape, at(30));
    assert_eq!(codes(&diagnostics), vec!["RIDL-303"]);
    assert!(diagnostics[0].message.contains("success arm"), "got: {}", diagnostics[0].message);
}

#[test]
fn ridl_105_query_returning_unit() {
    let (lowered, diagnostics) = lower_query_return(&ReturnShape::Unit, at(12));
    assert_eq!(codes(&diagnostics), vec!["RIDL-105"]);
    assert_eq!(lowered, None);
    let (good, diagnostics) = lower_query_return(&ReturnShape::Named(type_ref("Speed", false, 12)), at(12));
    assert!(diagnostics.is_empty(), "got: {diagnostics:?}");
    assert_eq!(good, Some(LoweredReturn::Named("Speed".to_string())));
}

#[test]
fn an_unresolved_arm_lowers_as_written_without_a_verdict() {
    let shape = ReturnShape::Fallible {
        ok: Some(TypeRef {
            canonical: "Missing".to_string(),
            range: at(30),
            symbol: None,
        }),
        err: None,
    };
    let (lowered, diagnostics) = lower_query_return(&shape, at(30));
    assert!(diagnostics.is_empty());
    assert_eq!(
        lowered,
        Some(LoweredReturn::Fallible {
            ok: "Missing".to_string(),
            err: String::new()
        })
    );
}

#[test]
fn error_typed_param_draws_ridl_304() {
    let params = vec![ParamDecl {
        name: Some("e".to_string()),
        ty: ParamType::Named(type_ref("CalError", true, 14)),
    }];
    let (lowered, diagnostics) = lower_params(&params, "command");
    assert_eq!(codes(&diagnostics), vec!["RIDL-304"]);
    assert_eq!(diagnostics[0].severity, Severity::Warning);
    assert_eq!(
        diagnostics[0].message,
        "command parameter `e` has error type `CalError` — failure flowing toward a provider"
    );
    assert_eq!(
        lowered,
        vec![LoweredParam {
            name: "e".to_string(),
            ty: Some(LoweredParamType::Named("CalError".to_string()))
        }]
    );
}

#[test]
fn result_union_param_draws_ridl_304() {
    let mut result = type_ref("CalResult", false, 14);
    result.symbol.as_mut().unwrap().is_result = true;
    let params = vec![
        ParamDecl {
            name: Some("r".to_string()),
            ty: ParamType::Named(result),
        },
        ParamDecl {
            name: Some("axle".to_string()),
            ty: ParamType::Named(type_ref("Axle", false, 30)),
        },
    ];
    let (_, diagnostics) = lower_params(&params, "query");
    assert_eq!(codes(&diagnostics), vec!["RIDL-304"]);
    assert!(diagnostics[0].message.contains("result-union type `CalResult`"));
}

#[test]
fn a_param_that_is_neither_named_nor_a_stream_is_form_102() {
    let params = vec![
        ParamDecl {
            name: Some("pair".to_string()),
            ty: ParamType::Other(at(9)),
        },
        ParamDecl {
            name: None,
            ty: ParamType::Stream,
        },
    ];
    let (lowered, diagnostics) = lower_params(&params, "query");
    assert_eq!(codes(&diagnostics), vec!["FORM-102"]);
    assert_eq!(diagnostics[0].message, "query parameter must be a named type or a stream");
    assert_eq!(lowered[0].ty, None);
    assert_eq!(lowered[1].name, "");
    assert_eq!(lowered[1].ty, Some(LoweredParamType::Stream));
}

#[test]
fn a_result_union_has_one_error_arm_and_one_success_arm() {
    let members = vec![
        arm("page", Some((SymbolKind::Struct, false))),
        arm("err", Some((SymbolKind::Enum, true))),
    ];
    assert!(union_is_result(SymbolKind::Union, false, &members));
    // An error union is never a result union.
    assert!(!union_is_result(SymbolKind::Union, true, &members));
    // Nor is anything but a union.
    assert!(!union_is_result(SymbolKind::Struct, false, &members));
    // Two success arms.
    let two = vec![
        arm("a", Some((SymbolKind::Struct, false))),
        arm("b", Some((SymbolKind::Struct, false))),
        arm("err", Some((SymbolKind::Enum, true))),
    ];
    assert!(!union_is_result(SymbolKind::Union, false, &two));
    // An arm that is not found spoils it.
    let unresolved = vec![arm("page", None), arm("err", Some((SymbolKind::Enum, true)))];
    assert!(!union_is_result(SymbolKind::Union, false, &unresolved));
}
