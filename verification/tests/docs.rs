//! Doc-comment tag scanning.

use ridl_sem::docs::{scan, DocInfo};

fn tokens(texts: &[&str]) -> Vec<String> {
    texts.iter().map(|text| text.to_string()).collect()
}

#[test]
fn plain_line_comment_is_the_body() {
    let info = scan(&tokens(&["/// Vehicle speed over ground"]));
    assert_eq!(info.doc, "Vehicle speed over ground");
    assert!(info.labels.is_empty());
    assert_eq!(info.deprecated, None);
}

#[test]
fn multiple_line_comments_join_with_newlines() {
    let info = scan(&tokens(&["/// first line", "/// second line"]));
    assert_eq!(info.doc, "first line\nsecond line");
}

#[test]
fn labels_tag_splits_on_commas() {
    let info = scan(&tokens(&["/// A tag", "/// @labels SAFETY(D), CALIBRATION"]));
    assert_eq!(info.doc, "A tag");
    assert_eq!(info.labels, vec!["SAFETY(D)", "CALIBRATION"]);
}

#[test]
fn deprecated_with_quoted_reason() {
    let info = scan(&tokens(&[r#"/// @deprecated "use Speed instead""#]));
    assert_eq!(info.deprecated.as_deref(), Some("use Speed instead"));
    assert!(!info.deprecated_missing_reason());
}

#[test]
fn deprecated_without_reason_is_flagged() {
    let info = scan(&tokens(&["/// @deprecated"]));
    assert_eq!(info.deprecated.as_deref(), Some(""));
    assert!(
        info.deprecated_missing_reason(),
        "a bare @deprecated has no reason string (TYPL-405)"
    );
}

#[test]
fn see_tag_is_passed_through_without_body_or_error() {
    let info = scan(&tokens(&["/// @see veh.common.Torque"]));
    assert_eq!(info.doc, "");
    assert!(info.labels.is_empty());
    assert_eq!(info.deprecated, None);
}

#[test]
fn block_comment_strips_the_star_gutter() {
    let info = scan(&tokens(&["/**\n * Line one\n * Line two\n */"]));
    assert_eq!(info.doc, "Line one\nLine two");
}

#[test]
fn tag_lookalike_is_kept_in_the_body() {
    // `@seealso` is not the `@see` tag — it stays in the prose body.
    let info = scan(&tokens(&["/// @seealso not a tag"]));
    assert_eq!(info.doc, "@seealso not a tag");
}

#[test]
fn bare_deprecated_value_is_the_reason_and_a_later_tag_wins() {
    let info = scan(&tokens(&["/// @deprecated old", "/// @deprecated \"new\""]));
    assert_eq!(info.deprecated.as_deref(), Some("new"));
    let info = scan(&tokens(&["/// @deprecated   bare words  "]));
    assert_eq!(info.deprecated.as_deref(), Some("bare words"));
}

#[test]
fn labels_accumulate_and_empty_pieces_are_dropped() {
    let info = scan(&tokens(&["/// @labels A,, B", "/// @labels C", "/// @labels"]));
    assert_eq!(info.labels, vec!["A", "B", "C"]);
    assert_eq!(info.doc, "");
}

#[test]
fn body_is_trimmed_around_blank_lines() {
    let info = scan(&tokens(&["///", "/// text", "///   "]));
    assert_eq!(info.doc, "text");
    let info = scan(&tokens(&["/**\r\n * one\r\n *\r\n * two\r\n */"]));
    assert_eq!(info.doc, "one\n\ntwo");
}

#[test]
fn an_unrecognized_comment_shape_is_kept_trimmed() {
    let info = scan(&tokens(&["  // plain  "]));
    assert_eq!(info.doc, "// plain");
    assert_eq!(DocInfo::default().doc, "");
}

use ridl_sem::docs::{blank_line_before_definition, check_definition_envelope, DefinitionKind};
use ridl_sem::syntax::TextRange;

fn name_at() -> TextRange {
    TextRange { start: 30, end: 35 }
}

fn codes(diagnostics: &[ridl_sem::diag::Diagnostic]) -> Vec<&str> {
    diagnostics.iter().map(|d| d.code.as_str()).collect()
}

#[test]
fn deprecated_with_reason_populates_ir_without_warning() {
    let docs = tokens(&["/// @deprecated \"use Velocity\""]);
    let (info, diagnostics) =
        check_definition_envelope(DefinitionKind::Type, false, "Speed", name_at(), &docs, &Some("\n".to_string()));
    assert!(diagnostics.is_empty(), "got: {diagnostics:?}");
    assert_eq!(info.deprecated.as_deref(), Some("use Velocity"));
}

#[test]
fn typl_405_deprecated_without_reason() {
    let docs = tokens(&["/// @deprecated"]);
    let (info, diagnostics) =
        check_definition_envelope(DefinitionKind::Type, false, "Speed", name_at(), &docs, &Some("\n".to_string()));
    assert_eq!(codes(&diagnostics), vec!["TYPL-405"]);
    assert_eq!(diagnostics[0].severity, ridl_sem::diag::Severity::Warning);
    assert_eq!(diagnostics[0].message, "`@deprecated` on `Speed` has no reason string");
    // The declaration is still marked deprecated, with an empty reason.
    assert_eq!(info.deprecated.as_deref(), Some(""));
}

#[test]
fn typl_404_blank_line_between_doc_and_definition() {
    let docs = tokens(&["/// Vehicle speed"]);
    let (info, diagnostics) =
        check_definition_envelope(DefinitionKind::Type, false, "Speed", name_at(), &docs, &Some("\n\n".to_string()));
    assert_eq!(codes(&diagnostics), vec!["TYPL-404"]);
    assert_eq!(diagnostics[0].severity, ridl_sem::diag::Severity::Warning);
    // The doc still attaches despite the gap.
    assert_eq!(info.doc, "Vehicle speed");
}

#[test]
fn a_blank_line_needs_a_doc_comment_and_two_newlines() {
    let docs = tokens(&["/// Vehicle speed"]);
    assert!(!blank_line_before_definition(&docs, &Some("\n  ".to_string())));
    assert!(!blank_line_before_definition(&docs, &None));
    assert!(!blank_line_before_definition(&[], &Some("\n\n\n".to_string())));
    assert!(blank_line_before_definition(&docs, &Some("\n \n".to_string())));
}

#[test]
fn error_modifier_on_a_type_or_const_is_typl_212() {
    for (kind, what) in [(DefinitionKind::Type, "type"), (DefinitionKind::Const, "const")] {
        let (_, diagnostics) = check_definition_envelope(kind, true, "X", name_at(), &[], &None);
        assert_eq!(codes(&diagnostics), vec!["TYPL-212"]);
        assert!(diagnostics[0].message.contains(&format!("on a `{what}` declaration")));
    }
    let (_, diagnostics) = check_definition_envelope(DefinitionKind::Struct, true, "X", name_at(), &[], &None);
    assert!(diagnostics.is_empty());
}
