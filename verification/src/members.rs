//! Interaction members: stream types, the payload and placement checks of
//! `final` and `event`, the shape checks of `command` and `query`, and the
//! interface a `service` names.

use vstd::prelude::*;

use crate::check::{attrs_rule, check_member_attrs, Attribute, MemberKind};
use crate::chars::str_eq;
use crate::diag::{diag_messages, diag_view, diags_view, DiagCode, Diagnostic, Severity, DETACHED};
use crate::fallible::{
    lower_params, lower_query_return, params_rule, params_view, return_rule, return_view, LoweredParam,
    LoweredReturn, ParamDecl, ReturnShape,
};
use crate::field_types::{
    field_diags, field_lowered, lower_field_type, path_diags, path_message, path_reference, range_of, resolve_type_path,
    syntax_wf, FieldTypeSyntax, PathType,
};
use crate::init::{FieldKind, FieldType, PrimitiveType, StreamElement};
use crate::interactions::reject_timing;
use crate::resolve::{SDiag, SymbolKind};
use crate::syntax::TextRange;

verus! {

/// The diagnostic of `code` at `range`, when there is a range.
pub open spec fn error_at(code: DiagCode, range: Option<TextRange>) -> Seq<SDiag> {
    match range {
        Some(r) => seq![(code, Severity::Error, DETACHED, r)],
        None => Seq::empty(),
    }
}

fn push_all(out: &mut Vec<Diagnostic>, more: Vec<Diagnostic>)
    ensures
        diags_view(final(out)@) == diags_view(old(out)@) + diags_view(more@),
{
    let mut more = more;
    let ghost a = old(out)@;
    let ghost b = more@;
    out.append(&mut more);
    assert(diags_view(out@) =~= diags_view(a) + diags_view(b));
}

fn push_error(out: &mut Vec<Diagnostic>, code: DiagCode, range: Option<TextRange>, text: &str)
    ensures
        diags_view(final(out)@) == diags_view(old(out)@) + error_at(code, range),
{
    let ghost before = diags_view(out@);
    match range {
        Some(r) => {
            let d = Diagnostic { code, severity: Severity::Error, message: String::from_str(text), file: DETACHED, range: r };
            out.push(d);
            assert(diags_view(out@) =~= before + error_at(code, range));
        },
        None => {
            assert(diags_view(out@) =~= before + error_at(code, range));
        },
    }
}

fn push_one(out: &mut Vec<Diagnostic>, d: Option<Diagnostic>)
    ensures
        diags_view(final(out)@) == diags_view(old(out)@) + (match d {
            Some(x) => seq![diag_view(x)],
            None => Seq::<SDiag>::empty(),
        }),
        diag_messages(final(out)@) == diag_messages(old(out)@) + (match d {
            Some(x) => seq![x.message@],
            None => Seq::<Seq<char>>::empty(),
        }),
{
    let ghost before = diags_view(out@);
    let ghost before_messages = diag_messages(out@);
    match d {
        Some(x) => {
            let ghost v = diag_view(x);
            let ghost m = x.message@;
            out.push(x);
            assert(diags_view(out@) =~= before + seq![v]);
            assert(diag_messages(out@) =~= before_messages + seq![m]);
        },
        None => {
            assert(diags_view(out@) =~= before + Seq::<SDiag>::empty());
            assert(diag_messages(out@) =~= before_messages + Seq::<Seq<char>>::empty());
        },
    }
}

// ==========================================================================
// Streams
// ==========================================================================

/// The element of a stream type `<T>` as written: a type path, the raw
/// `string` or `bytes` spelling, or nothing the parser recovered.
#[derive(Debug, PartialEq, Eq)]
pub enum StreamElementSyntax {
    Path(PathType),
    Str,
    Bytes,
    Missing,
}

/// Whether a path's text is a single primitive keyword.
pub open spec fn is_primitive_keyword(t: Seq<char>) -> bool {
    ||| t == "boolean"@
    ||| t == "integer"@
    ||| t == "float"@
    ||| t == "string"@
    ||| t == "bytes"@
}

/// How a stream lowers: a path that is a primitive keyword lowers its text
/// as written; any other path the reference it resolves to
/// ([`path_reference`]); `string` and `bytes` that primitive; a missing
/// element none.
pub open spec fn stream_lowered(e: StreamElementSyntax, ft: FieldType) -> bool {
    &&& !ft.optional
    &&& match e {
        StreamElementSyntax::Path(p) => {
            let text = if is_primitive_keyword(p.written@) {
                p.written@
            } else {
                path_reference(p)
            };
            ft.kind matches Some(FieldKind::Stream(Some(StreamElement::Named(n)))) && n@ == text
        },
        StreamElementSyntax::Str => ft.kind == Some(
            FieldKind::Stream(Some(StreamElement::Primitive(PrimitiveType::String))),
        ),
        StreamElementSyntax::Bytes => ft.kind == Some(
            FieldKind::Stream(Some(StreamElement::Primitive(PrimitiveType::Bytes))),
        ),
        StreamElementSyntax::Missing => ft.kind == Some(FieldKind::Stream(None)),
    }
}

/// RIDL-202 at a stream element that is a primitive keyword — an element is
/// a named type or the raw `string`/`bytes` spelling; a path otherwise
/// draws what resolving it draws ([`path_diags`]).
pub open spec fn stream_diags(e: StreamElementSyntax) -> Seq<SDiag> {
    match e {
        StreamElementSyntax::Path(p) => if is_primitive_keyword(p.written@) {
            seq![(DiagCode::RIDL_202, Severity::Error, DETACHED, p.range)]
        } else {
            path_diags(p)
        },
        _ => Seq::empty(),
    }
}

/// The messages of [`stream_diags`]: a primitive element names itself; an
/// element that names no type says what it names ([`path_message`]).
pub open spec fn stream_messages(e: StreamElementSyntax) -> Seq<Seq<char>> {
    match e {
        StreamElementSyntax::Path(p) => if is_primitive_keyword(p.written@) {
            seq![
                "`"@ + p.written@
                    + "` is a primitive, and a stream element is a named type or the raw `string`/`bytes` spelling — declare a `type` for it, so the element carries the range, unit and bounds one element promises (ridl §12.2)"@,
            ]
        } else if path_diags(p).len() > 0 {
            seq![path_message(p)]
        } else {
            Seq::empty()
        },
        _ => Seq::empty(),
    }
}

/// Lowers a stream type `<T>` ([`stream_lowered`], [`stream_diags`]).
pub fn lower_stream(element: StreamElementSyntax) -> (r: (FieldType, Vec<Diagnostic>))
    ensures
        stream_lowered(element, r.0),
        diags_view(r.1@) == stream_diags(element),
        diag_messages(r.1@) == stream_messages(element),
{
    let mut out: Vec<Diagnostic> = Vec::new();
    let lowered = match element {
        StreamElementSyntax::Path(p) => {
            let keyword = {
                let w = p.written.as_str();
                str_eq(w, "boolean") || str_eq(w, "integer") || str_eq(w, "float") || str_eq(w, "string")
                    || str_eq(w, "bytes")
            };
            if keyword {
                let mut message = String::from_str("`");
                message.append(p.written.as_str());
                message.append(
                    "` is a primitive, and a stream element is a named type or the raw `string`/`bytes` spelling — declare a `type` for it, so the element carries the range, unit and bounds one element promises (ridl §12.2)",
                );
                out.push(
                    Diagnostic { code: DiagCode::RIDL_202, severity: Severity::Error, message, file: DETACHED, range: p.range },
                );
                Some(StreamElement::Named(p.written))
            } else {
                let (target, d) = resolve_type_path(p);
                push_one(&mut out, d);
                match target {
                    Ok(n) => Some(StreamElement::Named(n.canonical)),
                    Err(written) => Some(StreamElement::Named(written)),
                }
            }
        },
        StreamElementSyntax::Str => Some(StreamElement::Primitive(PrimitiveType::String)),
        StreamElementSyntax::Bytes => Some(StreamElement::Primitive(PrimitiveType::Bytes)),
        StreamElementSyntax::Missing => None,
    };
    assert(diags_view(out@) =~= stream_diags(element));
    assert(diag_messages(out@) =~= stream_messages(element));
    (FieldType { optional: false, kind: Some(FieldKind::Stream(lowered)) }, out)
}

// ==========================================================================
// `final` and `event`
// ==========================================================================

/// How a `final`'s payload lowers: a type path to a reference to the type
/// it names; an array through the field-type lowering; any other shape,
/// and a missing payload, to none.
pub open spec fn final_payload_lowered(p: Option<FieldTypeSyntax>, out: Option<FieldType>) -> bool {
    match p {
        Some(FieldTypeSyntax::Path(path)) => {
            &&& out matches Some(ft)
            &&& !out->0.optional
            &&& out->0.kind matches Some(FieldKind::Named(n)) && n@ == path_reference(path)
        },
        Some(s) => if s is Array {
            out matches Some(ft) && field_lowered(s, false, ft)
        } else {
            out is None
        },
        None => out is None,
    }
}

/// The diagnostics of a `final`'s payload: those of a type path or of the
/// array's lowering; FORM-102 at any other shape.
pub open spec fn final_payload_diags(p: Option<FieldTypeSyntax>) -> Seq<SDiag> {
    match p {
        Some(FieldTypeSyntax::Path(path)) => path_diags(path),
        Some(s) => if s is Array {
            field_diags(s, false)
        } else {
            seq![(DiagCode::FORM_102, Severity::Error, DETACHED, range_of(s))]
        },
        None => Seq::empty(),
    }
}

/// The diagnostics of a `final`, in order: its payload's; FORM-102 at an
/// init value; RIDL-106 at a timing annotation, then at an attribute block;
/// then the attribute checks ([`attrs_rule`]).
pub open spec fn final_diags(
    payload: Option<FieldTypeSyntax>,
    init: Option<TextRange>,
    timing: Option<TextRange>,
    block: Option<TextRange>,
    attrs: Seq<Attribute>,
) -> Seq<SDiag> {
    final_payload_diags(payload) + error_at(DiagCode::FORM_102, init) + error_at(DiagCode::RIDL_106, timing)
        + error_at(DiagCode::RIDL_106, block) + attrs_rule(attrs, attrs.len() as int, MemberKind::Final).0
}

/// Lowers a `final` ([`final_payload_lowered`], [`final_diags`]): `init`,
/// `timing` and `block` are where an init value, a timing annotation and
/// an attribute block stand, when written; `attrs` are the attributes of
/// that block.
pub fn lower_final(
    payload: Option<FieldTypeSyntax>,
    init: Option<TextRange>,
    timing: Option<TextRange>,
    block: Option<TextRange>,
    attrs: &[Attribute],
) -> (r: (Option<FieldType>, Vec<Diagnostic>))
    requires
        payload matches Some(s) ==> syntax_wf(s),
    ensures
        final_payload_lowered(payload, r.0),
        diags_view(r.1@) == final_diags(payload, init, timing, block, attrs@),
{
    let ghost given = payload;
    let mut out: Vec<Diagnostic> = Vec::new();
    let lowered = match payload {
        Some(FieldTypeSyntax::Path(path)) => {
            let (target, d) = resolve_type_path(path);
            push_one(&mut out, d);
            let reference = match target {
                Ok(n) => n.canonical,
                Err(written) => written,
            };
            Some(FieldType { optional: false, kind: Some(FieldKind::Named(reference)) })
        },
        Some(s) => {
            if let FieldTypeSyntax::Array { .. } = s {
                let (l, more) = lower_field_type(s, false);
                push_all(&mut out, more);
                Some(l.ty)
            } else {
                let range = field_range(&s);
                push_error(&mut out, DiagCode::FORM_102, Some(range), "final payload must be a named type or an array");
                None
            }
        },
        None => None,
    };
    assert(diags_view(out@) =~= final_payload_diags(given));
    push_error(&mut out, DiagCode::FORM_102, init, "init value not valid on final");
    match timing {
        Some(t) => {
            let d = reject_timing(MemberKind::Final, t);
            push_one(&mut out, Some(d));
        },
        None => {},
    }
    push_error(
        &mut out,
        DiagCode::RIDL_106,
        block,
        "an attribute block is not valid on `final` — a `final` has no timing to override and no contract to state, because it is provisioned externally and never changes while the software runs (ridl §8)",
    );
    let ghost head = diags_view(out@);
    let more = check_member_attrs(attrs, MemberKind::Final);
    push_all(&mut out, more);
    assert(diags_view(out@) =~= final_diags(given, init, timing, block, attrs@));
    (lowered, out)
}

fn field_range(s: &FieldTypeSyntax) -> (r: TextRange)
    ensures
        r == range_of(*s),
{
    match s {
        FieldTypeSyntax::Optional { range, .. } => *range,
        FieldTypeSyntax::Path(p) => p.range,
        FieldTypeSyntax::Primitive { range, .. } => *range,
        FieldTypeSyntax::Tuple { range, .. } => *range,
        FieldTypeSyntax::Array { range, .. } => *range,
        FieldTypeSyntax::Dictionary { range, .. } => *range,
    }
}

/// An `event`'s payload: the reference a type path resolves to, with what
/// resolving it draws; FORM-102 at any other shape, which lowers no
/// reference (empty), as a missing payload does.
pub open spec fn event_payload_rule(p: Option<FieldTypeSyntax>) -> (Seq<char>, Seq<SDiag>) {
    match p {
        Some(FieldTypeSyntax::Path(path)) => (path_reference(path), path_diags(path)),
        Some(s) => (Seq::empty(), seq![(DiagCode::FORM_102, Severity::Error, DETACHED, range_of(s))]),
        None => (Seq::empty(), Seq::empty()),
    }
}

/// Lowers an `event`'s payload ([`event_payload_rule`]); FORM-102 at an
/// init value, which an event never carries, then the attribute checks.
pub fn lower_event(payload: Option<FieldTypeSyntax>, init: Option<TextRange>, attrs: &[Attribute]) -> (r: (
    String,
    Vec<Diagnostic>,
))
    ensures
        r.0@ == event_payload_rule(payload).0,
        diags_view(r.1@) == event_payload_rule(payload).1 + error_at(DiagCode::FORM_102, init) + attrs_rule(
            attrs@,
            attrs.len() as int,
            MemberKind::Event,
        ).0,
{
    let ghost given = payload;
    let mut out: Vec<Diagnostic> = Vec::new();
    let reference = match payload {
        Some(FieldTypeSyntax::Path(path)) => {
            let (target, d) = resolve_type_path(path);
            push_one(&mut out, d);
            match target {
                Ok(n) => n.canonical,
                Err(written) => written,
            }
        },
        Some(s) => {
            let range = field_range(&s);
            push_error(&mut out, DiagCode::FORM_102, Some(range), "event payload must be a named type");
            String::new()
        },
        None => String::new(),
    };
    assert(diags_view(out@) =~= event_payload_rule(given).1);
    push_error(&mut out, DiagCode::FORM_102, init, "init value not valid on event");
    let more = check_member_attrs(attrs, MemberKind::Event);
    push_all(&mut out, more);
    (reference, out)
}

// ==========================================================================
// `command` and `query`
// ==========================================================================

/// Lowers a `command`'s shape: RIDL-104 at a return type (a command always
/// returns `()`), RIDL-106 at a timing annotation, then its parameters
/// ([`params_rule`]) and its attribute checks ([`attrs_rule`]), in that
/// order.
pub fn lower_command(
    return_type: Option<TextRange>,
    timing: Option<TextRange>,
    params: &[ParamDecl],
    attrs: &[Attribute],
) -> (r: (Vec<LoweredParam>, Vec<Diagnostic>))
    ensures
        params_view(r.0@) == params_rule(params@, params.len() as int).0,
        diags_view(r.1@) == error_at(DiagCode::RIDL_104, return_type) + error_at(DiagCode::RIDL_106, timing)
            + params_rule(params@, params.len() as int).1 + attrs_rule(attrs@, attrs.len() as int, MemberKind::Command).0,
{
    let mut out: Vec<Diagnostic> = Vec::new();
    push_error(
        &mut out,
        DiagCode::RIDL_104,
        return_type,
        "return type on command — a command always returns `()`; use `query` for a result",
    );
    match timing {
        Some(t) => push_one(&mut out, Some(reject_timing(MemberKind::Command, t))),
        None => {},
    }
    let (lowered, more) = lower_params(params, "command");
    push_all(&mut out, more);
    push_all(&mut out, check_member_attrs(attrs, MemberKind::Command));
    assert(diags_view(out@) =~= error_at(DiagCode::RIDL_104, return_type) + error_at(DiagCode::RIDL_106, timing)
        + params_rule(params@, params.len() as int).1 + attrs_rule(attrs@, attrs.len() as int, MemberKind::Command).0);
    (lowered, out)
}

/// Lowers a `query`'s shape: RIDL-106 at a timing annotation, then its
/// parameters ([`params_rule`]), its return standing at `return_range`
/// ([`return_rule`]), and its attribute checks ([`attrs_rule`]), in that
/// order.
pub fn lower_query(
    timing: Option<TextRange>,
    params: &[ParamDecl],
    return_shape: &ReturnShape,
    return_range: TextRange,
    attrs: &[Attribute],
) -> (r: (Vec<LoweredParam>, Option<LoweredReturn>, Vec<Diagnostic>))
    ensures
        params_view(r.0@) == params_rule(params@, params.len() as int).0,
        match r.1 {
            Some(l) => return_rule(*return_shape, return_range).0 == Some(return_view(l)),
            None => return_rule(*return_shape, return_range).0 is None,
        },
        diags_view(r.2@) == error_at(DiagCode::RIDL_106, timing) + params_rule(params@, params.len() as int).1
            + return_rule(*return_shape, return_range).1 + attrs_rule(attrs@, attrs.len() as int, MemberKind::Query).0,
{
    let mut out: Vec<Diagnostic> = Vec::new();
    match timing {
        Some(t) => push_one(&mut out, Some(reject_timing(MemberKind::Query, t))),
        None => {},
    }
    assert(diags_view(out@) =~= error_at(DiagCode::RIDL_106, timing));
    let (lowered, more) = lower_params(params, "query");
    push_all(&mut out, more);
    let (ret, more) = lower_query_return(return_shape, return_range);
    push_all(&mut out, more);
    push_all(&mut out, check_member_attrs(attrs, MemberKind::Query));
    assert(diags_view(out@) =~= error_at(DiagCode::RIDL_106, timing) + params_rule(params@, params.len() as int).1
        + return_rule(*return_shape, return_range).1 + attrs_rule(attrs@, attrs.len() as int, MemberKind::Query).0);
    (lowered, ret, out)
}

// ==========================================================================
// Services
// ==========================================================================

/// Resolves the interface a `service` names after `:`, written as
/// `written` at `range`, looked up to its canonical reference and kind when
/// it names anything: an interface lowers to its reference; anything else
/// draws RIDL-141 at the reference — a service publishes an interface —
/// and lowers to the reference it does name, or the text as written.
pub fn lower_service_ref(written: String, range: TextRange, lookup: Option<(String, SymbolKind)>) -> (r: (
    String,
    Option<Diagnostic>,
))
    ensures
        match lookup {
            Some((canonical, kind)) => r.0 == canonical && (r.1 is None <==> kind == SymbolKind::Interface),
            None => r.0 == written && r.1 is Some,
        },
        r.1 matches Some(d) ==> diag_view(d) == (DiagCode::RIDL_141, Severity::Error, DETACHED, range)
            && d.message@ == "`"@ + written@ + if lookup is Some {
            "` is not an interface, and a service publishes an interface — name the interface that carries these interactions, or give the service an inline `{ … }` body of its own (ridl §14.5)"@
        } else {
            "` does not resolve to anything this package can see, and a service publishes an interface — declare or import the interface, or give the service an inline `{ … }` body of its own (ridl §14.5)"@
        },
{
    let mut message = String::from_str("`");
    message.append(written.as_str());
    match lookup {
        Some((canonical, kind)) => {
            if kind == SymbolKind::Interface {
                (canonical, None)
            } else {
                message.append(
                    "` is not an interface, and a service publishes an interface — name the interface that carries these interactions, or give the service an inline `{ … }` body of its own (ridl §14.5)",
                );
                (canonical, Some(Diagnostic { code: DiagCode::RIDL_141, severity: Severity::Error, message, file: DETACHED, range }))
            }
        },
        None => {
            message.append(
                "` does not resolve to anything this package can see, and a service publishes an interface — declare or import the interface, or give the service an inline `{ … }` body of its own (ridl §14.5)",
            );
            (written, Some(Diagnostic { code: DiagCode::RIDL_141, severity: Severity::Error, message, file: DETACHED, range }))
        },
    }
}

} // verus!
