//! The failure channel: result unions, the shapes a query may return
//! (RIDL-105, RIDL-303), and parameters that send failure toward a provider
//! (RIDL-304).

use vstd::prelude::*;

use crate::decls::{ArmType, UnionMember};
use crate::diag::{diag_messages, diags_view, DiagCode, Diagnostic, Severity, DETACHED};
use crate::resolve::{SDiag, SymbolKind};
use crate::syntax::TextRange;

verus! {

// ==========================================================================
// Result unions
// ==========================================================================

/// How one union member bears on whether the union is a result union: a
/// tombstone does not bear on it; an arm whose type is missing, primitive
/// or not found spoils it; an arm whose type is found counts as an error
/// arm or a success arm by that type's `error` modifier.
pub open spec fn arm_bearing(m: UnionMember) -> Option<Option<bool>> {
    match m {
        UnionMember::Reserved(_) => None,
        UnionMember::Arm { ty, .. } => match ty {
            ArmType::Named { found: Some((_, is_error)), .. } => Some(Some(is_error)),
            _ => Some(None),
        },
    }
}

/// The error arms and success arms among the first `n` members, or `None`
/// once an arm has spoiled the count.
pub open spec fn arm_counts(members: Seq<UnionMember>, n: int) -> Option<(nat, nat)>
    decreases n,
{
    if n <= 0 {
        Some((0, 0))
    } else {
        match arm_counts(members, n - 1) {
            None => None,
            Some((e, s)) => match arm_bearing(members[n - 1]) {
                None => Some((e, s)),
                Some(None) => None,
                Some(Some(true)) => Some((e + 1, s)),
                Some(Some(false)) => Some((e, s + 1)),
            },
        }
    }
}

/// A result union: a union that is not itself an error type, whose arms
/// all name found types, exactly one an error type and one a success type.
pub open spec fn result_union_rule(kind: SymbolKind, is_error: bool, members: Seq<UnionMember>) -> bool {
    kind == SymbolKind::Union && !is_error && arm_counts(members, members.len() as int) == Some((1nat, 1nat))
}

proof fn lemma_spoiled_stays(members: Seq<UnionMember>, a: int, b: int)
    requires
        0 <= a <= b,
        arm_counts(members, a) is None,
    ensures
        arm_counts(members, b) is None,
    decreases b - a,
{
    if a < b {
        lemma_spoiled_stays(members, a, b - 1);
    }
}

/// Whether a declaration of `kind` with the `error` modifier `is_error` and
/// the body `members` is a result union ([`result_union_rule`]).
pub fn union_is_result(kind: SymbolKind, is_error: bool, members: &[UnionMember]) -> (r: bool)
    ensures
        r == result_union_rule(kind, is_error, members@),
{
    if kind != SymbolKind::Union || is_error {
        return false;
    }
    let mut errors: usize = 0;
    let mut successes: usize = 0;
    let mut i: usize = 0;
    while i < members.len()
        invariant
            i <= members.len(),
            errors <= i,
            successes <= i,
            arm_counts(members@, i as int) == Some((errors as nat, successes as nat)),
        decreases members.len() - i,
    {
        match &members[i] {
            UnionMember::Reserved(_) => {},
            UnionMember::Arm { ty, .. } => match ty {
                ArmType::Named { found: Some((_, arm_is_error)), .. } => {
                    if *arm_is_error {
                        errors = errors + 1;
                    } else {
                        successes = successes + 1;
                    }
                },
                _ => {
                    proof {
                        lemma_spoiled_stays(members@, i + 1, members.len() as int);
                    }
                    return false;
                },
            },
        }
        i = i + 1;
    }
    errors == 1 && successes == 1
}

// ==========================================================================
// Type references
// ==========================================================================

/// What the failure-channel rules read of a referenced declaration: its
/// name, its `error` modifier, and whether it is a result union
/// ([`union_is_result`]).
#[derive(Debug, PartialEq, Eq)]
pub struct RefSymbol {
    pub name: String,
    pub is_error: bool,
    pub is_result: bool,
}

/// A type reference as the checker resolved it: its canonical reference
/// (the text as written when it does not resolve), where it stands, and the
/// declaration it names, when it resolves.
#[derive(Debug, PartialEq, Eq)]
pub struct TypeRef {
    pub canonical: String,
    pub range: TextRange,
    pub symbol: Option<RefSymbol>,
}

/// Whether the reference resolves to an error type.
pub open spec fn names_error(t: TypeRef) -> bool {
    t.symbol matches Some(s) && s.is_error
}

/// Whether the reference resolves to a type that is not an error type.
pub open spec fn names_non_error(t: TypeRef) -> bool {
    t.symbol matches Some(s) && !s.is_error
}

fn diagnostic(code: DiagCode, severity: Severity, range: TextRange, message: String) -> (r: Diagnostic)
    ensures
        crate::diag::diag_view(r) == (code, severity, DETACHED, range),
        r.message == message,
{
    Diagnostic { code, severity, message, file: DETACHED, range }
}

fn message3(a: &str, b: &str, c: &str) -> (r: String)
    ensures
        r@ == a@ + b@ + c@,
{
    let mut text = String::from_str(a);
    text.append(b);
    text.append(c);
    text
}

// ==========================================================================
// Query returns
// ==========================================================================

/// The return shape of a query as written.
#[derive(Debug, PartialEq, Eq)]
pub enum ReturnShape {
    /// `()`.
    Unit,
    /// A tuple with fields, or a stream: a value the field-type lowering
    /// lowers.
    Value,
    /// `T | E`, either arm possibly missing.
    Fallible { ok: Option<TypeRef>, err: Option<TypeRef> },
    /// A named type.
    Named(TypeRef),
    /// No usable return type.
    Missing,
}

/// A lowered query return.
#[derive(Debug, PartialEq, Eq)]
pub enum LoweredReturn {
    /// The tuple or stream, lowered as a value.
    Value,
    /// A named value, by canonical reference.
    Named(String),
    /// A fallible return, both arms by canonical reference (empty when an
    /// arm is missing).
    Fallible { ok: String, err: String },
}

/// The model of a [`LoweredReturn`].
pub enum SReturn {
    Value,
    Named(Seq<char>),
    Fallible(Seq<char>, Seq<char>),
}

pub open spec fn return_view(r: LoweredReturn) -> SReturn {
    match r {
        LoweredReturn::Value => SReturn::Value,
        LoweredReturn::Named(n) => SReturn::Named(n@),
        LoweredReturn::Fallible { ok, err } => SReturn::Fallible(ok@, err@),
    }
}

pub open spec fn arm_text(t: Option<TypeRef>) -> Seq<char> {
    match t {
        Some(x) => x.canonical@,
        None => Seq::empty(),
    }
}

/// The lowering of a query return standing at `range`: `()` lowers nothing
/// and draws RIDL-105; a tuple or a stream is a value; `T | E` lowers both
/// arms, and draws RIDL-303 at the success arm when it is an error type, or
/// else at the error arm when it is not an error type; a named type lowers
/// as a named value and draws RIDL-303 when it is an error type.
pub open spec fn return_rule(shape: ReturnShape, range: TextRange) -> (Option<SReturn>, Seq<SDiag>) {
    match shape {
        ReturnShape::Unit => (None, seq![(DiagCode::RIDL_105, Severity::Error, DETACHED, range)]),
        ReturnShape::Value => (Some(SReturn::Value), Seq::empty()),
        ReturnShape::Fallible { ok, err } => (
            Some(SReturn::Fallible(arm_text(ok), arm_text(err))),
            if ok matches Some(t) && names_error(t) {
                seq![(DiagCode::RIDL_303, Severity::Error, DETACHED, ok->0.range)]
            } else if err matches Some(t) && names_non_error(t) {
                seq![(DiagCode::RIDL_303, Severity::Error, DETACHED, err->0.range)]
            } else {
                Seq::empty()
            },
        ),
        ReturnShape::Named(t) => (
            Some(SReturn::Named(t.canonical@)),
            if names_error(t) {
                seq![(DiagCode::RIDL_303, Severity::Error, DETACHED, t.range)]
            } else {
                Seq::empty()
            },
        ),
        ReturnShape::Missing => (None, Seq::empty()),
    }
}

/// The messages of [`return_rule`]'s diagnostics: each names the type it
/// is about.
pub open spec fn return_messages(shape: ReturnShape) -> Seq<Seq<char>> {
    match shape {
        ReturnShape::Unit => seq!["query returning `()` — a query must return a value; use `command`"@],
        ReturnShape::Fallible { ok, err } => if ok matches Some(t) && names_error(t) {
            seq![
                "success arm `"@ + ok->0.symbol->0.name@
                    + "` is an error type — write `T | E` with the error arm second"@,
            ]
        } else if err matches Some(t) && names_non_error(t) {
            seq![
                "`"@ + err->0.symbol->0.name@
                    + "` is not an error type — compose failure kinds into an error union first"@,
            ]
        } else {
            Seq::empty()
        },
        ReturnShape::Named(t) => if names_error(t) {
            seq![
                "query returns a bare error type `"@ + t.symbol->0.name@
                    + "` — a query with no success path is not a query"@,
            ]
        } else {
            Seq::empty()
        },
        _ => Seq::empty(),
    }
}

fn arm_canonical(t: &Option<TypeRef>) -> (r: String)
    ensures
        r@ == arm_text(*t),
{
    match t {
        Some(x) => x.canonical.clone(),
        None => String::new(),
    }
}

/// Lowers the return of a query standing at `range` ([`return_rule`]).
pub fn lower_query_return(shape: &ReturnShape, range: TextRange) -> (r: (Option<LoweredReturn>, Vec<Diagnostic>))
    ensures
        match r.0 {
            Some(l) => return_rule(*shape, range).0 == Some(return_view(l)),
            None => return_rule(*shape, range).0 is None,
        },
        diags_view(r.1@) == return_rule(*shape, range).1,
        diag_messages(r.1@) == return_messages(*shape),
{
    let mut out: Vec<Diagnostic> = Vec::new();
    let lowered = match shape {
        ReturnShape::Unit => {
            out.push(
                diagnostic(
                    DiagCode::RIDL_105,
                    Severity::Error,
                    range,
                    String::from_str("query returning `()` — a query must return a value; use `command`"),
                ),
            );
            None
        },
        ReturnShape::Value => Some(LoweredReturn::Value),
        ReturnShape::Fallible { ok, err } => {
            let mut reported = false;
            if let Some(t) = ok {
                if let Some(s) = &t.symbol {
                    if s.is_error {
                        out.push(
                            diagnostic(
                                DiagCode::RIDL_303,
                                Severity::Error,
                                t.range,
                                message3(
                                    "success arm `",
                                    s.name.as_str(),
                                    "` is an error type — write `T | E` with the error arm second",
                                ),
                            ),
                        );
                        reported = true;
                    }
                }
            }
            if !reported {
                if let Some(t) = err {
                    if let Some(s) = &t.symbol {
                        if !s.is_error {
                            out.push(
                                diagnostic(
                                    DiagCode::RIDL_303,
                                    Severity::Error,
                                    t.range,
                                    message3(
                                        "`",
                                        s.name.as_str(),
                                        "` is not an error type — compose failure kinds into an error union first",
                                    ),
                                ),
                            );
                        }
                    }
                }
            }
            Some(LoweredReturn::Fallible { ok: arm_canonical(ok), err: arm_canonical(err) })
        },
        ReturnShape::Named(t) => {
            if let Some(s) = &t.symbol {
                if s.is_error {
                    out.push(
                        diagnostic(
                            DiagCode::RIDL_303,
                            Severity::Error,
                            t.range,
                            message3(
                                "query returns a bare error type `",
                                s.name.as_str(),
                                "` — a query with no success path is not a query",
                            ),
                        ),
                    );
                }
            }
            Some(LoweredReturn::Named(t.canonical.clone()))
        },
        ReturnShape::Missing => None,
    };
    assert(diags_view(out@) =~= return_rule(*shape, range).1);
    assert(diag_messages(out@) =~= return_messages(*shape));
    (lowered, out)
}

// ==========================================================================
// Parameters
// ==========================================================================

/// A parameter's type as written.
#[derive(Debug, PartialEq, Eq)]
pub enum ParamType {
    /// A named type.
    Named(TypeRef),
    /// Another field type (a tuple, an array, an optional…), where it stands.
    Other(TextRange),
    /// A stream, lowered by the stream lowering.
    Stream,
    /// No type.
    Missing,
}

/// One parameter as written.
#[derive(Debug, PartialEq, Eq)]
pub struct ParamDecl {
    pub name: Option<String>,
    pub ty: ParamType,
}

/// A lowered parameter type.
#[derive(Debug, PartialEq, Eq)]
pub enum LoweredParamType {
    Named(String),
    Stream,
}

/// A lowered parameter: its name (empty when missing) and its type.
#[derive(Debug, PartialEq, Eq)]
pub struct LoweredParam {
    pub name: String,
    pub ty: Option<LoweredParamType>,
}

/// The model of a [`LoweredParam`]: its name and, when it has a type,
/// `Some(canonical)` for a named one or `None` for a stream.
pub open spec fn param_view(p: LoweredParam) -> (Seq<char>, Option<Option<Seq<char>>>) {
    (
        p.name@,
        match p.ty {
            Some(LoweredParamType::Named(n)) => Some(Some(n@)),
            Some(LoweredParamType::Stream) => Some(None),
            None => None,
        },
    )
}

pub open spec fn params_view(ps: Seq<LoweredParam>) -> Seq<(Seq<char>, Option<Option<Seq<char>>>)> {
    ps.map_values(|p: LoweredParam| param_view(p))
}

/// One parameter: a named type lowers by canonical reference and draws
/// RIDL-304 (a warning) when it resolves to an error type or to a result
/// union; another field type draws FORM-102 and lowers no type; a stream
/// lowers as a stream.
pub open spec fn param_rule(p: ParamDecl) -> ((Seq<char>, Option<Option<Seq<char>>>), Seq<SDiag>) {
    let name = match p.name {
        Some(n) => n@,
        None => Seq::empty(),
    };
    match p.ty {
        ParamType::Named(t) => (
            (name, Some(Some(t.canonical@))),
            if t.symbol matches Some(s) && (s.is_error || s.is_result) {
                seq![(DiagCode::RIDL_304, Severity::Warning, DETACHED, t.range)]
            } else {
                Seq::empty()
            },
        ),
        ParamType::Other(r) => ((name, None), seq![(DiagCode::FORM_102, Severity::Error, DETACHED, r)]),
        ParamType::Stream => ((name, Some(None)), Seq::empty()),
        ParamType::Missing => ((name, None), Seq::empty()),
    }
}

pub open spec fn params_rule(params: Seq<ParamDecl>, n: int) -> (Seq<(Seq<char>, Option<Option<Seq<char>>>)>, Seq<SDiag>)
    decreases n,
{
    if n <= 0 {
        (Seq::empty(), Seq::empty())
    } else {
        let (ps, ds) = params_rule(params, n - 1);
        let (p, d) = param_rule(params[n - 1]);
        (ps.push(p), ds + d)
    }
}

/// The message of [`param_rule`]'s diagnostic, if it draws one: a
/// parameter of error or result-union type names itself and its type; any
/// other shape says what a parameter must be.
pub open spec fn param_messages(p: ParamDecl, noun: Seq<char>) -> Seq<Seq<char>> {
    let name = match p.name {
        Some(n) => n@,
        None => Seq::empty(),
    };
    match p.ty {
        ParamType::Named(t) => match t.symbol {
            Some(s) => if s.is_error {
                seq![
                    noun + " parameter `"@ + name + "` has error type `"@ + s.name@
                        + "` — failure flowing toward a provider"@,
                ]
            } else if s.is_result {
                seq![
                    noun + " parameter `"@ + name + "` has result-union type `"@ + s.name@
                        + "` — failure flowing toward a provider"@,
                ]
            } else {
                Seq::empty()
            },
            None => Seq::empty(),
        },
        ParamType::Other(_) => seq![noun + " parameter must be a named type or a stream"@],
        _ => Seq::empty(),
    }
}

/// The messages of the first `n` parameters' diagnostics.
pub open spec fn params_messages(params: Seq<ParamDecl>, n: int, noun: Seq<char>) -> Seq<Seq<char>>
    decreases n,
{
    if n <= 0 {
        Seq::empty()
    } else {
        params_messages(params, n - 1, noun) + param_messages(params[n - 1], noun)
    }
}

/// Lowers the parameters of a `noun` (`command`, `query`)
/// ([`params_rule`]).
pub fn lower_params(params: &[ParamDecl], noun: &str) -> (r: (Vec<LoweredParam>, Vec<Diagnostic>))
    ensures
        params_view(r.0@) == params_rule(params@, params.len() as int).0,
        diags_view(r.1@) == params_rule(params@, params.len() as int).1,
        diag_messages(r.1@) == params_messages(params@, params.len() as int, noun@),
{
    let mut lowered: Vec<LoweredParam> = Vec::new();
    let mut out: Vec<Diagnostic> = Vec::new();
    let mut i: usize = 0;
    assert(params_view(lowered@) =~= Seq::empty());
    assert(diags_view(out@) =~= Seq::empty());
    assert(diag_messages(out@) =~= Seq::empty());
    while i < params.len()
        invariant
            i <= params.len(),
            params_view(lowered@) == params_rule(params@, i as int).0,
            diags_view(out@) == params_rule(params@, i as int).1,
            diag_messages(out@) == params_messages(params@, i as int, noun@),
        decreases params.len() - i,
    {
        let param = &params[i];
        let ghost before_params = params_view(lowered@);
        let ghost before_diags = diags_view(out@);
        let ghost before_messages = diag_messages(out@);
        let name = match &param.name {
            Some(n) => n.clone(),
            None => String::new(),
        };
        let ty = match &param.ty {
            ParamType::Named(t) => {
                if let Some(s) = &t.symbol {
                    if s.is_error {
                        let mut message = message3(noun, " parameter `", name.as_str());
                        message.append("` has error type `");
                        message.append(s.name.as_str());
                        message.append("` — failure flowing toward a provider");
                        out.push(diagnostic(DiagCode::RIDL_304, Severity::Warning, t.range, message));
                    } else if s.is_result {
                        let mut message = message3(noun, " parameter `", name.as_str());
                        message.append("` has result-union type `");
                        message.append(s.name.as_str());
                        message.append("` — failure flowing toward a provider");
                        out.push(diagnostic(DiagCode::RIDL_304, Severity::Warning, t.range, message));
                    }
                }
                Some(LoweredParamType::Named(t.canonical.clone()))
            },
            ParamType::Other(r) => {
                let mut message = String::from_str(noun);
                message.append(" parameter must be a named type or a stream");
                out.push(diagnostic(DiagCode::FORM_102, Severity::Error, *r, message));
                None
            },
            ParamType::Stream => Some(LoweredParamType::Stream),
            ParamType::Missing => None,
        };
        let p = LoweredParam { name, ty };
        let ghost pv = param_view(p);
        lowered.push(p);
        assert(params_view(lowered@) =~= before_params.push(pv));
        assert(diags_view(out@) =~= before_diags + param_rule(params@[i as int]).1);
        assert(diag_messages(out@) =~= before_messages + param_messages(params@[i as int], noun@));
        i = i + 1;
    }
    (lowered, out)
}

} // verus!
