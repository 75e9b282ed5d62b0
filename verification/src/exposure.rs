//! Visibility across the package boundary: a public declaration may name
//! only public declarations (TYPL-005), and a service publishes only a
//! public interface (RIDL-143).

use vstd::prelude::*;

use crate::chars::str_eq;
use crate::diag::{diag_messages, diags_view, DiagCode, Diagnostic, Severity, DETACHED};
use crate::resolve::{SDiag, Symbol, SymbolKind};
use crate::syntax::TextRange;

verus! {

/// The message of an exposure diagnostic: the service or public declaration
/// `decl`, and the internal `noun` `exposed` it names.
pub open spec fn exposure_text(code: DiagCode, noun: Seq<char>, exposed: Seq<char>, decl: Seq<char>) -> Seq<char> {
    if code == DiagCode::RIDL_143 {
        "service `"@ + decl + "` publishes internal "@ + noun + " `"@ + exposed
            + "` — a service is a global published contract and takes no `internal` modifier, so its shape must be public: drop `internal` from `"@
            + exposed + "`, or give the service an inline shape (ridl §14.5)"@
    } else {
        "public `"@ + decl + "` exposes internal "@ + noun + " `"@ + exposed
            + "` — a public declaration may name only public declarations, so that the contract surface is fully importable (typl §3.3)"@
    }
}

/// One exposure diagnostic, at `range` in `file`: RIDL-143 for a service
/// publishing an internal interface, any other `code` for a public
/// declaration `decl_name` naming the internal `noun` `exposed`.
pub fn exposure_diagnostic(
    code: DiagCode,
    range: TextRange,
    noun: &str,
    exposed: &str,
    decl_name: &str,
    file: usize,
) -> (r: Diagnostic)
    ensures
        crate::diag::diag_view(r) == (code, Severity::Error, file, range),
        r.message@ == exposure_text(code, noun@, exposed@, decl_name@),
{
    let mut message = String::new();
    proof {
        reveal_strlit("");
    }
    if code == DiagCode::RIDL_143 {
        message.append("service `");
        message.append(decl_name);
        message.append("` publishes internal ");
        message.append(noun);
        message.append(" `");
        message.append(exposed);
        message.append(
            "` — a service is a global published contract and takes no `internal` modifier, so its shape must be public: drop `internal` from `",
        );
        message.append(exposed);
        message.append("`, or give the service an inline shape (ridl §14.5)");
    } else {
        message.append("public `");
        message.append(decl_name);
        message.append("` exposes internal ");
        message.append(noun);
        message.append(" `");
        message.append(exposed);
        message.append(
            "` — a public declaration may name only public declarations, so that the contract surface is fully importable (typl §3.3)",
        );
    }
    Diagnostic { code, severity: Severity::Error, message, file, range }
}

/// A position in a public declaration that names another declaration.
#[derive(Debug, PartialEq, Eq)]
pub enum ExposureRef {
    /// A named-type reference: where it stands, the declaration it looks up
    /// to, and whether it stands as a service's shape.
    Path { range: TextRange, found: Option<Symbol>, service_shape: bool },
    /// A constant named by a range or length bound: where the literal
    /// stands, and what the name binds in the package.
    BoundsConstant { range: TextRange, found: Option<Symbol> },
}

/// A top-level declaration as the exposure pass reads it: whether it is
/// `internal`, its name (if recovered), and the positions it names other
/// declarations at, in order.
#[derive(Debug, PartialEq, Eq)]
pub struct ExposedItem {
    pub internal: bool,
    pub name: Option<String>,
    pub refs: Vec<ExposureRef>,
}

/// Whether a symbol is an `internal` declaration of the package itself.
pub open spec fn internal_here(s: Symbol, package: Seq<char>) -> bool {
    s.internal && s.package@ == package
}

/// The diagnostic one position draws: an internal interface of the package
/// named as a service's shape is RIDL-143 (elsewhere an interface in type
/// position is reported by type resolution, not here); any other internal
/// declaration of the package named by a type reference or a bound is
/// TYPL-005.
pub open spec fn ref_rule(r: ExposureRef, package: Seq<char>) -> Option<(DiagCode, TextRange)> {
    match r {
        ExposureRef::Path { range, found: Some(s), service_shape } => if internal_here(s, package) {
            if s.kind == SymbolKind::Interface {
                if service_shape {
                    Some((DiagCode::RIDL_143, range))
                } else {
                    None
                }
            } else {
                Some((DiagCode::TYPL_005, range))
            }
        } else {
            None
        },
        ExposureRef::BoundsConstant { range, found: Some(s) } => if internal_here(s, package) {
            Some((DiagCode::TYPL_005, range))
        } else {
            None
        },
        _ => None,
    }
}

/// The messages of [`refs_rule`]'s diagnostics, for the declaration `decl`.
pub open spec fn refs_messages(refs: Seq<ExposureRef>, n: int, package: Seq<char>, decl: Seq<char>) -> Seq<
    Seq<char>,
>
    decreases n,
{
    if n <= 0 {
        Seq::empty()
    } else {
        refs_messages(refs, n - 1, package, decl) + match (refs[n - 1], ref_rule(refs[n - 1], package)) {
            (ExposureRef::Path { found: Some(s), .. }, Some((code, _))) => seq![
                exposure_text(
                    code,
                    if code == DiagCode::RIDL_143 {
                        "interface"@
                    } else {
                        "type"@
                    },
                    s.name@,
                    decl,
                ),
            ],
            (ExposureRef::BoundsConstant { found: Some(s), .. }, Some((code, _))) => seq![
                exposure_text(code, "constant"@, s.name@, decl),
            ],
            _ => Seq::empty(),
        }
    }
}

pub open spec fn refs_rule(refs: Seq<ExposureRef>, n: int, package: Seq<char>) -> Seq<SDiag>
    decreases n,
{
    if n <= 0 {
        Seq::empty()
    } else {
        refs_rule(refs, n - 1, package) + match ref_rule(refs[n - 1], package) {
            Some((code, range)) => seq![(code, Severity::Error, DETACHED, range)],
            None => Seq::empty(),
        }
    }
}

/// The exposures of the first `n` items: a public, named item reports every
/// position that names an internal declaration of the package.
pub open spec fn items_rule(items: Seq<ExposedItem>, n: int, package: Seq<char>) -> Seq<SDiag>
    decreases n,
{
    if n <= 0 {
        Seq::empty()
    } else {
        let item = items[n - 1];
        items_rule(items, n - 1, package) + if !item.internal && item.name is Some {
            refs_rule(item.refs@, item.refs@.len() as int, package)
        } else {
            Seq::empty()
        }
    }
}

/// The messages of [`items_rule`]'s diagnostics, in the same order.
pub open spec fn items_messages(items: Seq<ExposedItem>, n: int, package: Seq<char>) -> Seq<Seq<char>>
    decreases n,
{
    if n <= 0 {
        Seq::empty()
    } else {
        let item = items[n - 1];
        items_messages(items, n - 1, package) + match item.name {
            Some(name) => if !item.internal {
                refs_messages(item.refs@, item.refs@.len() as int, package, name@)
            } else {
                Seq::empty()
            },
            None => Seq::empty(),
        }
    }
}

/// Every internal name of `package` the public declaration `decl_name`
/// reads, reported at the position that reads it ([`refs_rule`]).
pub fn report_exposures(refs: &[ExposureRef], decl_name: &str, package: &str) -> (r: Vec<Diagnostic>)
    ensures
        diags_view(r@) == refs_rule(refs@, refs.len() as int, package@),
        diag_messages(r@) == refs_messages(refs@, refs.len() as int, package@, decl_name@),
{
    let mut out: Vec<Diagnostic> = Vec::new();
    let mut i: usize = 0;
    assert(diags_view(out@) =~= Seq::empty());
    assert(diag_messages(out@) =~= Seq::empty());
    while i < refs.len()
        invariant
            i <= refs.len(),
            diags_view(out@) == refs_rule(refs@, i as int, package@),
            diag_messages(out@) == refs_messages(refs@, i as int, package@, decl_name@),
        decreases refs.len() - i,
    {
        let ghost before = diags_view(out@);
        let ghost before_messages = diag_messages(out@);
        match &refs[i] {
            ExposureRef::Path { range, found: Some(s), service_shape } => {
                if s.internal && str_eq(s.package.as_str(), package) {
                    if s.kind == SymbolKind::Interface {
                        if *service_shape {
                            out.push(
                                exposure_diagnostic(
                                    DiagCode::RIDL_143,
                                    *range,
                                    "interface",
                                    s.name.as_str(),
                                    decl_name,
                                    DETACHED,
                                ),
                            );
                        }
                    } else {
                        out.push(
                            exposure_diagnostic(
                                DiagCode::TYPL_005,
                                *range,
                                "type",
                                s.name.as_str(),
                                decl_name,
                                DETACHED,
                            ),
                        );
                    }
                }
            },
            ExposureRef::BoundsConstant { range, found: Some(s) } => {
                if s.internal && str_eq(s.package.as_str(), package) {
                    out.push(
                        exposure_diagnostic(
                            DiagCode::TYPL_005,
                            *range,
                            "constant",
                            s.name.as_str(),
                            decl_name,
                            DETACHED,
                        ),
                    );
                }
            },
            _ => {},
        }
        assert(diags_view(out@) =~= refs_rule(refs@, i + 1, package@));
        assert(diag_messages(out@) =~= refs_messages(refs@, i + 1, package@, decl_name@));
        i = i + 1;
    }
    out
}

/// The exposure pass over a file's top-level declarations ([`items_rule`]):
/// an `internal` declaration, and one without a name, are not checked.
pub fn check_exposure(items: &[ExposedItem], package: &str) -> (r: Vec<Diagnostic>)
    ensures
        diags_view(r@) == items_rule(items@, items.len() as int, package@),
        diag_messages(r@) == items_messages(items@, items.len() as int, package@),
{
    let mut out: Vec<Diagnostic> = Vec::new();
    let mut i: usize = 0;
    assert(diags_view(out@) =~= Seq::empty());
    assert(diag_messages(out@) =~= Seq::empty());
    while i < items.len()
        invariant
            i <= items.len(),
            diags_view(out@) == items_rule(items@, i as int, package@),
            diag_messages(out@) == items_messages(items@, i as int, package@),
        decreases items.len() - i,
    {
        let item = &items[i];
        let ghost before = diags_view(out@);
        let ghost before_messages = diag_messages(out@);
        if !item.internal {
            if let Some(name) = &item.name {
                let found = report_exposures(item.refs.as_slice(), name.as_str(), package);
                let mut k: usize = 0;
                while k < found.len()
                    invariant
                        k <= found.len(),
                        diags_view(out@) == before + diags_view(found@).take(k as int),
                        diag_messages(out@) == before_messages + diag_messages(found@).take(k as int),
                    decreases found.len() - k,
                {
                    let d = &found[k];
                    let ghost mid = diags_view(out@);
                    let ghost mid_messages = diag_messages(out@);
                    out.push(
                        Diagnostic { code: d.code, severity: d.severity, message: d.message.clone(), file: d.file, range: d.range },
                    );
                    assert(diags_view(found@).take(k + 1) =~= diags_view(found@).take(k as int).push(
                        diags_view(found@)[k as int],
                    ));
                    assert(diag_messages(found@).take(k + 1) =~= diag_messages(found@).take(k as int).push(
                        diag_messages(found@)[k as int],
                    ));
                    assert(diags_view(out@) =~= mid.push(diags_view(found@)[k as int]));
                    assert(diag_messages(out@) =~= mid_messages.push(diag_messages(found@)[k as int]));
                    k = k + 1;
                }
                assert(diags_view(found@).take(found.len() as int) =~= diags_view(found@));
                assert(diag_messages(found@).take(found.len() as int) =~= diag_messages(found@));
            }
        }
        assert(diags_view(out@) =~= items_rule(items@, i + 1, package@));
        assert(diag_messages(out@) =~= items_messages(items@, i + 1, package@));
        i = i + 1;
    }
    out
}

} // verus!
