//! Lowering an interaction's `require`/`ensure` clauses: each clause is
//! type-checked against its scope, the package declarations it names are
//! checked for exposure, and it lowers to its canonical source, the
//! references it reads, and a stable observer id.

use vstd::prelude::*;

use crate::diag::{diags_view, DiagCode, Diagnostic, Severity};
use crate::exact::nat_decimal;
use crate::expr::{
    canonical_expr_text, check_contract_expr, collect_refs, no_refs, opt_ty_view, refs_walk,
    render, spec_check, strs_view, ty_bindings, ContractScope, ContractVocabulary, ExprType,
    SRefs, SScope, enum_bindings,
};
use crate::expr::first_binding;
use crate::resolve::{find_symbol, sym_bindings, Resolution, SDiag, Symbol};
use crate::syntax::{Expr, TextRange};

verus! {

/// Which clause a contract is.
#[derive(Debug, Clone, Copy, PartialEq, Eq, Structural)]
pub enum ContractKind {
    Require,
    Ensure,
}

/// One `require`/`ensure` attribute of an interaction, in source order:
/// its predicate and its expression (absent after a parse error).
#[derive(Debug, PartialEq, Eq)]
pub struct Clause {
    pub kind: ContractKind,
    pub expr: Option<Expr>,
}

/// A lowered contract clause.
#[derive(Debug, PartialEq, Eq)]
pub struct Contract {
    pub kind: ContractKind,
    /// The canonical one-line source of the clause.
    pub source: String,
    /// The interface's signals the clause reads, as `Interface.signal`.
    pub signal_refs: Vec<String>,
    /// The parameters the clause reads.
    pub param_refs: Vec<String>,
    pub uses_result: bool,
    /// `Interface.interaction.kind[n]`, numbered within the clause kind.
    pub observer_id: String,
}

/// What lowering a clause is checked and numbered against.
pub struct ContractContext<'a> {
    pub interface: &'a str,
    pub interaction: &'a str,
    /// Whether `ensure` clauses lower (a query's do; elsewhere they are
    /// reported by the attribute check and skipped).
    pub allow_ensure: bool,
    pub params: &'a [(String, ExprType)],
    pub result: Option<ExprType>,
    pub signals: &'a [(String, ExprType)],
    pub vocabulary: &'a ContractVocabulary,
    pub resolution: &'a Resolution,
    /// The package being checked, and whether the interface is `internal`.
    pub package: &'a str,
    pub interface_internal: bool,
    /// The file (index) the clauses stand in.
    pub file: usize,
}

// ==========================================================================
// The model
// ==========================================================================

pub type SContract = (ContractKind, Seq<char>, Seq<Seq<char>>, Seq<Seq<char>>, bool, Seq<char>);

pub open spec fn contract_view(c: Contract) -> SContract {
    (c.kind, c.source@, strs_view(c.signal_refs@), strs_view(c.param_refs@), c.uses_result, c.observer_id@)
}

pub open spec fn contracts_view(v: Seq<Contract>) -> Seq<SContract> {
    v.map_values(|c: Contract| contract_view(c))
}

/// The scope a clause of `kind` resolves against: a `require` sees the
/// parameters and the interface's signals; an `ensure` the parameters and
/// `result`.
pub open spec fn clause_scope(kind: ContractKind, ctx: &ContractContext) -> SScope {
    SScope {
        params: ty_bindings(ctx.params@),
        result: if kind == ContractKind::Ensure {
            opt_ty_view(ctx.result)
        } else {
            None
        },
        signals: if kind == ContractKind::Require {
            ty_bindings(ctx.signals@)
        } else {
            Seq::empty()
        },
        consts: ty_bindings(ctx.vocabulary.consts@),
        enums: enum_bindings(ctx.vocabulary.enums@),
        symbols: ctx.resolution.symbols@,
    }
}

/// The range of the first bare name `name` in `e`, in tree order.
pub open spec fn first_path_range(e: Expr, name: Seq<char>) -> Option<TextRange>
    decreases e,
{
    match e {
        Expr::Path { name: Some(t), .. } => if t.text@ == name {
            Some(t.range)
        } else {
            None
        },
        Expr::Paren { inner: Some(b), .. } => first_path_range(*b, name),
        Expr::Prefix { operand: Some(b), .. } => first_path_range(*b, name),
        Expr::Member { base: Some(b), .. } => first_path_range(*b, name),
        Expr::Binary { lhs, rhs, .. } => match lhs {
            Some(l) => match first_path_range(*l, name) {
                Some(r) => Some(r),
                None => match rhs {
                    Some(r) => first_path_range(*r, name),
                    None => None,
                },
            },
            None => match rhs {
                Some(r) => first_path_range(*r, name),
                None => None,
            },
        },
        _ => None,
    }
}

/// TYPL-005 for each of the first `n` `names` that resolves to an
/// `internal` declaration of the package itself, at its first use in `e`.
pub open spec fn exposure_of(
    e: Expr,
    names: Seq<Seq<char>>,
    n: int,
    symbols: Seq<(String, Symbol)>,
    package: Seq<char>,
    file: usize,
) -> Seq<SDiag>
    decreases n,
{
    if n <= 0 {
        Seq::empty()
    } else {
        exposure_of(e, names, n - 1, symbols, package, file) + match first_binding(
            sym_bindings(symbols),
            names[n - 1],
        ) {
            Some(s) => if s.3 && s.1 == package {
                match first_path_range(e, names[n - 1]) {
                    Some(r) => seq![(DiagCode::TYPL_005, Severity::Error, file, r)],
                    None => Seq::empty(),
                }
            } else {
                Seq::empty()
            },
            None => Seq::empty(),
        }
    }
}

/// The exposures of one clause: none inside an `internal` interface;
/// otherwise those of the constants it reads, then of the enum types it
/// names.
pub open spec fn clause_exposure(e: Expr, refs: SRefs, ctx: &ContractContext) -> Seq<SDiag> {
    if ctx.interface_internal {
        Seq::empty()
    } else {
        exposure_of(e, refs.consts, refs.consts.len() as int, ctx.resolution.symbols@, ctx.package@, ctx.file)
            + exposure_of(
            e,
            refs.enum_types,
            refs.enum_types.len() as int,
            ctx.resolution.symbols@,
            ctx.package@,
            ctx.file,
        )
    }
}

/// The diagnostics stamped with the file they stand in.
pub open spec fn stamped(ds: Seq<SDiag>, file: usize) -> Seq<SDiag> {
    ds.map_values(|d: SDiag| (d.0, d.1, file, d.3))
}

pub open spec fn kind_text(kind: ContractKind) -> Seq<char> {
    if kind == ContractKind::Ensure {
        "ensure"@
    } else {
        "require"@
    }
}

/// `Interface.interaction.kind[index]`.
pub open spec fn observer_id(ctx: &ContractContext, kind: ContractKind, index: nat) -> Seq<char> {
    ctx.interface@ + "."@ + ctx.interaction@ + "."@ + kind_text(kind) + "["@ + nat_decimal(index) + "]"@
}

/// The lowering so far: the contracts, how many of each kind, and the
/// diagnostics.
pub struct SLowering {
    pub contracts: Seq<SContract>,
    pub require_count: nat,
    pub ensure_count: nat,
    pub diags: Seq<SDiag>,
}

/// One clause: an `ensure` where ensures do not lower, or a clause without
/// an expression, is skipped; otherwise the clause draws its checker
/// diagnostics and its exposures and lowers to a contract numbered within
/// its kind.
pub open spec fn lower_step(acc: SLowering, c: Clause, ctx: &ContractContext) -> SLowering {
    if c.kind == ContractKind::Ensure && !ctx.allow_ensure {
        acc
    } else {
        match c.expr {
            None => acc,
            Some(e) => {
                let sc = clause_scope(c.kind, ctx);
                let refs = refs_walk(e, sc, no_refs());
                let index = if c.kind == ContractKind::Ensure {
                    acc.ensure_count
                } else {
                    acc.require_count
                };
                let contract = (
                    c.kind,
                    render(e, 0),
                    refs.signals.map_values(|s: Seq<char>| ctx.interface@ + "."@ + s),
                    refs.params,
                    refs.uses_result,
                    observer_id(ctx, c.kind, index),
                );
                SLowering {
                    contracts: acc.contracts.push(contract),
                    require_count: if c.kind == ContractKind::Require {
                        acc.require_count + 1
                    } else {
                        acc.require_count
                    },
                    ensure_count: if c.kind == ContractKind::Ensure {
                        acc.ensure_count + 1
                    } else {
                        acc.ensure_count
                    },
                    diags: acc.diags + stamped(spec_check(e, sc).1, ctx.file) + clause_exposure(e, refs, ctx),
                }
            },
        }
    }
}

pub open spec fn lower_fold(clauses: Seq<Clause>, n: int, ctx: &ContractContext) -> SLowering
    decreases n,
{
    if n <= 0 {
        SLowering { contracts: Seq::empty(), require_count: 0, ensure_count: 0, diags: Seq::empty() }
    } else {
        lower_step(lower_fold(clauses, n - 1, ctx), clauses[n - 1], ctx)
    }
}

// ==========================================================================
// Lowering
// ==========================================================================

fn first_name_range(expr: &Expr, name: &str) -> (r: Option<TextRange>)
    ensures
        r == first_path_range(*expr, name@),
    decreases expr,
{
    match expr {
        Expr::Path { name: Some(token), .. } => if crate::chars::str_eq(token.text.as_str(), name) {
            Some(token.range)
        } else {
            None
        },
        Expr::Paren { inner: Some(b), .. } => first_name_range(b, name),
        Expr::Prefix { operand: Some(b), .. } => first_name_range(b, name),
        Expr::Member { base: Some(b), .. } => first_name_range(b, name),
        Expr::Binary { lhs, rhs, .. } => {
            let left = match lhs {
                Some(l) => first_name_range(l, name),
                None => None,
            };
            match left {
                Some(r) => Some(r),
                None => match rhs {
                    Some(r) => first_name_range(r, name),
                    None => None,
                },
            }
        },
        _ => None,
    }
}

fn report_exposures(
    expr: &Expr,
    names: &Vec<String>,
    fallback_noun: &str,
    ctx: &ContractContext,
    out: &mut Vec<Diagnostic>,
)
    ensures
        diags_view(final(out)@) == diags_view(old(out)@) + exposure_of(
            *expr,
            strs_view(names@),
            names.len() as int,
            ctx.resolution.symbols@,
            ctx.package@,
            ctx.file,
        ),
{
    let ghost start = diags_view(out@);
    let mut i: usize = 0;
    while i < names.len()
        invariant
            i <= names.len(),
            diags_view(out@) == start + exposure_of(
                *expr,
                strs_view(names@),
                i as int,
                ctx.resolution.symbols@,
                ctx.package@,
                ctx.file,
            ),
        decreases names.len() - i,
    {
        let name = names[i].as_str();
        let ghost before = diags_view(out@);
        assert(strs_view(names@)[i as int] == name@);
        if let Some(symbol) = find_symbol(ctx.resolution.symbols.as_slice(), name) {
            if symbol.internal && crate::chars::str_eq(symbol.package.as_str(), ctx.package) {
                if let Some(range) = first_name_range(expr, name) {
                    let noun = if symbol.kind == crate::resolve::SymbolKind::Const {
                        "constant"
                    } else {
                        fallback_noun
                    };
                    out.push(
                        crate::exposure::exposure_diagnostic(
                            DiagCode::TYPL_005,
                            range,
                            noun,
                            symbol.name.as_str(),
                            ctx.interface,
                            ctx.file,
                        ),
                    );
                    assert(diags_view(out@) =~= before.push(
                        (DiagCode::TYPL_005, Severity::Error, ctx.file, range),
                    ));
                }
            }
        }
        assert(diags_view(out@) =~= start + exposure_of(
            *expr,
            strs_view(names@),
            i + 1,
            ctx.resolution.symbols@,
            ctx.package@,
            ctx.file,
        ));
        i = i + 1;
    }
}

fn prefixed(prefix: &str, names: &Vec<String>) -> (r: Vec<String>)
    ensures
        strs_view(r@) == strs_view(names@).map_values(|s: Seq<char>| prefix@ + "."@ + s),
{
    let mut out: Vec<String> = Vec::new();
    let mut i: usize = 0;
    while i < names.len()
        invariant
            i <= names.len(),
            strs_view(out@) == strs_view(names@).take(i as int).map_values(
                |s: Seq<char>| prefix@ + "."@ + s,
            ),
        decreases names.len() - i,
    {
        let mut text = String::from_str(prefix);
        text.append(".");
        text.append(names[i].as_str());
        let ghost before = strs_view(out@);
        let ghost tv = text@;
        out.push(text);
        assert(strs_view(out@) =~= before.push(tv));
        assert(strs_view(names@).take(i + 1) =~= strs_view(names@).take(i as int).push(names@[i as int]@));
        assert(strs_view(out@) =~= strs_view(names@).take(i + 1).map_values(
            |s: Seq<char>| prefix@ + "."@ + s,
        ));
        i = i + 1;
    }
    assert(strs_view(names@).take(names.len() as int) =~= strs_view(names@));
    out
}

fn observer_text(ctx: &ContractContext, kind: ContractKind, index: usize) -> (r: String)
    ensures
        r@ == observer_id(ctx, kind, index as nat),
{
    let mut text = String::from_str(ctx.interface);
    text.append(".");
    text.append(ctx.interaction);
    text.append(".");
    if kind == ContractKind::Ensure {
        text.append("ensure");
    } else {
        text.append("require");
    }
    text.append("[");
    text.append(crate::text::u64_text(index as u64).as_str());
    text.append("]");
    text
}

/// Lowers the `require`/`ensure` clauses of one interaction, in source order
/// ([`lower_fold`]): each clause is type-checked against its scope (its
/// diagnostics stamped with `ctx.file`), checked for exposure of `internal`
/// declarations, and lowered to its canonical source, the references it
/// reads, and an observer id numbered within its kind.
pub fn lower_contracts(clauses: &[Clause], ctx: &ContractContext) -> (r: (Vec<Contract>, Vec<Diagnostic>))
    ensures
        contracts_view(r.0@) == lower_fold(clauses@, clauses.len() as int, ctx).contracts,
        diags_view(r.1@) == lower_fold(clauses@, clauses.len() as int, ctx).diags,
{
    let mut contracts: Vec<Contract> = Vec::new();
    let mut out: Vec<Diagnostic> = Vec::new();
    let mut require_count: usize = 0;
    let mut ensure_count: usize = 0;
    let mut i: usize = 0;
    assert(contracts_view(contracts@) =~= Seq::empty());
    assert(diags_view(out@) =~= Seq::empty());
    while i < clauses.len()
        invariant
            i <= clauses.len(),
            require_count + ensure_count <= i,
            ({
                let s = lower_fold(clauses@, i as int, ctx);
                &&& contracts_view(contracts@) == s.contracts
                &&& require_count as nat == s.require_count
                &&& ensure_count as nat == s.ensure_count
                &&& diags_view(out@) == s.diags
            }),
        decreases clauses.len() - i,
    {
        let clause = &clauses[i];
        let ghost before_contracts = contracts_view(contracts@);
        let ghost before_diags = diags_view(out@);
        if clause.kind == ContractKind::Ensure && !ctx.allow_ensure {
            i = i + 1;
            continue;
        }
        let expr = match &clause.expr {
            Some(e) => e,
            None => {
                i = i + 1;
                continue;
            },
        };
        let no_signals: [(String, ExprType); 0] = [];
        let scope = if clause.kind == ContractKind::Require {
            ContractScope {
                params: ctx.params,
                result: None,
                signals: ctx.signals,
                vocabulary: ctx.vocabulary,
                resolution: ctx.resolution,
            }
        } else {
            ContractScope {
                params: ctx.params,
                result: match &ctx.result {
                    Some(t) => Some(t.copy()),
                    None => None,
                },
                signals: &no_signals,
                vocabulary: ctx.vocabulary,
                resolution: ctx.resolution,
            }
        };
        proof {
            assert(ty_bindings(no_signals@) =~= Seq::empty());
            assert(crate::expr::scope_view(&scope) == clause_scope(clause.kind, ctx));
        }
        let (_, diagnostics) = check_contract_expr(expr, &scope);
        let ghost checked = diags_view(diagnostics@);
        let mut j: usize = 0;
        while j < diagnostics.len()
            invariant
                j <= diagnostics.len(),
                checked == diags_view(diagnostics@),
                diags_view(out@) == before_diags + stamped(checked.take(j as int), ctx.file),
            decreases diagnostics.len() - j,
        {
            let d = &diagnostics[j];
            let ghost prior = diags_view(out@);
            assert(checked[j as int] == (d.code, d.severity, d.file, d.range));
            assert(checked.take(j + 1) =~= checked.take(j as int).push(checked[j as int]));
            out.push(
                Diagnostic {
                    code: d.code,
                    severity: d.severity,
                    message: d.message.clone(),
                    file: ctx.file,
                    range: d.range,
                },
            );
            assert(diags_view(out@) =~= prior.push((d.code, d.severity, ctx.file, d.range)));
            assert(stamped(checked.take(j + 1), ctx.file) =~= stamped(checked.take(j as int), ctx.file).push(
                (d.code, d.severity, ctx.file, d.range),
            ));
            assert(diags_view(out@) =~= before_diags + stamped(checked.take(j + 1), ctx.file));
            j = j + 1;
        }
        assert(checked.take(diagnostics.len() as int) =~= checked);
        let refs = collect_refs(expr, &scope);
        let ghost after_check = diags_view(out@);
        if !ctx.interface_internal {
            report_exposures(expr, &refs.consts, "constant", ctx, &mut out);
            report_exposures(expr, &refs.enum_types, "type", ctx, &mut out);
        }
        assert(diags_view(out@) =~= after_check + clause_exposure(*expr, crate::expr::refs_view(refs), ctx));
        let index = if clause.kind == ContractKind::Ensure {
            ensure_count
        } else {
            require_count
        };
        let observer = observer_text(ctx, clause.kind, index);
        let signal_refs = prefixed(ctx.interface, &refs.signals);
        let contract = Contract {
            kind: clause.kind,
            source: canonical_expr_text(expr),
            signal_refs,
            param_refs: refs.params,
            uses_result: refs.uses_result,
            observer_id: observer,
        };
        let ghost cv = contract_view(contract);
        contracts.push(contract);
        assert(contracts_view(contracts@) =~= before_contracts.push(cv));
        if clause.kind == ContractKind::Ensure {
            ensure_count = ensure_count + 1;
        } else {
            require_count = require_count + 1;
        }
        i = i + 1;
    }
    (contracts, out)
}

// ==========================================================================
// Laws
// ==========================================================================

/// Appending a clause never renumbers the clauses before it: lowering a
/// longer clause list gives the shorter list's contracts first, unchanged.
pub proof fn law_appending_keeps_earlier_contracts(clauses: Seq<Clause>, extra: Clause, ctx: &ContractContext)
    ensures
        lower_fold(clauses.push(extra), clauses.len() + 1int, ctx).contracts.take(
            lower_fold(clauses, clauses.len() as int, ctx).contracts.len() as int,
        ) == lower_fold(clauses, clauses.len() as int, ctx).contracts,
{
    lemma_fold_prefix(clauses.push(extra), clauses, clauses.len() as int, ctx);
    let before = lower_fold(clauses, clauses.len() as int, ctx);
    let after = lower_fold(clauses.push(extra), clauses.len() + 1int, ctx);
    assert(after.contracts.take(before.contracts.len() as int) =~= before.contracts);
}

/// Lowering depends only on the clauses lowered so far.
proof fn lemma_fold_prefix(longer: Seq<Clause>, shorter: Seq<Clause>, n: int, ctx: &ContractContext)
    requires
        0 <= n <= shorter.len(),
        n <= longer.len(),
        forall|i: int| 0 <= i < n ==> longer[i] == shorter[i],
    ensures
        lower_fold(longer, n, ctx) == lower_fold(shorter, n, ctx),
    decreases n,
{
    if n > 0 {
        lemma_fold_prefix(longer, shorter, n - 1, ctx);
    }
}

} // verus!
