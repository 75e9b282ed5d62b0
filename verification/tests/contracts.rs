//! Lowering contract clauses.

use ridl_sem::check::{check_member_attrs, Attribute, MemberKind};
use ridl_sem::contracts::{lower_contracts, Clause, Contract, ContractContext, ContractKind};
use ridl_sem::diag::{DiagCode, Diagnostic};
use ridl_sem::expr::{ContractVocabulary, ExprType, NumericBacking};
use ridl_sem::expr_eval::parse_contract_expr;
use ridl_sem::resolve::{Resolution, Symbol, SymbolKind};
use ridl_sem::syntax::TextRange;

fn clause(kind: ContractKind, text: &str) -> Clause {
    Clause {
        kind,
        expr: Some(parse_contract_expr(text).unwrap_or_else(|| panic!("`{text}` parses"))),
    }
}

fn require(text: &str) -> Clause {
    clause(ContractKind::Require, text)
}

fn ensure(text: &str) -> Clause {
    clause(ContractKind::Ensure, text)
}

fn speed() -> ExprType {
    ExprType::Numeric("app.Speed".to_string(), NumericBacking::Float)
}

fn tick() -> ExprType {
    ExprType::Numeric("app.Tick".to_string(), NumericBacking::Integer)
}

fn symbol(name: &str, kind: SymbolKind, internal: bool) -> Symbol {
    Symbol {
        name: name.to_string(),
        package: "app".to_string(),
        kind,
        internal,
        is_error: false,
        file: 0,
        range: TextRange { start: 0, end: 0 },
    }
}

fn codes(diagnostics: &[Diagnostic]) -> Vec<&str> {
    diagnostics.iter().map(|d| d.code.as_str()).collect()
}

fn ids(contracts: &[Contract]) -> Vec<&str> {
    contracts.iter().map(|c| c.observer_id.as_str()).collect()
}

struct Fixture {
    vocabulary: ContractVocabulary,
    resolution: Resolution,
}

fn fixture() -> Fixture {
    let mut vocabulary = ContractVocabulary::default();
    vocabulary.insert_const("MAX_SPEED".to_string(), speed());
    Fixture {
        vocabulary,
        resolution: Resolution { symbols: vec![("MAX_SPEED".to_string(), symbol("MAX_SPEED", SymbolKind::Const, false))], diagnostics: Vec::new() },
    }
}

fn context<'a>(
    f: &'a Fixture,
    interaction: &'a str,
    allow_ensure: bool,
    params: &'a [(String, ExprType)],
    result: Option<ExprType>,
    signals: &'a [(String, ExprType)],
) -> ContractContext<'a> {
    ContractContext {
        interface: "I",
        interaction,
        allow_ensure,
        params,
        result,
        signals,
        vocabulary: &f.vocabulary,
        resolution: &f.resolution,
        package: "app",
        interface_internal: false,
        file: 2,
    }
}

#[test]
fn contract_source_lowers_canonical_text() {
    let f = fixture();
    let params = [("min".to_string(), speed()), ("max".to_string(), speed())];
    let ctx = context(&f, "q", true, &params, Some(speed()), &[]);
    let (contracts, diagnostics) = lower_contracts(
        &[require("(min<max)&&(max<=MAX_SPEED)"), ensure("result>=0.0")],
        &ctx,
    );
    assert!(diagnostics.is_empty(), "{diagnostics:?}");
    let sources: Vec<&str> = contracts.iter().map(|c| c.source.as_str()).collect();
    assert_eq!(sources, ["min < max && max <= MAX_SPEED", "result >= 0.0"]);
    assert!(contracts[1].uses_result);
    assert_eq!(contracts[1].kind, ContractKind::Ensure);
}

#[test]
fn contract_observer_ids_number_within_the_clause_kind() {
    let f = fixture();
    let params = [("min".to_string(), speed()), ("max".to_string(), speed())];
    let ctx = context(&f, "c", false, &params, None, &[]);
    let (contracts, diagnostics) = lower_contracts(&[require("min < max"), require("max <= MAX_SPEED")], &ctx);
    assert!(diagnostics.is_empty(), "{diagnostics:?}");
    assert_eq!(ids(&contracts), ["I.c.require[0]", "I.c.require[1]"]);
    assert_eq!(contracts[0].param_refs, ["min", "max"]);
    assert_eq!(contracts[1].param_refs, ["max"]);
    assert!(contracts.iter().all(|c| c.signal_refs.is_empty() && !c.uses_result));
}

#[test]
fn appending_a_clause_does_not_renumber_the_earlier_observer_ids() {
    let f = fixture();
    let params = [("w".to_string(), ExprType::Duration)];
    let ctx = context(&f, "q", true, &params, Some(speed()), &[]);
    let (one, _) = lower_contracts(&[require("w > 0ms")], &ctx);
    assert_eq!(ids(&one), ["I.q.require[0]"]);
    let (two, _) = lower_contracts(&[require("w > 0ms"), require("w < 10s")], &ctx);
    assert_eq!(ids(&two), ["I.q.require[0]", "I.q.require[1]"]);
    let (mixed, _) = lower_contracts(&[require("w > 0ms"), ensure("result >= 0.0")], &ctx);
    assert_eq!(ids(&mixed), ["I.q.require[0]", "I.q.ensure[0]"]);
}

#[test]
fn removing_a_clause_renumbers_the_survivors_known_limitation() {
    let f = fixture();
    let params = [("min".to_string(), speed()), ("max".to_string(), speed())];
    let ctx = context(&f, "c", false, &params, None, &[]);
    let (both, _) = lower_contracts(&[require("min < max"), require("max <= MAX_SPEED")], &ctx);
    assert_eq!(both[1].observer_id, "I.c.require[1]");
    let (survivor, _) = lower_contracts(&[require("max <= MAX_SPEED")], &ctx);
    assert_eq!(survivor[0].observer_id, "I.c.require[0]");
}

#[test]
fn signal_reads_are_qualified_by_the_interface_and_checker_diagnostics_are_stamped() {
    let f = fixture();
    let params = [("position".to_string(), speed())];
    let signals = [("currentSpeed".to_string(), speed())];
    let ctx = context(&f, "setGear", false, &params, None, &signals);
    let (contracts, diagnostics) = lower_contracts(
        &[require("currentSpeed == 0.0"), require("nowhere > 1"), ensure("result > 0.0")],
        &ctx,
    );
    assert_eq!(contracts.len(), 2, "an ensure where ensures do not lower is skipped");
    assert_eq!(contracts[0].signal_refs, ["I.currentSpeed"]);
    assert_eq!(codes(&diagnostics), ["RIDL-306"]);
    assert_eq!(diagnostics[0].file, 2);
}

fn exposure_fixture() -> Fixture {
    let mut vocabulary = ContractVocabulary::default();
    vocabulary.insert_const("SECRET_MAX".to_string(), tick());
    vocabulary.insert_const("MAX_LEVEL".to_string(), tick());
    vocabulary.insert_const("level".to_string(), tick());
    vocabulary.insert_enum(
        "Mode".to_string(),
        ridl_sem::expr::EnumDecl {
            reference: "app.Mode".to_string(),
            members: vec!["OFF".to_string(), "ON".to_string()],
        },
    );
    let resolution = Resolution {
        symbols: vec![
            ("SECRET_MAX".to_string(), symbol("SECRET_MAX", SymbolKind::Const, true)),
            ("MAX_LEVEL".to_string(), symbol("MAX_LEVEL", SymbolKind::Const, true)),
            ("level".to_string(), symbol("level", SymbolKind::Const, true)),
            ("Mode".to_string(), symbol("Mode", SymbolKind::Enum, true)),
        ],
        diagnostics: Vec::new(),
    };
    Fixture { vocabulary, resolution }
}

#[test]
fn typl_005_covers_a_contract_reference() {
    let f = exposure_fixture();
    let params = [("p".to_string(), tick())];
    let ctx = ContractContext { interface: "Panel", ..context(&f, "e", true, &params, Some(tick()), &[]) };
    let (_, diagnostics) = lower_contracts(&[require("p < SECRET_MAX"), ensure("result > SECRET_MAX")], &ctx);
    assert_eq!(codes(&diagnostics), ["TYPL-005", "TYPL-005"]);
    assert!(diagnostics[0].message.contains("internal constant `SECRET_MAX`"), "{}", diagnostics[0].message);
    assert!(diagnostics[0].message.contains("public `Panel`"));
    let modes = [("p".to_string(), ExprType::EnumType("app.Mode".to_string()))];
    let ctx = ContractContext { interface: "Panel", ..context(&f, "h", false, &modes, None, &[]) };
    let (_, diagnostics) = lower_contracts(&[require("p == Mode.ON")], &ctx);
    assert_eq!(codes(&diagnostics), ["TYPL-005"]);
    assert!(diagnostics[0].message.contains("internal type `Mode`"), "{}", diagnostics[0].message);
    let internal = ContractContext { interface_internal: true, ..context(&f, "h", false, &modes, None, &[]) };
    assert!(lower_contracts(&[require("p == Mode.ON")], &internal).1.is_empty());
}

#[test]
fn a_parameter_shadowing_an_internal_constant_is_not_an_exposure() {
    let f = exposure_fixture();
    let params = [("level".to_string(), tick())];
    let ctx = context(&f, "e", false, &params, None, &[]);
    let (_, diagnostics) = lower_contracts(&[require("level < 10")], &ctx);
    assert!(diagnostics.is_empty(), "{diagnostics:?}");
}

#[test]
fn an_ensure_binds_no_signals_so_a_shadowing_signal_still_exposes() {
    let f = exposure_fixture();
    let params = [("p".to_string(), tick())];
    let signals = [("MAX_LEVEL".to_string(), tick())];
    let ctx = context(&f, "c", true, &params, Some(tick()), &signals);
    let (_, diagnostics) = lower_contracts(&[require("p < MAX_LEVEL")], &ctx);
    assert!(diagnostics.is_empty(), "a `require` binds the signal; got {diagnostics:?}");
    let (_, diagnostics) = lower_contracts(&[ensure("result > MAX_LEVEL")], &ctx);
    assert_eq!(codes(&diagnostics), ["TYPL-005"]);
    assert!(diagnostics[0].message.contains("internal constant `MAX_LEVEL`"));
}

fn at(start: usize) -> TextRange {
    TextRange { start, end: start + 1 }
}

#[test]
fn ridl_301_contracts_on_signal_event_final() {
    for kind in [MemberKind::Signal, MemberKind::Event, MemberKind::Final] {
        let diagnostics = check_member_attrs(&[Attribute::Require(at(1)), Attribute::Ensure(at(2))], kind);
        assert_eq!(codes(&diagnostics), ["RIDL-301", "RIDL-301"]);
        assert!(diagnostics[0].message.contains(kind.noun()));
    }
}

#[test]
fn ridl_302_ensure_on_command() {
    let diagnostics = check_member_attrs(&[Attribute::Require(at(1)), Attribute::Ensure(at(2))], MemberKind::Command);
    assert_eq!(codes(&diagnostics), ["RIDL-302"]);
    assert!(check_member_attrs(&[Attribute::Require(at(1)), Attribute::Ensure(at(2))], MemberKind::Query).is_empty());
}

#[test]
fn form_106_107_108_attribute_allow_list() {
    let attrs = [
        Attribute::Key(Some("persist".to_string()), at(1)),
        Attribute::Key(Some("colour".to_string()), at(2)),
        Attribute::Key(Some("persist".to_string()), at(3)),
        Attribute::Key(None, at(4)),
    ];
    let diagnostics = check_member_attrs(&attrs, MemberKind::Signal);
    assert_eq!(codes(&diagnostics), ["FORM-107", "FORM-106", "FORM-107", "FORM-108"]);
    assert_eq!(diagnostics[0].message, "attribute `persist` not valid on signal");
    assert_eq!(diagnostics[3].code, DiagCode::FORM_108);
}
