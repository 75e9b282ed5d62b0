//! Name resolution: the symbols a package can name, and the pure decisions of
//! the resolver — how imports bind, which import diagnostics they raise, where
//! a package reference resolves, and whether package imports form a cycle.

use vstd::prelude::*;

use crate::chars::str_eq;
use crate::diag::{diag_messages, diags_view, DiagCode, Diagnostic, Severity};
use crate::expr::{
    first_binding, lemma_first_binding_absent, lemma_first_binding_push, lemma_first_binding_skip,
    lemma_first_binding_update, strs_view,
};
use crate::syntax::TextRange;

verus! {

/// The kind of a declared name — one per typl definition keyword, plus the
/// ridl `interface`.
#[derive(Debug, Clone, Copy, PartialEq, Eq, Structural)]
pub enum SymbolKind {
    Type,
    Const,
    Struct,
    Enum,
    EnumSet,
    Union,
    Interface,
}

/// One name visible inside a package, resolved to its declaration: its name
/// and package at the definition site, its kind, its `internal` and `error`
/// modifiers, and the file (index) and range of the declaration.
#[derive(Debug, PartialEq, Eq)]
pub struct Symbol {
    pub name: String,
    pub package: String,
    pub kind: SymbolKind,
    pub internal: bool,
    pub is_error: bool,
    pub file: usize,
    pub range: TextRange,
}

/// A package's resolved local view: the names it can reference by a bare
/// identifier, each bound once (the first binding wins), and the diagnostics
/// resolution raised.
#[derive(Debug, PartialEq, Eq)]
pub struct Resolution {
    pub symbols: Vec<(String, Symbol)>,
    pub diagnostics: Vec<Diagnostic>,
}

/// The kind bound to `name` by the first binding of it.
pub open spec fn symbol_kind_of(symbols: Seq<(String, Symbol)>, name: Seq<char>) -> Option<SymbolKind>
    decreases symbols.len(),
{
    if symbols.len() == 0 {
        None
    } else if symbols[0].0@ == name {
        Some(symbols[0].1.kind)
    } else {
        symbol_kind_of(symbols.drop_first(), name)
    }
}

impl Resolution {
    /// The kind of the symbol `name` binds, if any.
    pub fn kind_of(&self, name: &str) -> (r: Option<SymbolKind>)
        ensures
            r == symbol_kind_of(self.symbols@, name@),
    {
        let mut i: usize = 0;
        assert(self.symbols@.skip(0) =~= self.symbols@);
        while i < self.symbols.len()
            invariant
                i <= self.symbols.len(),
                symbol_kind_of(self.symbols@, name@) == symbol_kind_of(
                    self.symbols@.skip(i as int),
                    name@,
                ),
            decreases self.symbols.len() - i,
        {
            assert(self.symbols@.skip(i as int).drop_first() =~= self.symbols@.skip(i + 1));
            if str_eq(self.symbols[i].0.as_str(), name) {
                return Some(self.symbols[i].1.kind);
            }
            i = i + 1;
        }
        None
    }
}


// ==========================================================================
// Symbol tables
// ==========================================================================

/// What the contracts say of a symbol: every field, strings by their text.
pub type SSymbol = (Seq<char>, Seq<char>, SymbolKind, bool, bool, usize, TextRange);

pub open spec fn sym_view(s: Symbol) -> SSymbol {
    (s.name@, s.package@, s.kind, s.internal, s.is_error, s.file, s.range)
}

pub open spec fn sym_bindings(b: Seq<(String, Symbol)>) -> Seq<(Seq<char>, SSymbol)> {
    Seq::new(b.len(), |i: int| (b[i].0@, sym_view(b[i].1)))
}

impl Symbol {
    /// A copy of the symbol.
    pub fn copy(&self) -> (r: Symbol)
        ensures
            sym_view(r) == sym_view(*self),
    {
        Symbol {
            name: self.name.clone(),
            package: self.package.clone(),
            kind: self.kind,
            internal: self.internal,
            is_error: self.is_error,
            file: self.file,
            range: self.range,
        }
    }
}

/// Binds `name` to `symbol` in a symbol table, replacing an earlier binding
/// of the name: a map insert.
pub fn bind_symbol(symbols: &mut Vec<(String, Symbol)>, name: String, symbol: Symbol)
    ensures
        forall|n: Seq<char>|
            #[trigger] first_binding(sym_bindings(final(symbols)@), n) == if n == name@ {
                Some(sym_view(symbol))
            } else {
                first_binding(sym_bindings(old(symbols)@), n)
            },
{
    let ghost before = sym_bindings(symbols@);
    let ghost nm = name@;
    let ghost sv = sym_view(symbol);
    let mut i: usize = 0;
    while i < symbols.len()
        invariant
            i <= symbols.len(),
            before == sym_bindings(symbols@),
            symbols@ == old(symbols)@,
            nm == name@,
            sv == sym_view(symbol),
            forall|j: int| 0 <= j < i ==> before[j].0 != nm,
        decreases symbols.len() - i,
    {
        if str_eq(symbols[i].0.as_str(), name.as_str()) {
            let ghost k = before[i as int].0;
            symbols.set(i, (name, symbol));
            proof {
                assert(sym_bindings(symbols@) =~= before.update(i as int, (k, sv)));
                assert forall|n: Seq<char>| true implies #[trigger] first_binding(
                    sym_bindings(symbols@),
                    n,
                ) == if n == nm {
                    Some(sv)
                } else {
                    first_binding(before, n)
                } by {
                    lemma_first_binding_update(before, i as int, sv, n);
                }
            }
            return ;
        }
        i = i + 1;
    }
    symbols.push((name, symbol));
    proof {
        assert(sym_bindings(symbols@) =~= before.push((nm, sv)));
        assert forall|n: Seq<char>| true implies #[trigger] first_binding(sym_bindings(symbols@), n)
            == if n == nm {
            Some(sv)
        } else {
            first_binding(before, n)
        } by {
            lemma_first_binding_push(before, nm, sv, n);
            if n == nm {
                lemma_first_binding_absent(before, n);
            }
        }
    }
}

/// The symbol `name` binds, copied out.
pub fn find_symbol(symbols: &[(String, Symbol)], name: &str) -> (r: Option<Symbol>)
    ensures
        match r {
            Some(s) => first_binding(sym_bindings(symbols@), name@) == Some(sym_view(s)),
            None => first_binding(sym_bindings(symbols@), name@) is None,
        },
{
    let ghost view = sym_bindings(symbols@);
    let mut i: usize = 0;
    assert(view.skip(0) =~= view);
    while i < symbols.len()
        invariant
            i <= symbols.len(),
            view == sym_bindings(symbols@),
            first_binding(view, name@) == first_binding(view.skip(i as int), name@),
        decreases symbols.len() - i,
    {
        proof {
            lemma_first_binding_skip(view, i as int, name@);
        }
        if str_eq(symbols[i].0.as_str(), name) {
            return Some(symbols[i].1.copy());
        }
        i = i + 1;
    }
    assert(view.skip(i as int) =~= Seq::<(Seq<char>, SSymbol)>::empty());
    None
}

// ==========================================================================
// Imports
// ==========================================================================

/// One import as the resolver understands it, after shape detection and
/// package resolution.
#[derive(Debug, PartialEq, Eq)]
pub struct ImportRecord {
    /// The name the import binds locally — the alias, or the last path segment.
    pub local_name: String,
    /// The last path segment (what the local name would be without an alias).
    pub base_name: String,
    pub aliased: bool,
    /// The package path (every segment except the last).
    pub package_path: String,
    /// The file (index) and range of the import.
    pub file: usize,
    pub range: TextRange,
    /// The resolved declaration, when the path names a workspace member that
    /// exposes the imported symbol.
    pub bound: Option<Symbol>,
    /// The workspace member (index) the path resolves to.
    pub member: Option<usize>,
    /// The URL a remote import resolves to.
    pub remote_url: Option<String>,
    /// The path resolves nowhere.
    pub unknown: bool,
}

/// How many of the first `n` records bind the local name `name`.
pub open spec fn local_count(records: Seq<ImportRecord>, name: Seq<char>, n: int) -> nat
    decreases n,
{
    if n <= 0 {
        0
    } else {
        local_count(records, name, n - 1) + if records[n - 1].local_name@ == name {
            1nat
        } else {
            0nat
        }
    }
}

/// How many of the first `n` records import the base name `name`.
pub open spec fn base_count(records: Seq<ImportRecord>, name: Seq<char>, n: int) -> nat
    decreases n,
{
    if n <= 0 {
        0
    } else {
        base_count(records, name, n - 1) + if records[n - 1].base_name@ == name {
            1nat
        } else {
            0nat
        }
    }
}

pub type SDiag = (DiagCode, Severity, usize, TextRange);

/// The diagnostics record `i` draws, in order: the pending remote import
/// (info, no code), the unresolved package (error, no code), TYPL-006 for a
/// later import of a local name two imports bind, TYPL-008 for an alias
/// whose base name collides with neither another import nor a local
/// declaration, and TYPL-007 for an import that binds a symbol the package
/// never uses.
pub open spec fn record_diags(
    records: Seq<ImportRecord>,
    i: int,
    locals: Seq<Seq<char>>,
    used: Seq<Seq<char>>,
) -> Seq<SDiag> {
    let r = records[i];
    let at = |code: DiagCode, severity: Severity| seq![(code, severity, r.file, r.range)];
    let first = local_count(records, r.local_name@, i) == 0;
    (if r.remote_url is Some {
        at(DiagCode::NONE, Severity::Info)
    } else {
        Seq::empty()
    }) + (if r.unknown {
        at(DiagCode::NONE, Severity::Error)
    } else {
        Seq::empty()
    }) + (if local_count(records, r.local_name@, records.len() as int) >= 2 && !first {
        at(DiagCode::TYPL_006, Severity::Error)
    } else {
        Seq::empty()
    }) + (if r.aliased && !(base_count(records, r.base_name@, records.len() as int) >= 2)
        && !locals.contains(r.base_name@) {
        at(DiagCode::TYPL_008, Severity::Warning)
    } else {
        Seq::empty()
    }) + (if r.bound is Some && !used.contains(r.local_name@) {
        at(DiagCode::TYPL_007, Severity::Warning)
    } else {
        Seq::empty()
    })
}

/// The messages of [`record_diags`], in the same order: a remote import
/// names its package and URL, an unresolved one its package, a collision
/// and an unused import their local name, a needless alias both names.
pub open spec fn record_messages(
    records: Seq<ImportRecord>,
    i: int,
    locals: Seq<Seq<char>>,
    used: Seq<Seq<char>>,
) -> Seq<Seq<char>> {
    let r = records[i];
    let first = local_count(records, r.local_name@, i) == 0;
    (match r.remote_url {
        Some(url) => seq![
            "remote import `"@ + r.package_path@ + "` is not yet available: `"@ + url@
                + "` (remote materialization is not yet wired into the compile path)"@,
        ],
        None => Seq::empty(),
    }) + (if r.unknown {
        seq![
            "unresolved import: `"@ + r.package_path@
                + "` is not a workspace member and not declared in `[imports]`"@,
        ]
    } else {
        Seq::empty()
    }) + (if local_count(records, r.local_name@, records.len() as int) >= 2 && !first {
        seq!["conflicting import of `"@ + r.local_name@ + "`: alias one of the colliding imports"@]
    } else {
        Seq::empty()
    }) + (if r.aliased && !(base_count(records, r.base_name@, records.len() as int) >= 2)
        && !locals.contains(r.base_name@) {
        seq!["import alias `"@ + r.local_name@ + "` is not needed: `"@ + r.base_name@ + "` does not collide"@]
    } else {
        Seq::empty()
    }) + (if r.bound is Some && !used.contains(r.local_name@) {
        seq!["unused import `"@ + r.local_name@ + "`"@]
    } else {
        Seq::empty()
    })
}

/// The messages of the first `n` records' diagnostics, in record order.
pub open spec fn import_messages(
    records: Seq<ImportRecord>,
    n: int,
    locals: Seq<Seq<char>>,
    used: Seq<Seq<char>>,
) -> Seq<Seq<char>>
    decreases n,
{
    if n <= 0 {
        Seq::empty()
    } else {
        import_messages(records, n - 1, locals, used) + record_messages(records, n - 1, locals, used)
    }
}

/// The diagnostics of the first `n` records, in record order.
pub open spec fn import_diags(
    records: Seq<ImportRecord>,
    n: int,
    locals: Seq<Seq<char>>,
    used: Seq<Seq<char>>,
) -> Seq<SDiag>
    decreases n,
{
    if n <= 0 {
        Seq::empty()
    } else {
        import_diags(records, n - 1, locals, used) + record_diags(records, n - 1, locals, used)
    }
}

/// Whether record `i` binds its local name: it imports a real symbol, it is
/// the first import of that name, and no local declaration shadows it.
pub open spec fn record_binds(records: Seq<ImportRecord>, i: int, locals: Seq<Seq<char>>) -> bool {
    &&& records[i].bound is Some
    &&& local_count(records, records[i].local_name@, i) == 0
    &&& !locals.contains(records[i].local_name@)
}

/// The symbol the first `n` records bind to `name`, if one does.
pub open spec fn import_binding(
    records: Seq<ImportRecord>,
    n: int,
    locals: Seq<Seq<char>>,
    name: Seq<char>,
) -> Option<SSymbol>
    decreases n,
{
    if n <= 0 {
        None
    } else if records[n - 1].local_name@ == name && record_binds(records, n - 1, locals) {
        Some(sym_view(records[n - 1].bound->0))
    } else {
        import_binding(records, n - 1, locals, name)
    }
}

proof fn lemma_local_count_monotone(records: Seq<ImportRecord>, name: Seq<char>, a: int, b: int)
    requires
        0 <= a <= b,
    ensures
        local_count(records, name, a) <= local_count(records, name, b),
    decreases b - a,
{
    if a < b {
        lemma_local_count_monotone(records, name, a, b - 1);
    }
}

/// An import binding of `name` comes from a record of that name, so none
/// exists before the first such record.
proof fn lemma_import_binding_none(records: Seq<ImportRecord>, n: int, locals: Seq<Seq<char>>, name: Seq<char>)
    requires
        0 <= n <= records.len(),
        local_count(records, name, n) == 0,
    ensures
        import_binding(records, n, locals, name) is None,
    decreases n,
{
    if n > 0 {
        lemma_local_count_monotone(records, name, n - 1, n);
        lemma_import_binding_none(records, n - 1, locals, name);
    }
}

/// The number of the first `upto` records whose local name is `name`.
fn count_local(records: &[ImportRecord], name: &str, upto: usize) -> (r: usize)
    requires
        upto <= records.len(),
    ensures
        r == local_count(records@, name@, upto as int),
{
    let mut count: usize = 0;
    let mut j: usize = 0;
    while j < upto
        invariant
            j <= upto <= records.len(),
            count == local_count(records@, name@, j as int),
            count <= j,
        decreases upto - j,
    {
        if str_eq(records[j].local_name.as_str(), name) {
            count = count + 1;
        }
        j = j + 1;
    }
    count
}

/// The number of records whose base name is `name`.
fn count_base(records: &[ImportRecord], name: &str) -> (r: usize)
    ensures
        r == base_count(records@, name@, records.len() as int),
{
    let mut count: usize = 0;
    let mut j: usize = 0;
    while j < records.len()
        invariant
            j <= records.len(),
            count == base_count(records@, name@, j as int),
            count <= j,
        decreases records.len() - j,
    {
        if str_eq(records[j].base_name.as_str(), name) {
            count = count + 1;
        }
        j = j + 1;
    }
    count
}

/// Whether `names` holds `name`.
pub fn contains_name(names: &[String], name: &str) -> (r: bool)
    ensures
        r == strs_view(names@).contains(name@),
{
    let mut i: usize = 0;
    while i < names.len()
        invariant
            i <= names.len(),
            forall|j: int| 0 <= j < i ==> strs_view(names@)[j] != name@,
        decreases names.len() - i,
    {
        if str_eq(names[i].as_str(), name) {
            assert(strs_view(names@)[i as int] == name@);
            return true;
        }
        i = i + 1;
    }
    false
}

fn push_diag(out: &mut Vec<Diagnostic>, code: DiagCode, severity: Severity, file: usize, range: TextRange, message: String)
    ensures
        diags_view(final(out)@) == diags_view(old(out)@).push((code, severity, file, range)),
        diag_messages(final(out)@) == diag_messages(old(out)@).push(message@),
{
    let ghost text = message@;
    out.push(Diagnostic { code, severity, message, file, range });
    assert(diags_view(out@) =~= diags_view(old(out)@).push((code, severity, file, range)));
    assert(diag_messages(out@) =~= diag_messages(old(out)@).push(text));
}

/// The diagnostics of one record ([`record_diags`]).
#[verifier::rlimit(40)]
fn import_record_diags(
    records: &[ImportRecord],
    i: usize,
    locals: &[String],
    used: &[String],
    out: &mut Vec<Diagnostic>,
)
    requires
        i < records.len(),
    ensures
        diags_view(final(out)@) == diags_view(old(out)@) + record_diags(
            records@,
            i as int,
            strs_view(locals@),
            strs_view(used@),
        ),
        diag_messages(final(out)@) == diag_messages(old(out)@) + record_messages(
            records@,
            i as int,
            strs_view(locals@),
            strs_view(used@),
        ),
{
    let record = &records[i];
    let ghost start = diags_view(out@);
    let ghost start_messages = diag_messages(out@);
    let first = count_local(records, record.local_name.as_str(), i) == 0;
    if let Some(url) = &record.remote_url {
        let mut message = String::from_str("remote import `");
        message.append(record.package_path.as_str());
        message.append("` is not yet available: `");
        message.append(url.as_str());
        message.append(
            "` (remote materialization is not yet wired into the compile path)",
        );
        push_diag(out, DiagCode::NONE, Severity::Info, record.file, record.range, message);
    }
    let ghost d1 = diags_view(out@);
    if record.unknown {
        let mut message = String::from_str("unresolved import: `");
        message.append(record.package_path.as_str());
        message.append("` is not a workspace member and not declared in `[imports]`");
        push_diag(out, DiagCode::NONE, Severity::Error, record.file, record.range, message);
    }
    let ghost d2 = diags_view(out@);
    let colliding = count_local(records, record.local_name.as_str(), records.len()) >= 2;
    if colliding && !first {
        let mut message = String::from_str("conflicting import of `");
        message.append(record.local_name.as_str());
        message.append("`: alias one of the colliding imports");
        push_diag(out, DiagCode::TYPL_006, Severity::Error, record.file, record.range, message);
    }
    let ghost d3 = diags_view(out@);
    if record.aliased {
        let base_shared = count_base(records, record.base_name.as_str()) >= 2;
        if !base_shared && !contains_name(locals, record.base_name.as_str()) {
            let mut message = String::from_str("import alias `");
            message.append(record.local_name.as_str());
            message.append("` is not needed: `");
            message.append(record.base_name.as_str());
            message.append("` does not collide");
            push_diag(out, DiagCode::TYPL_008, Severity::Warning, record.file, record.range, message);
        }
    }
    let ghost d4 = diags_view(out@);
    if record.bound.is_some() && !contains_name(used, record.local_name.as_str()) {
        let mut message = String::from_str("unused import `");
        message.append(record.local_name.as_str());
        message.append("`");
        push_diag(out, DiagCode::TYPL_007, Severity::Warning, record.file, record.range, message);
    }
    assert(diags_view(out@) =~= start + record_diags(
        records@,
        i as int,
        strs_view(locals@),
        strs_view(used@),
    ));
    assert(diag_messages(out@) =~= start_messages + record_messages(
        records@,
        i as int,
        strs_view(locals@),
        strs_view(used@),
    ));
}

/// Analyses the collected imports: raises each record's diagnostics
/// ([`import_diags`]) and binds the winners ([`import_binding`]) — a local
/// declaration shadows an import, and among imports of one local name the
/// first wins.
pub fn apply_imports(
    records: &[ImportRecord],
    locals: &[String],
    used: &[String],
    symbols: &mut Vec<(String, Symbol)>,
    diagnostics: &mut Vec<Diagnostic>,
)
    ensures
        diags_view(final(diagnostics)@) == diags_view(old(diagnostics)@) + import_diags(
            records@,
            records.len() as int,
            strs_view(locals@),
            strs_view(used@),
        ),
        diag_messages(final(diagnostics)@) == diag_messages(old(diagnostics)@) + import_messages(
            records@,
            records.len() as int,
            strs_view(locals@),
            strs_view(used@),
        ),
        forall|n: Seq<char>|
            #[trigger] first_binding(sym_bindings(final(symbols)@), n) == match import_binding(
                records@,
                records.len() as int,
                strs_view(locals@),
                n,
            ) {
                Some(s) => Some(s),
                None => first_binding(sym_bindings(old(symbols)@), n),
            },
{
    let ghost start = diags_view(diagnostics@);
    let ghost start_messages = diag_messages(diagnostics@);
    let ghost original = sym_bindings(symbols@);
    let ghost lv = strs_view(locals@);
    let ghost uv = strs_view(used@);
    let mut i: usize = 0;
    while i < records.len()
        invariant
            i <= records.len(),
            lv == strs_view(locals@),
            uv == strs_view(used@),
            diags_view(diagnostics@) == start + import_diags(records@, i as int, lv, uv),
            diag_messages(diagnostics@) == start_messages + import_messages(records@, i as int, lv, uv),
            forall|n: Seq<char>|
                #[trigger] first_binding(sym_bindings(symbols@), n) == match import_binding(
                    records@,
                    i as int,
                    lv,
                    n,
                ) {
                    Some(s) => Some(s),
                    None => first_binding(original, n),
                },
        decreases records.len() - i,
    {
        import_record_diags(records, i, locals, used, diagnostics);
        assert(start + import_diags(records@, i as int, lv, uv) + record_diags(records@, i as int, lv, uv)
            =~= start + import_diags(records@, i + 1, lv, uv));
        assert(start_messages + import_messages(records@, i as int, lv, uv) + record_messages(
            records@,
            i as int,
            lv,
            uv,
        ) =~= start_messages + import_messages(records@, i + 1, lv, uv));
        let record = &records[i];
        let first = count_local(records, record.local_name.as_str(), i) == 0;
        let shadowed = contains_name(locals, record.local_name.as_str());
        let ghost before = sym_bindings(symbols@);
        if let Some(symbol) = &record.bound {
            if first && !shadowed {
                bind_symbol(symbols, record.local_name.clone(), symbol.copy());
                proof {
                    lemma_import_binding_none(records@, i as int, lv, record.local_name@);
                }
            }
        }
        proof {
            assert forall|n: Seq<char>| true implies #[trigger] first_binding(
                sym_bindings(symbols@),
                n,
            ) == match import_binding(records@, i + 1, lv, n) {
                Some(s) => Some(s),
                None => first_binding(original, n),
            } by {
                if record_binds(records@, i as int, lv) && records@[i as int].local_name@ == n {
                    lemma_import_binding_none(records@, i as int, lv, n);
                }
            }
        }
        i = i + 1;
    }
}

// ==========================================================================
// Where a package reference resolves
// ==========================================================================

/// Whether the `[imports]` alias `key` names `path`: it equals the path or is
/// a dot-separated prefix of it.
pub open spec fn alias_covers(path: Seq<char>, key: Seq<char>) -> bool {
    ||| path == key
    ||| key.len() < path.len() && path.take(key.len() as int) == key && path[key.len() as int] == '.'
}

/// Among the first `n` aliases, the longest that covers `path` (the later
/// one on a tie) with its URL.
pub open spec fn best_alias(map: Seq<(String, String)>, path: Seq<char>, n: int) -> Option<(nat, Seq<char>)>
    decreases n,
{
    if n <= 0 {
        None
    } else {
        let best = best_alias(map, path, n - 1);
        let key = map[n - 1].0@;
        if alias_covers(path, key) && (best matches Some(b) ==> key.len() >= b.0) {
            Some((key.len(), map[n - 1].1@))
        } else {
            best
        }
    }
}

fn covers(path: &Vec<char>, key: &str) -> (r: bool)
    ensures
        r == alias_covers(path@, key@),
{
    let k = crate::chars::str_to_chars(key);
    if k.len() > path.len() {
        return false;
    }
    let mut i: usize = 0;
    while i < k.len()
        invariant
            i <= k.len() <= path.len(),
            k@ == key@,
            forall|j: int| 0 <= j < i ==> path@[j] == k@[j],
        decreases k.len() - i,
    {
        if path[i] != k[i] {
            assert(path@.take(k.len() as int)[i as int] != key@[i as int]);
            assert(path@[i as int] != key@[i as int]);
            return false;
        }
        i = i + 1;
    }
    assert(path@.take(k.len() as int) =~= key@);
    if k.len() == path.len() {
        assert(path@ =~= key@);
        true
    } else {
        path[k.len()] == '.'
    }
}

/// The URL of the longest `[imports]` alias that equals `package_path` or
/// is a dot-separated prefix of it ([`best_alias`]).
pub fn longest_import_prefix(map: &[(String, String)], package_path: &str) -> (r: Option<String>)
    ensures
        match best_alias(map@, package_path@, map.len() as int) {
            Some((_, url)) => r matches Some(u) && u@ == url,
            None => r is None,
        },
{
    let path = crate::chars::str_to_chars(package_path);
    let mut best: Option<(usize, usize)> = None;
    let mut i: usize = 0;
    while i < map.len()
        invariant
            i <= map.len(),
            path@ == package_path@,
            match best_alias(map@, package_path@, i as int) {
                Some((len, url)) => best matches Some((b, at)) && at < i && len == b
                    && url == map@[at as int].1@,
                None => best is None,
            },
        decreases map.len() - i,
    {
        if covers(&path, map[i].0.as_str()) {
            let len = crate::chars::str_to_chars(map[i].0.as_str()).len();
            let better = match best {
                Some((b, _)) => len >= b,
                None => true,
            };
            if better {
                best = Some((len, i));
            }
        }
        i = i + 1;
    }
    match best {
        Some((_, at)) => Some(map[at].1.clone()),
        None => None,
    }
}

// ==========================================================================
// Import cycles
// ==========================================================================

/// A package graph: the workspace members each package imports, by index.
pub open spec fn graph_wf(edges: Seq<Vec<usize>>) -> bool {
    forall|a: int, j: int|
        0 <= a < edges.len() && 0 <= j < edges[a]@.len() ==> #[trigger] edges[a]@[j] < edges.len()
}

pub open spec fn edge(edges: Seq<Vec<usize>>, a: int, b: int) -> bool {
    0 <= a < edges.len() && exists|j: int| 0 <= j < edges[a]@.len() && edges[a]@[j] == b
}

/// Whether `p` is a walk along import edges.
pub open spec fn is_walk(edges: Seq<Vec<usize>>, p: Seq<int>) -> bool {
    &&& p.len() >= 1
    &&& forall|i: int| 0 <= i < p.len() - 1 ==> #[trigger] edge(edges, p[i], p[i + 1])
}

/// Whether `from` reaches `to` through one or more import edges.
pub open spec fn reaches_spec(edges: Seq<Vec<usize>>, from: int, to: int) -> bool {
    exists|p: Seq<int>| p.len() >= 2 && #[trigger] is_walk(edges, p) && p[0] == from && p.last() == to
}

proof fn lemma_walk_push(edges: Seq<Vec<usize>>, p: Seq<int>, to: int)
    requires
        is_walk(edges, p),
        edge(edges, p.last(), to),
    ensures
        is_walk(edges, p.push(to)),
        p.push(to)[0] == p[0],
        p.push(to).last() == to,
        p.push(to).len() == p.len() + 1,
{
    let q = p.push(to);
    assert forall|i: int| 0 <= i < q.len() - 1 implies #[trigger] edge(edges, q[i], q[i + 1]) by {
        if i < p.len() - 1 {
            assert(q[i] == p[i] && q[i + 1] == p[i + 1]);
        } else {
            assert(q[i] == p.last() && q[i + 1] == to);
        }
    }
}

pub open spec fn count_true(s: Seq<bool>) -> nat
    decreases s.len(),
{
    if s.len() == 0 {
        0
    } else {
        count_true(s.drop_last()) + if s.last() {
            1nat
        } else {
            0nat
        }
    }
}

pub proof fn lemma_count_true_bound(s: Seq<bool>)
    ensures
        count_true(s) <= s.len(),
    decreases s.len(),
{
    if s.len() > 0 {
        lemma_count_true_bound(s.drop_last());
    }
}

pub proof fn lemma_count_true_set(s: Seq<bool>, i: int)
    requires
        0 <= i < s.len(),
        !s[i],
    ensures
        count_true(s.update(i, true)) == count_true(s) + 1,
    decreases s.len(),
{
    let t = s.update(i, true);
    if i == s.len() - 1 {
        assert(t.drop_last() =~= s.drop_last());
    } else {
        assert(t.drop_last() =~= s.drop_last().update(i, true));
        lemma_count_true_set(s.drop_last(), i);
    }
}

/// Every walk of one or more steps from `from` ends in `seen` when `seen`
/// holds the successors of `from` and is closed under edges.
proof fn lemma_closed_complete(edges: Seq<Vec<usize>>, seen: Seq<bool>, from: int, p: Seq<int>)
    requires
        seen.len() == edges.len(),
        graph_wf(edges),
        0 <= from < edges.len(),
        forall|b: int| #[trigger] edge(edges, from, b) ==> seen[b],
        forall|a: int, b: int| 0 <= a < seen.len() && seen[a] && #[trigger] edge(edges, a, b) ==> seen[b],
        p.len() >= 2,
        is_walk(edges, p),
        p[0] == from,
    ensures
        0 <= p.last() < seen.len() && seen[p.last()],
    decreases p.len(),
{
    let n = p.len();
    let i = n - 2;
    assert(edge(edges, p[i], p[i + 1]));
    let a = p[i];
    let j = choose|j: int| 0 <= j < edges[a]@.len() && #[trigger] edges[a]@[j] == p[n - 1];
    assert(edges[a]@[j] < edges.len());
    if n > 2 {
        let q = p.drop_last();
        assert forall|i: int| 0 <= i < q.len() - 1 implies #[trigger] edge(edges, q[i], q[i + 1]) by {
            assert(edge(edges, p[i], p[i + 1]));
        }
        lemma_closed_complete(edges, seen, from, q);
    }
}

/// Whether `from` reaches `target` by following import edges one or more
/// times ([`reaches_spec`]).
pub fn reaches(edges: &[Vec<usize>], from: usize, target: usize) -> (r: bool)
    requires
        graph_wf(edges@),
        from < edges.len(),
        target < edges.len(),
    ensures
        r == reaches_spec(edges@, from as int, target as int),
{
    let n = edges.len();
    let mut seen: Vec<bool> = Vec::new();
    while seen.len() < n
        invariant
            seen.len() <= n,
            forall|v: int| 0 <= v < seen.len() ==> !seen@[v],
        decreases n - seen.len(),
    {
        seen.push(false);
    }
    let mut stack: Vec<usize> = Vec::new();
    let mut j: usize = 0;
    while j < edges[from].len()
        invariant
            graph_wf(edges@),
            from < n,
            n == edges.len(),
            seen.len() == n,
            j <= edges[from as int]@.len(),
            forall|v: int| 0 <= v < n && seen@[v] ==> reaches_spec(edges@, from as int, v),
            forall|q: int| 0 <= q < stack.len() ==> #[trigger] stack@[q] < n && seen@[stack@[q] as int],
            forall|q: int| 0 <= q < j ==> seen@[#[trigger] edges[from as int]@[q] as int],
            forall|v: int| 0 <= v < n && seen@[v] ==> stack@.contains(v as usize),
        decreases edges[from as int]@.len() - j,
    {
        let w = edges[from][j];
        assert(edges@[from as int]@[j as int] < n);
        if !seen[w] {
            let ghost old_stack = stack@;
            proof {
                assert(edge(edges@, from as int, w as int));
                let p = seq![from as int];
                assert(is_walk(edges@, p));
                lemma_walk_push(edges@, p, w as int);
                assert(is_walk(edges@, p.push(w as int)));
            }
            seen.set(w, true);
            stack.push(w);
            proof {
                assert forall|v: int| 0 <= v < n && seen@[v] implies stack@.contains(v as usize) by {
                    if v == w as int {
                        assert(stack@[stack@.len() - 1] == w);
                    } else {
                        let q = choose|q: int| 0 <= q < old_stack.len() && old_stack[q] == v as usize;
                        assert(stack@[q] == old_stack[q]);
                    }
                }
            }
        }
        j = j + 1;
    }
    proof {
        lemma_count_true_bound(seen@);
        assert forall|b: int| #[trigger] edge(edges@, from as int, b) implies seen@[b] by {
            let q = choose|q: int| 0 <= q < edges@[from as int]@.len() && edges@[from as int]@[q] == b;
            assert(seen@[edges[from as int]@[q] as int]);
        }
        assert forall|a: int, b: int|
            0 <= a < n && seen@[a] && !stack@.contains(a as usize) && #[trigger] edge(edges@, a, b)
                implies seen@[b] by {}
    }
    while stack.len() > 0
        invariant
            graph_wf(edges@),
            from < n,
            n == edges.len(),
            seen.len() == n,
            count_true(seen@) <= n,
            forall|v: int| 0 <= v < n && seen@[v] ==> reaches_spec(edges@, from as int, v),
            forall|q: int| 0 <= q < stack.len() ==> #[trigger] stack@[q] < n && seen@[stack@[q] as int],
            forall|b: int| #[trigger] edge(edges@, from as int, b) ==> seen@[b],
            forall|a: int, b: int|
                0 <= a < n && seen@[a] && !stack@.contains(a as usize) && #[trigger] edge(edges@, a, b)
                    ==> seen@[b],
        decreases 2 * (n - count_true(seen@)) + stack.len(),
    {
        let ghost full_stack = stack@;
        let x = stack.pop().unwrap();
        let ghost popped = stack@;
        let ghost count_before = count_true(seen@);
        assert(full_stack == popped.push(x));
        assert(x < n && seen@[x as int]) by {
            assert(full_stack[full_stack.len() - 1] == x);
        }
        proof {
            assert forall|a: int, b: int|
                0 <= a < n && seen@[a] && !popped.contains(a as usize) && a != x && #[trigger] edge(
                    edges@,
                    a,
                    b,
                ) implies seen@[b] by {
                if full_stack.contains(a as usize) {
                    let q = choose|q: int| 0 <= q < full_stack.len() && full_stack[q] == a as usize;
                    if q < popped.len() {
                        assert(popped[q] == full_stack[q]);
                    }
                }
            }
        }
        let mut k: usize = 0;
        while k < edges[x].len()
            invariant
                graph_wf(edges@),
                from < n,
                x < n,
                n == edges.len(),
                seen.len() == n,
                seen@[x as int],
                k <= edges[x as int]@.len(),
                count_true(seen@) <= n,
                count_true(seen@) >= count_before,
                count_true(seen@) - count_before == stack.len() - popped.len(),
                stack.len() >= popped.len(),
                stack@.take(popped.len() as int) == popped,
                forall|v: int| 0 <= v < n && seen@[v] ==> reaches_spec(edges@, from as int, v),
                forall|q: int| 0 <= q < stack.len() ==> #[trigger] stack@[q] < n && seen@[stack@[q] as int],
                forall|q: int| 0 <= q < k ==> seen@[#[trigger] edges[x as int]@[q] as int],
                forall|b: int| #[trigger] edge(edges@, from as int, b) ==> seen@[b],
                forall|a: int, b: int|
                    0 <= a < n && seen@[a] && !popped.contains(a as usize) && a != x && !stack@.contains(
                        a as usize,
                    ) && #[trigger] edge(edges@, a, b) ==> seen@[b],
            decreases edges[x as int]@.len() - k,
        {
            let w = edges[x][k];
            assert(edges@[x as int]@[k as int] < n);
            if !seen[w] {
                let ghost old_seen = seen@;
                let ghost old_stack = stack@;
                proof {
                    assert(edge(edges@, x as int, w as int));
                    let p = choose|p: Seq<int>|
                        p.len() >= 2 && #[trigger] is_walk(edges@, p) && p[0] == from as int && p.last()
                            == x as int;
                    lemma_walk_push(edges@, p, w as int);
                    assert(is_walk(edges@, p.push(w as int)));
                    lemma_count_true_set(seen@, w as int);
                    lemma_count_true_bound(seen@.update(w as int, true));
                }
                seen.set(w, true);
                stack.push(w);
                proof {
                    assert(stack@.take(popped.len() as int) =~= old_stack.take(popped.len() as int));
                    assert forall|a: int, b: int|
                        0 <= a < n && seen@[a] && !popped.contains(a as usize) && a != x
                            && !stack@.contains(a as usize) && #[trigger] edge(edges@, a, b) implies seen@[b] by {
                        assert(stack@[stack@.len() - 1] == w);
                        if a != w as int {
                            assert(old_seen[a]);
                            if old_stack.contains(a as usize) {
                                let q = choose|q: int| 0 <= q < old_stack.len() && old_stack[q] == a as usize;
                                assert(stack@[q] == old_stack[q]);
                            }
                        }
                    }
                }
            }
            k = k + 1;
        }
        proof {
            assert forall|a: int, b: int|
                0 <= a < n && seen@[a] && !stack@.contains(a as usize) && #[trigger] edge(edges@, a, b)
                    implies seen@[b] by {
                if a == x as int {
                    let jj = choose|jj: int| 0 <= jj < edges@[a]@.len() && edges@[a]@[jj] == b;
                    assert(seen@[edges[x as int]@[jj] as int]);
                } else if popped.contains(a as usize) {
                    let q = choose|q: int| 0 <= q < popped.len() && popped[q] == a as usize;
                    assert(stack@.take(popped.len() as int)[q] == popped[q]);
                    assert(stack@[q] == popped[q]);
                }
            }
        }
    }
    proof {
        if reaches_spec(edges@, from as int, target as int) {
            let p = choose|p: Seq<int>|
                p.len() >= 2 && #[trigger] is_walk(edges@, p) && p[0] == from as int && p.last()
                    == target as int;
            lemma_closed_complete(edges@, seen@, from as int, p);
        }
    }
    seen[target]
}

/// The TYPL-004 diagnostics of the first `n` records: one for every import
/// of a workspace member other than the package itself that reaches the
/// package again through member imports.
pub open spec fn cycle_diags(records: Seq<ImportRecord>, n: int, pkg: int, edges: Seq<Vec<usize>>) -> Seq<
    SDiag,
>
    decreases n,
{
    if n <= 0 {
        Seq::empty()
    } else {
        let r = records[n - 1];
        cycle_diags(records, n - 1, pkg, edges) + match r.member {
            Some(m) => if m != pkg && reaches_spec(edges, m as int, pkg) {
                seq![(DiagCode::TYPL_004, Severity::Error, r.file, r.range)]
            } else {
                Seq::empty()
            },
            None => Seq::empty(),
        }
    }
}

/// The messages of [`cycle_diags`]: each names both packages.
pub open spec fn cycle_messages(
    records: Seq<ImportRecord>,
    n: int,
    pkg: int,
    edges: Seq<Vec<usize>>,
    package_name: Seq<char>,
) -> Seq<Seq<char>>
    decreases n,
{
    if n <= 0 {
        Seq::empty()
    } else {
        let r = records[n - 1];
        cycle_messages(records, n - 1, pkg, edges, package_name) + match r.member {
            Some(m) => if m != pkg && reaches_spec(edges, m as int, pkg) {
                seq![
                    "circular package import: `"@ + package_name + "` and `"@ + r.package_path@
                        + "` import each other"@,
                ]
            } else {
                Seq::empty()
            },
            None => Seq::empty(),
        }
    }
}

pub open spec fn members_wf(records: Seq<ImportRecord>, n: int) -> bool {
    forall|i: int| 0 <= i < records.len() ==> (#[trigger] records[i].member matches Some(m) ==> m < n)
}

/// Raises TYPL-004 for every import of package `pkg` that closes a
/// cross-package cycle ([`cycle_diags`]); `edges` are the member imports of
/// every workspace package.
pub fn detect_cycles(
    pkg: usize,
    package_name: &str,
    records: &[ImportRecord],
    edges: &[Vec<usize>],
    diagnostics: &mut Vec<Diagnostic>,
)
    requires
        graph_wf(edges@),
        pkg < edges.len(),
        members_wf(records@, edges.len() as int),
    ensures
        diags_view(final(diagnostics)@) == diags_view(old(diagnostics)@) + cycle_diags(
            records@,
            records.len() as int,
            pkg as int,
            edges@,
        ),
        diag_messages(final(diagnostics)@) == diag_messages(old(diagnostics)@) + cycle_messages(
            records@,
            records.len() as int,
            pkg as int,
            edges@,
            package_name@,
        ),
{
    let ghost start = diags_view(diagnostics@);
    let ghost start_messages = diag_messages(diagnostics@);
    let mut i: usize = 0;
    while i < records.len()
        invariant
            i <= records.len(),
            graph_wf(edges@),
            pkg < edges.len(),
            members_wf(records@, edges.len() as int),
            diags_view(diagnostics@) == start + cycle_diags(records@, i as int, pkg as int, edges@),
            diag_messages(diagnostics@) == start_messages + cycle_messages(
                records@,
                i as int,
                pkg as int,
                edges@,
                package_name@,
            ),
        decreases records.len() - i,
    {
        let record = &records[i];
        let ghost before = diags_view(diagnostics@);
        if let Some(member) = record.member {
            assert(records@[i as int].member matches Some(m) ==> m < edges.len());
            if member != pkg && reaches(edges, member, pkg) {
                let mut message = String::from_str("circular package import: `");
                message.append(package_name);
                message.append("` and `");
                message.append(record.package_path.as_str());
                message.append("` import each other");
                push_diag(diagnostics, DiagCode::TYPL_004, Severity::Error, record.file, record.range, message);
            }
        }
        assert(diags_view(diagnostics@) =~= start + cycle_diags(records@, i + 1, pkg as int, edges@));
        assert(diag_messages(diagnostics@) =~= start_messages + cycle_messages(
            records@,
            i + 1,
            pkg as int,
            edges@,
            package_name@,
        ));
        i = i + 1;
    }
}

// ==========================================================================
// A package's names
// ==========================================================================

/// The TYPL-009 diagnostics of the first `n` declarations: one at each
/// declaration whose name an earlier one already declares.
pub open spec fn duplicate_diags(declared: Seq<(String, Symbol)>, n: int) -> Seq<SDiag>
    decreases n,
{
    if n <= 0 {
        Seq::empty()
    } else {
        let d = declared[n - 1];
        duplicate_diags(declared, n - 1) + if first_binding(
            sym_bindings(declared.take(n - 1)),
            d.0@,
        ) is Some {
            seq![(DiagCode::TYPL_009, Severity::Error, d.1.file, d.1.range)]
        } else {
            Seq::empty()
        }
    }
}

/// The messages of [`duplicate_diags`]: each names the duplicated name.
pub open spec fn duplicate_messages(declared: Seq<(String, Symbol)>, n: int) -> Seq<Seq<char>>
    decreases n,
{
    if n <= 0 {
        Seq::empty()
    } else {
        let d = declared[n - 1];
        duplicate_messages(declared, n - 1) + if first_binding(
            sym_bindings(declared.take(n - 1)),
            d.0@,
        ) is Some {
            seq!["duplicate declaration of `"@ + d.0@ + "`"@]
        } else {
            Seq::empty()
        }
    }
}

/// The first public (not `internal`) entry for `name` among the first `n`.
pub open spec fn public_binding(std: Seq<(String, Symbol)>, n: int, name: Seq<char>) -> Option<SSymbol>
    decreases n,
{
    if n <= 0 {
        None
    } else {
        match public_binding(std, n - 1, name) {
            Some(s) => Some(s),
            None => if std[n - 1].0@ == name && !std[n - 1].1.internal {
                Some(sym_view(std[n - 1].1))
            } else {
                None
            },
        }
    }
}

pub open spec fn declared_names(declared: Seq<(String, Symbol)>) -> Seq<Seq<char>> {
    Seq::new(declared.len(), |i: int| declared[i].0@)
}

/// The symbol a package's name resolves to: its own first declaration of
/// the name, else the import that binds it, else the public `ridl.std`
/// declaration of it.
pub open spec fn resolved_binding(
    declared: Seq<(String, Symbol)>,
    records: Seq<ImportRecord>,
    std: Seq<(String, Symbol)>,
    name: Seq<char>,
) -> Option<SSymbol> {
    match first_binding(sym_bindings(declared), name) {
        Some(s) => Some(s),
        None => match import_binding(records, records.len() as int, declared_names(declared), name) {
            Some(s) => Some(s),
            None => public_binding(std, std.len() as int, name),
        },
    }
}

proof fn lemma_names_contain(declared: Seq<(String, Symbol)>, name: Seq<char>)
    ensures
        declared_names(declared).contains(name) <==> first_binding(sym_bindings(declared), name) is Some,
    decreases declared.len(),
{
    if declared.len() > 0 {
        let rest = declared.drop_first();
        lemma_names_contain(rest, name);
        assert(sym_bindings(declared).drop_first() =~= sym_bindings(rest));
        assert(sym_bindings(declared)[0].0 == declared[0].0@);
        if declared_names(declared).contains(name) {
            let k = choose|k: int| 0 <= k < declared_names(declared).len() && declared_names(declared)[k] == name;
            if k > 0 {
                assert(declared_names(rest)[k - 1] == name);
            }
        }
        if declared_names(rest).contains(name) {
            let k = choose|k: int| 0 <= k < declared_names(rest).len() && declared_names(rest)[k] == name;
            assert(declared_names(declared)[k + 1] == name);
        }
        if declared[0].0@ == name {
            assert(declared_names(declared)[0] == name);
        }
    } else {
        assert(sym_bindings(declared) =~= Seq::<(Seq<char>, SSymbol)>::empty());
    }
}

/// Resolves the names visible inside package `pkg` (named `package_name`):
/// its own declarations in source order (first wins; a later duplicate is
/// TYPL-009), the imports (see [`apply_imports`]) and their cycles (see
/// [`detect_cycles`]), then the public `ridl.std` names where nothing else
/// binds. `used` are the names the package's bodies reference bare.
pub fn resolve_package(
    declared: &[(String, Symbol)],
    records: &[ImportRecord],
    used: &[String],
    std: &[(String, Symbol)],
    pkg: usize,
    package_name: &str,
    edges: &[Vec<usize>],
) -> (r: Resolution)
    requires
        graph_wf(edges@),
        pkg < edges.len(),
        members_wf(records@, edges.len() as int),
    ensures
        forall|n: Seq<char>|
            #[trigger] first_binding(sym_bindings(r.symbols@), n) == resolved_binding(
                declared@,
                records@,
                std@,
                n,
            ),
        diags_view(r.diagnostics@) == duplicate_diags(declared@, declared.len() as int) + import_diags(
            records@,
            records.len() as int,
            declared_names(declared@),
            strs_view(used@),
        ) + cycle_diags(records@, records.len() as int, pkg as int, edges@),
        diag_messages(r.diagnostics@) == duplicate_messages(declared@, declared.len() as int) + import_messages(
            records@,
            records.len() as int,
            declared_names(declared@),
            strs_view(used@),
        ) + cycle_messages(records@, records.len() as int, pkg as int, edges@, package_name@),
{
    let r = resolve_records(declared, records, Vec::new(), used, std, pkg, package_name, edges);
    assert(duplicate_diags(declared@, declared.len() as int) + Seq::<SDiag>::empty() =~= duplicate_diags(
        declared@,
        declared.len() as int,
    ));
    assert(duplicate_messages(declared@, declared.len() as int) + Seq::<Seq<char>>::empty() =~= duplicate_messages(
        declared@,
        declared.len() as int,
    ));
    r
}

/// Resolves a package from its import declarations: each import's package is
/// looked up ([`collect_imports`]: a workspace member first, then the
/// package's own `[imports]` map, then the workspace's), and the records it
/// gives are resolved with the declarations ([`resolve_package`]); what
/// collecting raises follows the duplicate declarations. The records are
/// returned beside the resolution.
pub fn resolve_package_imports(
    declared: &[(String, Symbol)],
    imports: &[ImportDecl],
    members: &[MemberPackage],
    pkg_imports: &[(String, String)],
    ws_imports: &[(String, String)],
    used: &[String],
    std: &[(String, Symbol)],
    pkg: usize,
    package_name: &str,
    edges: &[Vec<usize>],
) -> (r: (Resolution, Vec<ImportRecord>))
    requires
        graph_wf(edges@),
        pkg < edges.len(),
        members.len() <= edges.len(),
    ensures
        r.1@.map_values(|x: ImportRecord| record_view(x)) == collect_rule(
            imports@,
            imports.len() as int,
            members@,
            pkg_imports@,
            ws_imports@,
        ).0,
        forall|n: Seq<char>|
            #[trigger] first_binding(sym_bindings(r.0.symbols@), n) == resolved_binding(declared@, r.1@, std@, n),
        diags_view(r.0.diagnostics@) == duplicate_diags(declared@, declared.len() as int) + collect_rule(
            imports@,
            imports.len() as int,
            members@,
            pkg_imports@,
            ws_imports@,
        ).1 + import_diags(r.1@, r.1@.len() as int, declared_names(declared@), strs_view(used@)) + cycle_diags(
            r.1@,
            r.1@.len() as int,
            pkg as int,
            edges@,
        ),
{
    let (records, collected) = collect_imports(imports, members, pkg_imports, ws_imports);
    let resolution = resolve_records(declared, records.as_slice(), collected, used, std, pkg, package_name, edges);
    (resolution, records)
}

fn resolve_records(
    declared: &[(String, Symbol)],
    records: &[ImportRecord],
    collected: Vec<Diagnostic>,
    used: &[String],
    std: &[(String, Symbol)],
    pkg: usize,
    package_name: &str,
    edges: &[Vec<usize>],
) -> (r: Resolution)
    requires
        graph_wf(edges@),
        pkg < edges.len(),
        members_wf(records@, edges.len() as int),
    ensures
        forall|n: Seq<char>|
            #[trigger] first_binding(sym_bindings(r.symbols@), n) == resolved_binding(
                declared@,
                records@,
                std@,
                n,
            ),
        diags_view(r.diagnostics@) == duplicate_diags(declared@, declared.len() as int) + diags_view(collected@)
            + import_diags(records@, records.len() as int, declared_names(declared@), strs_view(used@))
            + cycle_diags(records@, records.len() as int, pkg as int, edges@),
        diag_messages(r.diagnostics@) == duplicate_messages(declared@, declared.len() as int) + diag_messages(
            collected@,
        ) + import_messages(records@, records.len() as int, declared_names(declared@), strs_view(used@))
            + cycle_messages(records@, records.len() as int, pkg as int, edges@, package_name@),
{
    let mut symbols: Vec<(String, Symbol)> = Vec::new();
    let mut diagnostics: Vec<Diagnostic> = Vec::new();
    let mut locals: Vec<String> = Vec::new();
    let mut i: usize = 0;
    assert(diags_view(diagnostics@) =~= Seq::empty());
    assert(diag_messages(diagnostics@) =~= Seq::empty());
    while i < declared.len()
        invariant
            i <= declared.len(),
            forall|n: Seq<char>|
                #[trigger] first_binding(sym_bindings(symbols@), n) == first_binding(
                    sym_bindings(declared@.take(i as int)),
                    n,
                ),
            diags_view(diagnostics@) == duplicate_diags(declared@, i as int),
            diag_messages(diagnostics@) == duplicate_messages(declared@, i as int),
            strs_view(locals@) == declared_names(declared@.take(i as int)),
        decreases declared.len() - i,
    {
        let (name, symbol) = (&declared[i].0, &declared[i].1);
        let ghost prefix = declared@.take(i as int);
        let ghost next = declared@.take(i + 1);
        assert(next.take(i as int) =~= prefix);
        assert(sym_bindings(next) =~= sym_bindings(prefix).push((name@, sym_view(*symbol))));
        let ghost before = diags_view(diagnostics@);
        match find_symbol(symbols.as_slice(), name.as_str()) {
            None => {
                bind_symbol(&mut symbols, name.clone(), symbol.copy());
                proof {
                    assert forall|n: Seq<char>| true implies #[trigger] first_binding(
                        sym_bindings(symbols@),
                        n,
                    ) == first_binding(sym_bindings(next), n) by {
                        lemma_first_binding_push(sym_bindings(prefix), name@, sym_view(*symbol), n);
                    }
                }
                assert(diags_view(diagnostics@) =~= duplicate_diags(declared@, i + 1));
                assert(diag_messages(diagnostics@) =~= duplicate_messages(declared@, i + 1));
            },
            Some(_) => {
                let mut message = String::from_str("duplicate declaration of `");
                message.append(name.as_str());
                message.append("`");
                push_diag(&mut diagnostics, DiagCode::TYPL_009, Severity::Error, symbol.file, symbol.range, message);
                proof {
                    assert forall|n: Seq<char>| true implies #[trigger] first_binding(
                        sym_bindings(symbols@),
                        n,
                    ) == first_binding(sym_bindings(next), n) by {
                        lemma_first_binding_push(sym_bindings(prefix), name@, sym_view(*symbol), n);
                    }
                }
                assert(diags_view(diagnostics@) =~= duplicate_diags(declared@, i + 1));
                assert(diag_messages(diagnostics@) =~= duplicate_messages(declared@, i + 1));
            },
        }
        let ghost locals_before = strs_view(locals@);
        locals.push(name.clone());
        assert(strs_view(locals@) =~= locals_before.push(name@));
        assert(declared_names(next) =~= declared_names(prefix).push(name@));
        i = i + 1;
    }
    assert(declared@.take(declared.len() as int) =~= declared@);
    let ghost before_collected = diagnostics@;
    let mut collected = collected;
    let ghost cv = collected@;
    diagnostics.append(&mut collected);
    assert(diags_view(diagnostics@) =~= diags_view(before_collected) + diags_view(cv));
    assert(diag_messages(diagnostics@) =~= diag_messages(before_collected) + diag_messages(cv));
    let ghost after_locals = sym_bindings(symbols@);
    let ghost names = declared_names(declared@);
    apply_imports(records, locals.as_slice(), used, &mut symbols, &mut diagnostics);
    detect_cycles(pkg, package_name, records, edges, &mut diagnostics);
    let ghost after_imports = sym_bindings(symbols@);
    let mut k: usize = 0;
    while k < std.len()
        invariant
            k <= std.len(),
            forall|n: Seq<char>|
                #[trigger] first_binding(sym_bindings(symbols@), n) == match first_binding(
                    after_imports,
                    n,
                ) {
                    Some(s) => Some(s),
                    None => public_binding(std@, k as int, n),
                },
        decreases std.len() - k,
    {
        let (name, symbol) = (&std[k].0, &std[k].1);
        if !symbol.internal && find_symbol(symbols.as_slice(), name.as_str()).is_none() {
            let ghost before = sym_bindings(symbols@);
            bind_symbol(&mut symbols, name.clone(), symbol.copy());
            proof {
                assert forall|n: Seq<char>| true implies #[trigger] first_binding(
                    sym_bindings(symbols@),
                    n,
                ) == match first_binding(after_imports, n) {
                    Some(s) => Some(s),
                    None => public_binding(std@, k + 1, n),
                } by {
                    if n == name@ {
                        assert(first_binding(before, n) is None);
                    }
                }
            }
        }
        k = k + 1;
    }
    proof {
        assert forall|n: Seq<char>| true implies #[trigger] first_binding(sym_bindings(symbols@), n)
            == resolved_binding(declared@, records@, std@, n) by {
            lemma_names_contain(declared@, n);
            if first_binding(sym_bindings(declared@), n) is Some {
                assert(names.contains(n));
                lemma_import_binding_shadowed(records@, records.len() as int, names, n);
            }
        }
    }
    Resolution { symbols, diagnostics }
}

/// No import binds a name a local declaration holds.
proof fn lemma_import_binding_shadowed(records: Seq<ImportRecord>, n: int, locals: Seq<Seq<char>>, name: Seq<char>)
    requires
        locals.contains(name),
    ensures
        import_binding(records, n, locals, name) is None,
    decreases n,
{
    if n > 0 {
        lemma_import_binding_shadowed(records, n - 1, locals, name);
    }
}

// ==========================================================================
// Import syntax
// ==========================================================================

/// A significant (non-trivia) token of a qualified name: a `.`, or any
/// other token by its text (keyword segments such as `integer` included).
#[derive(Debug, PartialEq, Eq)]
pub enum PathToken {
    Dot,
    Text(String),
}

/// What follows an import whose path the parser could not recover: trivia,
/// an error node (with the kind of its first significant token: a `.`,
/// a `..`, or something else), or anything else.
#[derive(Debug, Clone, Copy, PartialEq, Eq, Structural)]
pub enum Following {
    Trivia,
    ErrorNode { starts_with_dots: bool },
    Other,
}

/// The dot-separated segments of the first `n` tokens: every `.` starts a
/// new segment, every other token extends the current one.
pub open spec fn segments_rule(tokens: Seq<PathToken>, n: int) -> Seq<Seq<char>>
    decreases n,
{
    if n <= 0 {
        seq![Seq::empty()]
    } else {
        let s = segments_rule(tokens, n - 1);
        match tokens[n - 1] {
            PathToken::Dot => s.push(Seq::empty()),
            PathToken::Text(t) => s.update(s.len() - 1, s.last() + t@),
        }
    }
}

proof fn lemma_segments_nonempty(tokens: Seq<PathToken>, n: int)
    ensures
        segments_rule(tokens, n).len() >= 1,
    decreases n,
{
    if n > 0 {
        lemma_segments_nonempty(tokens, n - 1);
    }
}

/// The segments joined by dots.
pub open spec fn join_dots(segs: Seq<Seq<char>>) -> Seq<char>
    decreases segs.len(),
{
    if segs.len() == 0 {
        Seq::empty()
    } else if segs.len() == 1 {
        segs[0]
    } else {
        join_dots(segs.drop_last()) + seq!['.'] + segs.last()
    }
}

/// The segments of a qualified name ([`segments_rule`]).
pub fn qualified_segments(tokens: &[PathToken]) -> (r: Vec<String>)
    ensures
        crate::expr::strs_view(r@) == segments_rule(tokens@, tokens.len() as int),
{
    let mut segments: Vec<String> = Vec::new();
    let mut current = String::new();
    let mut i: usize = 0;
    while i < tokens.len()
        invariant
            i <= tokens.len(),
            crate::expr::strs_view(segments@).push(current@) == segments_rule(tokens@, i as int),
        decreases tokens.len() - i,
    {
        let ghost before = crate::expr::strs_view(segments@);
        let ghost cur = current@;
        match &tokens[i] {
            PathToken::Dot => {
                segments.push(current);
                current = String::new();
                assert(crate::expr::strs_view(segments@) =~= before.push(cur));
                assert(crate::expr::strs_view(segments@).push(current@) =~= before.push(cur).push(Seq::empty()));
            },
            PathToken::Text(t) => {
                current.append(t.as_str());
                assert(crate::expr::strs_view(segments@).push(current@) =~= before.push(cur).update(
                    before.len() as int,
                    cur + t@,
                ));
            },
        }
        i = i + 1;
    }
    let ghost before = crate::expr::strs_view(segments@);
    let ghost cur = current@;
    segments.push(current);
    assert(crate::expr::strs_view(segments@) =~= before.push(cur));
    segments
}

/// Whether the last significant token of a qualified name is a `.` (a
/// dangling path, the mark of a wildcard import).
pub fn last_significant_is_dot(tokens: &[PathToken]) -> (r: bool)
    ensures
        r == (tokens.len() > 0 && tokens@.last() == PathToken::Dot),
{
    if tokens.len() == 0 {
        return false;
    }
    match &tokens[tokens.len() - 1] {
        PathToken::Dot => true,
        PathToken::Text(_) => false,
    }
}

/// Whether the first of `following` that is not trivia is an error node
/// starting with `.` or `..` — a relative import the grammar does not
/// admit.
pub open spec fn relative_rule(following: Seq<Following>, i: int) -> bool
    decreases following.len() - i,
{
    if i < 0 || i >= following.len() {
        false
    } else {
        match following[i] {
            Following::Trivia => relative_rule(following, i + 1),
            Following::ErrorNode { starts_with_dots } => starts_with_dots,
            Following::Other => false,
        }
    }
}

/// Whether an import's path recovered as a leading-dot error node
/// ([`relative_rule`]).
pub fn import_has_relative_prefix(following: &[Following]) -> (r: bool)
    ensures
        r == relative_rule(following@, 0),
{
    let mut i: usize = 0;
    while i < following.len()
        invariant
            i <= following.len(),
            relative_rule(following@, 0) == relative_rule(following@, i as int),
        decreases following.len() - i,
    {
        match following[i] {
            Following::Trivia => {},
            Following::ErrorNode { starts_with_dots } => {
                return starts_with_dots;
            },
            Following::Other => {
                return false;
            },
        }
        i = i + 1;
    }
    false
}

/// The shape of an import by its path: a path ending in a dangling `.` is a
/// wildcard; a path of two or more segments names its last segment in the
/// package its other segments spell; a shorter path is malformed. Without a
/// recovered path, an import followed by a leading-dot error node is
/// relative, and otherwise malformed.
pub open spec fn import_shape_rule(path: Option<Seq<PathToken>>, following: Seq<Following>) -> Option<
    (Seq<char>, Seq<char>),
> {
    match path {
        Some(tokens) => {
            let segs = segments_rule(tokens, tokens.len() as int);
            if tokens.len() > 0 && tokens.last() == PathToken::Dot {
                None
            } else if segs.len() < 2 {
                None
            } else {
                Some((join_dots(segs.drop_last()), segs.last()))
            }
        },
        None => None,
    }
}

/// Joins segments with dots ([`join_dots`]).
fn join_segments(segs: &[String]) -> (r: String)
    ensures
        r@ == join_dots(crate::expr::strs_view(segs@)),
{
    let mut out = String::new();
    let mut i: usize = 0;
    while i < segs.len()
        invariant
            i <= segs.len(),
            out@ == join_dots(crate::expr::strs_view(segs@).take(i as int)),
        decreases segs.len() - i,
    {
        let ghost prefix = crate::expr::strs_view(segs@).take(i + 1);
        assert(prefix.drop_last() =~= crate::expr::strs_view(segs@).take(i as int));
        let ghost before = out@;
        if i > 0 {
            proof {
                reveal_strlit(".");
            }
            out.append(".");
            assert(out@ =~= before + seq!['.']);
        } else {
            assert(out@ =~= Seq::<char>::empty());
        }
        out.append(segs[i].as_str());
        assert(prefix.last() == segs@[i as int]@);
        assert(out@ =~= join_dots(prefix));
        i = i + 1;
    }
    assert(crate::expr::strs_view(segs@).take(segs.len() as int) =~= crate::expr::strs_view(segs@));
    out
}

/// Classifies an import by the significant tokens of its path, when the
/// parser recovered one, and what follows it.
pub fn import_shape(path: &Option<Vec<PathToken>>, following: &[Following]) -> (r: ImportShape)
    ensures
        match path {
            Some(tokens) => if tokens@.len() > 0 && tokens@.last() == PathToken::Dot {
                r == ImportShape::Wildcard
            } else {
                match import_shape_rule(Some(tokens@), following@) {
                    Some((package, symbol)) => r matches ImportShape::Named { package_path, symbol_name }
                        && package_path@ == package && symbol_name@ == symbol,
                    None => r == ImportShape::Malformed,
                }
            },
            None => if relative_rule(following@, 0) {
                r == ImportShape::Relative
            } else {
                r == ImportShape::Malformed
            },
        },
{
    match path {
        Some(tokens) => {
            if last_significant_is_dot(tokens.as_slice()) {
                return ImportShape::Wildcard;
            }
            let mut segments = qualified_segments(tokens.as_slice());
            if segments.len() < 2 {
                return ImportShape::Malformed;
            }
            let ghost all = crate::expr::strs_view(segments@);
            let symbol_name = segments.pop().unwrap();
            assert(crate::expr::strs_view(segments@) =~= all.drop_last());
            let package_path = join_segments(segments.as_slice());
            ImportShape::Named { package_path, symbol_name }
        },
        None => {
            if import_has_relative_prefix(following) {
                ImportShape::Relative
            } else {
                ImportShape::Malformed
            }
        },
    }
}

// ==========================================================================
// Collecting imports
// ==========================================================================

/// The shape of an import as parsed.
#[derive(Debug, PartialEq, Eq)]
pub enum ImportShape {
    /// A trailing `.` or `.*` — a wildcard (TYPL-003).
    Wildcard,
    /// A leading `.` or `..` — a relative import (TYPL-003).
    Relative,
    /// A well-formed `package.Symbol` reference.
    Named { package_path: String, symbol_name: String },
    /// Otherwise unusable; the parser already reported it.
    Malformed,
}

/// One `import` as written: its shape, its `as` alias (the keyword's
/// presence and the alias name), and where it stands.
#[derive(Debug, PartialEq, Eq)]
pub struct ImportDecl {
    pub shape: ImportShape,
    pub has_as: bool,
    pub alias: Option<String>,
    pub file: usize,
    pub range: TextRange,
}

/// A workspace member: its package name and its declarations, first wins.
#[derive(Debug, PartialEq, Eq)]
pub struct MemberPackage {
    pub name: String,
    pub symbols: Vec<(String, Symbol)>,
}

/// Where a package reference resolves.
#[derive(Debug, PartialEq, Eq)]
pub enum PackageSource {
    Member(usize),
    Remote(String),
    Unknown,
}

/// The index of the first member named `path`, or -1.
pub open spec fn member_index(members: Seq<MemberPackage>, path: Seq<char>, n: int) -> int
    decreases n,
{
    if n <= 0 {
        -1
    } else {
        let earlier = member_index(members, path, n - 1);
        if earlier >= 0 {
            earlier
        } else if members[n - 1].name@ == path {
            n - 1
        } else {
            -1
        }
    }
}

pub enum SSource {
    Member(int),
    Remote(Seq<char>),
    Unknown,
}

/// Where `path` resolves, in order: a workspace member; the package's own
/// `[imports]` (longest alias); the workspace `[imports]`; nowhere.
pub open spec fn source_rule(
    members: Seq<MemberPackage>,
    pkg_imports: Seq<(String, String)>,
    ws_imports: Seq<(String, String)>,
    path: Seq<char>,
) -> SSource {
    let m = member_index(members, path, members.len() as int);
    if m >= 0 {
        SSource::Member(m)
    } else {
        match best_alias(pkg_imports, path, pkg_imports.len() as int) {
            Some((_, url)) => SSource::Remote(url),
            None => match best_alias(ws_imports, path, ws_imports.len() as int) {
                Some((_, url)) => SSource::Remote(url),
                None => SSource::Unknown,
            },
        }
    }
}

/// Resolves a package reference ([`source_rule`]).
pub fn resolve_source(
    members: &[MemberPackage],
    pkg_imports: &[(String, String)],
    ws_imports: &[(String, String)],
    path: &str,
) -> (r: PackageSource)
    ensures
        match (r, source_rule(members@, pkg_imports@, ws_imports@, path@)) {
            (PackageSource::Member(i), SSource::Member(j)) => i as int == j && i < members.len(),
            (PackageSource::Remote(u), SSource::Remote(v)) => u@ == v,
            (PackageSource::Unknown, SSource::Unknown) => true,
            _ => false,
        },
{
    let mut i: usize = 0;
    while i < members.len()
        invariant
            i <= members.len(),
            member_index(members@, path@, i as int) < 0,
        decreases members.len() - i,
    {
        if str_eq(members[i].name.as_str(), path) {
            proof {
                lemma_member_index_stable(members@, path@, i + 1, members.len() as int);
            }
            return PackageSource::Member(i);
        }
        i = i + 1;
    }
    if let Some(url) = longest_import_prefix(pkg_imports, path) {
        return PackageSource::Remote(url);
    }
    if let Some(url) = longest_import_prefix(ws_imports, path) {
        return PackageSource::Remote(url);
    }
    PackageSource::Unknown
}

proof fn lemma_member_index_stable(members: Seq<MemberPackage>, path: Seq<char>, a: int, b: int)
    requires
        0 <= a <= b,
        member_index(members, path, a) >= 0,
    ensures
        member_index(members, path, b) == member_index(members, path, a),
    decreases b - a,
{
    if a < b {
        lemma_member_index_stable(members, path, a, b - 1);
    }
}

/// The model of an [`ImportRecord`].
pub type SRecord = (Seq<char>, Seq<char>, bool, Seq<char>, usize, TextRange, Option<SSymbol>, Option<int>, Option<Seq<char>>, bool);

pub open spec fn record_view(r: ImportRecord) -> SRecord {
    (
        r.local_name@,
        r.base_name@,
        r.aliased,
        r.package_path@,
        r.file,
        r.range,
        match r.bound {
            Some(s) => Some(sym_view(s)),
            None => None,
        },
        match r.member {
            Some(m) => Some(m as int),
            None => None,
        },
        match r.remote_url {
            Some(u) => Some(u@),
            None => None,
        },
        r.unknown,
    )
}

/// What one import contributes: TYPL-003 for a wildcard or relative import,
/// nothing for a malformed one, and for a named import a record — its local
/// name (the alias, else the symbol), where its package resolves, and the
/// public declaration it binds in a member package.
pub open spec fn import_rule(
    d: ImportDecl,
    members: Seq<MemberPackage>,
    pkg_imports: Seq<(String, String)>,
    ws_imports: Seq<(String, String)>,
) -> (Option<SRecord>, Seq<SDiag>) {
    match d.shape {
        ImportShape::Wildcard | ImportShape::Relative => (
            None,
            seq![(DiagCode::TYPL_003, Severity::Error, d.file, d.range)],
        ),
        ImportShape::Malformed => (None, Seq::empty()),
        ImportShape::Named { package_path, symbol_name } => {
            let local = match d.alias {
                Some(a) => a@,
                None => symbol_name@,
            };
            let (bound, member, url, unknown) = match source_rule(members, pkg_imports, ws_imports, package_path@) {
                SSource::Member(m) => (
                    match first_binding(sym_bindings(members[m].symbols@), symbol_name@) {
                        Some(s) => if s.3 {
                            None
                        } else {
                            Some(s)
                        },
                        None => None,
                    },
                    Some(m),
                    None,
                    false,
                ),
                SSource::Remote(u) => (None, None, Some(u), false),
                SSource::Unknown => (None, None, None, true),
            };
            (
                Some((local, symbol_name@, d.has_as, package_path@, d.file, d.range, bound, member, url, unknown)),
                Seq::empty(),
            )
        },
    }
}

pub open spec fn collect_rule(
    imports: Seq<ImportDecl>,
    n: int,
    members: Seq<MemberPackage>,
    pkg_imports: Seq<(String, String)>,
    ws_imports: Seq<(String, String)>,
) -> (Seq<SRecord>, Seq<SDiag>)
    decreases n,
{
    if n <= 0 {
        (Seq::empty(), Seq::empty())
    } else {
        let (rs, ds) = collect_rule(imports, n - 1, members, pkg_imports, ws_imports);
        let (r, d) = import_rule(imports[n - 1], members, pkg_imports, ws_imports);
        (
            match r {
                Some(x) => rs.push(x),
                None => rs,
            },
            ds + d,
        )
    }
}

/// Collects the imports of a package: TYPL-003 for wildcard and relative
/// imports, and a record for each named import with its package resolved
/// ([`collect_rule`]).
pub fn collect_imports(
    imports: &[ImportDecl],
    members: &[MemberPackage],
    pkg_imports: &[(String, String)],
    ws_imports: &[(String, String)],
) -> (r: (Vec<ImportRecord>, Vec<Diagnostic>))
    ensures
        r.0@.map_values(|x: ImportRecord| record_view(x)) == collect_rule(
            imports@,
            imports.len() as int,
            members@,
            pkg_imports@,
            ws_imports@,
        ).0,
        diags_view(r.1@) == collect_rule(imports@, imports.len() as int, members@, pkg_imports@, ws_imports@).1,
        forall|i: int| 0 <= i < r.0@.len() ==> (#[trigger] r.0@[i].member matches Some(m) ==> m < members.len()),
{
    let mut records: Vec<ImportRecord> = Vec::new();
    let mut out: Vec<Diagnostic> = Vec::new();
    let mut i: usize = 0;
    assert(records@.map_values(|x: ImportRecord| record_view(x)) =~= Seq::empty());
    assert(diags_view(out@) =~= Seq::empty());
    while i < imports.len()
        invariant
            i <= imports.len(),
            records@.map_values(|x: ImportRecord| record_view(x)) == collect_rule(
                imports@,
                i as int,
                members@,
                pkg_imports@,
                ws_imports@,
            ).0,
            diags_view(out@) == collect_rule(imports@, i as int, members@, pkg_imports@, ws_imports@).1,
            forall|q: int| 0 <= q < records@.len() ==> (#[trigger] records@[q].member matches Some(m) ==> m < members.len()),
        decreases imports.len() - i,
    {
        let import = &imports[i];
        let ghost before_records = records@.map_values(|x: ImportRecord| record_view(x));
        let ghost before_diags = diags_view(out@);
        match &import.shape {
            ImportShape::Wildcard => {
                push_diag(&mut out, DiagCode::TYPL_003, Severity::Error, import.file, import.range, String::from_str("wildcard imports are not permitted"));
            },
            ImportShape::Relative => {
                push_diag(&mut out, DiagCode::TYPL_003, Severity::Error, import.file, import.range, String::from_str("relative imports are not permitted"));
            },
            ImportShape::Malformed => {},
            ImportShape::Named { package_path, symbol_name } => {
                let local_name = match &import.alias {
                    Some(a) => a.clone(),
                    None => symbol_name.clone(),
                };
                let (bound, member, remote_url, unknown) = match resolve_source(
                    members,
                    pkg_imports,
                    ws_imports,
                    package_path.as_str(),
                ) {
                    PackageSource::Member(m) => {
                        let found = find_symbol(members[m].symbols.as_slice(), symbol_name.as_str());
                        let bound = match found {
                            Some(s) => if s.internal {
                                None
                            } else {
                                Some(s)
                            },
                            None => None,
                        };
                        (bound, Some(m), None, false)
                    },
                    PackageSource::Remote(url) => (None, None, Some(url), false),
                    PackageSource::Unknown => (None, None, None, true),
                };
                let record = ImportRecord {
                    local_name,
                    base_name: symbol_name.clone(),
                    aliased: import.has_as,
                    package_path: package_path.clone(),
                    file: import.file,
                    range: import.range,
                    bound,
                    member,
                    remote_url,
                    unknown,
                };
                let ghost rv = record_view(record);
                records.push(record);
                assert(records@.map_values(|x: ImportRecord| record_view(x)) =~= before_records.push(rv));
            },
        }
        assert(diags_view(out@) =~= collect_rule(imports@, i + 1, members@, pkg_imports@, ws_imports@).1);
        i = i + 1;
    }
    (records, out)
}

// ==========================================================================
// Laws
// ==========================================================================

/// A package's own declaration shadows every import and every `ridl.std`
/// name: the first local declaration of a name is what the name resolves to.
pub proof fn law_local_declaration_wins(
    declared: Seq<(String, Symbol)>,
    records: Seq<ImportRecord>,
    std: Seq<(String, Symbol)>,
    name: Seq<char>,
)
    requires
        first_binding(sym_bindings(declared), name) is Some,
    ensures
        resolved_binding(declared, records, std, name) == first_binding(sym_bindings(declared), name),
{
}

/// Among imports of one local name the first binds it: when the first
/// record importing `name` binds a symbol and no local declaration holds
/// the name, that symbol is what every later prefix of the records binds.
pub proof fn law_first_import_wins(
    records: Seq<ImportRecord>,
    locals: Seq<Seq<char>>,
    name: Seq<char>,
    i: int,
    n: int,
)
    requires
        0 <= i < n <= records.len(),
        records[i].local_name@ == name,
        local_count(records, name, i) == 0,
        records[i].bound is Some,
        !locals.contains(name),
    ensures
        import_binding(records, n, locals, name) == Some(sym_view(records[i].bound->0)),
    decreases n - i,
{
    if n - 1 == i {
        lemma_import_binding_none(records, i, locals, name);
    } else {
        law_first_import_wins(records, locals, name, i, n - 1);
        lemma_local_count_monotone(records, name, i + 1, n - 1);
        assert(local_count(records, name, i + 1) >= 1);
    }
}

/// An import closes a cycle exactly when the imported member reaches the
/// importing package again: a two-package mutual import always does.
pub proof fn law_mutual_import_is_a_cycle(edges: Seq<Vec<usize>>, a: int, b: int)
    requires
        edge(edges, a, b),
        edge(edges, b, a),
    ensures
        reaches_spec(edges, b, a),
        reaches_spec(edges, a, b),
{
    let p = seq![b, a];
    assert(is_walk(edges, p)) by {
        assert forall|i: int| 0 <= i < p.len() - 1 implies #[trigger] edge(edges, p[i], p[i + 1]) by {
            assert(i == 0);
        }
    }
    let q = seq![a, b];
    assert(is_walk(edges, q)) by {
        assert forall|i: int| 0 <= i < q.len() - 1 implies #[trigger] edge(edges, q[i], q[i + 1]) by {
            assert(i == 0);
        }
    }
}

/// The TYPL-008 findings of one record: one at the import exactly when it
/// carries an alias whose base name collides with nothing.
proof fn lemma_record_needless_alias(records: Seq<ImportRecord>, i: int, locals: Seq<Seq<char>>, used: Seq<Seq<char>>)
    ensures
        (exists|j: int|
            0 <= j < record_diags(records, i, locals, used).len() && (#[trigger] record_diags(
                records,
                i,
                locals,
                used,
            )[j]).0 == DiagCode::TYPL_008) <==> (records[i].aliased && base_count(
            records,
            records[i].base_name@,
            records.len() as int,
        ) < 2 && !locals.contains(records[i].base_name@)),
{
    let r = records[i];
    let at = |code: DiagCode, severity: Severity| seq![(code, severity, r.file, r.range)];
    let first = local_count(records, r.local_name@, i) == 0;
    let a = if r.remote_url is Some {
        at(DiagCode::NONE, Severity::Info)
    } else {
        Seq::empty()
    };
    let b = if r.unknown {
        at(DiagCode::NONE, Severity::Error)
    } else {
        Seq::empty()
    };
    let c = if local_count(records, r.local_name@, records.len() as int) >= 2 && !first {
        at(DiagCode::TYPL_006, Severity::Error)
    } else {
        Seq::empty()
    };
    let needless = r.aliased && !(base_count(records, r.base_name@, records.len() as int) >= 2)
        && !locals.contains(r.base_name@);
    let d = if needless {
        at(DiagCode::TYPL_008, Severity::Warning)
    } else {
        Seq::empty()
    };
    let e = if r.bound is Some && !used.contains(r.local_name@) {
        at(DiagCode::TYPL_007, Severity::Warning)
    } else {
        Seq::empty()
    };
    let all = record_diags(records, i, locals, used);
    assert(all =~= a + b + c + d + e);
    if needless {
        assert(all[(a.len() + b.len() + c.len()) as int] == d[0]);
    } else {
        assert forall|j: int| 0 <= j < all.len() implies (#[trigger] all[j]).0 != DiagCode::TYPL_008 by {
            let k = j - a.len() - b.len() - c.len();
            if j < a.len() {
                assert(all[j] == a[j]);
            } else if j < a.len() + b.len() {
                assert(all[j] == b[j - a.len()]);
            } else if j < a.len() + b.len() + c.len() {
                assert(all[j] == c[j - a.len() - b.len()]);
            } else {
                assert(all[j] == e[k]);
            }
        }
    }
}

/// An import alias is reported as needless (TYPL-008) exactly when some
/// aliased import among the first `n` has a base name that neither another
/// import nor a local declaration holds. So an alias that keeps an import
/// apart from a local declaration of its base name never draws TYPL-008.
pub proof fn law_needless_alias_only_without_collision(
    records: Seq<ImportRecord>,
    n: int,
    locals: Seq<Seq<char>>,
    used: Seq<Seq<char>>,
)
    requires
        0 <= n <= records.len(),
    ensures
        (exists|j: int|
            0 <= j < import_diags(records, n, locals, used).len() && (#[trigger] import_diags(
                records,
                n,
                locals,
                used,
            )[j]).0 == DiagCode::TYPL_008) <==> (exists|i: int|
            0 <= i < n && (#[trigger] records[i]).aliased && base_count(
                records,
                records[i].base_name@,
                records.len() as int,
            ) < 2 && !locals.contains(records[i].base_name@)),
        (forall|i: int| 0 <= i < n ==> locals.contains((#[trigger] records[i]).base_name@)) ==> forall|j: int|
            0 <= j < import_diags(records, n, locals, used).len() ==> (#[trigger] import_diags(
                records,
                n,
                locals,
                used,
            )[j]).0 != DiagCode::TYPL_008,
    decreases n,
{
    if n > 0 {
        law_needless_alias_only_without_collision(records, n - 1, locals, used);
        lemma_record_needless_alias(records, n - 1, locals, used);
        let prev = import_diags(records, n - 1, locals, used);
        let last = record_diags(records, n - 1, locals, used);
        let all = import_diags(records, n, locals, used);
        assert(all == prev + last);
        let found = exists|j: int| 0 <= j < all.len() && (#[trigger] all[j]).0 == DiagCode::TYPL_008;
        let in_prev = exists|j: int| 0 <= j < prev.len() && (#[trigger] prev[j]).0 == DiagCode::TYPL_008;
        let in_last = exists|j: int| 0 <= j < last.len() && (#[trigger] last[j]).0 == DiagCode::TYPL_008;
        assert(found <==> (in_prev || in_last)) by {
            if found {
                let j = choose|j: int| 0 <= j < all.len() && (#[trigger] all[j]).0 == DiagCode::TYPL_008;
                if j < prev.len() {
                    assert(prev[j] == all[j]);
                } else {
                    assert(last[j - prev.len()] == all[j]);
                }
            }
            if in_prev {
                let j = choose|j: int| 0 <= j < prev.len() && (#[trigger] prev[j]).0 == DiagCode::TYPL_008;
                assert(all[j] == prev[j]);
            }
            if in_last {
                let j = choose|j: int| 0 <= j < last.len() && (#[trigger] last[j]).0 == DiagCode::TYPL_008;
                assert(all[prev.len() + j] == last[j]);
            }
        }
        if exists|i: int| 0 <= i < n && (#[trigger] records[i]).aliased && base_count(
            records,
            records[i].base_name@,
            records.len() as int,
        ) < 2 && !locals.contains(records[i].base_name@) {
            let i = choose|i: int| 0 <= i < n && (#[trigger] records[i]).aliased && base_count(
                records,
                records[i].base_name@,
                records.len() as int,
            ) < 2 && !locals.contains(records[i].base_name@);
            if i < n - 1 {
                assert(0 <= i < n - 1 && records[i].aliased);
            }
        }
        if (forall|i: int| 0 <= i < n ==> locals.contains((#[trigger] records[i]).base_name@)) {
            assert(locals.contains(records[n - 1].base_name@));
            assert(forall|i: int| 0 <= i < n - 1 ==> locals.contains((#[trigger] records[i]).base_name@));
            assert forall|j: int| 0 <= j < all.len() implies (#[trigger] all[j]).0 != DiagCode::TYPL_008 by {
                if j < prev.len() {
                    assert(all[j] == prev[j]);
                } else {
                    assert(all[j] == last[j - prev.len()]);
                }
            }
        }
    }
}

} // verus!
