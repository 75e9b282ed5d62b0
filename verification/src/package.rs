//! Checking a whole package: which declarations lower (the resolver's
//! first-wins winners only) and what each lowers to, which services lower
//! (each dotted name once), and the order in which the passes' diagnostics
//! are raised — the manifest's timing default, then file by file the
//! lowerings, the exposure pass and the stream-position pass, then recursion
//! across the package, then the lints.

use vstd::prelude::*;

use crate::definitions::{
    opt_text, body_wf, definition_diags, definition_lowered, interface_diags, interface_lowered, lower_definition,
    lower_interface, lower_service, service_diags_of, service_lowered, service_wf, Definition, InterfaceDecl,
    LoweredDefinition, LoweredInterface, LoweredService, ServiceDecl,
};
use crate::check::ConstEntry;
use crate::diag::{diag_messages, diags_view, DiagCode, Diagnostic, Severity, DETACHED};
use crate::expr::{first_binding, strs_view};
use crate::exposure::{check_exposure, items_rule, ExposedItem};
use crate::interactions::{check_stream_positions, streams_rule, StreamParent};
use crate::layout::{table_wf, DeclShape};
use crate::lint::{error_uses, lint_package, package_lints, LintScope};
use crate::recursion::{check_recursion, recursion_diags, CompositeNode, RecursionStart};
use crate::resolve::{contains_name, find_symbol, graph_wf, sym_bindings, SDiag, Symbol};
use crate::syntax::TextRange;

verus! {

/// One file of the package: whether it is a ridl-profile file, its type
/// declarations, interfaces and services in source order, its top-level
/// items for the exposure pass, and its stream types by where they stand.
#[derive(Debug, PartialEq, Eq)]
pub struct PackageFile {
    pub ridl_profile: bool,
    pub definitions: Vec<Definition>,
    pub interfaces: Vec<InterfaceDecl>,
    pub services: Vec<ServiceDecl>,
    pub items: Vec<ExposedItem>,
    pub streams: Vec<(StreamParent, TextRange)>,
}

/// A declaration of the package, lowered: the file it stands in, its index
/// among that file's declarations, and what it lowered to.
#[derive(Debug, PartialEq, Eq)]
pub struct PackageDecl {
    pub file: usize,
    pub index: usize,
    pub lowered: LoweredDefinition,
}

/// An interface of the package, lowered, with where it stands.
#[derive(Debug, PartialEq, Eq)]
pub struct PackageInterface {
    pub file: usize,
    pub index: usize,
    pub lowered: LoweredInterface,
}

/// A service of the package, lowered, with where it stands.
#[derive(Debug, PartialEq, Eq)]
pub struct PackageService {
    pub file: usize,
    pub index: usize,
    pub lowered: LoweredService,
}

/// A checked package: the declarations, interfaces and services that
/// lowered, in package order, and every diagnostic the check raised.
#[derive(Debug, PartialEq, Eq)]
pub struct CheckedPackage {
    pub decls: Vec<PackageDecl>,
    pub interfaces: Vec<PackageInterface>,
    pub services: Vec<PackageService>,
    pub diagnostics: Vec<Diagnostic>,
}

pub open spec fn decl_positions(ds: Seq<PackageDecl>) -> Seq<(usize, usize)> {
    ds.map_values(|d: PackageDecl| (d.file, d.index))
}

pub open spec fn interface_positions(ds: Seq<PackageInterface>) -> Seq<(usize, usize)> {
    ds.map_values(|d: PackageInterface| (d.file, d.index))
}

pub open spec fn service_positions(ds: Seq<PackageService>) -> Seq<(usize, usize)> {
    ds.map_values(|d: PackageService| (d.file, d.index))
}

/// The diagnostics `ds`, pointed into file `file`.
pub open spec fn stamp(ds: Seq<SDiag>, file: usize) -> Seq<SDiag> {
    Seq::new(ds.len(), |i: int| (ds[i].0, ds[i].1, file, ds[i].3))
}

/// Whether a declaration named `name` at `range`, in file `file` of
/// `package`, is the one the resolver bound its name to: a later duplicate
/// is not, nor is a declaration without a name.
pub open spec fn wins(
    symbols: Seq<(String, Symbol)>,
    package: Seq<char>,
    file: usize,
    name: Option<String>,
    range: TextRange,
) -> bool {
    match name {
        Some(n) => match first_binding(sym_bindings(symbols), n@) {
            Some(s) => s.1 == package && s.5 == file && s.6 == range,
            None => false,
        },
        None => false,
    }
}

/// The positions of the winners among the first `n` declarations.
pub open spec fn winners(
    defs: Seq<Definition>,
    n: int,
    symbols: Seq<(String, Symbol)>,
    package: Seq<char>,
    file: usize,
) -> Seq<(usize, usize)>
    decreases n,
{
    if n <= 0 {
        Seq::empty()
    } else {
        winners(defs, n - 1, symbols, package, file) + if wins(
            symbols,
            package,
            file,
            defs[n - 1].name,
            defs[n - 1].name_range,
        ) {
            seq![(file, (n - 1) as usize)]
        } else {
            Seq::empty()
        }
    }
}

/// What lowering the winners among the first `n` declarations raises, each
/// winner by what it lowered to: the winners' lowerings are `ls`, from
/// `base` on, in order.
pub open spec fn decl_diags(
    defs: Seq<Definition>,
    n: int,
    symbols: Seq<(String, Symbol)>,
    package: Seq<char>,
    file: usize,
    table: Seq<DeclShape>,
    consts: Seq<ConstEntry>,
    ls: Seq<PackageDecl>,
    base: int,
) -> Seq<SDiag>
    decreases n,
{
    if n <= 0 {
        Seq::empty()
    } else {
        let d = defs[n - 1];
        decl_diags(defs, n - 1, symbols, package, file, table, consts, ls, base) + if wins(
            symbols,
            package,
            file,
            d.name,
            d.name_range,
        ) {
            stamp(
                definition_diags(
                    d,
                    table,
                    consts,
                    symbols,
                    ls[base + winners(defs, n - 1, symbols, package, file).len()].lowered,
                ),
                file,
            )
        } else {
            Seq::empty()
        }
    }
}

/// The positions of the winners among the first `n` interfaces.
pub open spec fn interface_winners(
    ifaces: Seq<InterfaceDecl>,
    n: int,
    symbols: Seq<(String, Symbol)>,
    package: Seq<char>,
    file: usize,
) -> Seq<(usize, usize)>
    decreases n,
{
    if n <= 0 {
        Seq::empty()
    } else {
        interface_winners(ifaces, n - 1, symbols, package, file) + if wins(
            symbols,
            package,
            file,
            ifaces[n - 1].name,
            ifaces[n - 1].name_range,
        ) {
            seq![(file, (n - 1) as usize)]
        } else {
            Seq::empty()
        }
    }
}

/// What lowering the winners among the first `n` interfaces raises.
pub open spec fn interface_part(
    ifaces: Seq<InterfaceDecl>,
    n: int,
    symbols: Seq<(String, Symbol)>,
    package: Seq<char>,
    file: usize,
) -> Seq<SDiag>
    decreases n,
{
    if n <= 0 {
        Seq::empty()
    } else {
        interface_part(ifaces, n - 1, symbols, package, file) + if wins(
            symbols,
            package,
            file,
            ifaces[n - 1].name,
            ifaces[n - 1].name_range,
        ) {
            stamp(interface_diags(ifaces[n - 1]), file)
        } else {
            Seq::empty()
        }
    }
}

/// The recursion starts among the first `n` declarations: every winning
/// struct or union.
pub open spec fn def_starts(
    defs: Seq<Definition>,
    n: int,
    symbols: Seq<(String, Symbol)>,
    package: Seq<char>,
    file: usize,
) -> Seq<RecursionStart>
    decreases n,
{
    if n <= 0 {
        Seq::empty()
    } else {
        let d = defs[n - 1];
        def_starts(defs, n - 1, symbols, package, file) + match d.composite {
            Some(node) => if wins(symbols, package, file, d.name, d.name_range) {
                seq![RecursionStart { node, file, range: d.name_range }]
            } else {
                Seq::empty()
            },
            None => Seq::empty(),
        }
    }
}

/// The non-empty service names among the first `n` services, in order.
pub open spec fn service_names(services: Seq<ServiceDecl>, n: int) -> Seq<Seq<char>>
    decreases n,
{
    if n <= 0 {
        Seq::empty()
    } else {
        service_names(services, n - 1) + if services[n - 1].name@.len() > 0 {
            seq![services[n - 1].name@]
        } else {
            Seq::empty()
        }
    }
}

/// The non-empty service names of the first `n` files.
pub open spec fn names_through(files: Seq<PackageFile>, n: int) -> Seq<Seq<char>>
    decreases n,
{
    if n <= 0 {
        Seq::empty()
    } else {
        names_through(files, n - 1) + service_names(files[n - 1].services@, files[n - 1].services.len() as int)
    }
}

/// Whether a service lowers after the names `prior`: it has a name, and no
/// earlier service of the package had it.
pub open spec fn service_kept(prior: Seq<Seq<char>>, s: ServiceDecl) -> bool {
    s.name@.len() > 0 && !prior.contains(s.name@)
}

/// The services among the first `n` of file `file` that lower, after the
/// names `prior` of the earlier files.
pub open spec fn kept_services(services: Seq<ServiceDecl>, n: int, prior: Seq<Seq<char>>, file: usize) -> Seq<
    (usize, usize),
>
    decreases n,
{
    if n <= 0 {
        Seq::empty()
    } else {
        kept_services(services, n - 1, prior, file) + if service_kept(
            prior + service_names(services, n - 1),
            services[n - 1],
        ) {
            seq![(file, (n - 1) as usize)]
        } else {
            Seq::empty()
        }
    }
}

/// What lowering the kept services among the first `n` of file `file` raises.
pub open spec fn service_diags(services: Seq<ServiceDecl>, n: int, prior: Seq<Seq<char>>, file: usize) -> Seq<
    SDiag,
>
    decreases n,
{
    if n <= 0 {
        Seq::empty()
    } else {
        service_diags(services, n - 1, prior, file) + if service_kept(
            prior + service_names(services, n - 1),
            services[n - 1],
        ) {
            stamp(service_diags_of(services[n - 1]), file)
        } else {
            Seq::empty()
        }
    }
}

/// Which declarations, interfaces and services of the first `n` files
/// lower, by position, and the recursion starts they give.
pub open spec fn files_rule(files: Seq<PackageFile>, n: int, symbols: Seq<(String, Symbol)>, package: Seq<char>) -> (
    Seq<(usize, usize)>,
    Seq<(usize, usize)>,
    Seq<(usize, usize)>,
    Seq<RecursionStart>,
)
    decreases n,
{
    if n <= 0 {
        (Seq::empty(), Seq::empty(), Seq::empty(), Seq::empty())
    } else {
        let (d, i, s, st) = files_rule(files, n - 1, symbols, package);
        let file = files[n - 1];
        let fi = (n - 1) as usize;
        (
            d + winners(file.definitions@, file.definitions.len() as int, symbols, package, fi),
            i + interface_winners(file.interfaces@, file.interfaces.len() as int, symbols, package, fi),
            s + kept_services(file.services@, file.services.len() as int, names_through(files, n - 1), fi),
            st + def_starts(file.definitions@, file.definitions.len() as int, symbols, package, fi),
        )
    }
}

/// The diagnostics of file `f`, in order: the winning declarations', each
/// by what it lowered to (their lowerings are `ls` from `base` on), the
/// winning interfaces', the kept services', the exposure pass's, and — in a
/// ridl-profile file — the stream-position pass's; all pointed into the file.
pub open spec fn file_diags(
    files: Seq<PackageFile>,
    f: int,
    symbols: Seq<(String, Symbol)>,
    package: Seq<char>,
    table: Seq<DeclShape>,
    consts: Seq<ConstEntry>,
    ls: Seq<PackageDecl>,
    base: int,
) -> Seq<SDiag> {
    let file = files[f];
    let fi = f as usize;
    decl_diags(file.definitions@, file.definitions.len() as int, symbols, package, fi, table, consts, ls, base)
        + interface_part(file.interfaces@, file.interfaces.len() as int, symbols, package, fi) + service_diags(
        file.services@,
        file.services.len() as int,
        names_through(files, f),
        fi,
    ) + stamp(items_rule(file.items@, file.items.len() as int, package), fi) + if file.ridl_profile {
        stamp(streams_rule(file.streams@, file.streams.len() as int), fi)
    } else {
        Seq::empty()
    }
}

/// The diagnostics of the first `n` files, the declarations' lowerings
/// being `ls` in package order.
pub open spec fn files_diags(
    files: Seq<PackageFile>,
    n: int,
    symbols: Seq<(String, Symbol)>,
    package: Seq<char>,
    table: Seq<DeclShape>,
    consts: Seq<ConstEntry>,
    ls: Seq<PackageDecl>,
) -> Seq<SDiag>
    decreases n,
{
    if n <= 0 {
        Seq::empty()
    } else {
        files_diags(files, n - 1, symbols, package, table, consts, ls) + file_diags(
            files,
            n - 1,
            symbols,
            package,
            table,
            consts,
            ls,
            files_rule(files, n - 1, symbols, package).0.len() as int,
        )
    }
}

/// The manifest's timing default: MANI-009 when it did not parse, at the
/// start of the package's first file (detached in a package with none).
pub open spec fn timing_diags(timing_error: bool, file_count: nat) -> Seq<SDiag> {
    if timing_error {
        seq![
            (
                DiagCode::MANI_009,
                Severity::Error,
                if file_count > 0 {
                    0usize
                } else {
                    DETACHED
                },
                TextRange { start: 0, end: 0 },
            ),
        ]
    } else {
        Seq::empty()
    }
}

/// What makes a package's inputs consistent: a composite graph whose edges
/// stay inside it, every struct or union on a node, each declaration in the
/// shape its lowering takes, and bodies with fewer members than ordinals.
pub open spec fn package_wf(
    files: Seq<PackageFile>,
    table: Seq<DeclShape>,
    nodes: Seq<CompositeNode>,
    edges: Seq<Vec<usize>>,
) -> bool {
    &&& graph_wf(edges)
    &&& nodes.len() == edges.len()
    &&& table_wf(table)
    &&& forall|f: int, k: int|
        0 <= f < files.len() && 0 <= k < files[f].definitions.len() ==> ((
        #[trigger] files[f].definitions@[k]).composite matches Some(node) ==> node < edges.len()) && body_wf(
            files[f].definitions@[k].body,
        )
    &&& forall|f: int, k: int|
        0 <= f < files.len() && 0 <= k < files[f].interfaces.len() ==> (
        #[trigger] files[f].interfaces@[k]).members.len() < u32::MAX
    &&& forall|f: int, k: int|
        0 <= f < files.len() && 0 <= k < files[f].services.len() ==> service_wf(#[trigger] files[f].services@[k])
}

fn stamp_into(out: &mut Vec<Diagnostic>, ds: &Vec<Diagnostic>, file: usize)
    ensures
        diags_view(final(out)@) == diags_view(old(out)@) + stamp(diags_view(ds@), file),
        diag_messages(final(out)@) == diag_messages(old(out)@) + diag_messages(ds@),
{
    let ghost start = diags_view(out@);
    let ghost start_messages = diag_messages(out@);
    let mut k: usize = 0;
    while k < ds.len()
        invariant
            k <= ds.len(),
            diags_view(out@) == start + stamp(diags_view(ds@), file).take(k as int),
            diag_messages(out@) == start_messages + diag_messages(ds@).take(k as int),
        decreases ds.len() - k,
    {
        let d = &ds[k];
        let ghost before = diags_view(out@);
        let ghost before_messages = diag_messages(out@);
        out.push(Diagnostic { code: d.code, severity: d.severity, message: d.message.clone(), file, range: d.range });
        assert(stamp(diags_view(ds@), file).take(k + 1) =~= stamp(diags_view(ds@), file).take(k as int).push(
            (d.code, d.severity, file, d.range),
        ));
        assert(diag_messages(ds@).take(k + 1) =~= diag_messages(ds@).take(k as int).push(d.message@));
        assert(diags_view(out@) =~= before.push((d.code, d.severity, file, d.range)));
        assert(diag_messages(out@) =~= before_messages.push(d.message@));
        k = k + 1;
    }
    assert(stamp(diags_view(ds@), file).take(ds.len() as int) =~= stamp(diags_view(ds@), file));
    assert(diag_messages(ds@).take(ds.len() as int) =~= diag_messages(ds@));
}

/// Whether a declaration named `name` at `range` is its name's winner
/// ([`wins`]).
fn is_winner(symbols: &[(String, Symbol)], package: &str, file: usize, name: &Option<String>, range: TextRange) -> (r:
    bool)
    ensures
        r == wins(symbols@, package@, file, *name, range),
{
    match name {
        Some(n) => match find_symbol(symbols, n.as_str()) {
            Some(s) => crate::chars::str_eq(s.package.as_str(), package) && s.file == file && s.range == range,
            None => false,
        },
        None => false,
    }
}

/// The winners' diagnostics read only the lowerings they name: two runs of
/// lowerings that agree there give the same diagnostics.
proof fn lemma_decl_diags_stable(
    defs: Seq<Definition>,
    n: int,
    symbols: Seq<(String, Symbol)>,
    package: Seq<char>,
    file: usize,
    table: Seq<DeclShape>,
    consts: Seq<ConstEntry>,
    ls: Seq<PackageDecl>,
    ls2: Seq<PackageDecl>,
    base: int,
)
    requires
        base >= 0,
        forall|q: int| 0 <= q < base + winners(defs, n, symbols, package, file).len() ==> ls2[q] == ls[q],
    ensures
        decl_diags(defs, n, symbols, package, file, table, consts, ls, base) == decl_diags(
            defs,
            n,
            symbols,
            package,
            file,
            table,
            consts,
            ls2,
            base,
        ),
    decreases n,
{
    if n > 0 {
        lemma_decl_diags_stable(defs, n - 1, symbols, package, file, table, consts, ls, ls2, base);
        let w = winners(defs, n - 1, symbols, package, file).len();
        if wins(symbols, package, file, defs[n - 1].name, defs[n - 1].name_range) {
            assert(winners(defs, n, symbols, package, file).len() == w + 1);
            assert(ls2[base + w] == ls[base + w]);
        } else {
            assert(winners(defs, n, symbols, package, file).len() == w);
        }
    }
}

/// The files' diagnostics read only the lowerings of their winners.
proof fn lemma_files_diags_stable(
    files: Seq<PackageFile>,
    n: int,
    symbols: Seq<(String, Symbol)>,
    package: Seq<char>,
    table: Seq<DeclShape>,
    consts: Seq<ConstEntry>,
    ls: Seq<PackageDecl>,
    ls2: Seq<PackageDecl>,
)
    requires
        forall|q: int| 0 <= q < files_rule(files, n, symbols, package).0.len() ==> ls2[q] == ls[q],
    ensures
        files_diags(files, n, symbols, package, table, consts, ls) == files_diags(files, n, symbols, package, table, consts, ls2),
    decreases n,
{
    if n > 0 {
        let base = files_rule(files, n - 1, symbols, package).0.len() as int;
        let file = files[n - 1];
        assert(files_rule(files, n, symbols, package).0 == files_rule(files, n - 1, symbols, package).0 + winners(
            file.definitions@,
            file.definitions.len() as int,
            symbols,
            package,
            (n - 1) as usize,
        ));
        lemma_files_diags_stable(files, n - 1, symbols, package, table, consts, ls, ls2);
        lemma_decl_diags_stable(
            file.definitions@,
            file.definitions.len() as int,
            symbols,
            package,
            (n - 1) as usize,
            table,
            consts,
            ls,
            ls2,
            base,
        );
    }
}

/// Lowers the winners among a file's declarations
/// ([`crate::definitions::lower_definition`]): each joins `kept` with where
/// it stands, and what it raises joins `out`; a winning struct or union
/// joins `starts`.
fn lower_decls(
    defs: &Vec<Definition>,
    symbols: &[(String, Symbol)],
    package: &str,
    file: usize,
    table: &[DeclShape],
    consts: &[ConstEntry],
    kept: &mut Vec<PackageDecl>,
    starts: &mut Vec<RecursionStart>,
    out: &mut Vec<Diagnostic>,
)
    requires
        table_wf(table@),
        crate::check::graph_wf(consts@),
        forall|k: int| 0 <= k < defs.len() ==> body_wf((#[trigger] defs@[k]).body),
    ensures
        final(kept)@.len() == old(kept)@.len() + winners(defs@, defs.len() as int, symbols@, package@, file).len(),
        forall|q: int| 0 <= q < old(kept)@.len() ==> final(kept)@[q] == old(kept)@[q],
        decl_positions(final(kept)@) == decl_positions(old(kept)@) + winners(
            defs@,
            defs.len() as int,
            symbols@,
            package@,
            file,
        ),
        forall|q: int|
            old(kept)@.len() <= q < final(kept)@.len() ==> (#[trigger] final(kept)@[q]).index < defs.len()
                && definition_lowered(defs@[final(kept)@[q].index as int], table@, consts@, symbols@, final(kept)@[q].lowered),
        final(starts)@ == old(starts)@ + def_starts(defs@, defs.len() as int, symbols@, package@, file),
        diags_view(final(out)@) == diags_view(old(out)@) + decl_diags(
            defs@,
            defs.len() as int,
            symbols@,
            package@,
            file,
            table@,
            consts@,
            final(kept)@,
            old(kept)@.len() as int,
        ),
{
    let ghost k0 = kept@;
    let ghost base = kept@.len() as int;
    let ghost s0 = starts@;
    let ghost d0 = diags_view(out@);
    let mut i: usize = 0;
    while i < defs.len()
        invariant
            i <= defs.len(),
            table_wf(table@),
            crate::check::graph_wf(consts@),
            forall|k: int| 0 <= k < defs.len() ==> body_wf((#[trigger] defs@[k]).body),
            base == k0.len(),
            kept@.len() == base + winners(defs@, i as int, symbols@, package@, file).len(),
            forall|q: int| 0 <= q < base ==> kept@[q] == k0[q],
            decl_positions(kept@) == decl_positions(k0) + winners(defs@, i as int, symbols@, package@, file),
            forall|q: int|
                base <= q < kept@.len() ==> (#[trigger] kept@[q]).index < defs.len() && definition_lowered(
                    defs@[kept@[q].index as int],
                    table@,
                    consts@,
                    symbols@,
                    kept@[q].lowered,
                ),
            starts@ == s0 + def_starts(defs@, i as int, symbols@, package@, file),
            diags_view(out@) == d0 + decl_diags(defs@, i as int, symbols@, package@, file, table@, consts@, kept@, base),
        decreases defs.len() - i,
    {
        let d = &defs[i];
        let ghost kb = kept@;
        let ghost pb = decl_positions(kept@);
        if is_winner(symbols, package, file, &d.name, d.name_range) {
            match lower_definition(d, table, consts, symbols) {
                Some((lowered, ds)) => {
                    kept.push(PackageDecl { file, index: i, lowered });
                    assert(decl_positions(kept@) =~= decl_positions(kb).push((file, i)));
                    proof {
                        lemma_decl_diags_stable(defs@, i as int, symbols@, package@, file, table@, consts@, kb, kept@, base);
                    }
                    if let Some(node) = d.composite {
                        starts.push(RecursionStart { node, file, range: d.name_range });
                    }
                    stamp_into(out, &ds, file);
                },
                None => {
                    assert(false);
                },
            }
        }
        assert(winners(defs@, i + 1, symbols@, package@, file) == winners(defs@, i as int, symbols@, package@, file)
            + if wins(symbols@, package@, file, defs@[i as int].name, defs@[i as int].name_range) {
            seq![(file, i)]
        } else {
            Seq::empty()
        });
        assert(decl_positions(kept@) =~= decl_positions(k0) + winners(defs@, i + 1, symbols@, package@, file));
        assert(starts@ =~= s0 + def_starts(defs@, i + 1, symbols@, package@, file));
        assert(diags_view(out@) =~= d0 + decl_diags(defs@, i + 1, symbols@, package@, file, table@, consts@, kept@, base));
        i = i + 1;
    }
}

/// Lowers the winners among a file's interfaces
/// ([`crate::definitions::lower_interface`]).
fn lower_interfaces(
    ifaces: &Vec<InterfaceDecl>,
    symbols: &[(String, Symbol)],
    package: &str,
    file: usize,
    kept: &mut Vec<PackageInterface>,
    out: &mut Vec<Diagnostic>,
)
    requires
        forall|k: int| 0 <= k < ifaces.len() ==> (#[trigger] ifaces@[k]).members.len() < u32::MAX,
    ensures
        interface_positions(final(kept)@) == interface_positions(old(kept)@) + interface_winners(
            ifaces@,
            ifaces.len() as int,
            symbols@,
            package@,
            file,
        ),
        forall|q: int| 0 <= q < old(kept)@.len() ==> final(kept)@[q] == old(kept)@[q],
        forall|q: int|
            old(kept)@.len() <= q < final(kept)@.len() ==> (#[trigger] final(kept)@[q]).index < ifaces.len()
                && interface_lowered(ifaces@[final(kept)@[q].index as int], final(kept)@[q].lowered),
        diags_view(final(out)@) == diags_view(old(out)@) + interface_part(
            ifaces@,
            ifaces.len() as int,
            symbols@,
            package@,
            file,
        ),
{
    let ghost k0 = kept@;
    let ghost d0 = diags_view(out@);
    let mut i: usize = 0;
    while i < ifaces.len()
        invariant
            i <= ifaces.len(),
            forall|k: int| 0 <= k < ifaces.len() ==> (#[trigger] ifaces@[k]).members.len() < u32::MAX,
            interface_positions(kept@) == interface_positions(k0) + interface_winners(
                ifaces@,
                i as int,
                symbols@,
                package@,
                file,
            ),
            kept@.len() >= k0.len(),
            forall|q: int| 0 <= q < k0.len() ==> kept@[q] == k0[q],
            forall|q: int|
                k0.len() <= q < kept@.len() ==> (#[trigger] kept@[q]).index < ifaces.len() && interface_lowered(
                    ifaces@[kept@[q].index as int],
                    kept@[q].lowered,
                ),
            diags_view(out@) == d0 + interface_part(ifaces@, i as int, symbols@, package@, file),
        decreases ifaces.len() - i,
    {
        let x = &ifaces[i];
        let ghost kb = kept@;
        if is_winner(symbols, package, file, &x.name, x.name_range) {
            let (lowered, ds) = lower_interface(x);
            kept.push(PackageInterface { file, index: i, lowered });
            assert(interface_positions(kept@) =~= interface_positions(kb).push((file, i)));
            stamp_into(out, &ds, file);
        }
        assert(interface_positions(kept@) =~= interface_positions(k0) + interface_winners(
            ifaces@,
            i + 1,
            symbols@,
            package@,
            file,
        ));
        assert(diags_view(out@) =~= d0 + interface_part(ifaces@, i + 1, symbols@, package@, file));
        i = i + 1;
    }
}

/// Lowers the services of one file that no earlier service of the package
/// named ([`crate::definitions::lower_service`]): `seen` holds the names met
/// so far.
fn lower_services(
    services: &Vec<ServiceDecl>,
    file: usize,
    seen: &mut Vec<String>,
    kept: &mut Vec<PackageService>,
    out: &mut Vec<Diagnostic>,
)
    requires
        forall|k: int| 0 <= k < services.len() ==> service_wf(#[trigger] services@[k]),
    ensures
        strs_view(final(seen)@) == strs_view(old(seen)@) + service_names(services@, services.len() as int),
        service_positions(final(kept)@) == service_positions(old(kept)@) + kept_services(
            services@,
            services.len() as int,
            strs_view(old(seen)@),
            file,
        ),
        forall|q: int| 0 <= q < old(kept)@.len() ==> final(kept)@[q] == old(kept)@[q],
        forall|q: int|
            old(kept)@.len() <= q < final(kept)@.len() ==> (#[trigger] final(kept)@[q]).index < services.len()
                && service_lowered(services@[final(kept)@[q].index as int], final(kept)@[q].lowered),
        diags_view(final(out)@) == diags_view(old(out)@) + service_diags(
            services@,
            services.len() as int,
            strs_view(old(seen)@),
            file,
        ),
{
    let ghost prior = strs_view(seen@);
    let ghost k0 = kept@;
    let ghost d0 = diags_view(out@);
    let mut i: usize = 0;
    while i < services.len()
        invariant
            i <= services.len(),
            forall|k: int| 0 <= k < services.len() ==> service_wf(#[trigger] services@[k]),
            strs_view(seen@) == prior + service_names(services@, i as int),
            service_positions(kept@) == service_positions(k0) + kept_services(services@, i as int, prior, file),
            kept@.len() >= k0.len(),
            forall|q: int| 0 <= q < k0.len() ==> kept@[q] == k0[q],
            forall|q: int|
                k0.len() <= q < kept@.len() ==> (#[trigger] kept@[q]).index < services.len() && service_lowered(
                    services@[kept@[q].index as int],
                    kept@[q].lowered,
                ),
            diags_view(out@) == d0 + service_diags(services@, i as int, prior, file),
        decreases services.len() - i,
    {
        let s = &services[i];
        let ghost names_before = strs_view(seen@);
        let named = !s.name.as_str().is_empty();
        let ghost kb = kept@;
        if named && !contains_name(seen.as_slice(), s.name.as_str()) {
            let (lowered, ds) = lower_service(s);
            kept.push(PackageService { file, index: i, lowered });
            assert(service_positions(kept@) =~= service_positions(kb).push((file, i)));
            stamp_into(out, &ds, file);
        }
        if named {
            seen.push(s.name.clone());
            assert(strs_view(seen@) =~= names_before.push(s.name@));
        }
        assert(strs_view(seen@) =~= prior + service_names(services@, i + 1));
        assert(service_positions(kept@) =~= service_positions(k0) + kept_services(services@, i + 1, prior, file));
        assert(diags_view(out@) =~= d0 + service_diags(services@, i + 1, prior, file));
        i = i + 1;
    }
}

/// Checks a package: the manifest's timing default (`timing_error` is the
/// reason it did not parse); then, file by file, every declaration and
/// interface the resolver bound its name to is lowered (a losing duplicate
/// was already reported and lowers nothing), every service whose dotted
/// name is new to the package is lowered (first wins; a nameless service
/// does not lower), and the exposure pass and, in a ridl-profile file, the
/// stream-position pass run; then TYPL-206 for every winning struct or union
/// on a composite cycle, and last the lints over the interaction scopes.
/// The result holds what each lowered, in package order.
#[verifier::spinoff_prover]
#[verifier::rlimit(80)]
pub fn check_package(
    package_name: &str,
    symbols: &[(String, Symbol)],
    files: &Vec<PackageFile>,
    timing_error: Option<&str>,
    table: &[DeclShape],
    consts: &[ConstEntry],
    nodes: &[CompositeNode],
    edges: &[Vec<usize>],
    scopes: &[LintScope],
) -> (r: CheckedPackage)
    requires
        package_wf(files@, table@, nodes@, edges@),
        crate::check::graph_wf(consts@),
    ensures
        ({
            let (d, i, s, st) = files_rule(files@, files.len() as int, symbols@, package_name@);
            &&& decl_positions(r.decls@) == d
            &&& interface_positions(r.interfaces@) == i
            &&& service_positions(r.services@) == s
            &&& diags_view(r.diagnostics@) == timing_diags(timing_error is Some, files.len() as nat) + files_diags(
                files@,
                files.len() as int,
                symbols@,
                package_name@,
                table@,
                consts@,
                r.decls@,
            ) + recursion_diags(st, edges@, st.len() as int) + package_lints(
                scopes@,
                scopes.len() as int,
                error_uses(scopes@, scopes.len() as int),
            )
        }),
        forall|k: int|
            0 <= k < r.decls@.len() ==> definition_lowered(
                files@[(#[trigger] r.decls@[k]).file as int].definitions@[r.decls@[k].index as int],
                table@,
                consts@,
                symbols@,
                r.decls@[k].lowered,
            ),
        forall|k: int|
            0 <= k < r.interfaces@.len() ==> interface_lowered(
                files@[(#[trigger] r.interfaces@[k]).file as int].interfaces@[r.interfaces@[k].index as int],
                r.interfaces@[k].lowered,
            ),
        forall|k: int|
            0 <= k < r.services@.len() ==> service_lowered(
                files@[(#[trigger] r.services@[k]).file as int].services@[r.services@[k].index as int],
                r.services@[k].lowered,
            ),
        timing_error matches Some(t) ==> r.diagnostics@[0].message@
            == "invalid `[defaults].timing` in the package manifest: "@ + t@,
{
    let mut out: Vec<Diagnostic> = Vec::new();
    if let Some(reason) = timing_error {
        let mut message = String::from_str("invalid `[defaults].timing` in the package manifest: ");
        message.append(reason);
        let file = if files.len() > 0 {
            0
        } else {
            DETACHED
        };
        out.push(
            Diagnostic {
                code: DiagCode::MANI_009,
                severity: Severity::Error,
                message,
                file,
                range: TextRange { start: 0, end: 0 },
            },
        );
    }
    assert(diags_view(out@) =~= timing_diags(timing_error is Some, files.len() as nat));
    let ghost timing_out = out@;
    let mut body: Vec<Diagnostic> = Vec::new();
    let mut decls: Vec<PackageDecl> = Vec::new();
    let mut interfaces: Vec<PackageInterface> = Vec::new();
    let mut services: Vec<PackageService> = Vec::new();
    let mut starts: Vec<RecursionStart> = Vec::new();
    let mut seen: Vec<String> = Vec::new();
    let mut f: usize = 0;
    assert(strs_view(seen@) =~= names_through(files@, 0));
    assert(diags_view(body@) =~= Seq::empty());
    assert(decl_positions(decls@) =~= Seq::empty());
    assert(interface_positions(interfaces@) =~= Seq::empty());
    assert(service_positions(services@) =~= Seq::empty());
    while f < files.len()
        invariant
            f <= files.len(),
            package_wf(files@, table@, nodes@, edges@),
            crate::check::graph_wf(consts@),
            strs_view(seen@) == names_through(files@, f as int),
            ({
                let (d, i, s, st) = files_rule(files@, f as int, symbols@, package_name@);
                &&& decl_positions(decls@) == d
                &&& interface_positions(interfaces@) == i
                &&& service_positions(services@) == s
                &&& starts@ == st
            }),
            diags_view(body@) == files_diags(files@, f as int, symbols@, package_name@, table@, consts@, decls@),
            forall|k: int|
                0 <= k < decls@.len() ==> (#[trigger] decls@[k]).file < f && definition_lowered(
                    files@[decls@[k].file as int].definitions@[decls@[k].index as int],
                    table@,
                    consts@,
                    symbols@,
                    decls@[k].lowered,
                ),
            forall|k: int|
                0 <= k < interfaces@.len() ==> (#[trigger] interfaces@[k]).file < f && interface_lowered(
                    files@[interfaces@[k].file as int].interfaces@[interfaces@[k].index as int],
                    interfaces@[k].lowered,
                ),
            forall|k: int|
                0 <= k < services@.len() ==> (#[trigger] services@[k]).file < f && service_lowered(
                    files@[services@[k].file as int].services@[services@[k].index as int],
                    services@[k].lowered,
                ),
            forall|q: int| 0 <= q < starts@.len() ==> #[trigger] starts@[q].node < edges.len(),
            diags_view(out@) == timing_diags(timing_error is Some, files.len() as nat),
            out@ == timing_out,
        decreases files.len() - f,
    {
        let file = &files[f];
        let ghost st0 = starts@;
        let ghost decls0 = decls@;
        let ghost body0 = diags_view(body@);
        let ghost ifaces0 = interfaces@;
        let ghost services0 = services@;
        proof {
            assert forall|k: int| 0 <= k < file.definitions.len() implies body_wf(
                (#[trigger] file.definitions@[k]).body,
            ) by {
                assert(files@[f as int].definitions@[k] == file.definitions@[k]);
            }
            assert forall|k: int| 0 <= k < file.interfaces.len() implies (
            #[trigger] file.interfaces@[k]).members.len() < u32::MAX by {
                assert(files@[f as int].interfaces@[k] == file.interfaces@[k]);
            }
            assert forall|k: int| 0 <= k < file.services.len() implies service_wf(
                #[trigger] file.services@[k],
            ) by {
                assert(files@[f as int].services@[k] == file.services@[k]);
            }
        }
        lower_decls(&file.definitions, symbols, package_name, f, table, consts, &mut decls, &mut starts, &mut body);
        proof {
            lemma_files_diags_stable(files@, f as int, symbols@, package_name@, table@, consts@, decls0, decls@);
            lemma_starts_in_graph(
                files@,
                f,
                symbols@,
                package_name@,
                edges.len() as int,
                file.definitions.len() as int,
            );
        }
        lower_interfaces(&file.interfaces, symbols, package_name, f, &mut interfaces, &mut body);
        lower_services(&file.services, f, &mut seen, &mut services, &mut body);
        let exposure = check_exposure(file.items.as_slice(), package_name);
        stamp_into(&mut body, &exposure, f);
        let ghost before_streams = diags_view(body@);
        if file.ridl_profile {
            let streams = check_stream_positions(file.streams.as_slice());
            stamp_into(&mut body, &streams, f);
        } else {
            assert(diags_view(body@) =~= before_streams + Seq::<SDiag>::empty());
        }
        proof {
            assert(names_through(files@, f + 1) =~= names_through(files@, f as int) + service_names(
                files@[f as int].services@,
                files@[f as int].services.len() as int,
            ));
            assert(decl_positions(decls@) =~= files_rule(files@, f + 1, symbols@, package_name@).0);
            assert(interface_positions(interfaces@) =~= files_rule(files@, f + 1, symbols@, package_name@).1);
            assert(service_positions(services@) =~= files_rule(files@, f + 1, symbols@, package_name@).2);
            assert(decls0.len() == files_rule(files@, f as int, symbols@, package_name@).0.len());
            assert(diags_view(body@) =~= files_diags(files@, f + 1, symbols@, package_name@, table@, consts@, decls@));
            assert forall|k: int| 0 <= k < decls@.len() implies (#[trigger] decls@[k]).file < f + 1
                && definition_lowered(
                files@[decls@[k].file as int].definitions@[decls@[k].index as int],
                table@,
                consts@,
                symbols@,
                decls@[k].lowered,
            ) by {
                if k < decls0.len() {
                    assert(decls@[k] == decls0[k]);
                } else {
                    assert(decl_positions(decls@)[k] == (decls@[k].file, decls@[k].index));
                    assert(decl_positions(decls@)[k] == (decl_positions(decls0) + winners(
                        file.definitions@,
                        file.definitions.len() as int,
                        symbols@,
                        package_name@,
                        f,
                    ))[k]);
                    lemma_winners_file(file.definitions@, file.definitions.len() as int, symbols@, package_name@, f);
                }
            }
            assert forall|k: int| 0 <= k < interfaces@.len() implies (#[trigger] interfaces@[k]).file < f + 1
                && interface_lowered(
                files@[interfaces@[k].file as int].interfaces@[interfaces@[k].index as int],
                interfaces@[k].lowered,
            ) by {
                if k < ifaces0.len() {
                    assert(interfaces@[k] == ifaces0[k]);
                } else {
                    assert(interface_positions(interfaces@)[k] == (interfaces@[k].file, interfaces@[k].index));
                    lemma_interface_winners_file(
                        file.interfaces@,
                        file.interfaces.len() as int,
                        symbols@,
                        package_name@,
                        f,
                    );
                }
            }
            assert forall|k: int| 0 <= k < services@.len() implies (#[trigger] services@[k]).file < f + 1
                && service_lowered(
                files@[services@[k].file as int].services@[services@[k].index as int],
                services@[k].lowered,
            ) by {
                if k < services0.len() {
                    assert(services@[k] == services0[k]);
                } else {
                    assert(service_positions(services@)[k] == (services@[k].file, services@[k].index));
                    lemma_kept_services_file(
                        file.services@,
                        file.services.len() as int,
                        names_through(files@, f as int),
                        f,
                    );
                }
            }
            assert forall|q: int| 0 <= q < starts@.len() implies #[trigger] starts@[q].node < edges.len() by {
                if q >= st0.len() {
                    assert(starts@[q] == def_starts(
                        file.definitions@,
                        file.definitions.len() as int,
                        symbols@,
                        package_name@,
                        f,
                    )[q - st0.len()]);
                } else {
                    assert(starts@[q] == st0[q]);
                }
            }
        }
        f = f + 1;
    }
    let ghost before_recursion = body@;
    let mut recursion = check_recursion(nodes, edges, package_name, starts.as_slice());
    let ghost rv = recursion@;
    body.append(&mut recursion);
    assert(diags_view(body@) =~= diags_view(before_recursion) + diags_view(rv));
    let ghost before_lints = body@;
    let mut lints = lint_package(scopes);
    let ghost lv = lints@;
    body.append(&mut lints);
    assert(diags_view(body@) =~= diags_view(before_lints) + diags_view(lv));
    let ghost head = out@;
    let ghost tail = body@;
    out.append(&mut body);
    assert(diags_view(out@) =~= diags_view(head) + diags_view(tail));
    assert(timing_error is Some ==> out@[0] == head[0]);
    CheckedPackage { decls, interfaces, services, diagnostics: out }
}

/// Every winner among a file's first `n` declarations stands in that file,
/// at an index below `n`, wins its name, and the winners come in source
/// order.
proof fn lemma_winners_file(
    defs: Seq<Definition>,
    n: int,
    symbols: Seq<(String, Symbol)>,
    package: Seq<char>,
    file: usize,
)
    requires
        n <= defs.len() <= usize::MAX,
    ensures
        forall|q: int|
            0 <= q < winners(defs, n, symbols, package, file).len() ==> (#[trigger] winners(
                defs,
                n,
                symbols,
                package,
                file,
            )[q]).0 == file && winners(defs, n, symbols, package, file)[q].1 < n && 0 <= winners(
                defs,
                n,
                symbols,
                package,
                file,
            )[q].1 && wins(
                symbols,
                package,
                file,
                defs[winners(defs, n, symbols, package, file)[q].1 as int].name,
                defs[winners(defs, n, symbols, package, file)[q].1 as int].name_range,
            ),
        forall|q1: int, q2: int|
            0 <= q1 < q2 < winners(defs, n, symbols, package, file).len() ==> (#[trigger] winners(
                defs,
                n,
                symbols,
                package,
                file,
            )[q1]).1 < (#[trigger] winners(defs, n, symbols, package, file)[q2]).1,
    decreases n,
{
    if n > 0 {
        lemma_winners_file(defs, n - 1, symbols, package, file);
        let prev = winners(defs, n - 1, symbols, package, file);
        let all = winners(defs, n, symbols, package, file);
        let last = wins(symbols, package, file, defs[n - 1].name, defs[n - 1].name_range);
        assert(all == prev + if last {
            seq![(file, (n - 1) as usize)]
        } else {
            Seq::empty()
        });
        assert forall|q: int| 0 <= q < all.len() implies (#[trigger] all[q]).0 == file && all[q].1 < n && 0
            <= all[q].1 && wins(symbols, package, file, defs[all[q].1 as int].name, defs[all[q].1 as int].name_range) by {
            if q < prev.len() {
                assert(all[q] == prev[q]);
            }
        }
        assert forall|q1: int, q2: int| 0 <= q1 < q2 < all.len() implies (#[trigger] all[q1]).1 < (
        #[trigger] all[q2]).1 by {
            if q2 < prev.len() {
                assert(all[q1] == prev[q1] && all[q2] == prev[q2]);
            } else {
                assert(all[q1] == prev[q1]);
            }
        }
    }
}

/// The winners of the first `n` files stand in those files, each winning
/// its name, and no position comes twice.
proof fn lemma_positions(files: Seq<PackageFile>, n: int, symbols: Seq<(String, Symbol)>, package: Seq<char>)
    requires
        0 <= n <= files.len() <= usize::MAX,
    ensures
        forall|q: int|
            0 <= q < files_rule(files, n, symbols, package).0.len() ==> {
                let p = #[trigger] files_rule(files, n, symbols, package).0[q];
                &&& p.0 < n
                &&& p.1 < files[p.0 as int].definitions.len()
                &&& wins(
                    symbols,
                    package,
                    p.0,
                    files[p.0 as int].definitions@[p.1 as int].name,
                    files[p.0 as int].definitions@[p.1 as int].name_range,
                )
            },
        forall|q1: int, q2: int|
            0 <= q1 < q2 < files_rule(files, n, symbols, package).0.len() ==> #[trigger] files_rule(
                files,
                n,
                symbols,
                package,
            ).0[q1] != #[trigger] files_rule(files, n, symbols, package).0[q2],
    decreases n,
{
    if n > 0 {
        lemma_positions(files, n - 1, symbols, package);
        let prev = files_rule(files, n - 1, symbols, package).0;
        let file = files[n - 1];
        let w = winners(file.definitions@, file.definitions.len() as int, symbols, package, (n - 1) as usize);
        lemma_winners_file(file.definitions@, file.definitions.len() as int, symbols, package, (n - 1) as usize);
        let all = files_rule(files, n, symbols, package).0;
        assert(all == prev + w);
        assert forall|q: int| 0 <= q < all.len() implies {
            let p = #[trigger] all[q];
            &&& p.0 < n
            &&& p.1 < files[p.0 as int].definitions.len()
            &&& wins(
                symbols,
                package,
                p.0,
                files[p.0 as int].definitions@[p.1 as int].name,
                files[p.0 as int].definitions@[p.1 as int].name_range,
            )
        } by {
            if q < prev.len() {
                assert(all[q] == prev[q]);
            } else {
                assert(all[q] == w[q - prev.len()]);
            }
        }
        assert forall|q1: int, q2: int| 0 <= q1 < q2 < all.len() implies #[trigger] all[q1] != #[trigger] all[q2] by {
            if q2 < prev.len() {
                assert(all[q1] == prev[q1] && all[q2] == prev[q2]);
            } else if q1 < prev.len() {
                assert(all[q1] == prev[q1]);
                assert(all[q2] == w[q2 - prev.len()]);
            } else {
                assert(all[q1] == w[q1 - prev.len()] && all[q2] == w[q2 - prev.len()]);
            }
        }
    }
}

/// A name lowers from one declaration only: no two declarations the package
/// lowers share a name, so a duplicate lowers once — given that no two
/// declarations of one file stand at the same place.
pub proof fn law_lowered_declarations_have_distinct_names(
    files: Seq<PackageFile>,
    symbols: Seq<(String, Symbol)>,
    package: Seq<char>,
)
    requires
        files.len() <= usize::MAX,
        forall|f: int, i: int, j: int|
            0 <= f < files.len() && 0 <= i < j < files[f].definitions.len() ==> (#[trigger] files[f].definitions@[i]).name_range
                != (#[trigger] files[f].definitions@[j]).name_range,
    ensures
        forall|k1: int, k2: int|
            0 <= k1 < k2 < files_rule(files, files.len() as int, symbols, package).0.len() ==> {
                let p1 = #[trigger] files_rule(files, files.len() as int, symbols, package).0[k1];
                let p2 = #[trigger] files_rule(files, files.len() as int, symbols, package).0[k2];
                opt_text(files[p1.0 as int].definitions@[p1.1 as int].name) != opt_text(
                    files[p2.0 as int].definitions@[p2.1 as int].name,
                )
            },
{
    let all = files_rule(files, files.len() as int, symbols, package).0;
    lemma_positions(files, files.len() as int, symbols, package);
    assert forall|k1: int, k2: int| 0 <= k1 < k2 < all.len() implies {
        let p1 = #[trigger] all[k1];
        let p2 = #[trigger] all[k2];
        opt_text(files[p1.0 as int].definitions@[p1.1 as int].name) != opt_text(
            files[p2.0 as int].definitions@[p2.1 as int].name,
        )
    } by {
        let p1 = all[k1];
        let p2 = all[k2];
        let d1 = files[p1.0 as int].definitions@[p1.1 as int];
        let d2 = files[p2.0 as int].definitions@[p2.1 as int];
        if opt_text(d1.name) == opt_text(d2.name) {
            assert(p1 != p2);
            if p1.0 == p2.0 && p1.1 != p2.1 {
                if p1.1 < p2.1 {
                    assert(files[p1.0 as int].definitions@[p1.1 as int].name_range != files[p1.0 as int].definitions@[p2.1 as int].name_range);
                } else {
                    assert(files[p1.0 as int].definitions@[p2.1 as int].name_range != files[p1.0 as int].definitions@[p1.1 as int].name_range);
                }
            }
        }
    }
}

/// Every winner among a file's first `n` interfaces stands in that file, at
/// an index below `n`.
proof fn lemma_interface_winners_file(
    ifaces: Seq<InterfaceDecl>,
    n: int,
    symbols: Seq<(String, Symbol)>,
    package: Seq<char>,
    file: usize,
)
    ensures
        forall|q: int|
            0 <= q < interface_winners(ifaces, n, symbols, package, file).len() ==> (#[trigger] interface_winners(
                ifaces,
                n,
                symbols,
                package,
                file,
            )[q]).0 == file && interface_winners(ifaces, n, symbols, package, file)[q].1 < n,
    decreases n,
{
    if n > 0 {
        lemma_interface_winners_file(ifaces, n - 1, symbols, package, file);
        let prev = interface_winners(ifaces, n - 1, symbols, package, file);
        let all = interface_winners(ifaces, n, symbols, package, file);
        assert forall|q: int| 0 <= q < all.len() implies (#[trigger] all[q]).0 == file && all[q].1 < n by {
            if q < prev.len() {
                assert(all[q] == prev[q]);
            }
        }
    }
}

/// Every kept service among a file's first `n` stands in that file, at an
/// index below `n`.
proof fn lemma_kept_services_file(services: Seq<ServiceDecl>, n: int, prior: Seq<Seq<char>>, file: usize)
    ensures
        forall|q: int|
            0 <= q < kept_services(services, n, prior, file).len() ==> (#[trigger] kept_services(
                services,
                n,
                prior,
                file,
            )[q]).0 == file && kept_services(services, n, prior, file)[q].1 < n,
    decreases n,
{
    if n > 0 {
        lemma_kept_services_file(services, n - 1, prior, file);
        let prev = kept_services(services, n - 1, prior, file);
        let all = kept_services(services, n, prior, file);
        assert forall|q: int| 0 <= q < all.len() implies (#[trigger] all[q]).0 == file && all[q].1 < n by {
            if q < prev.len() {
                assert(all[q] == prev[q]);
            }
        }
    }
}

/// Every kept service among a file's first `n` was kept after the names
/// before it, and the kept ones come in source order.
proof fn lemma_kept_services_kept(services: Seq<ServiceDecl>, n: int, prior: Seq<Seq<char>>, file: usize)
    requires
        n <= services.len() <= usize::MAX,
    ensures
        forall|q: int|
            0 <= q < kept_services(services, n, prior, file).len() ==> {
                let p = #[trigger] kept_services(services, n, prior, file)[q];
                &&& p.0 == file
                &&& 0 <= p.1 < n
                &&& service_kept(prior + service_names(services, p.1 as int), services[p.1 as int])
            },
        forall|q1: int, q2: int|
            0 <= q1 < q2 < kept_services(services, n, prior, file).len() ==> (#[trigger] kept_services(
                services,
                n,
                prior,
                file,
            )[q1]).1 < (#[trigger] kept_services(services, n, prior, file)[q2]).1,
    decreases n,
{
    if n > 0 {
        lemma_kept_services_kept(services, n - 1, prior, file);
        let prev = kept_services(services, n - 1, prior, file);
        let all = kept_services(services, n, prior, file);
        let last = service_kept(prior + service_names(services, n - 1), services[n - 1]);
        assert(all == prev + if last {
            seq![(file, (n - 1) as usize)]
        } else {
            Seq::empty()
        });
        assert forall|q: int| 0 <= q < all.len() implies {
            let p = #[trigger] all[q];
            &&& p.0 == file
            &&& 0 <= p.1 < n
            &&& service_kept(prior + service_names(services, p.1 as int), services[p.1 as int])
        } by {
            if q < prev.len() {
                assert(all[q] == prev[q]);
            }
        }
        assert forall|q1: int, q2: int| 0 <= q1 < q2 < all.len() implies (#[trigger] all[q1]).1 < (
        #[trigger] all[q2]).1 by {
            if q2 < prev.len() {
                assert(all[q1] == prev[q1] && all[q2] == prev[q2]);
            } else {
                assert(all[q1] == prev[q1]);
            }
        }
    }
}

/// A named service among the first `n` has its name among their names.
proof fn lemma_name_listed(services: Seq<ServiceDecl>, n: int, i: int)
    requires
        0 <= i < n <= services.len(),
        services[i].name@.len() > 0,
    ensures
        service_names(services, n).contains(services[i].name@),
    decreases n,
{
    if i < n - 1 {
        lemma_name_listed(services, n - 1, i);
        let prev = service_names(services, n - 1);
        let k = choose|k: int| 0 <= k < prev.len() && prev[k] == services[i].name@;
        assert(service_names(services, n)[k] == prev[k]);
    } else {
        let prev = service_names(services, n - 1);
        assert(service_names(services, n)[prev.len() as int] == services[i].name@);
    }
}

/// A named service of an earlier file has its name among the names of the
/// files before file `g`.
proof fn lemma_name_through(files: Seq<PackageFile>, g: int, f: int, i: int)
    requires
        0 <= f < g <= files.len(),
        0 <= i < files[f].services.len(),
        files[f].services@[i].name@.len() > 0,
    ensures
        names_through(files, g).contains(files[f].services@[i].name@),
    decreases g,
{
    let name = files[f].services@[i].name@;
    let prev = names_through(files, g - 1);
    let here = service_names(files[g - 1].services@, files[g - 1].services.len() as int);
    assert(names_through(files, g) == prev + here);
    if f < g - 1 {
        lemma_name_through(files, g - 1, f, i);
        let k = choose|k: int| 0 <= k < prev.len() && prev[k] == name;
        assert((prev + here)[k] == name);
    } else {
        lemma_name_listed(files[f].services@, files[f].services.len() as int, i);
        let k = choose|k: int| 0 <= k < here.len() && here[k] == name;
        assert((prev + here)[prev.len() + k] == name);
    }
}

/// The services the first `n` files keep: each in its file, kept after the
/// names before it, in package order.
proof fn lemma_service_positions(files: Seq<PackageFile>, n: int, symbols: Seq<(String, Symbol)>, package: Seq<char>)
    requires
        0 <= n <= files.len() <= usize::MAX,
    ensures
        forall|q: int|
            0 <= q < files_rule(files, n, symbols, package).2.len() ==> {
                let p = #[trigger] files_rule(files, n, symbols, package).2[q];
                &&& p.0 < n
                &&& p.1 < files[p.0 as int].services.len()
                &&& service_kept(
                    names_through(files, p.0 as int) + service_names(files[p.0 as int].services@, p.1 as int),
                    files[p.0 as int].services@[p.1 as int],
                )
            },
        forall|q1: int, q2: int|
            0 <= q1 < q2 < files_rule(files, n, symbols, package).2.len() ==> {
                let p1 = #[trigger] files_rule(files, n, symbols, package).2[q1];
                let p2 = #[trigger] files_rule(files, n, symbols, package).2[q2];
                p1.0 < p2.0 || (p1.0 == p2.0 && p1.1 < p2.1)
            },
    decreases n,
{
    if n > 0 {
        lemma_service_positions(files, n - 1, symbols, package);
        let prev = files_rule(files, n - 1, symbols, package).2;
        let file = files[n - 1];
        let prior = names_through(files, n - 1);
        let k = kept_services(file.services@, file.services.len() as int, prior, (n - 1) as usize);
        lemma_kept_services_kept(file.services@, file.services.len() as int, prior, (n - 1) as usize);
        let all = files_rule(files, n, symbols, package).2;
        assert(all == prev + k);
        assert forall|q: int| 0 <= q < all.len() implies {
            let p = #[trigger] all[q];
            &&& p.0 < n
            &&& p.1 < files[p.0 as int].services.len()
            &&& service_kept(
                names_through(files, p.0 as int) + service_names(files[p.0 as int].services@, p.1 as int),
                files[p.0 as int].services@[p.1 as int],
            )
        } by {
            if q < prev.len() {
                assert(all[q] == prev[q]);
            } else {
                assert(all[q] == k[q - prev.len()]);
            }
        }
        assert forall|q1: int, q2: int| 0 <= q1 < q2 < all.len() implies {
            let p1 = #[trigger] all[q1];
            let p2 = #[trigger] all[q2];
            p1.0 < p2.0 || (p1.0 == p2.0 && p1.1 < p2.1)
        } by {
            if q2 < prev.len() {
                assert(all[q1] == prev[q1] && all[q2] == prev[q2]);
            } else if q1 < prev.len() {
                assert(all[q1] == prev[q1]);
                assert(all[q2] == k[q2 - prev.len()]);
            } else {
                assert(all[q1] == k[q1 - prev.len()] && all[q2] == k[q2 - prev.len()]);
            }
        }
    }
}

/// Every service the package lowers has a name, and no two share one: a
/// dotted name lowers once, from its first declaration.
pub proof fn law_lowered_services_have_distinct_names(
    files: Seq<PackageFile>,
    symbols: Seq<(String, Symbol)>,
    package: Seq<char>,
)
    requires
        files.len() <= usize::MAX,
    ensures
        forall|k: int|
            0 <= k < files_rule(files, files.len() as int, symbols, package).2.len() ==> {
                let p = #[trigger] files_rule(files, files.len() as int, symbols, package).2[k];
                files[p.0 as int].services@[p.1 as int].name@.len() > 0
            },
        forall|k1: int, k2: int|
            0 <= k1 < k2 < files_rule(files, files.len() as int, symbols, package).2.len() ==> {
                let p1 = #[trigger] files_rule(files, files.len() as int, symbols, package).2[k1];
                let p2 = #[trigger] files_rule(files, files.len() as int, symbols, package).2[k2];
                files[p1.0 as int].services@[p1.1 as int].name@ != files[p2.0 as int].services@[p2.1 as int].name@
            },
{
    let all = files_rule(files, files.len() as int, symbols, package).2;
    lemma_service_positions(files, files.len() as int, symbols, package);
    assert forall|k1: int, k2: int| 0 <= k1 < k2 < all.len() implies {
        let p1 = #[trigger] all[k1];
        let p2 = #[trigger] all[k2];
        files[p1.0 as int].services@[p1.1 as int].name@ != files[p2.0 as int].services@[p2.1 as int].name@
    } by {
        let p1 = all[k1];
        let p2 = all[k2];
        let s1 = files[p1.0 as int].services@[p1.1 as int];
        let s2 = files[p2.0 as int].services@[p2.1 as int];
        let prior2 = names_through(files, p2.0 as int) + service_names(files[p2.0 as int].services@, p2.1 as int);
        if p1.0 < p2.0 {
            lemma_name_through(files, p2.0 as int, p1.0 as int, p1.1 as int);
            let k = choose|k: int|
                0 <= k < names_through(files, p2.0 as int).len() && names_through(files, p2.0 as int)[k] == s1.name@;
            assert(prior2[k] == s1.name@);
        } else {
            lemma_name_listed(files[p2.0 as int].services@, p2.1 as int, p1.1 as int);
            let here = service_names(files[p2.0 as int].services@, p2.1 as int);
            let k = choose|k: int| 0 <= k < here.len() && here[k] == s1.name@;
            assert(prior2[names_through(files, p2.0 as int).len() + k] == s1.name@);
        }
    }
}

proof fn lemma_starts_in_graph(
    files: Seq<PackageFile>,
    f: usize,
    symbols: Seq<(String, Symbol)>,
    package: Seq<char>,
    bound: int,
    n: int,
)
    requires
        f < files.len(),
        0 <= n <= files[f as int].definitions.len(),
        forall|g: int, k: int|
            0 <= g < files.len() && 0 <= k < files[g].definitions.len() ==> ((
            #[trigger] files[g].definitions@[k]).composite matches Some(node) ==> node < bound),
    ensures
        forall|q: int|
            0 <= q < def_starts(files[f as int].definitions@, n, symbols, package, f).len() ==> (
            #[trigger] def_starts(files[f as int].definitions@, n, symbols, package, f)[q]).node < bound,
    decreases n,
{
    if n > 0 {
        lemma_starts_in_graph(files, f, symbols, package, bound, n - 1);
        let defs = files[f as int].definitions@;
        let d = defs[n - 1];
        assert(files[f as int].definitions@[n - 1].composite matches Some(node) ==> node < bound);
        let prev = def_starts(defs, n - 1, symbols, package, f);
        let all = def_starts(defs, n, symbols, package, f);
        assert forall|q: int| 0 <= q < all.len() implies (#[trigger] all[q]).node < bound by {
            if q < prev.len() {
                assert(all[q] == prev[q]);
            }
        }
    }
}

} // verus!
