//! Lowering one top-level declaration of a package: a scalar `type`, a
//! `const`, a `struct`, an `enum`, an `enumset` or a `union` lowers by its
//! own rule, then its envelope is checked (the `error` modifier, the doc
//! comment's `@deprecated` reason, a blank line before the definition); an
//! `interface` lowers its body's slots; a `service` checks its dotted name
//! and lowers its shape.

use vstd::prelude::*;

use crate::check::{declared_init_rule, literal_wf, ConstEntry, InitLiteral};
use crate::decls::{
    backing_rule, backing_view, backing_wf, bit_domain, bits_wf, const_decl_wf, const_diags_with, const_reference, const_text, reference_number,
    enum_fold, enum_member_wf, enum_retired, enum_values_view, enumset_rule, enumset_width_rule, lower_const_in,
    lower_enum, lower_enum_set, lower_type, lower_union, reserveds_view, scalar_constraint_wf, scalar_diags,
    scalar_lowered, type_ref_text, union_arms_view, union_fold, union_member_wf, union_retired, union_verdict,
    BackingSpec, ConstDecl, ConstDef, EnumDef, EnumMember, EnumSetBacking, EnumSetBit, EnumSetDef,
    LoweredTypeDef, ScalarConstraint, UnionDef, UnionMember,
};
use crate::diag::{diags_view, DiagCode, Diagnostic, Severity, DETACHED};
use crate::docs::{check_definition_envelope, envelope_rule, scan, scan_lines, token_lines, DefinitionKind, DocInfo};
use crate::expr::strs_view;
use crate::init::{init_view, scalar_init, type_rule, TypeDef};
use crate::interactions::{
    check_service_name, interface_body, interface_error_modifier, service_name_rule, body_rule, slots_view,
    BodyMember, SLabelled, Slot,
};
use crate::layout::{
    lower_struct, struct_fold, struct_member_wf, struct_retired, struct_slots_view, table_wf, DeclShape,
    StructLayout, StructMember,
};
use crate::members::lower_service_ref;
use crate::resolve::{SDiag, Symbol, SymbolKind};
use crate::syntax::TextRange;
use crate::text::{join_lines, trim};

verus! {

// ==========================================================================
// Declarations
// ==========================================================================

/// What a declaration declares, as the checker read it: the inputs of the
/// lowering of its kind.
#[derive(Debug, PartialEq, Eq)]
pub enum DeclBody {
    /// A scalar `type`: its backing, where the backing (or, without one, the
    /// name) stands, its constraint, and its `= value` init with where it
    /// stands.
    Type {
        backing: Option<BackingSpec>,
        span: TextRange,
        constraint: Option<ScalarConstraint>,
        init: Option<(InitLiteral, TextRange)>,
    },
    Const(ConstDecl),
    Struct(Vec<StructMember>),
    Enum(Vec<EnumMember>),
    EnumSet { over: Option<EnumSetBacking>, bits: Vec<EnumSetBit> },
    Union(Vec<UnionMember>),
}

/// A top-level declaration: its name (none when the parser recovered it
/// without one) and where it stands, its `internal` and `error` modifiers,
/// its doc comment lines and what stands between them and the definition,
/// its node in the composite reference graph (a struct or a union), and
/// what it declares.
#[derive(Debug, PartialEq, Eq)]
pub struct Definition {
    pub name: Option<String>,
    pub name_range: TextRange,
    pub internal: bool,
    pub is_error: bool,
    pub docs: Vec<String>,
    pub gap: Option<String>,
    pub composite: Option<usize>,
    pub body: DeclBody,
}

/// A declaration lowered by its kind.
#[derive(Debug, PartialEq, Eq)]
pub enum LoweredDecl {
    Type(LoweredTypeDef),
    Const(ConstDef),
    Struct(StructLayout),
    Enum(EnumDef),
    EnumSet(EnumSetDef),
    Union(UnionDef),
}

/// A lowered declaration: its name, its modifiers, what its doc comment
/// says, and its lowered kind.
#[derive(Debug, PartialEq, Eq)]
pub struct LoweredDefinition {
    pub name: String,
    pub internal: bool,
    pub is_error: bool,
    pub doc: DocInfo,
    pub decl: LoweredDecl,
}

pub open spec fn body_kind(b: DeclBody) -> DefinitionKind {
    match b {
        DeclBody::Type { .. } => DefinitionKind::Type,
        DeclBody::Const(_) => DefinitionKind::Const,
        DeclBody::Struct(_) => DefinitionKind::Struct,
        DeclBody::Enum(_) => DefinitionKind::Enum,
        DeclBody::EnumSet { .. } => DefinitionKind::EnumSet,
        DeclBody::Union(_) => DefinitionKind::Union,
    }
}

/// The inputs each lowering takes: well-formed literals and members, and
/// fewer members than ordinals.
pub open spec fn body_wf(b: DeclBody) -> bool {
    match b {
        DeclBody::Type { constraint, init, .. } => scalar_constraint_wf(constraint) && (init matches Some(
            (l, _),
        ) ==> literal_wf(l)),
        DeclBody::Const(d) => const_decl_wf(d),
        DeclBody::Struct(members) => members.len() < u32::MAX && forall|i: int|
            0 <= i < members.len() ==> struct_member_wf(#[trigger] members@[i]),
        DeclBody::Enum(members) => forall|i: int| 0 <= i < members.len() ==> enum_member_wf(#[trigger] members@[i]),
        DeclBody::EnumSet { over, bits } => backing_wf(over) && bits_wf(bits@),
        DeclBody::Union(members) => members.len() < u32::MAX && forall|i: int|
            0 <= i < members.len() ==> union_member_wf(#[trigger] members@[i]),
    }
}

/// How a declaration's body lowers, kind by kind: a `type` by
/// [`crate::decls::lower_type`], a `const` by [`crate::decls::lower_const_in`]
/// (a value naming another constant followed through `consts`, the name
/// bound in `symbols`),
/// a `struct` by [`crate::layout::lower_struct`] over `table`, an `enum` by
/// [`crate::decls::lower_enum`], an `enumset` by
/// [`crate::decls::lower_enum_set`], a `union` by
/// [`crate::decls::lower_union`].
pub open spec fn body_lowered(
    b: DeclBody,
    name_range: TextRange,
    is_error: bool,
    table: Seq<DeclShape>,
    consts: Seq<ConstEntry>,
    symbols: Seq<(String, Symbol)>,
    l: LoweredDecl,
) -> bool {
    match (b, l) {
        (DeclBody::Type { backing, span, constraint, init }, LoweredDecl::Type(t)) => {
            &&& backing_view(t.backing) == backing_rule(backing).0
            &&& scalar_lowered(backing_rule(backing).1, constraint, span, t.scalar)
            &&& match init {
                Some((literal, range)) => {
                    let d = declared_init_rule(literal, t.scalar.parts, range, DiagCode::TYPL_109);
                    &&& t.declared_init matches Some(x) && x@ == d.0
                    &&& init_view(t.init) == scalar_init(d.0)
                },
                None => {
                    &&& t.declared_init is None
                    &&& init_view(t.init) == type_rule(
                        TypeDef { backing: t.backing, constraint: t.scalar.parts.constraint },
                    )
                },
            }
        },
        (DeclBody::Const(decl), LoweredDecl::Const(c)) => {
            &&& match c.type_ref {
                Some(x) => type_ref_text(decl.type_ref) == Some(x@),
                None => type_ref_text(decl.type_ref) is None,
            }
            &&& c.value@ == const_text(decl, const_reference(decl, consts, symbols)).0
            &&& match c.regex {
                Some(x) => const_text(decl, const_reference(decl, consts, symbols)).1 == Some(x@),
                None => const_text(decl, const_reference(decl, consts, symbols)).1 is None,
            }
        },
        (DeclBody::Struct(members), LoweredDecl::Struct(s)) => {
            let f = struct_fold(table, members@, members.len() as int, struct_retired(members@, members.len() as int));
            &&& struct_slots_view(s.members@) == f.0
            &&& s.fixed_layout == (f.1 && members.len() > 0)
        },
        (DeclBody::Enum(members), LoweredDecl::Enum(e)) => {
            let s = enum_fold(members@, members.len() as int, enum_retired(members@, members.len() as int), is_error);
            &&& enum_values_view(e.values@) == s.values
            &&& reserveds_view(e.reserved@) == s.reserved
        },
        (DeclBody::EnumSet { over, bits }, LoweredDecl::EnumSet(e)) => {
            let (reference, lowered, _) = enumset_rule(over, bits@);
            let (high, _) = bit_domain(lowered, lowered.len() as int, name_range);
            &&& match e.backing_enum {
                Some(x) => reference == Some(x@),
                None => reference is None,
            }
            &&& enum_values_view(e.bits@) == lowered
            &&& e.highest_bit as nat == high
            &&& e.width == enumset_width_rule(high)
        },
        (DeclBody::Union(members), LoweredDecl::Union(u)) => {
            let s = union_fold(members@, members.len() as int, union_retired(members@, members.len() as int));
            &&& union_arms_view(u.arms@) == s.arms
            &&& reserveds_view(u.reserved@) == s.reserved
            &&& u.is_result == union_verdict(members@, s, is_error, name_range).0
        },
        _ => false,
    }
}

/// What lowering a declaration's body raises, kind by kind (a `type`'s
/// declared init is checked against the constraint it lowered to; a
/// `const` naming another constant is range-checked with that constant's
/// value, followed through `consts`).
pub open spec fn body_diags(
    b: DeclBody,
    name_range: TextRange,
    is_error: bool,
    table: Seq<DeclShape>,
    consts: Seq<ConstEntry>,
    symbols: Seq<(String, Symbol)>,
    l: LoweredDecl,
) -> Seq<SDiag> {
    match (b, l) {
        (DeclBody::Type { backing, span, constraint, init }, LoweredDecl::Type(t)) => {
            let head = backing_rule(backing).2 + scalar_diags(backing_rule(backing).1, constraint, span);
            match init {
                Some((literal, range)) => head + declared_init_rule(
                    literal,
                    t.scalar.parts,
                    range,
                    DiagCode::TYPL_109,
                ).1,
                None => head + if type_rule(
                    TypeDef { backing: t.backing, constraint: t.scalar.parts.constraint },
                ).0 {
                    Seq::empty()
                } else {
                    seq![(DiagCode::TYPL_115, Severity::Info, DETACHED, name_range)]
                },
            }
        },
        (DeclBody::Const(decl), _) => const_diags_with(
            decl,
            reference_number(const_reference(decl, consts, symbols)),
        ),
        (DeclBody::Struct(members), _) => struct_fold(
            table,
            members@,
            members.len() as int,
            struct_retired(members@, members.len() as int),
        ).2,
        (DeclBody::Enum(members), _) => enum_fold(
            members@,
            members.len() as int,
            enum_retired(members@, members.len() as int),
            is_error,
        ).diags,
        (DeclBody::EnumSet { over, bits }, _) => {
            let (_, lowered, ds) = enumset_rule(over, bits@);
            ds + bit_domain(lowered, lowered.len() as int, name_range).1
        },
        (DeclBody::Union(members), _) => {
            let s = union_fold(members@, members.len() as int, union_retired(members@, members.len() as int));
            s.diags + union_verdict(members@, s, is_error, name_range).1
        },
        _ => Seq::empty(),
    }
}

/// What a doc comment's lines say: the prose, the labels, the deprecation.
pub open spec fn doc_scanned(docs: Seq<Seq<char>>, d: DocInfo) -> bool {
    let scanned = scan_lines(token_lines(docs));
    &&& d.doc@ == trim(join_lines(scanned.body))
    &&& strs_view(d.labels@) == scanned.labels
    &&& match d.deprecated {
        Some(x) => scanned.deprecated == Some(x@),
        None => scanned.deprecated is None,
    }
}

pub open spec fn opt_text(g: Option<String>) -> Option<Seq<char>> {
    match g {
        Some(x) => Some(x@),
        None => None,
    }
}

/// A named declaration lowered: its name and modifiers carried, its doc
/// comment read, its body lowered ([`body_lowered`]).
pub open spec fn definition_lowered(
    d: Definition,
    table: Seq<DeclShape>,
    consts: Seq<ConstEntry>,
    symbols: Seq<(String, Symbol)>,
    l: LoweredDefinition,
) -> bool {
    &&& d.name matches Some(n) && l.name@ == n@
    &&& l.internal == d.internal
    &&& l.is_error == d.is_error
    &&& doc_scanned(strs_view(d.docs@), l.doc)
    &&& body_lowered(d.body, d.name_range, d.is_error, table, consts, symbols, l.decl)
}

/// What lowering a declaration raises: its body's diagnostics
/// ([`body_diags`]), then its envelope's ([`envelope_rule`]).
pub open spec fn definition_diags(
    d: Definition,
    table: Seq<DeclShape>,
    consts: Seq<ConstEntry>,
    symbols: Seq<(String, Symbol)>,
    l: LoweredDefinition,
) -> Seq<SDiag> {
    body_diags(d.body, d.name_range, d.is_error, table, consts, symbols, l.decl) + envelope_rule(
        body_kind(d.body),
        d.is_error,
        d.name_range,
        strs_view(d.docs@),
        opt_text(d.gap),
    )
}

fn definition_kind(b: &DeclBody) -> (r: DefinitionKind)
    ensures
        r == body_kind(*b),
{
    match b {
        DeclBody::Type { .. } => DefinitionKind::Type,
        DeclBody::Const(_) => DefinitionKind::Const,
        DeclBody::Struct(_) => DefinitionKind::Struct,
        DeclBody::Enum(_) => DefinitionKind::Enum,
        DeclBody::EnumSet { .. } => DefinitionKind::EnumSet,
        DeclBody::Union(_) => DefinitionKind::Union,
    }
}

fn lower_body(
    b: &DeclBody,
    name: &str,
    name_range: TextRange,
    is_error: bool,
    table: &[DeclShape],
    consts: &[ConstEntry],
    symbols: &[(String, Symbol)],
) -> (r: (LoweredDecl, Vec<Diagnostic>))
    requires
        body_wf(*b),
        table_wf(table@),
        crate::check::graph_wf(consts@),
    ensures
        body_lowered(*b, name_range, is_error, table@, consts@, symbols@, r.0),
        diags_view(r.1@) == body_diags(*b, name_range, is_error, table@, consts@, symbols@, r.0),
{
    match b {
        DeclBody::Type { backing, span, constraint, init } => {
            let (t, ds) = lower_type(name, name_range, backing, *span, constraint, init);
            (LoweredDecl::Type(t), ds)
        },
        DeclBody::Const(decl) => {
            let (c, ds) = lower_const_in(decl, consts, symbols);
            (LoweredDecl::Const(c), ds)
        },
        DeclBody::Struct(members) => {
            let (s, ds) = lower_struct(table, members.as_slice());
            (LoweredDecl::Struct(s), ds)
        },
        DeclBody::Enum(members) => {
            let (e, ds) = lower_enum(members.as_slice(), is_error);
            (LoweredDecl::Enum(e), ds)
        },
        DeclBody::EnumSet { over, bits } => {
            let (e, ds) = lower_enum_set(over, bits.as_slice(), name_range);
            (LoweredDecl::EnumSet(e), ds)
        },
        DeclBody::Union(members) => {
            let (u, ds) = lower_union(members.as_slice(), is_error, name_range);
            (LoweredDecl::Union(u), ds)
        },
    }
}

/// Lowers a declaration ([`definition_lowered`], [`definition_diags`]): a
/// declaration without a name lowers to nothing and raises nothing.
pub fn lower_definition(
    d: &Definition,
    table: &[DeclShape],
    consts: &[ConstEntry],
    symbols: &[(String, Symbol)],
) -> (r: Option<(LoweredDefinition, Vec<Diagnostic>)>)
    requires
        body_wf(d.body),
        table_wf(table@),
        crate::check::graph_wf(consts@),
    ensures
        r is Some <==> d.name is Some,
        r matches Some((l, ds)) ==> definition_lowered(*d, table@, consts@, symbols@, l) && diags_view(ds@) == definition_diags(
            *d,
            table@,
            consts@,
            symbols@,
            l,
        ),
{
    let name = match &d.name {
        Some(n) => n,
        None => {
            return None;
        },
    };
    let (decl, mut out) = lower_body(&d.body, name.as_str(), d.name_range, d.is_error, table, consts, symbols);
    let ghost body = diags_view(out@);
    let kind = definition_kind(&d.body);
    let (doc, mut envelope) = check_definition_envelope(
        kind,
        d.is_error,
        name.as_str(),
        d.name_range,
        d.docs.as_slice(),
        &d.gap,
    );
    let ghost env = diags_view(envelope@);
    let ghost a = out@;
    let ghost b = envelope@;
    out.append(&mut envelope);
    assert(diags_view(out@) =~= diags_view(a) + diags_view(b));
    let lowered = LoweredDefinition {
        name: name.clone(),
        internal: d.internal,
        is_error: d.is_error,
        doc,
        decl,
    };
    Some((lowered, out))
}

// ==========================================================================
// Interfaces and services
// ==========================================================================

/// The labelled diagnostics of a body walk as plain errors.
pub open spec fn labelled_errors(ls: Seq<SLabelled>) -> Seq<SDiag> {
    Seq::new(ls.len(), |k: int| (ls[k].0, Severity::Error, DETACHED, ls[k].1))
}

/// An `interface` declaration: its name and where it stands, its
/// `internal` and `error` modifiers, its doc comment lines, and its body's
/// members.
#[derive(Debug, PartialEq, Eq)]
pub struct InterfaceDecl {
    pub name: Option<String>,
    pub name_range: TextRange,
    pub internal: bool,
    pub is_error: bool,
    pub docs: Vec<String>,
    pub members: Vec<BodyMember>,
}

/// A lowered interface: its name, its visibility, what its doc comment
/// says, and the slots its members take.
#[derive(Debug, PartialEq, Eq)]
pub struct LoweredInterface {
    pub name: String,
    pub internal: bool,
    pub doc: DocInfo,
    pub slots: Vec<Slot>,
}

pub open spec fn name_text(n: Option<String>) -> Seq<char> {
    match n {
        Some(x) => x@,
        None => Seq::empty(),
    }
}

/// An interface lowered: its name (empty when it has none), its
/// visibility, its doc comment read, and the slots of its body walk
/// ([`body_rule`]).
pub open spec fn interface_lowered(i: InterfaceDecl, l: LoweredInterface) -> bool {
    &&& l.name@ == name_text(i.name)
    &&& l.internal == i.internal
    &&& doc_scanned(strs_view(i.docs@), l.doc)
    &&& slots_view(l.slots@) == body_rule(i.members@, i.members.len() as int).slots
}

/// What lowering an interface raises: TYPL-212 at its name for the `error`
/// modifier, then the RIDL-401 and RIDL-402 errors of its body walk.
pub open spec fn interface_diags(i: InterfaceDecl) -> Seq<SDiag> {
    (if i.is_error {
        seq![(DiagCode::TYPL_212, Severity::Error, DETACHED, i.name_range)]
    } else {
        Seq::empty()
    }) + labelled_errors(body_rule(i.members@, i.members.len() as int).diags)
}

/// The body walk's diagnostics, each as a plain error; its labels are not
/// carried.
fn body_errors(members: &Vec<BodyMember>) -> (r: (Vec<Slot>, Vec<Diagnostic>))
    requires
        members.len() < u32::MAX,
    ensures
        slots_view(r.0@) == body_rule(members@, members.len() as int).slots,
        diags_view(r.1@) == labelled_errors(body_rule(members@, members.len() as int).diags),
{
    let (slots, labelled) = interface_body(members.as_slice());
    let ghost lv = crate::interactions::labelled_views(labelled@);
    let mut out: Vec<Diagnostic> = Vec::new();
    let mut k: usize = 0;
    while k < labelled.len()
        invariant
            k <= labelled.len(),
            lv == crate::interactions::labelled_views(labelled@),
            diags_view(out@) == labelled_errors(lv.take(k as int)),
            forall|q: int| 0 <= q < labelled@.len() ==> (#[trigger] labelled@[q]).diagnostic.severity == Severity::Error,
        decreases labelled.len() - k,
    {
        let d = &labelled[k].diagnostic;
        let ghost before = diags_view(out@);
        out.push(Diagnostic { code: d.code, severity: d.severity, message: d.message.clone(), file: DETACHED, range: d.range });
        assert(labelled@[k as int].diagnostic.severity == Severity::Error);
        assert(lv[k as int] == crate::interactions::labelled_view(labelled@[k as int]));
        assert(diags_view(out@) =~= before.push((lv[k as int].0, Severity::Error, DETACHED, lv[k as int].1)));
        assert(labelled_errors(lv.take(k + 1)) =~= labelled_errors(lv.take(k as int)).push(
            (lv[k as int].0, Severity::Error, DETACHED, lv[k as int].1),
        ));
        k = k + 1;
    }
    assert(lv.take(labelled.len() as int) =~= lv);
    (slots, out)
}

/// Lowers an interface ([`interface_lowered`], [`interface_diags`]).
pub fn lower_interface(i: &InterfaceDecl) -> (r: (LoweredInterface, Vec<Diagnostic>))
    requires
        i.members.len() < u32::MAX,
    ensures
        interface_lowered(*i, r.0),
        diags_view(r.1@) == interface_diags(*i),
{
    let mut out: Vec<Diagnostic> = Vec::new();
    if let Some(d) = interface_error_modifier(i.is_error, i.name_range) {
        out.push(d);
        assert(diags_view(out@) =~= seq![(DiagCode::TYPL_212, Severity::Error, DETACHED, i.name_range)]);
    } else {
        assert(diags_view(out@) =~= Seq::<SDiag>::empty());
    }
    let ghost head = diags_view(out@);
    let (slots, mut body) = body_errors(&i.members);
    let ghost tail = body@;
    let ghost a = out@;
    out.append(&mut body);
    assert(diags_view(out@) =~= diags_view(a) + diags_view(tail));
    assert(head =~= (if i.is_error {
        seq![(DiagCode::TYPL_212, Severity::Error, DETACHED, i.name_range)]
    } else {
        Seq::<SDiag>::empty()
    }));
    let name = match &i.name {
        Some(n) => n.clone(),
        None => String::new(),
    };
    proof {
        reveal_strlit("");
    }
    let doc = scan(i.docs.as_slice());
    (LoweredInterface { name, internal: i.internal, doc, slots }, out)
}

/// A service's shape as written: a named interface (the reference as
/// written, where it stands, and what it looks up to — its canonical
/// reference and kind), or an inline body.
#[derive(Debug, PartialEq, Eq)]
pub enum ServiceShape {
    Named { written: String, range: TextRange, lookup: Option<(String, SymbolKind)> },
    Inline(Vec<BodyMember>),
}

/// A `service` declaration: its dotted name, its name's segments with where
/// each stands, its doc comment lines, and its shape.
#[derive(Debug, PartialEq, Eq)]
pub struct ServiceDecl {
    pub name: String,
    pub segments: Vec<(String, TextRange)>,
    pub docs: Vec<String>,
    pub shape: ServiceShape,
}

/// A lowered service shape: the reference of the interface it publishes, or
/// the slots of its inline body.
#[derive(Debug, PartialEq, Eq)]
pub enum LoweredShape {
    InterfaceRef(String),
    Inline(Vec<Slot>),
}

/// A lowered service: its name, what its doc comment says, and its shape.
#[derive(Debug, PartialEq, Eq)]
pub struct LoweredService {
    pub name: String,
    pub doc: DocInfo,
    pub shape: LoweredShape,
}

/// A service lowered: its name, its doc comment read, and its shape — a
/// named interface by the reference it looks up to (as written when it looks
/// up to nothing), an inline body by its slots.
pub open spec fn service_lowered(s: ServiceDecl, l: LoweredService) -> bool {
    &&& l.name@ == s.name@
    &&& doc_scanned(strs_view(s.docs@), l.doc)
    &&& match (s.shape, l.shape) {
        (ServiceShape::Named { written, lookup, .. }, LoweredShape::InterfaceRef(r)) => r@ == match lookup {
            Some((canonical, _)) => canonical@,
            None => written@,
        },
        (ServiceShape::Inline(members), LoweredShape::Inline(slots)) => slots_view(slots@) == body_rule(
            members@,
            members.len() as int,
        ).slots,
        _ => false,
    }
}

/// What lowering a service raises: the segments of its name that are not
/// lowercase, then RIDL-141 at a named shape that is no interface, or the
/// errors of its inline body walk.
pub open spec fn service_diags_of(s: ServiceDecl) -> Seq<SDiag> {
    service_name_rule(s.segments@, s.segments.len() as int) + match s.shape {
        ServiceShape::Named { range, lookup, .. } => if lookup matches Some((_, k)) && k == SymbolKind::Interface {
            Seq::empty()
        } else {
            seq![(DiagCode::RIDL_141, Severity::Error, DETACHED, range)]
        },
        ServiceShape::Inline(members) => labelled_errors(body_rule(members@, members.len() as int).diags),
    }
}

pub open spec fn service_wf(s: ServiceDecl) -> bool {
    s.shape matches ServiceShape::Inline(members) ==> members.len() < u32::MAX
}

/// Lowers a service ([`service_lowered`], [`service_diags_of`]).
pub fn lower_service(s: &ServiceDecl) -> (r: (LoweredService, Vec<Diagnostic>))
    requires
        service_wf(*s),
    ensures
        service_lowered(*s, r.0),
        diags_view(r.1@) == service_diags_of(*s),
{
    let mut out = check_service_name(s.segments.as_slice());
    let ghost head = diags_view(out@);
    let shape = match &s.shape {
        ServiceShape::Named { written, range, lookup } => {
            let found = match lookup {
                Some((canonical, kind)) => Some((canonical.clone(), *kind)),
                None => None,
            };
            let (reference, d) = lower_service_ref(written.clone(), *range, found);
            if let Some(x) = d {
                out.push(x);
            }
            assert(diags_view(out@) =~= service_diags_of(*s));
            LoweredShape::InterfaceRef(reference)
        },
        ServiceShape::Inline(members) => {
            let (slots, mut body) = body_errors(members);
            let ghost a = out@;
            let ghost b = body@;
            out.append(&mut body);
            assert(diags_view(out@) =~= diags_view(a) + diags_view(b));
            LoweredShape::Inline(slots)
        },
    };
    let doc = scan(s.docs.as_slice());
    (LoweredService { name: s.name.clone(), doc, shape }, out)
}

} // verus!
