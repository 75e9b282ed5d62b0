//! Field-type lowering: how a field type as written — an optional, a type
//! path, a primitive (bare, or with an inline constraint), a tuple, an
//! array or a map — lowers to the field type the IR carries, with the
//! diagnostics each part draws; and how a struct field lowers together
//! with its init.

use vstd::prelude::*;

use crate::check::{
    declared_init_rule, len_rule, literal_wf, lower_declared_init, BackingClass, InitLiteral, LenBound, ScalarParts,
};
use crate::decls::{
    bare_primitive_rule, check_bare_primitive, class_of_primitive, float_scalar_rule, integer_scalar_rule,
    lower_scalar, numeric_part, opt_bound_rule, opt_pair, opt_text, pattern_rule, primitive_class,
    scalar_constraint_wf, scalar_diags, scalar_lowered, BoundLiteral, LitKind, NumericScalar, PatternLiteral,
    ScalarConstraint,
};
use crate::check::ConstValue;
use crate::diag::{diag_view, diags_view, DiagCode, Diagnostic, Severity, DETACHED};
use crate::exact::ExactValue;
use crate::init::{
    derive_field_init, field_rule, init_view, named_view, scalar_init, Backing, Constraint, FieldKind, FieldType,
    InitValue, PrimitiveType, TupleField, TypeDef,
};
use crate::layout::{check_map_key, collection_bound_wf, collection_bounds, collection_bounds_rule, CollectionBound, MapKey};
use crate::resolve::{SDiag, SymbolKind};
use crate::syntax::TextRange;

verus! {

// ==========================================================================
// Field types as written
// ==========================================================================

/// The declaration a type path names: its canonical reference, its name
/// and kind; for a scalar `type`, whether its backing is the `string`
/// primitive, the exact bounds of its range constraint (when it has one),
/// and the length bound and `match` pattern of a string or bytes type.
#[derive(Debug, PartialEq, Eq)]
pub struct NamedType {
    pub canonical: String,
    pub name: String,
    pub kind: SymbolKind,
    pub string_backed: bool,
    pub bounds: Option<(Option<ExactValue>, Option<ExactValue>)>,
    pub string_constraint: Option<Constraint>,
}

/// A type path as written: its text, where it stands, and the declaration
/// it names, when it names one.
#[derive(Debug, PartialEq, Eq)]
pub struct PathType {
    pub written: String,
    pub range: TextRange,
    pub lookup: Option<NamedType>,
}

/// One named field of a tuple type as written.
#[derive(Debug, PartialEq, Eq)]
pub struct TupleFieldSyntax {
    pub name: String,
    pub ty: Option<FieldTypeSyntax>,
}

/// A field type as written, each part with where it stands. A primitive
/// carries its constraint when one is written after it.
#[derive(Debug, PartialEq, Eq)]
pub enum FieldTypeSyntax {
    Optional { range: TextRange, inner: Option<Box<FieldTypeSyntax>> },
    Path(PathType),
    Primitive { range: TextRange, primitive: PrimitiveType, constraint: Option<ScalarConstraint> },
    Tuple { range: TextRange, fields: Vec<TupleFieldSyntax> },
    Array { range: TextRange, element: Option<Box<FieldTypeSyntax>>, bound: Option<CollectionBound> },
    Dictionary {
        range: TextRange,
        key: Option<Box<FieldTypeSyntax>>,
        value: Option<Box<FieldTypeSyntax>>,
        bound: Option<CollectionBound>,
    },
}

/// A lowered field type, with what validates a declared init against it:
/// the exact bounds of a numeric scalar, and the length bound and `match`
/// pattern of a string or bytes scalar.
#[derive(Debug, PartialEq, Eq)]
pub struct LoweredFieldType {
    pub ty: FieldType,
    pub scalar_bounds: Option<(Option<ExactValue>, Option<ExactValue>)>,
    pub init_constraint: Option<Constraint>,
}

pub open spec fn bounds_wf(b: Option<(Option<ExactValue>, Option<ExactValue>)>) -> bool {
    b matches Some((lo, hi)) ==> (lo matches Some(v) ==> v.wf()) && (hi matches Some(v) ==> v.wf())
}

pub open spec fn path_wf(p: PathType) -> bool {
    p.lookup matches Some(n) ==> bounds_wf(n.bounds)
}

/// The exact values a field type carries are usable.
pub open spec fn syntax_wf(s: FieldTypeSyntax) -> bool
    decreases s,
{
    match s {
        FieldTypeSyntax::Optional { inner, .. } => match inner {
            Some(i) => syntax_wf(*i),
            None => true,
        },
        FieldTypeSyntax::Path(p) => path_wf(p),
        FieldTypeSyntax::Primitive { constraint, .. } => scalar_constraint_wf(constraint),
        FieldTypeSyntax::Tuple { fields, .. } => forall|i: int|
            0 <= i < fields@.len() ==> match #[trigger] fields@[i].ty {
                Some(t) => syntax_wf(t),
                None => true,
            },
        FieldTypeSyntax::Array { element, bound, .. } => collection_bound_wf(bound) && match element {
            Some(e) => syntax_wf(*e),
            None => true,
        },
        FieldTypeSyntax::Dictionary { key, value, bound, .. } => collection_bound_wf(bound) && match key {
            Some(k) => syntax_wf(*k),
            None => true,
        } && match value {
            Some(v) => syntax_wf(*v),
            None => true,
        },
    }
}

/// Where a field type stands.
pub open spec fn range_of(s: FieldTypeSyntax) -> TextRange {
    match s {
        FieldTypeSyntax::Optional { range, .. } => range,
        FieldTypeSyntax::Path(p) => p.range,
        FieldTypeSyntax::Primitive { range, .. } => range,
        FieldTypeSyntax::Tuple { range, .. } => range,
        FieldTypeSyntax::Array { range, .. } => range,
        FieldTypeSyntax::Dictionary { range, .. } => range,
    }
}

// ==========================================================================
// Type paths
// ==========================================================================

/// The declaration a type path resolves to as a type: the one it names,
/// unless that is a constant or an interface, which are not types.
pub open spec fn path_target(p: PathType) -> Option<NamedType> {
    match p.lookup {
        Some(n) => if n.kind == SymbolKind::Const || n.kind == SymbolKind::Interface {
            None
        } else {
            Some(n)
        },
        None => None,
    }
}

/// A type path that does not resolve to a type draws an uncoded error at
/// the path.
pub open spec fn path_diags(p: PathType) -> Seq<SDiag> {
    if path_target(p) is None {
        seq![(DiagCode::NONE, Severity::Error, DETACHED, p.range)]
    } else {
        Seq::empty()
    }
}

/// The reference a type path lowers to: the canonical reference of the
/// type it names, or the text as written when it names none.
pub open spec fn path_reference(p: PathType) -> Seq<char> {
    match path_target(p) {
        Some(n) => n.canonical@,
        None => p.written@,
    }
}

/// The message of [`path_diags`]'s error: what the path names instead of a
/// type, or that it names nothing.
pub open spec fn path_message(p: PathType) -> Seq<char> {
    match p.lookup {
        Some(n) => if n.kind == SymbolKind::Const {
            "expected a type, but `"@ + p.written@ + "` names a constant"@
        } else {
            "expected a type, but `"@ + p.written@ + "` names an interface"@
        },
        None => "unknown type name `"@ + p.written@ + "`"@,
    }
}

/// Resolves a type path written in field position ([`path_target`]): the
/// type it names, or else the text as written with the error it draws.
pub fn resolve_type_path(p: PathType) -> (r: (Result<NamedType, String>, Option<Diagnostic>))
    ensures
        match path_target(p) {
            Some(n) => r.0 == Ok::<NamedType, String>(n) && r.1 is None,
            None => {
                &&& r.0 == Err::<NamedType, String>(p.written)
                &&& r.1 matches Some(d) && diag_view(d) == (DiagCode::NONE, Severity::Error, DETACHED, p.range)
                    && d.message@ == path_message(p)
            },
        },
{
    let PathType { written, range, lookup } = p;
    let mut message = String::from_str("");
    proof {
        reveal_strlit("");
    }
    match lookup {
        Some(n) => {
            if n.kind == SymbolKind::Const {
                message.append("expected a type, but `");
                message.append(written.as_str());
                message.append("` names a constant");
            } else if n.kind == SymbolKind::Interface {
                message.append("expected a type, but `");
                message.append(written.as_str());
                message.append("` names an interface");
            } else {
                return (Ok(n), None);
            }
        },
        None => {
            message.append("unknown type name `");
            message.append(written.as_str());
            message.append("`");
        },
    }
    let d = Diagnostic { code: DiagCode::NONE, severity: Severity::Error, message, file: DETACHED, range };
    (Err(written), Some(d))
}

// ==========================================================================
// The lowering
// ==========================================================================

/// The IR constraint of an inline scalar: what [`lower_scalar`] gives the
/// primitive's class under the written constraint.
pub open spec fn inline_ok(primitive: PrimitiveType, c: ScalarConstraint, range: TextRange, t: TypeDef) -> bool {
    &&& t.backing == Some(Backing::Primitive(primitive))
    &&& exists|ns: NumericScalar|
        #[trigger] scalar_lowered(primitive_class(primitive), Some(c), range, ns) && ns.parts.constraint
            == t.constraint
}

/// How a field type lowers: an optional is its inner type made optional
/// (nothing when it has none); a path is a reference to the type it names
/// ([`path_reference`]); a bare primitive is that primitive; a constrained
/// one an inline scalar; a tuple each of its fields; an array its element
/// and its length bounds; a map its key ([`key_lowered`]), its value and
/// its length bounds ([`collection_bounds_rule`]). Elements, values and
/// tuple fields lower outside map-key position.
pub open spec fn field_lowered(s: FieldTypeSyntax, map_key: bool, ft: FieldType) -> bool
    decreases s, 1nat,
{
    &&& ft.optional == (s is Optional)
    &&& kind_lowered(s, map_key, ft.kind)
}

pub open spec fn kind_lowered(s: FieldTypeSyntax, map_key: bool, k: Option<FieldKind>) -> bool
    decreases s, 0nat,
{
    match s {
        FieldTypeSyntax::Optional { inner, .. } => match inner {
            Some(i) => kind_lowered(*i, map_key, k),
            None => k is None,
        },
        FieldTypeSyntax::Path(p) => k matches Some(FieldKind::Named(n)) && n@ == path_reference(p),
        FieldTypeSyntax::Primitive { range, primitive, constraint } => match constraint {
            None => k == Some(FieldKind::Primitive(primitive)),
            Some(c) => k matches Some(FieldKind::InlineScalar(t)) && inline_ok(primitive, c, range, t),
        },
        FieldTypeSyntax::Tuple { fields, .. } => match k {
            Some(FieldKind::Tuple(out)) => {
                &&& out@.len() == fields@.len()
                &&& forall|i: int|
                    0 <= i < fields@.len() ==> {
                        &&& (#[trigger] out@[i]).name == fields@[i].name
                        &&& match (fields@[i].ty, out@[i].ty) {
                            (Some(a), Some(b)) => field_lowered(a, false, b),
                            (None, None) => true,
                            _ => false,
                        }
                    }
            },
            _ => false,
        },
        FieldTypeSyntax::Array { element, bound, .. } => match k {
            Some(FieldKind::Array { element: e, min, max }) => {
                &&& min == collection_bounds_rule(bound).0
                &&& max == collection_bounds_rule(bound).1
                &&& match (element, e) {
                    (Some(a), Some(b)) => field_lowered(*a, false, *b),
                    (None, None) => true,
                    _ => false,
                }
            },
            _ => false,
        },
        FieldTypeSyntax::Dictionary { key, value, bound, .. } => match k {
            Some(FieldKind::Dictionary { key: ko, value: vo, min, max }) => {
                &&& min == collection_bounds_rule(bound).0
                &&& max == collection_bounds_rule(bound).1
                &&& match (key, ko) {
                    (Some(a), Some(b)) => key_lowered(*a, *b),
                    (None, None) => true,
                    _ => false,
                }
                &&& match (value, vo) {
                    (Some(a), Some(b)) => field_lowered(*a, false, *b),
                    (None, None) => true,
                    _ => false,
                }
            },
            _ => false,
        },
    }
}

/// How a map key lowers: a type path to a reference to the type it names;
/// any other key as a field type in map-key position, where a bare
/// primitive draws nothing.
pub open spec fn key_lowered(k: FieldTypeSyntax, ft: FieldType) -> bool
    decreases k, 2nat,
{
    match k {
        FieldTypeSyntax::Path(p) => {
            &&& !ft.optional
            &&& ft.kind matches Some(FieldKind::Named(n)) && n@ == path_reference(p)
        },
        _ => field_lowered(k, true, ft),
    }
}

/// The error a collection without an upper bound draws at the collection.
pub open spec fn unbounded_diags(bound: Option<CollectionBound>, code: DiagCode, range: TextRange) -> Seq<SDiag> {
    if collection_bounds_rule(bound).2 {
        seq![(code, Severity::Error, DETACHED, range)]
    } else {
        Seq::empty()
    }
}

/// The diagnostics of lowering a field type, in source order: those of a
/// type path ([`path_diags`]); those of an inline scalar's constraint
/// ([`scalar_diags`]) or of a bare primitive ([`bare_primitive_rule`]);
/// those of each part of a tuple, an array or a map, then TYPL-201 (an
/// array) or TYPL-202 (a map) when the collection has no upper bound.
pub open spec fn field_diags(s: FieldTypeSyntax, map_key: bool) -> Seq<SDiag>
    decreases s, 0nat,
{
    match s {
        FieldTypeSyntax::Optional { inner, .. } => match inner {
            Some(i) => field_diags(*i, map_key),
            None => Seq::empty(),
        },
        FieldTypeSyntax::Path(p) => path_diags(p),
        FieldTypeSyntax::Primitive { range, primitive, constraint } => match constraint {
            Some(c) => scalar_diags(primitive_class(primitive), Some(c), range),
            None => match bare_primitive_rule(primitive_class(primitive), map_key) {
                Some((code, severity)) => seq![(code, severity, DETACHED, range)],
                None => Seq::empty(),
            },
        },
        FieldTypeSyntax::Tuple { fields, .. } => tuple_diags(fields@),
        FieldTypeSyntax::Array { range, element, bound } => (match element {
            Some(e) => field_diags(*e, false),
            None => Seq::empty(),
        }) + unbounded_diags(bound, DiagCode::TYPL_201, range),
        FieldTypeSyntax::Dictionary { range, key, value, bound } => (match key {
            Some(k) => key_diags(*k),
            None => Seq::empty(),
        }) + (match value {
            Some(v) => field_diags(*v, false),
            None => Seq::empty(),
        }) + unbounded_diags(bound, DiagCode::TYPL_202, range),
    }
}

/// The diagnostics of a tuple's fields, field by field.
pub open spec fn tuple_diags(fields: Seq<TupleFieldSyntax>) -> Seq<SDiag>
    decreases fields, 1nat,
{
    if fields.len() == 0 {
        Seq::empty()
    } else {
        tuple_diags(fields.drop_last()) + (match fields.last().ty {
            Some(t) => field_diags(t, false),
            None => Seq::empty(),
        })
    }
}

/// The diagnostics of a map key: those of a type path, then TYPL-209 at it
/// when it names a declaration other than a `string`-backed scalar type;
/// for a primitive, those of the primitive in map-key position; for any
/// other shape, TYPL-209 at the key, then those of lowering it.
pub open spec fn key_diags(k: FieldTypeSyntax) -> Seq<SDiag>
    decreases k, 1nat,
{
    match k {
        FieldTypeSyntax::Path(p) => path_diags(p) + (match path_target(p) {
            Some(n) => if n.kind == SymbolKind::Type && n.string_backed {
                Seq::empty()
            } else {
                seq![(DiagCode::TYPL_209, Severity::Error, DETACHED, p.range)]
            },
            None => Seq::empty(),
        }),
        FieldTypeSyntax::Primitive { .. } => field_diags(k, true),
        _ => seq![(DiagCode::TYPL_209, Severity::Error, DETACHED, range_of(k))] + field_diags(k, true),
    }
}

/// The exact bounds of an inline scalar of `primitive` under `c`: those of
/// an integer or a float range, none for any other class.
pub open spec fn inline_bounds(primitive: PrimitiveType, c: ScalarConstraint, range: TextRange) -> (
    Option<(int, int)>,
    Option<(int, int)>,
) {
    match primitive_class(primitive) {
        BackingClass::Integer => (
            integer_scalar_rule(numeric_part(Some(c)), range).0,
            integer_scalar_rule(numeric_part(Some(c)), range).1,
        ),
        BackingClass::Float => (
            float_scalar_rule(numeric_part(Some(c)), range).0,
            float_scalar_rule(numeric_part(Some(c)), range).1,
        ),
        _ => (None, None),
    }
}

pub open spec fn bounds_view(b: Option<(Option<ExactValue>, Option<ExactValue>)>) -> Option<
    (Option<(int, int)>, Option<(int, int)>),
> {
    match b {
        Some((lo, hi)) => Some((opt_pair(lo), opt_pair(hi))),
        None => None,
    }
}

/// What validates a declared init against a field type: a type path that
/// names a scalar `type` carries that type's exact bounds and string
/// constraint; an inline scalar its own exact bounds, and — a string or
/// bytes one — its constraint; an optional what its inner type carries;
/// any other type nothing.
pub open spec fn extras_lowered(
    s: FieldTypeSyntax,
    kind: Option<FieldKind>,
    bounds: Option<(Option<ExactValue>, Option<ExactValue>)>,
    init_constraint: Option<Constraint>,
) -> bool
    decreases s,
{
    let nothing = bounds is None && init_constraint is None;
    match s {
        FieldTypeSyntax::Optional { inner, .. } => match inner {
            Some(i) => extras_lowered(*i, kind, bounds, init_constraint),
            None => nothing,
        },
        FieldTypeSyntax::Path(p) => match path_target(p) {
            Some(n) => if n.kind == SymbolKind::Type {
                bounds_view(bounds) == bounds_view(n.bounds) && init_constraint == n.string_constraint
            } else {
                nothing
            },
            None => nothing,
        },
        FieldTypeSyntax::Primitive { range, primitive, constraint } => match constraint {
            Some(c) => {
                &&& bounds_view(bounds) == Some(inline_bounds(primitive, c, range))
                &&& if primitive_class(primitive) == BackingClass::Str || primitive_class(primitive)
                    == BackingClass::Bytes {
                    kind matches Some(FieldKind::InlineScalar(t)) && init_constraint == t.constraint
                } else {
                    init_constraint is None
                }
            },
            None => nothing,
        },
        _ => nothing,
    }
}

/// A lowered field type is what [`field_lowered`] and [`extras_lowered`]
/// say of the field type as written.
pub open spec fn field_type_lowered(s: FieldTypeSyntax, map_key: bool, r: LoweredFieldType) -> bool {
    &&& field_lowered(s, map_key, r.ty)
    &&& extras_lowered(s, r.ty.kind, r.scalar_bounds, r.init_constraint)
}

fn append_diags(out: &mut Vec<Diagnostic>, more: Vec<Diagnostic>)
    ensures
        diags_view(final(out)@) == diags_view(old(out)@) + diags_view(more@),
{
    let mut more = more;
    let ghost a = old(out)@;
    let ghost b = more@;
    out.append(&mut more);
    assert(diags_view(out@) =~= diags_view(a) + diags_view(b));
}

fn push_diag(out: &mut Vec<Diagnostic>, d: Option<Diagnostic>)
    ensures
        diags_view(final(out)@) == diags_view(old(out)@) + (match d {
            Some(x) => seq![diag_view(x)],
            None => Seq::<SDiag>::empty(),
        }),
{
    let ghost before = diags_view(out@);
    match d {
        Some(x) => {
            let ghost v = diag_view(x);
            out.push(x);
            assert(diags_view(out@) =~= before + seq![v]);
        },
        None => {
            assert(diags_view(out@) =~= before + Seq::<SDiag>::empty());
        },
    }
}

fn copy_text(t: &Option<String>) -> (r: Option<String>)
    ensures
        r == *t,
{
    match t {
        Some(x) => Some(x.clone()),
        None => None,
    }
}

fn copy_constraint(c: &Option<Constraint>) -> (r: Option<Constraint>)
    ensures
        r == *c,
{
    match c {
        Some(k) => Some(
            Constraint {
                min: copy_text(&k.min),
                max: copy_text(&k.max),
                step: copy_text(&k.step),
                len_min: k.len_min,
                len_max: k.len_max,
                pattern: copy_text(&k.pattern),
                pattern_const: copy_text(&k.pattern_const),
            },
        ),
        None => None,
    }
}

fn plain(ty: FieldType) -> (r: LoweredFieldType)
    ensures
        r.ty == ty,
        r.scalar_bounds is None,
        r.init_constraint is None,
{
    LoweredFieldType { ty, scalar_bounds: None, init_constraint: None }
}

/// Lowers a field type ([`field_type_lowered`]), `map_key` when it stands
/// as a map's key, with its diagnostics ([`field_diags`]).
pub fn lower_field_type(s: FieldTypeSyntax, map_key: bool) -> (r: (LoweredFieldType, Vec<Diagnostic>))
    requires
        syntax_wf(s),
    ensures
        field_type_lowered(s, map_key, r.0),
        diags_view(r.1@) == field_diags(s, map_key),
        bounds_wf(r.0.scalar_bounds),
    decreases s, 0nat,
{
    let ghost g = s;
    match s {
        FieldTypeSyntax::Optional { range, inner } => match inner {
            Some(b) => {
                let (lowered, ds) = lower_field_type(*b, map_key);
                let LoweredFieldType { ty, scalar_bounds, init_constraint } = lowered;
                let FieldType { optional, kind } = ty;
                (LoweredFieldType { ty: FieldType { optional: true, kind }, scalar_bounds, init_constraint }, ds)
            },
            None => {
                let ds: Vec<Diagnostic> = Vec::new();
                assert(diags_view(ds@) =~= Seq::empty());
                (plain(FieldType { optional: true, kind: None }), ds)
            },
        },
        FieldTypeSyntax::Path(p) => {
            let (target, d) = resolve_type_path(p);
            let mut ds: Vec<Diagnostic> = Vec::new();
            push_diag(&mut ds, d);
            assert(diags_view(ds@) =~= path_diags(g->Path_0));
            match target {
                Ok(n) => {
                    let NamedType { canonical, name, kind, string_backed, bounds, string_constraint } = n;
                    let ty = FieldType { optional: false, kind: Some(FieldKind::Named(canonical)) };
                    if kind == SymbolKind::Type {
                        (LoweredFieldType { ty, scalar_bounds: bounds, init_constraint: string_constraint }, ds)
                    } else {
                        (plain(ty), ds)
                    }
                },
                Err(written) => (plain(FieldType { optional: false, kind: Some(FieldKind::Named(written)) }), ds),
            }
        },
        FieldTypeSyntax::Primitive { range, primitive, constraint } => {
            let class = class_of_primitive(primitive);
            match constraint {
                Some(c) => {
                    let ghost gc = c;
                    let (ns, ds) = lower_scalar(class, &Some(c), range);
                    let ghost gns = ns;
                    assert(scalar_lowered(primitive_class(primitive), Some(gc), range, gns));
                    let NumericScalar { parts, .. } = ns;
                    let ScalarParts { constraint: lowered, min, max } = parts;
                    let init_constraint = if class == BackingClass::Str || class == BackingClass::Bytes {
                        copy_constraint(&lowered)
                    } else {
                        None
                    };
                    let t = TypeDef { backing: Some(Backing::Primitive(primitive)), constraint: lowered };
                    assert(inline_ok(primitive, gc, range, t));
                    let ty = FieldType { optional: false, kind: Some(FieldKind::InlineScalar(t)) };
                    (LoweredFieldType { ty, scalar_bounds: Some((min, max)), init_constraint }, ds)
                },
                None => {
                    let d = check_bare_primitive(class, range, map_key);
                    let mut ds: Vec<Diagnostic> = Vec::new();
                    push_diag(&mut ds, d);
                    (plain(FieldType { optional: false, kind: Some(FieldKind::Primitive(primitive)) }), ds)
                },
            }
        },
        FieldTypeSyntax::Tuple { range, fields } => {
            let (out, ds) = lower_tuple_fields(fields);
            (plain(FieldType { optional: false, kind: Some(FieldKind::Tuple(out)) }), ds)
        },
        FieldTypeSyntax::Array { range, element, bound } => {
            let mut ds: Vec<Diagnostic> = Vec::new();
            let e = match element {
                Some(b) => {
                    let (lowered, more) = lower_field_type(*b, false);
                    append_diags(&mut ds, more);
                    Some(Box::new(lowered.ty))
                },
                None => None,
            };
            assert(diags_view(ds@) =~= match g->Array_element {
                Some(x) => field_diags(*x, false),
                None => Seq::empty(),
            });
            let (min, max, d) = collection_bounds(&bound, range, DiagCode::TYPL_201, "array");
            push_diag(&mut ds, d);
            (plain(FieldType { optional: false, kind: Some(FieldKind::Array { element: e, min, max }) }), ds)
        },
        FieldTypeSyntax::Dictionary { range, key, value, bound } => {
            let mut ds: Vec<Diagnostic> = Vec::new();
            let k = match key {
                Some(b) => {
                    let (lowered, more) = lower_map_key(*b);
                    append_diags(&mut ds, more);
                    Some(Box::new(lowered))
                },
                None => None,
            };
            assert(diags_view(ds@) =~= match g->Dictionary_key {
                Some(x) => key_diags(*x),
                None => Seq::empty(),
            });
            let ghost after_key = diags_view(ds@);
            let v = match value {
                Some(b) => {
                    let (lowered, more) = lower_field_type(*b, false);
                    append_diags(&mut ds, more);
                    Some(Box::new(lowered.ty))
                },
                None => None,
            };
            assert(diags_view(ds@) =~= after_key + (match g->Dictionary_value {
                Some(x) => field_diags(*x, false),
                None => Seq::empty(),
            }));
            let (min, max, d) = collection_bounds(&bound, range, DiagCode::TYPL_202, "map");
            push_diag(&mut ds, d);
            (
                plain(FieldType { optional: false, kind: Some(FieldKind::Dictionary { key: k, value: v, min, max }) }),
                ds,
            )
        },
    }
}

/// Lowers a tuple's fields, in order ([`kind_lowered`]), with their
/// diagnostics ([`tuple_diags`]).
fn lower_tuple_fields(fields: Vec<TupleFieldSyntax>) -> (r: (Vec<TupleField>, Vec<Diagnostic>))
    requires
        forall|i: int|
            0 <= i < fields@.len() ==> match #[trigger] fields@[i].ty {
                Some(t) => syntax_wf(t),
                None => true,
            },
    ensures
        r.0@.len() == fields@.len(),
        forall|i: int|
            0 <= i < fields@.len() ==> {
                &&& (#[trigger] r.0@[i]).name == fields@[i].name
                &&& match (fields@[i].ty, r.0@[i].ty) {
                    (Some(a), Some(b)) => field_lowered(a, false, b),
                    (None, None) => true,
                    _ => false,
                }
            },
        diags_view(r.1@) == tuple_diags(fields@),
    decreases fields@, 1nat,
{
    let ghost all = fields@;
    let n = fields.len();
    let mut rest = fields;
    let mut out: Vec<TupleField> = Vec::new();
    let mut ds: Vec<Diagnostic> = Vec::new();
    let mut i: usize = 0;
    assert(all.take(0) =~= Seq::<TupleFieldSyntax>::empty());
    assert(diags_view(ds@) =~= Seq::empty());
    while rest.len() > 0
        invariant
            i <= all.len(),
            all.len() == n,
            rest@ == all.skip(i as int),
            all == fields@,
            out@.len() == i,
            forall|j: int|
                0 <= j < all.len() ==> match #[trigger] all[j].ty {
                    Some(t) => syntax_wf(t),
                    None => true,
                },
            forall|j: int|
                0 <= j < i ==> {
                    &&& (#[trigger] out@[j]).name == all[j].name
                    &&& match (all[j].ty, out@[j].ty) {
                        (Some(a), Some(b)) => field_lowered(a, false, b),
                        (None, None) => true,
                        _ => false,
                    }
                },
            diags_view(ds@) == tuple_diags(all.take(i as int)),
        decreases rest.len(),
    {
        assert(rest@[0] == all[i as int]);
        let f = rest.remove(0);
        assert(rest@ =~= all.skip(i + 1));
        let ghost gf = f;
        let TupleFieldSyntax { name, ty } = f;
        let ghost before = diags_view(ds@);
        let lowered = match ty {
            Some(t) => {
                assert(all[i as int].ty == Some(t));
                let (l, more) = lower_field_type(t, false);
                append_diags(&mut ds, more);
                Some(l.ty)
            },
            None => None,
        };
        let ghost prefix = all.take(i + 1);
        assert(prefix.drop_last() =~= all.take(i as int));
        assert(prefix.last() == all[i as int]);
        assert(diags_view(ds@) == tuple_diags(prefix));
        out.push(TupleField { name, ty: lowered });
        i = i + 1;
    }
    assert(all.take(i as int) =~= all);
    (out, ds)
}

/// Lowers a map's key ([`key_lowered`]), with its diagnostics
/// ([`key_diags`]).
pub fn lower_map_key(k: FieldTypeSyntax) -> (r: (FieldType, Vec<Diagnostic>))
    requires
        syntax_wf(k),
    ensures
        key_lowered(k, r.0),
        diags_view(r.1@) == key_diags(k),
    decreases k, 1nat,
{
    let ghost g = k;
    if let FieldTypeSyntax::Path(p) = k {
        let range = p.range;
        let (target, d) = resolve_type_path(p);
        let mut ds: Vec<Diagnostic> = Vec::new();
        push_diag(&mut ds, d);
        match target {
            Ok(n) => {
                let key = MapKey::Named { range, resolved: Some((n.name.clone(), n.kind, n.string_backed)) };
                push_diag(&mut ds, check_map_key(&key));
                (FieldType { optional: false, kind: Some(FieldKind::Named(n.canonical)) }, ds)
            },
            Err(written) => (FieldType { optional: false, kind: Some(FieldKind::Named(written)) }, ds),
        }
    } else if let FieldTypeSyntax::Primitive { .. } = k {
        let (lowered, ds) = lower_field_type(k, true);
        (lowered.ty, ds)
    } else {
        let range = syntax_range(&k);
        let mut ds: Vec<Diagnostic> = Vec::new();
        push_diag(&mut ds, check_map_key(&MapKey::Other(range)));
        let (lowered, more) = lower_field_type(k, true);
        append_diags(&mut ds, more);
        (lowered.ty, ds)
    }
}

fn syntax_range(s: &FieldTypeSyntax) -> (r: TextRange)
    ensures
        r == range_of(*s),
{
    match s {
        FieldTypeSyntax::Optional { range, .. } => *range,
        FieldTypeSyntax::Path(p) => p.range,
        FieldTypeSyntax::Primitive { range, .. } => *range,
        FieldTypeSyntax::Tuple { range, .. } => *range,
        FieldTypeSyntax::Array { range, .. } => *range,
        FieldTypeSyntax::Dictionary { range, .. } => *range,
    }
}

fn bound_number(b: &Option<BoundLiteral>) -> (r: Option<ExactValue>)
    requires
        crate::decls::bound_wf(*b),
    ensures
        opt_pair(r) == opt_bound_rule(*b).0,
        r matches Some(v) ==> v.wf(),
{
    match b {
        Some(l) => match &l.kind {
            LitKind::Number(v) => Some(v.copy()),
            LitKind::ConstRef(_) => match &l.constant {
                Some(ConstValue::Number(v)) => Some(v.copy()),
                _ => None,
            },
            _ => None,
        },
        None => None,
    }
}

/// The exact bounds of a named scalar type, read without diagnostics to
/// validate an init against it: the value of each written bound — a
/// number, or the value of the numeric constant it names ([`opt_bound_rule`]);
/// none for a type without a constraint.
pub fn named_scalar_bounds(constraint: &Option<ScalarConstraint>) -> (r: Option<
    (Option<ExactValue>, Option<ExactValue>),
>)
    requires
        scalar_constraint_wf(*constraint),
    ensures
        match *constraint {
            Some(c) => bounds_view(r) == Some((opt_bound_rule(c.numeric.min).0, opt_bound_rule(c.numeric.max).0)),
            None => r is None,
        },
        bounds_wf(r),
{
    match constraint {
        Some(c) => Some((bound_number(&c.numeric.min), bound_number(&c.numeric.max))),
        None => None,
    }
}

/// The length bound and `match` pattern of a named `string` or `bytes`
/// type, read without diagnostics to validate an init against it: the
/// effective length bounds ([`len_rule`]) and the pattern
/// ([`pattern_rule`]); none for a type of any other class.
pub fn named_string_constraint(class: BackingClass, len: Option<LenBound>, pattern: &Option<PatternLiteral>) -> (r:
    Option<Constraint>)
    ensures
        match class {
            BackingClass::Str | BackingClass::Bytes => {
                &&& r matches Some(k)
                &&& r->0.len_min == Some(len_rule(len).0)
                &&& r->0.len_max == Some(len_rule(len).1)
                &&& r->0.min is None && r->0.max is None && r->0.step is None
                &&& opt_text(r->0.pattern) == pattern_rule(*pattern).0
                &&& opt_text(r->0.pattern_const) == pattern_rule(*pattern).1
            },
            _ => r is None,
        },
{
    if !(class == BackingClass::Str || class == BackingClass::Bytes) {
        return None;
    }
    let (len_min, len_max): (u64, u64) = match len {
        Some(b) => if b.range {
            (
                match b.min {
                    Some(m) => m,
                    None => 0,
                },
                match b.max {
                    Some(m) => m,
                    None => 256,
                },
            )
        } else {
            let n: u64 = match b.min {
                Some(m) => m,
                None => 0,
            };
            (n, n)
        },
        None => (0, 256),
    };
    let (found, pattern_const) = match pattern {
        Some(literal) => match &literal.kind {
            LitKind::Regex(text) => (Some(text.clone()), None),
            LitKind::ConstRef(name) => match &literal.regex_const {
                Some((text, canonical)) => (Some(text.clone()), Some(canonical.clone())),
                None => (None, Some(name.clone())),
            },
            _ => (None, None),
        },
        None => (None, None),
    };
    Some(
        Constraint {
            min: None,
            max: None,
            step: None,
            len_min: Some(len_min),
            len_max: Some(len_max),
            pattern: found,
            pattern_const,
        },
    )
}

// ==========================================================================
// Struct fields
// ==========================================================================

/// A lowered struct field: its name and ordinal, its type, its declared
/// init text, and its init — the declared one, or the one its type
/// derives.
#[derive(Debug, PartialEq, Eq)]
pub struct LoweredField {
    pub name: String,
    pub ordinal: u32,
    pub ty: Option<FieldType>,
    pub declared_init: Option<String>,
    pub init: Option<InitValue>,
}

/// What validates a declared init against a lowered field type: its exact
/// bounds and its string constraint.
pub open spec fn parts_of(l: LoweredFieldType) -> ScalarParts {
    match l.scalar_bounds {
        Some((min, max)) => ScalarParts { constraint: l.init_constraint, min, max },
        None => ScalarParts { constraint: l.init_constraint, min: None, max: None },
    }
}

/// Nothing to validate a declared init against.
pub open spec fn no_parts() -> ScalarParts {
    ScalarParts { constraint: None, min: None, max: None }
}

/// A field's init, given what validates it: a declared init lowers to its
/// text checked against `parts` (TYPL-109), and is the init; without one, a
/// field with a type takes the init its type derives ([`field_rule`]), and
/// a field without a type has none. The diagnostics are `head`, then those
/// of the check.
pub open spec fn field_init_ok(
    init: Option<(InitLiteral, TextRange)>,
    parts: ScalarParts,
    named: Seq<(String, InitValue)>,
    f: LoweredField,
    diags: Seq<SDiag>,
    head: Seq<SDiag>,
) -> bool {
    match init {
        Some((literal, range)) => {
            let d = declared_init_rule(literal, parts, range, DiagCode::TYPL_109);
            &&& f.declared_init matches Some(t) && t@ == d.0
            &&& f.init matches Some(i) && init_view(i) == scalar_init(d.0)
            &&& diags == head + d.1
        },
        None => {
            &&& f.declared_init is None
            &&& diags == head
            &&& match f.ty {
                Some(t) => f.init matches Some(i) && init_view(i) == field_rule(t, named_view(named)),
                None => f.init is None,
            }
        },
    }
}

fn field_init(
    ty: &Option<FieldType>,
    parts: &ScalarParts,
    init: Option<(InitLiteral, TextRange)>,
    named: &[(String, InitValue)],
) -> (r: (Option<String>, Option<InitValue>, Vec<Diagnostic>))
    requires
        parts.wf(),
        init matches Some((l, _)) ==> literal_wf(l),
    ensures
        match init {
            Some((literal, range)) => {
                let d = declared_init_rule(literal, *parts, range, DiagCode::TYPL_109);
                &&& r.0 matches Some(t) && t@ == d.0
                &&& r.1 matches Some(i) && init_view(i) == scalar_init(d.0)
                &&& diags_view(r.2@) == d.1
            },
            None => {
                &&& r.0 is None
                &&& diags_view(r.2@) == Seq::<SDiag>::empty()
                &&& match *ty {
                    Some(t) => r.1 matches Some(i) && init_view(i) == field_rule(t, named_view(named@)),
                    None => r.1 is None,
                }
            },
        },
{
    match init {
        Some((literal, range)) => {
            let (text, ds) = lower_declared_init(&literal, parts, range, DiagCode::TYPL_109);
            let value = InitValue { derivable: true, value: Some(text.clone()) };
            (Some(text), Some(value), ds)
        },
        None => {
            let ds: Vec<Diagnostic> = Vec::new();
            assert(diags_view(ds@) =~= Seq::empty());
            let derived = match ty {
                Some(t) => Some(derive_field_init(t, named)),
                None => None,
            };
            (None, derived, ds)
        },
    }
}

/// Lowers a struct field named `name` at `ordinal`: its type
/// ([`lower_field_type`], outside map-key position), and its init
/// ([`field_init_ok`]) — a declared init is checked against the bounds and
/// string constraint its type carries, and `named` gives the init of each
/// named type a derived init may reference.
pub fn lower_field(
    name: String,
    ordinal: u32,
    field_type: Option<FieldTypeSyntax>,
    init: Option<(InitLiteral, TextRange)>,
    named: &[(String, InitValue)],
) -> (r: (LoweredField, Vec<Diagnostic>))
    requires
        field_type matches Some(s) ==> syntax_wf(s),
        init matches Some((l, _)) ==> literal_wf(l),
    ensures
        r.0.name == name,
        r.0.ordinal == ordinal,
        match field_type {
            Some(s) => exists|l: LoweredFieldType|
                {
                    &&& #[trigger] field_type_lowered(s, false, l)
                    &&& r.0.ty == Some(l.ty)
                    &&& field_init_ok(init, parts_of(l), named@, r.0, diags_view(r.1@), field_diags(s, false))
                },
            None => {
                &&& r.0.ty is None
                &&& field_init_ok(init, no_parts(), named@, r.0, diags_view(r.1@), Seq::empty())
            },
        },
{
    let ghost given = field_type;
    match field_type {
        Some(s) => {
            let (lowered, mut ds) = lower_field_type(s, false);
            let ghost gl = lowered;
            let LoweredFieldType { ty, scalar_bounds, init_constraint } = lowered;
            let (min, max) = match scalar_bounds {
                Some((lo, hi)) => (lo, hi),
                None => (None, None),
            };
            let parts = ScalarParts { constraint: init_constraint, min, max };
            assert(parts == parts_of(gl));
            let ty = Some(ty);
            let (declared_init, init, more) = field_init(&ty, &parts, init, named);
            let ghost head = diags_view(ds@);
            append_diags(&mut ds, more);
            let f = LoweredField { name, ordinal, ty, declared_init, init };
            assert(field_type_lowered(given->Some_0, false, gl));
            (f, ds)
        },
        None => {
            let parts = ScalarParts { constraint: None, min: None, max: None };
            let (declared_init, init, ds) = field_init(&None, &parts, init, named);
            assert(diags_view(ds@) =~= Seq::empty() + diags_view(ds@));
            (LoweredField { name, ordinal, ty: None, declared_init, init }, ds)
        },
    }
}

} // verus!
