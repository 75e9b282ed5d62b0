//! Init-value derivation. Every lowered type definition and field carries an
//! init value — either the declared `= value` or the value derived here.
//!
//! An [`InitValue`] has three states:
//!
//! - derivable with a value — a scalar init: the canonical text of a boolean,
//!   numeric, string/bytes, enum, or enumset default;
//! - derivable without a value — a composite init (struct, tuple, collection,
//!   union) or an absent optional, which a consumer derives from the member
//!   inits;
//! - not derivable — a string/bytes type whose bounds forbid length zero, or
//!   a type carrying a `match` pattern.
//!
//! Derived numeric values are rendered through the exact decimal form
//! ([`ExactValue::to_decimal_string`]), so a value is always a terminating
//! canonical decimal and never a raw fraction.

use vstd::prelude::*;

use crate::check::{bool_text, literal_wf, BackingClass, ConstValue, InitLiteral};
use crate::decls::{opt_lit_wf, LitKind};
use crate::exact::{decimal_literal_value, decimal_text, rat_lt, ExactValue};
use crate::expr::first_binding;
use crate::positional::{lemma_literal_positional, lemma_zero_positional, positional};

verus! {

/// The primitive a scalar is backed by.
#[derive(Debug, Clone, Copy, PartialEq, Eq, Structural)]
pub enum PrimitiveType {
    Unspecified,
    Boolean,
    Integer,
    Float,
    String,
    Bytes,
}

/// An init value: whether it can be derived, and the text of a scalar one.
#[derive(Debug, PartialEq, Eq)]
pub struct InitValue {
    pub derivable: bool,
    pub value: Option<String>,
}

/// The resolved constraint of a scalar type: exact decimal bounds and step,
/// length bounds, and a `match` pattern (written inline, or named by a
/// constant).
#[derive(Debug, PartialEq, Eq)]
pub struct Constraint {
    pub min: Option<String>,
    pub max: Option<String>,
    pub step: Option<String>,
    pub len_min: Option<u64>,
    pub len_max: Option<u64>,
    pub pattern: Option<String>,
    pub pattern_const: Option<String>,
}

/// What a scalar type is backed by: a primitive, or a unit (whose underlying
/// primitive is `float`).
#[derive(Debug, PartialEq, Eq)]
pub enum Backing {
    Primitive(PrimitiveType),
    Unit(String),
}

/// A scalar type definition, as far as its init derives from it.
#[derive(Debug, PartialEq, Eq)]
pub struct TypeDef {
    pub backing: Option<Backing>,
    pub constraint: Option<Constraint>,
}

/// One named field of a tuple type.
#[derive(Debug, PartialEq, Eq)]
pub struct TupleField {
    pub name: String,
    pub ty: Option<FieldType>,
}

/// The shape of a field type.
#[derive(Debug, PartialEq, Eq)]
pub enum FieldKind {
    Primitive(PrimitiveType),
    InlineScalar(TypeDef),
    /// A reference to a named type, by its canonical name.
    Named(String),
    Tuple(Vec<TupleField>),
    /// An array of `min` to `max` elements (`max` 0 when it has no upper
    /// bound).
    Array { element: Option<Box<FieldType>>, min: u64, max: u64 },
    /// A map of `min` to `max` entries, with its key and value types.
    Dictionary { key: Option<Box<FieldType>>, value: Option<Box<FieldType>>, min: u64, max: u64 },
    /// A stream of elements.
    Stream(Option<StreamElement>),
}

/// The element of a stream: a named type, by its canonical name, or the raw
/// `string` or `bytes` primitive.
#[derive(Debug, PartialEq, Eq)]
pub enum StreamElement {
    Named(String),
    Primitive(PrimitiveType),
}

/// A field's type, and whether the field is optional.
#[derive(Debug, PartialEq, Eq)]
pub struct FieldType {
    pub optional: bool,
    pub kind: Option<FieldKind>,
}

// ==========================================================================
// The model
// ==========================================================================

/// An init value by its parts.
pub type SInit = (bool, Option<Seq<char>>);

pub open spec fn init_view(i: InitValue) -> SInit {
    (
        i.derivable,
        match i.value {
            Some(v) => Some(v@),
            None => None,
        },
    )
}

pub open spec fn scalar_init(value: Seq<char>) -> SInit {
    (true, Some(value))
}

pub open spec fn composite_init() -> SInit {
    (true, None)
}

pub open spec fn underivable_init() -> SInit {
    (false, None)
}

/// The derived numeric value: zero when it lies in `[min, max]`, otherwise
/// the minimum, or the maximum when there is no minimum.
pub open spec fn zero_or_min(min: Option<(int, int)>, max: Option<(int, int)>) -> (int, int) {
    let zero = (0int, 1int);
    let above_min = match min {
        Some(m) => !rat_lt(zero, m),
        None => true,
    };
    let below_max = match max {
        Some(m) => !rat_lt(m, zero),
        None => true,
    };
    if above_min && below_max {
        zero
    } else {
        match min {
            Some(m) => m,
            None => match max {
                Some(m) => m,
                None => zero,
            },
        }
    }
}

/// The exact value a bound's text spells, if it spells one.
pub open spec fn bound_value(text: Option<String>) -> Option<(int, int)> {
    match text {
        Some(t) => decimal_literal_value(t@),
        None => None,
    }
}

pub open spec fn numeric_rule(c: Option<Constraint>) -> SInit {
    let (min, max) = match c {
        Some(c) => (bound_value(c.min), bound_value(c.max)),
        None => (None, None),
    };
    let v = zero_or_min(min, max);
    scalar_init(decimal_text(v.0, v.1))
}

/// The string/bytes init: the empty value when the bounds admit length zero
/// and no `match` pattern is present, otherwise not derivable.
pub open spec fn string_rule(c: Option<Constraint>) -> SInit {
    match c {
        Some(c) => if c.pattern is Some || c.pattern_const is Some {
            underivable_init()
        } else if c.len_min matches Some(m) && m != 0 {
            underivable_init()
        } else {
            scalar_init(""@)
        },
        None => scalar_init(""@),
    }
}

pub open spec fn primitive_rule(p: PrimitiveType) -> SInit {
    match p {
        PrimitiveType::Boolean => scalar_init("false"@),
        PrimitiveType::Integer | PrimitiveType::Float => scalar_init("0"@),
        PrimitiveType::String | PrimitiveType::Bytes => scalar_init(""@),
        PrimitiveType::Unspecified => composite_init(),
    }
}

pub open spec fn type_rule(t: TypeDef) -> SInit {
    match t.backing {
        Some(Backing::Unit(_)) => numeric_rule(t.constraint),
        Some(Backing::Primitive(p)) => match p {
            PrimitiveType::Boolean => scalar_init("false"@),
            PrimitiveType::Integer | PrimitiveType::Float => numeric_rule(t.constraint),
            PrimitiveType::String | PrimitiveType::Bytes => string_rule(t.constraint),
            PrimitiveType::Unspecified => composite_init(),
        },
        None => composite_init(),
    }
}

/// The init of a struct field of type `ft`: an optional field is absent; a
/// named reference takes the init `named` gives it, or is a derivable
/// composite when `named` does not list it; a tuple is derivable when every
/// field is; a collection when its minimum count is zero or its element is.
pub open spec fn field_rule(ft: FieldType, named: Seq<(Seq<char>, SInit)>) -> SInit
    decreases ft, 0nat,
{
    if ft.optional {
        composite_init()
    } else {
        match ft.kind {
            None => composite_init(),
            Some(FieldKind::Primitive(p)) => primitive_rule(p),
            Some(FieldKind::InlineScalar(t)) => type_rule(t),
            Some(FieldKind::Named(n)) => match first_binding(named, n@) {
                Some(i) => i,
                None => composite_init(),
            },
            Some(FieldKind::Tuple(fields)) => (fields_derivable(fields@, named), None),
            Some(FieldKind::Array { element, min, .. }) => (
                min == 0 || match element {
                    Some(e) => field_rule(*e, named).0,
                    None => true,
                },
                None,
            ),
            Some(FieldKind::Dictionary { value, min, .. }) => (
                min == 0 || match value {
                    Some(e) => field_rule(*e, named).0,
                    None => true,
                },
                None,
            ),
            Some(FieldKind::Stream(_)) => underivable_init(),
        }
    }
}

/// Whether every field of a tuple derives.
pub open spec fn fields_derivable(fields: Seq<TupleField>, named: Seq<(Seq<char>, SInit)>) -> bool
    decreases fields, 1nat,
{
    if fields.len() == 0 {
        true
    } else {
        (match fields[0].ty {
            Some(t) => field_rule(t, named).0,
            None => true,
        }) && fields_derivable(fields.drop_first(), named)
    }
}

/// Range membership over exact pairs: `min <= value <= max`, an absent
/// bound being open.
pub open spec fn within_bounds(v: (int, int), min: Option<(int, int)>, max: Option<(int, int)>) -> bool {
    &&& min matches Some(m) ==> !rat_lt(v, m)
    &&& max matches Some(m) ==> !rat_lt(m, v)
}

/// The derived numeric init lies in its type's range whenever the range is
/// not empty: zero when zero is in range, else the minimum, else (with an
/// open minimum) the maximum.
pub proof fn law_numeric_init_in_range(min: Option<(int, int)>, max: Option<(int, int)>)
    requires
        (min, max) matches (Some(lo), Some(hi)) ==> !rat_lt(hi, lo),
    ensures
        within_bounds(zero_or_min(min, max), min, max),
{
}

/// A derived numeric init is written as a terminating decimal: the chosen
/// value — zero, or a bound of the range, which a decimal literal spells —
/// is rendered in positional notation, never as a fraction.
pub proof fn law_derived_numeric_init_is_positional(c: Constraint)
    requires
        c.min matches Some(t) ==> t@.len() < 0x3fff_ffff,
        c.max matches Some(t) ==> t@.len() < 0x3fff_ffff,
    ensures
        ({
            let v = zero_or_min(bound_value(c.min), bound_value(c.max));
            &&& numeric_rule(Some(c)) == scalar_init(decimal_text(v.0, v.1))
            &&& positional(v.0, v.1)
        }),
{
    let min = bound_value(c.min);
    let max = bound_value(c.max);
    let v = zero_or_min(min, max);
    lemma_zero_positional();
    if let Some(t) = c.min {
        if min is Some {
            lemma_literal_positional(t@);
        }
    }
    if let Some(t) = c.max {
        if max is Some {
            lemma_literal_positional(t@);
        }
    }
}

// ==========================================================================
// Derivation
// ==========================================================================

fn scalar(value: &str) -> (r: InitValue)
    ensures
        init_view(r) == scalar_init(value@),
{
    InitValue { derivable: true, value: Some(String::from_str(value)) }
}

fn composite() -> (r: InitValue)
    ensures
        init_view(r) == composite_init(),
{
    InitValue { derivable: true, value: None }
}

fn not_derivable() -> (r: InitValue)
    ensures
        init_view(r) == underivable_init(),
{
    InitValue { derivable: false, value: None }
}

/// The numeric derived init from exact bounds ([`zero_or_min`]): zero when it
/// lies in `[min, max]`, otherwise the minimum (or, with an open minimum, the
/// maximum), rendered as its exact decimal text.
pub fn numeric_zero_or_min(min: Option<ExactValue>, max: Option<ExactValue>) -> (r: InitValue)
    requires
        min matches Some(m) ==> m.wf(),
        max matches Some(m) ==> m.wf(),
    ensures
        init_view(r) == scalar_init(
            decimal_text(
                zero_or_min(
                    match min {
                        Some(m) => Some(m.pair()),
                        None => None,
                    },
                    match max {
                        Some(m) => Some(m.pair()),
                        None => None,
                    },
                ).0,
                zero_or_min(
                    match min {
                        Some(m) => Some(m.pair()),
                        None => None,
                    },
                    match max {
                        Some(m) => Some(m.pair()),
                        None => None,
                    },
                ).1,
            ),
        ),
{
    let zero = ExactValue::zero();
    let above_min = match &min {
        Some(bound) => !zero.lt(bound),
        None => true,
    };
    let below_max = match &max {
        Some(bound) => !bound.lt(&zero),
        None => true,
    };
    let value = if above_min && below_max {
        zero
    } else {
        match min {
            Some(m) => m,
            None => match max {
                Some(m) => m,
                None => zero,
            },
        }
    };
    InitValue { derivable: true, value: Some(value.to_decimal_string()) }
}

fn parse_bound(text: &Option<String>) -> (r: Option<ExactValue>)
    ensures
        match r {
            Some(v) => v.wf() && bound_value(*text) == Some(v.pair()),
            None => bound_value(*text) is None,
        },
{
    match text {
        Some(t) => ExactValue::parse(t.as_str()),
        None => None,
    }
}

fn numeric_init(constraint: Option<&Constraint>) -> (r: InitValue)
    ensures
        init_view(r) == numeric_rule(
            match constraint {
                Some(c) => Some(*c),
                None => None,
            },
        ),
{
    let (min, max) = match constraint {
        Some(c) => (parse_bound(&c.min), parse_bound(&c.max)),
        None => (None, None),
    };
    numeric_zero_or_min(min, max)
}

/// The string/bytes derived init ([`string_rule`]).
pub fn string_init(constraint: Option<&Constraint>) -> (r: InitValue)
    ensures
        init_view(r) == string_rule(
            match constraint {
                Some(c) => Some(*c),
                None => None,
            },
        ),
{
    let c = match constraint {
        Some(c) => c,
        None => {
            return scalar("");
        },
    };
    if c.pattern.is_some() || c.pattern_const.is_some() {
        return not_derivable();
    }
    let len_min = match c.len_min {
        Some(m) => m,
        None => 0,
    };
    if len_min == 0 {
        scalar("")
    } else {
        not_derivable()
    }
}

/// The init of a bare primitive field type ([`primitive_rule`]).
pub fn derive_primitive_init(primitive: PrimitiveType) -> (r: InitValue)
    ensures
        init_view(r) == primitive_rule(primitive),
{
    match primitive {
        PrimitiveType::Boolean => scalar("false"),
        PrimitiveType::Integer | PrimitiveType::Float => scalar("0"),
        PrimitiveType::String | PrimitiveType::Bytes => scalar(""),
        PrimitiveType::Unspecified => composite(),
    }
}

/// The init of a scalar type definition, from its backing and constraint
/// ([`type_rule`]).
pub fn derive_type_init(type_def: &TypeDef) -> (r: InitValue)
    ensures
        init_view(r) == type_rule(*type_def),
{
    match &type_def.backing {
        Some(Backing::Unit(_)) => numeric_init(type_def.constraint.as_ref()),
        Some(Backing::Primitive(p)) => match p {
            PrimitiveType::Boolean => scalar("false"),
            PrimitiveType::Integer | PrimitiveType::Float => numeric_init(
                type_def.constraint.as_ref(),
            ),
            PrimitiveType::String | PrimitiveType::Bytes => string_init(
                type_def.constraint.as_ref(),
            ),
            PrimitiveType::Unspecified => composite(),
        },
        None => composite(),
    }
}

/// The inits of the named types a field can reference, by canonical name.
pub open spec fn named_view(named: Seq<(String, InitValue)>) -> Seq<(Seq<char>, SInit)> {
    named.map_values(|b: (String, InitValue)| (b.0@, init_view(b.1)))
}

fn named_init(named: &[(String, InitValue)], name: &str) -> (r: InitValue)
    ensures
        init_view(r) == match first_binding(named_view(named@), name@) {
            Some(i) => i,
            None => composite_init(),
        },
{
    let mut i: usize = 0;
    assert(named_view(named@).skip(0) =~= named_view(named@));
    while i < named.len()
        invariant
            i <= named.len(),
            first_binding(named_view(named@), name@) == first_binding(
                named_view(named@).skip(i as int),
                name@,
            ),
        decreases named.len() - i,
    {
        assert(named_view(named@).skip(i as int).drop_first() =~= named_view(named@).skip(i + 1));
        if crate::chars::str_eq(named[i].0.as_str(), name) {
            let value = match &named[i].1.value {
                Some(v) => Some(v.clone()),
                None => None,
            };
            return InitValue { derivable: named[i].1.derivable, value };
        }
        i = i + 1;
    }
    composite()
}

fn tuple_derivable(fields: &Vec<TupleField>, named: &[(String, InitValue)]) -> (r: bool)
    ensures
        r == fields_derivable(fields@, named_view(named@)),
    decreases fields@, 1nat,
{
    let mut i: usize = 0;
    assert(fields@.skip(0) =~= fields@);
    while i < fields.len()
        invariant
            i <= fields.len(),
            fields_derivable(fields@, named_view(named@)) == fields_derivable(
                fields@.skip(i as int),
                named_view(named@),
            ),
        decreases fields.len() - i,
    {
        assert(fields@.skip(i as int).drop_first() =~= fields@.skip(i + 1));
        assert(fields@.skip(i as int)[0] == fields@[i as int]);
        let ok = match &fields[i].ty {
            Some(t) => derive_field_init(t, named).derivable,
            None => true,
        };
        if !ok {
            return false;
        }
        i = i + 1;
    }
    true
}

/// The init of a struct field from its field type ([`field_rule`]); `named`
/// gives the init of each named type the field may reference.
pub fn derive_field_init(field_type: &FieldType, named: &[(String, InitValue)]) -> (r: InitValue)
    ensures
        init_view(r) == field_rule(*field_type, named_view(named@)),
    decreases *field_type, 0nat,
{
    if field_type.optional {
        return composite();
    }
    match &field_type.kind {
        None => composite(),
        Some(FieldKind::Primitive(p)) => derive_primitive_init(*p),
        Some(FieldKind::InlineScalar(t)) => derive_type_init(t),
        Some(FieldKind::Named(n)) => named_init(named, n.as_str()),
        Some(FieldKind::Tuple(fields)) => InitValue {
            derivable: tuple_derivable(fields, named),
            value: None,
        },
        Some(FieldKind::Array { element, min, .. }) => {
            let element_ok = match element {
                Some(e) => derive_field_init(e, named).derivable,
                None => true,
            };
            InitValue { derivable: *min == 0 || element_ok, value: None }
        },
        Some(FieldKind::Dictionary { value, min, .. }) => {
            let value_ok = match value {
                Some(e) => derive_field_init(e, named).derivable,
                None => true,
            };
            InitValue { derivable: *min == 0 || value_ok, value: None }
        },
        Some(FieldKind::Stream(_)) => not_derivable(),
    }
}

// ==========================================================================
// Named types
// ==========================================================================

/// A named scalar type as init derivation reads it: its backing class, its
/// own declared init (the literal as the checker reads it, a constant
/// resolved in the type's own package), its exact numeric bounds, and the
/// constraint of a string or bytes type.
#[derive(Debug, PartialEq, Eq)]
pub struct ScalarTypeDecl {
    pub class: BackingClass,
    pub declared: Option<InitLiteral>,
    pub min: Option<ExactValue>,
    pub max: Option<ExactValue>,
    pub string: Option<Constraint>,
}

pub open spec fn scalar_type_wf(t: ScalarTypeDecl) -> bool {
    &&& t.declared matches Some(l) ==> literal_wf(l)
    &&& t.min matches Some(m) ==> m.wf()
    &&& t.max matches Some(m) ==> m.wf()
}

/// The first arm of a union, as its init's derivability reads it.
#[derive(Debug, PartialEq, Eq)]
pub enum UnionFirstArm {
    /// The union has no arm.
    NoArm,
    /// The first arm names a scalar type whose definition is found.
    ScalarType(ScalarTypeDecl),
    /// Any other first arm: no type written, a primitive, or a declaration
    /// of another kind.
    Other,
}

/// A named declaration as init derivation reads it.
#[derive(Debug, PartialEq, Eq)]
pub enum NamedDecl {
    Type(ScalarTypeDecl),
    /// An enum: the literals its values are assigned, in order.
    Enum(Vec<Option<LitKind>>),
    EnumSet,
    Struct,
    Union(UnionFirstArm),
    Const,
    Interface,
    /// A declaration whose definition is not found.
    Missing,
}

pub open spec fn named_decl_wf(d: NamedDecl) -> bool {
    match d {
        NamedDecl::Type(t) => scalar_type_wf(t),
        NamedDecl::Enum(values) => forall|i: int| 0 <= i < values@.len() ==> opt_lit_wf(#[trigger] values@[i]),
        NamedDecl::Union(UnionFirstArm::ScalarType(t)) => scalar_type_wf(t),
        _ => true,
    }
}

/// The text a type's own declared init gives: a number's exact decimal, a
/// boolean's `true`/`false`, a string's text, and the same for a constant
/// of those kinds. A regex, a regex constant, or a reference that does not
/// resolve gives none, and the type's init is then derived.
pub open spec fn declared_init_text(l: InitLiteral) -> Option<Seq<char>> {
    match l {
        InitLiteral::Number(v) => Some(decimal_text(v.numer(), v.denom())),
        InitLiteral::Bool(b) => Some(bool_text(b)),
        InitLiteral::Str(t) => Some(t@),
        InitLiteral::Const(ConstValue::Number(v)) => Some(decimal_text(v.numer(), v.denom())),
        InitLiteral::Const(ConstValue::Bool(b)) => Some(bool_text(b)),
        InitLiteral::Const(ConstValue::Text(t)) => Some(t@),
        _ => None,
    }
}

/// The init of a named scalar type: its declared init when that gives a
/// value; otherwise `false` for a boolean, zero-or-minimum for a number,
/// the string rule for a string or bytes, a composite init when the
/// backing is unknown.
pub open spec fn scalar_type_init_rule(t: ScalarTypeDecl) -> SInit {
    match (match t.declared {
        Some(l) => declared_init_text(l),
        None => None,
    }) {
        Some(text) => scalar_init(text),
        None => match t.class {
            BackingClass::Boolean => scalar_init("false"@),
            BackingClass::Integer | BackingClass::Float => {
                let v = zero_or_min(
                    match t.min {
                        Some(m) => Some(m.pair()),
                        None => None,
                    },
                    match t.max {
                        Some(m) => Some(m.pair()),
                        None => None,
                    },
                );
                scalar_init(decimal_text(v.0, v.1))
            },
            BackingClass::Str | BackingClass::Bytes => string_rule(t.string),
            BackingClass::Unknown => composite_init(),
        },
    }
}

/// Whether a named scalar type's init is derivable: always with a declared
/// init, and for a boolean, numeric or unknown backing; a string or bytes
/// type when its constraint is known, admits length zero and carries no
/// `match` pattern.
pub open spec fn scalar_type_derivable(t: ScalarTypeDecl) -> bool {
    if t.declared is Some {
        true
    } else {
        match t.class {
            BackingClass::Str | BackingClass::Bytes => t.string matches Some(c) && c.pattern is None
                && c.pattern_const is None && (c.len_min is None || c.len_min == Some(0u64)),
            _ => true,
        }
    }
}

/// Whether a union's init (its first arm's) is derivable: not without an
/// arm; by its derivability for a scalar type; otherwise yes.
pub open spec fn union_derivable(a: UnionFirstArm) -> bool {
    match a {
        UnionFirstArm::NoArm => false,
        UnionFirstArm::ScalarType(t) => scalar_type_derivable(t),
        UnionFirstArm::Other => true,
    }
}

/// The derived init of a named declaration, by kind: a scalar type by
/// [`scalar_type_init_rule`]; an enum by its values; an enum set is the
/// empty set; a struct is a derivable composite; a union is a composite
/// derivable as its first arm is; a constant is not derivable; an
/// interface, or a declaration not found, is a derivable composite.
pub open spec fn named_init_rule(d: NamedDecl) -> SInit {
    match d {
        NamedDecl::Type(t) => scalar_type_init_rule(t),
        NamedDecl::Enum(values) => crate::decls::enum_init_rule(values@),
        NamedDecl::EnumSet => scalar_init(""@),
        NamedDecl::Struct => composite_init(),
        NamedDecl::Union(a) => (union_derivable(a), None),
        NamedDecl::Const => underivable_init(),
        NamedDecl::Interface | NamedDecl::Missing => composite_init(),
    }
}

/// The value a type's own declared init gives ([`declared_init_text`]).
pub fn declared_type_init(literal: &InitLiteral) -> (r: Option<InitValue>)
    requires
        literal_wf(*literal),
    ensures
        match r {
            Some(v) => declared_init_text(*literal) matches Some(t) && init_view(v) == scalar_init(t),
            None => declared_init_text(*literal) is None,
        },
{
    let text = match literal {
        InitLiteral::Number(v) => v.to_decimal_string(),
        InitLiteral::Bool(b) => crate::check::bool_string(*b),
        InitLiteral::Str(t) => t.clone(),
        InitLiteral::Const(ConstValue::Number(v)) => v.to_decimal_string(),
        InitLiteral::Const(ConstValue::Bool(b)) => crate::check::bool_string(*b),
        InitLiteral::Const(ConstValue::Text(t)) => t.clone(),
        _ => {
            return None;
        },
    };
    Some(InitValue { derivable: true, value: Some(text) })
}

fn copy_value(v: &Option<ExactValue>) -> (r: Option<ExactValue>)
    ensures
        match (r, *v) {
            (Some(a), Some(b)) => a.pair() == b.pair(),
            (None, None) => true,
            _ => false,
        },
{
    match v {
        Some(x) => Some(x.copy()),
        None => None,
    }
}

/// The init of a named scalar type ([`scalar_type_init_rule`]).
pub fn scalar_type_init(t: &ScalarTypeDecl) -> (r: InitValue)
    requires
        scalar_type_wf(*t),
    ensures
        init_view(r) == scalar_type_init_rule(*t),
{
    if let Some(literal) = &t.declared {
        if let Some(init) = declared_type_init(literal) {
            return init;
        }
    }
    match t.class {
        BackingClass::Boolean => scalar("false"),
        BackingClass::Integer | BackingClass::Float => numeric_zero_or_min(copy_value(&t.min), copy_value(&t.max)),
        BackingClass::Str | BackingClass::Bytes => string_init(t.string.as_ref()),
        BackingClass::Unknown => composite(),
    }
}

/// Whether a named scalar type's init is derivable
/// ([`scalar_type_derivable`]).
pub fn type_symbol_is_derivable(t: &ScalarTypeDecl) -> (r: bool)
    ensures
        r == scalar_type_derivable(*t),
{
    if t.declared.is_some() {
        return true;
    }
    match t.class {
        BackingClass::Str | BackingClass::Bytes => match &t.string {
            Some(c) => c.pattern.is_none() && c.pattern_const.is_none() && match c.len_min {
                Some(m) => m == 0,
                None => true,
            },
            None => false,
        },
        _ => true,
    }
}

/// Whether a union's init is derivable ([`union_derivable`]).
pub fn union_is_derivable(arm: &UnionFirstArm) -> (r: bool)
    ensures
        r == union_derivable(*arm),
{
    match arm {
        UnionFirstArm::NoArm => false,
        UnionFirstArm::ScalarType(t) => type_symbol_is_derivable(t),
        UnionFirstArm::Other => true,
    }
}

/// The derived init of a named declaration ([`named_init_rule`]).
pub fn named_type_init(d: &NamedDecl) -> (r: InitValue)
    requires
        named_decl_wf(*d),
    ensures
        init_view(r) == named_init_rule(*d),
{
    match d {
        NamedDecl::Type(t) => scalar_type_init(t),
        NamedDecl::Enum(values) => crate::decls::enum_default_init(values.as_slice()),
        NamedDecl::EnumSet => scalar(""),
        NamedDecl::Struct => composite(),
        NamedDecl::Union(a) => InitValue { derivable: union_is_derivable(a), value: None },
        NamedDecl::Const => not_derivable(),
        NamedDecl::Interface | NamedDecl::Missing => composite(),
    }
}

/// The derived init of a named reference: of the declaration it resolves
/// to, or a derivable composite when it resolves to none.
pub fn named_ref_init(d: &Option<NamedDecl>) -> (r: InitValue)
    requires
        *d matches Some(x) ==> named_decl_wf(x),
    ensures
        init_view(r) == match *d {
            Some(x) => named_init_rule(x),
            None => composite_init(),
        },
{
    match d {
        Some(x) => named_type_init(x),
        None => composite(),
    }
}

/// A declared init wins over derivation, whether written as a literal or
/// as a constant: a named scalar type whose declared init is a number, or a
/// constant whose value is that number, has that number's canonical decimal
/// text as its init — not the zero-or-minimum it would derive — and a
/// boolean or string constant gives its value's text, just as the literal
/// does. The type's backing and bounds play no part.
pub proof fn law_declared_init_wins(t: ScalarTypeDecl, v: ExactValue, b: bool, text: String)
    ensures
        named_init_rule(
            NamedDecl::Type(ScalarTypeDecl { declared: Some(InitLiteral::Const(ConstValue::Number(v))), ..t }),
        ) == (true, Some(decimal_text(v.numer(), v.denom()))),
        named_init_rule(NamedDecl::Type(ScalarTypeDecl { declared: Some(InitLiteral::Number(v)), ..t })) == (
            true,
            Some(decimal_text(v.numer(), v.denom())),
        ),
        named_init_rule(
            NamedDecl::Type(ScalarTypeDecl { declared: Some(InitLiteral::Const(ConstValue::Bool(b))), ..t }),
        ) == (true, Some(if b {
            "true"@
        } else {
            "false"@
        })),
        named_init_rule(
            NamedDecl::Type(ScalarTypeDecl { declared: Some(InitLiteral::Const(ConstValue::Text(text))), ..t }),
        ) == (true, Some(text@)),
        named_init_rule(
            NamedDecl::Type(ScalarTypeDecl { declared: Some(InitLiteral::Const(ConstValue::Number(v))), ..t }),
        ) == named_init_rule(NamedDecl::Type(ScalarTypeDecl { declared: Some(InitLiteral::Number(v)), ..t })),
{
}

} // verus!
