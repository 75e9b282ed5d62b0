//! The typing environment of contract expressions: the type a declared type
//! reference gives an operand, the typed parameters and `result` of an
//! interaction, the type of a constant's value, and the package-level
//! vocabulary of constants and enums.

use vstd::prelude::*;

use crate::chars::str_eq;
use crate::check::BackingClass;
use crate::expr::{
    fields_view, names_unique, qualified_ref, tuple_encoding, ty_view, ContractVocabulary, EnumDecl,
    ExprType, NumericBacking, SType,
};
use crate::resolve::{Symbol, SymbolKind};

verus! {

// ==========================================================================
// Declared types
// ==========================================================================

/// A declaration a type reference resolves to, as contract typing reads
/// it: its symbol and, for a scalar type whose definition is found, its
/// backing class.
#[derive(Debug, PartialEq, Eq)]
pub struct TypedDecl {
    pub symbol: Symbol,
    pub backing: Option<BackingClass>,
}

/// A named type reference: the path as written and the declaration it
/// resolves to, if any.
#[derive(Debug, PartialEq, Eq)]
pub struct NamedRef {
    pub written: String,
    pub found: Option<TypedDecl>,
}

pub open spec fn qref(s: Symbol) -> Seq<char> {
    s.package@ + "."@ + s.name@
}

/// The type a named reference gives: an enum is its enum type; the
/// standard `Duration` is the duration domain; a scalar type backed by an
/// integer or a float is numeric, by a boolean boolean; every other
/// declaration, a scalar type whose definition is not found, and a name
/// that does not resolve are outside the subset, described by the
/// canonical reference or the text as written.
pub open spec fn named_type_rule(r: NamedRef) -> SType {
    match r.found {
        None => SType::Unsupported(r.written@),
        Some(d) => {
            let q = qref(d.symbol);
            match d.symbol.kind {
                SymbolKind::Enum => SType::EnumType(q),
                SymbolKind::Type => if q == "ridl.std.Duration"@ {
                    SType::Duration
                } else {
                    match d.backing {
                        Some(BackingClass::Integer) => SType::Numeric(q, NumericBacking::Integer),
                        Some(BackingClass::Float) => SType::Numeric(q, NumericBacking::Float),
                        Some(BackingClass::Boolean) => SType::Boolean,
                        _ => SType::Unsupported(q),
                    }
                },
                _ => SType::Unsupported(q),
            }
        },
    }
}

/// The type a named reference gives ([`named_type_rule`]).
pub fn expr_type_of_path(r: &NamedRef) -> (t: ExprType)
    ensures
        ty_view(t) == named_type_rule(*r),
{
    match &r.found {
        None => ExprType::Unsupported(r.written.clone()),
        Some(d) => {
            let reference = qualified_ref(&d.symbol);
            assert(reference@ == qref(d.symbol));
            match d.symbol.kind {
                SymbolKind::Enum => ExprType::EnumType(reference),
                SymbolKind::Type => {
                    if str_eq(reference.as_str(), "ridl.std.Duration") {
                        return ExprType::Duration;
                    }
                    match d.backing {
                        Some(BackingClass::Integer) => ExprType::Numeric(reference, NumericBacking::Integer),
                        Some(BackingClass::Float) => ExprType::Numeric(reference, NumericBacking::Float),
                        Some(BackingClass::Boolean) => ExprType::Boolean,
                        _ => ExprType::Unsupported(reference),
                    }
                },
                _ => ExprType::Unsupported(reference),
            }
        },
    }
}

/// A field type as contract typing reads it.
#[derive(Debug, PartialEq, Eq)]
pub enum TypeSpot {
    Named(NamedRef),
    /// A primitive keyword, as written.
    Primitive(String),
    Tuple,
    Array,
    Dictionary,
    Optional,
}

/// The type a field type gives: a named type by [`named_type_rule`];
/// anything else is outside the subset, described by its form.
pub open spec fn spot_type_rule(t: TypeSpot) -> SType {
    match t {
        TypeSpot::Named(r) => named_type_rule(r),
        TypeSpot::Primitive(text) => SType::Unsupported(text@),
        TypeSpot::Tuple => SType::Unsupported("a tuple"@),
        TypeSpot::Array => SType::Unsupported("an array"@),
        TypeSpot::Dictionary => SType::Unsupported("a map"@),
        TypeSpot::Optional => SType::Unsupported("an optional"@),
    }
}

/// The type a field type gives ([`spot_type_rule`]).
pub fn expr_type_of_field_type(t: &TypeSpot) -> (r: ExprType)
    ensures
        ty_view(r) == spot_type_rule(*t),
{
    match t {
        TypeSpot::Named(n) => expr_type_of_path(n),
        TypeSpot::Primitive(text) => ExprType::Unsupported(text.clone()),
        TypeSpot::Tuple => ExprType::Unsupported(String::from_str("a tuple")),
        TypeSpot::Array => ExprType::Unsupported(String::from_str("an array")),
        TypeSpot::Dictionary => ExprType::Unsupported(String::from_str("a map")),
        TypeSpot::Optional => ExprType::Unsupported(String::from_str("an optional")),
    }
}

// ==========================================================================
// Parameters and `result`
// ==========================================================================

/// A parameter's type as contract typing reads it.
#[derive(Debug, PartialEq, Eq)]
pub enum ParamSpot {
    Field(TypeSpot),
    Stream,
}

/// A parameter: its name and type, each if written.
#[derive(Debug, PartialEq, Eq)]
pub struct ParamTyping {
    pub name: Option<String>,
    pub ty: Option<ParamSpot>,
}

/// The typed parameters among the first `n`: every parameter with a name
/// and a type, in order; a stream is outside the subset.
pub open spec fn params_types_rule(params: Seq<ParamTyping>, n: int) -> Seq<(Seq<char>, SType)>
    decreases n,
{
    if n <= 0 {
        Seq::empty()
    } else {
        let p = params[n - 1];
        params_types_rule(params, n - 1) + match (p.name, p.ty) {
            (Some(name), Some(ParamSpot::Field(t))) => seq![(name@, spot_type_rule(t))],
            (Some(name), Some(ParamSpot::Stream)) => seq![(name@, SType::Unsupported("a stream"@))],
            _ => Seq::empty(),
        }
    }
}

pub open spec fn typed_view(v: Seq<(String, ExprType)>) -> Seq<(Seq<char>, SType)> {
    v.map_values(|p: (String, ExprType)| (p.0@, ty_view(p.1)))
}

/// The typed parameter environment of an interaction
/// ([`params_types_rule`]).
pub fn param_expr_types(params: &[ParamTyping]) -> (r: Vec<(String, ExprType)>)
    ensures
        typed_view(r@) == params_types_rule(params@, params.len() as int),
{
    let mut out: Vec<(String, ExprType)> = Vec::new();
    let mut i: usize = 0;
    assert(typed_view(out@) =~= Seq::empty());
    while i < params.len()
        invariant
            i <= params.len(),
            typed_view(out@) == params_types_rule(params@, i as int),
        decreases params.len() - i,
    {
        let ghost before = typed_view(out@);
        let p = &params[i];
        if let Some(name) = &p.name {
            match &p.ty {
                Some(ParamSpot::Field(t)) => {
                    let ty = expr_type_of_field_type(t);
                    let ghost entry = (name@, ty_view(ty));
                    out.push((name.clone(), ty));
                    assert(typed_view(out@) =~= before.push(entry));
                },
                Some(ParamSpot::Stream) => {
                    let ty = ExprType::Unsupported(String::from_str("a stream"));
                    let ghost entry = (name@, ty_view(ty));
                    out.push((name.clone(), ty));
                    assert(typed_view(out@) =~= before.push(entry));
                },
                None => {},
            }
        }
        assert(typed_view(out@) =~= params_types_rule(params@, i + 1));
        i = i + 1;
    }
    out
}

/// A query's return shape as contract typing reads it.
#[derive(Debug, PartialEq, Eq)]
pub enum ResultSpot {
    /// A named-field tuple: each field's name and type, if written.
    Tuple(Vec<(Option<String>, Option<TypeSpot>)>),
    /// `T | E`: the success arm, if written.
    Fallible(Option<NamedRef>),
    Stream,
    Named(NamedRef),
    Missing,
}

/// The named fields among the first `n` of a tuple, each with its type if
/// written.
pub open spec fn tuple_fields_rule(fields: Seq<(Option<String>, Option<TypeSpot>)>, n: int) -> Seq<
    (Seq<char>, Option<SType>),
>
    decreases n,
{
    if n <= 0 {
        Seq::empty()
    } else {
        tuple_fields_rule(fields, n - 1) + match fields[n - 1].0 {
            Some(name) => seq![
                (
                    name@,
                    match fields[n - 1].1 {
                        Some(t) => Some(spot_type_rule(t)),
                        None => None,
                    },
                ),
            ],
            None => Seq::empty(),
        }
    }
}

/// The type of `result` in an `ensure`: a tuple of its named fields (none
/// named: outside the subset); the success arm of a fallible return; the
/// named return type; a stream, a fallible return without a success arm,
/// and a missing return are outside the subset.
pub open spec fn result_type_rule(r: ResultSpot) -> SType {
    match r {
        ResultSpot::Tuple(fields) => {
            let named = tuple_fields_rule(fields@, fields@.len() as int);
            if named.len() == 0 {
                SType::Unsupported("an empty tuple"@)
            } else {
                SType::Tuple(tuple_encoding(named))
            }
        },
        ResultSpot::Fallible(Some(ok)) => named_type_rule(ok),
        ResultSpot::Fallible(None) => SType::Unsupported("a fallible return"@),
        ResultSpot::Stream => SType::Unsupported("a stream"@),
        ResultSpot::Named(n) => named_type_rule(n),
        ResultSpot::Missing => SType::Unsupported("an unknown return type"@),
    }
}

/// The type of `result` in an `ensure` ([`result_type_rule`]).
pub fn result_expr_type(r: &ResultSpot) -> (t: ExprType)
    ensures
        ty_view(t) == result_type_rule(*r),
{
    match r {
        ResultSpot::Tuple(fields) => {
            let mut named: Vec<(String, Option<ExprType>)> = Vec::new();
            let mut i: usize = 0;
            assert(fields_view(named@) =~= Seq::empty());
            while i < fields.len()
                invariant
                    i <= fields.len(),
                    fields_view(named@) == tuple_fields_rule(fields@, i as int),
                decreases fields.len() - i,
            {
                let ghost before = fields_view(named@);
                if let Some(name) = &fields[i].0 {
                    let ty = match &fields[i].1 {
                        Some(t) => Some(expr_type_of_field_type(t)),
                        None => None,
                    };
                    let ghost entry = (name@, crate::expr::opt_ty_view(ty));
                    named.push((name.clone(), ty));
                    assert(fields_view(named@) =~= before.push(entry));
                }
                assert(fields_view(named@) =~= tuple_fields_rule(fields@, i + 1));
                i = i + 1;
            }
            if named.len() == 0 {
                return ExprType::Unsupported(String::from_str("an empty tuple"));
            }
            ExprType::tuple(named.as_slice())
        },
        ResultSpot::Fallible(Some(ok)) => expr_type_of_path(ok),
        ResultSpot::Fallible(None) => ExprType::Unsupported(String::from_str("a fallible return")),
        ResultSpot::Stream => ExprType::Unsupported(String::from_str("a stream")),
        ResultSpot::Named(n) => expr_type_of_path(n),
        ResultSpot::Missing => ExprType::Unsupported(String::from_str("an unknown return type")),
    }
}

// ==========================================================================
// Constants
// ==========================================================================

/// A constant's value literal as contract typing reads it.
#[derive(Debug, Clone, Copy, PartialEq, Eq, Structural)]
pub enum ConstLiteral {
    /// A number; whether it is written in float form (`1.0`).
    Number { float_form: bool },
    Bool,
    Str,
    Regex,
    /// A reference: the constant it names in the constant's own package, by
    /// its index in the table of constants, when it names one.
    Ref(Option<usize>),
    Malformed,
}

/// A constant as contract typing reads it: whether its definition is
/// found, its declared type (resolved in its own package), and its value
/// literal.
#[derive(Debug, PartialEq, Eq)]
pub struct ConstTyping {
    pub found: bool,
    pub declared: Option<NamedRef>,
    pub value: Option<ConstLiteral>,
}

pub open spec fn unresolved_constant() -> SType {
    SType::Unsupported("an unresolved constant"@)
}

/// The type of constant `i`'s value, following at most `fuel` constants: its
/// declared type when annotated; otherwise a number literal is a bare
/// numeric backed as written, a boolean is boolean, a string or a regex is
/// outside the subset, and a reference to a constant has that constant's
/// type. A definition not found, a missing or malformed value, a reference
/// to no constant, and a chain longer than the fuel (a cycle) are an
/// unresolved constant.
pub open spec fn const_type_rule(table: Seq<ConstTyping>, i: int, fuel: nat) -> SType
    decreases fuel,
{
    if fuel == 0 || i < 0 || i >= table.len() || !table[i].found {
        unresolved_constant()
    } else {
        match table[i].declared {
            Some(r) => named_type_rule(r),
            None => match table[i].value {
                Some(ConstLiteral::Number { float_form }) => SType::Numeric(
                    Seq::empty(),
                    if float_form {
                        NumericBacking::Float
                    } else {
                        NumericBacking::Integer
                    },
                ),
                Some(ConstLiteral::Bool) => SType::Boolean,
                Some(ConstLiteral::Str) => SType::Unsupported("a string constant"@),
                Some(ConstLiteral::Regex) => SType::Unsupported("a regex constant"@),
                Some(ConstLiteral::Ref(Some(j))) => const_type_rule(table, j as int, (fuel - 1) as nat),
                _ => unresolved_constant(),
            },
        }
    }
}

/// The type of constant `start`'s value ([`const_type_rule`], following at
/// most as many constants as the table holds).
pub fn const_expr_type(table: &[ConstTyping], start: usize) -> (r: ExprType)
    ensures
        ty_view(r) == const_type_rule(table@, start as int, table.len() as nat),
{
    let mut i = start;
    let mut fuel = table.len();
    loop
        invariant
            fuel <= table.len(),
            const_type_rule(table@, start as int, table.len() as nat) == const_type_rule(
                table@,
                i as int,
                fuel as nat,
            ),
        decreases fuel,
    {
        if fuel == 0 || i >= table.len() || !table[i].found {
            return ExprType::Unsupported(String::from_str("an unresolved constant"));
        }
        let entry = &table[i];
        if let Some(r) = &entry.declared {
            return expr_type_of_path(r);
        }
        match entry.value {
            Some(ConstLiteral::Number { float_form }) => {
                return ExprType::Numeric(
                    String::new(),
                    if float_form {
                        NumericBacking::Float
                    } else {
                        NumericBacking::Integer
                    },
                );
            },
            Some(ConstLiteral::Bool) => {
                return ExprType::Boolean;
            },
            Some(ConstLiteral::Str) => {
                return ExprType::Unsupported(String::from_str("a string constant"));
            },
            Some(ConstLiteral::Regex) => {
                return ExprType::Unsupported(String::from_str("a regex constant"));
            },
            Some(ConstLiteral::Ref(Some(j))) => {
                i = j;
                fuel = fuel - 1;
            },
            _ => {
                return ExprType::Unsupported(String::from_str("an unresolved constant"));
            },
        }
    }
}

/// A constant whose value refers back to itself has no type: the chain is
/// cut however much fuel it is given.
pub proof fn law_self_referring_constant_is_unresolved(table: Seq<ConstTyping>, i: usize, fuel: nat)
    requires
        i < table.len(),
        table[i as int].declared is None,
        table[i as int].value == Some(ConstLiteral::Ref(Some(i))),
    ensures
        const_type_rule(table, i as int, fuel) == unresolved_constant(),
    decreases fuel,
{
    if fuel > 0 {
        law_self_referring_constant_is_unresolved(table, i, (fuel - 1) as nat);
    }
}

// ==========================================================================
// The package vocabulary
// ==========================================================================

/// What a name of the package binds, as the vocabulary reads it: a constant
/// (by its index in the table of constants), an enum (its symbol and, when
/// its definition is found, its values' names), or anything else.
#[derive(Debug, PartialEq, Eq)]
pub enum VocabEntry {
    Const(usize),
    Enum { symbol: Symbol, values: Option<Vec<Option<String>>> },
    Other,
}

/// The named values among the first `n`.
pub open spec fn member_names(values: Seq<Option<String>>, n: int) -> Seq<Seq<char>>
    decreases n,
{
    if n <= 0 {
        Seq::empty()
    } else {
        member_names(values, n - 1) + match values[n - 1] {
            Some(v) => seq![v@],
            None => Seq::empty(),
        }
    }
}

/// The constants among the first `n` bindings, each with its value's type.
pub open spec fn vocab_consts(bindings: Seq<(String, VocabEntry)>, table: Seq<ConstTyping>, n: int) -> Seq<
    (Seq<char>, SType),
>
    decreases n,
{
    if n <= 0 {
        Seq::empty()
    } else {
        vocab_consts(bindings, table, n - 1) + match bindings[n - 1].1 {
            VocabEntry::Const(k) => seq![
                (bindings[n - 1].0@, const_type_rule(table, k as int, table.len() as nat)),
            ],
            _ => Seq::empty(),
        }
    }
}

/// The enums among the first `n` bindings whose definition is found, each
/// with its canonical reference and its named values.
pub open spec fn vocab_enums(bindings: Seq<(String, VocabEntry)>, n: int) -> Seq<
    (Seq<char>, Seq<char>, Seq<Seq<char>>),
>
    decreases n,
{
    if n <= 0 {
        Seq::empty()
    } else {
        vocab_enums(bindings, n - 1) + match bindings[n - 1].1 {
            VocabEntry::Enum { symbol, values: Some(values) } => seq![
                (bindings[n - 1].0@, qref(symbol), member_names(values@, values@.len() as int)),
            ],
            _ => Seq::empty(),
        }
    }
}

pub open spec fn enums_entries(v: Seq<(String, EnumDecl)>) -> Seq<(Seq<char>, Seq<char>, Seq<Seq<char>>)> {
    v.map_values(
        |e: (String, EnumDecl)| (e.0@, e.1.reference@, e.1.members@.map_values(|m: String| m@)),
    )
}

fn enum_members(values: &Vec<Option<String>>) -> (r: Vec<String>)
    ensures
        r@.map_values(|m: String| m@) == member_names(values@, values@.len() as int),
{
    let mut out: Vec<String> = Vec::new();
    let mut i: usize = 0;
    assert(out@.map_values(|m: String| m@) =~= Seq::empty());
    while i < values.len()
        invariant
            i <= values.len(),
            out@.map_values(|m: String| m@) == member_names(values@, i as int),
        decreases values.len() - i,
    {
        let ghost before = out@.map_values(|m: String| m@);
        if let Some(v) = &values[i] {
            out.push(v.clone());
            assert(out@.map_values(|m: String| m@) =~= before.push(v@));
        }
        assert(out@.map_values(|m: String| m@) =~= member_names(values@, i + 1));
        i = i + 1;
    }
    out
}

/// The package-level vocabulary a contract may name: every constant bound
/// in the package with the type of its value, every enum with its
/// canonical reference and member names, in binding order. `bindings` are
/// the package's names, each bound once; `table` holds the constants.
pub fn build_contract_vocabulary(bindings: &[(String, VocabEntry)], table: &[ConstTyping]) -> (r: ContractVocabulary)
    ensures
        typed_view(r.consts@) == vocab_consts(bindings@, table@, bindings.len() as int),
        enums_entries(r.enums@) == vocab_enums(bindings@, bindings.len() as int),
{
    let mut vocabulary = ContractVocabulary::new();
    let mut i: usize = 0;
    assert(typed_view(vocabulary.consts@) =~= Seq::empty());
    assert(enums_entries(vocabulary.enums@) =~= Seq::empty());
    while i < bindings.len()
        invariant
            i <= bindings.len(),
            typed_view(vocabulary.consts@) == vocab_consts(bindings@, table@, i as int),
            enums_entries(vocabulary.enums@) == vocab_enums(bindings@, i as int),
        decreases bindings.len() - i,
    {
        let ghost consts_before = typed_view(vocabulary.consts@);
        let ghost enums_before = enums_entries(vocabulary.enums@);
        let (bound, entry) = (&bindings[i].0, &bindings[i].1);
        match entry {
            VocabEntry::Const(k) => {
                let ty = const_expr_type(table, *k);
                let ghost item = (bound@, ty_view(ty));
                vocabulary.consts.push((bound.clone(), ty));
                assert(typed_view(vocabulary.consts@) =~= consts_before.push(item));
            },
            VocabEntry::Enum { symbol, values: Some(values) } => {
                let reference = qualified_ref(symbol);
                let members = enum_members(values);
                let ghost item = (bound@, reference@, members@.map_values(|m: String| m@));
                vocabulary.enums.push((bound.clone(), EnumDecl { reference, members }));
                assert(enums_entries(vocabulary.enums@) =~= enums_before.push(item));
            },
            _ => {},
        }
        assert(typed_view(vocabulary.consts@) =~= vocab_consts(bindings@, table@, i + 1));
        assert(enums_entries(vocabulary.enums@) =~= vocab_enums(bindings@, i + 1));
        i = i + 1;
    }
    vocabulary
}

} // verus!
