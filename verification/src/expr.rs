//! The contract-expression checker: the typing rules of the guaranteed
//! subset over the reference environment of a clause, the canonical
//! one-line rendering of a clause, and the references a clause reads.

use vstd::prelude::*;

use crate::chars::{chars_to_string, str_eq, str_to_chars};
use crate::exact::{first_index, lemma_first_index, lemma_first_index_bound, slice_chars_pub};
use crate::resolve::{symbol_kind_of, Resolution, Symbol, SymbolKind};
use crate::diag::{diag_messages, diags_view, DiagCode, Diagnostic, Severity, DETACHED};
use crate::syntax::{binary_power, binary_power_of, chars_equal, Expr, TextRange, Token, TokenKind};
use crate::exact::{decimal_literal_value, decimal_text, rat_eq, ExactValue};
use crate::positional::{lemma_literal_positional, lemma_positional_reads_back};

verus! {

/// The primitive a numeric type is backed by. Carried because the
/// `%` rule is a rule about the operand's type, not about how a literal is
/// spelled.
#[derive(Debug, Clone, Copy, PartialEq, Eq, Structural)]
pub enum NumericBacking {
    Integer,
    Float,
}

/// The backing of an arithmetic result: float-backed as soon as either
/// operand is.
pub open spec fn backing_join(a: NumericBacking, b: NumericBacking) -> NumericBacking {
    match (a, b) {
        (NumericBacking::Integer, NumericBacking::Integer) => NumericBacking::Integer,
        _ => NumericBacking::Float,
    }
}

/// The backing of an arithmetic result ([`backing_join`]).
pub fn unify_backing(left: NumericBacking, right: NumericBacking) -> (r: NumericBacking)
    ensures
        r == backing_join(left, right),
{
    match (left, right) {
        (NumericBacking::Integer, NumericBacking::Integer) => NumericBacking::Integer,
        _ => NumericBacking::Float,
    }
}

/// The five type domains a subset expression inhabits, plus
/// the carrier for a declared value whose type is outside them. Every named
/// reference is the fully qualified `package.Name` form.
#[derive(Debug, PartialEq, Eq)]
pub enum ExprType {
    Boolean,
    /// A numeric value: the canonical named-type reference, or the empty
    /// string for a bare literal, which unifies with any numeric operand.
    Numeric(String, NumericBacking),
    Duration,
    /// An enum-typed value; the canonical enum reference.
    EnumType(String),
    /// A tuple-typed value — a tuple-returning query's `result`, as the field
    /// encoding [`ExprType::tuple`] builds.
    Tuple(String),
    /// A declared value whose type is outside the five domains; the string
    /// describes the declared type.
    Unsupported(String),
}

/// The model of an [`ExprType`].
pub enum SType {
    Boolean,
    Numeric(Seq<char>, NumericBacking),
    Duration,
    EnumType(Seq<char>),
    Tuple(Seq<char>),
    Unsupported(Seq<char>),
}

pub open spec fn ty_view(t: ExprType) -> SType {
    match t {
        ExprType::Boolean => SType::Boolean,
        ExprType::Numeric(name, backing) => SType::Numeric(name@, backing),
        ExprType::Duration => SType::Duration,
        ExprType::EnumType(name) => SType::EnumType(name@),
        ExprType::Tuple(encoded) => SType::Tuple(encoded@),
        ExprType::Unsupported(declared) => SType::Unsupported(declared@),
    }
}

pub open spec fn opt_ty_view(t: Option<ExprType>) -> Option<SType> {
    match t {
        Some(t) => Some(ty_view(t)),
        None => None,
    }
}

/// The human rendering used in diagnostics.
pub open spec fn describe_type(t: SType) -> Seq<char> {
    match t {
        SType::Boolean => "boolean"@,
        SType::Numeric(name, _) => if name.len() == 0 {
            "a numeric literal"@
        } else {
            "`"@ + name + "`"@
        },
        SType::Duration => "duration"@,
        SType::EnumType(name) => "`"@ + name + "`"@,
        SType::Tuple(_) => "a tuple"@,
        SType::Unsupported(declared) => "`"@ + declared + "`"@,
    }
}

/// The code one tuple field encodes to: `B`, `Ni:ref`, `Nf:ref`, `D`,
/// `E:ref`, or `U:declared` for a type outside the subset.
pub open spec fn field_code(t: Option<SType>) -> Seq<char> {
    match t {
        Some(SType::Boolean) => "B"@,
        Some(SType::Numeric(name, NumericBacking::Integer)) => "Ni:"@ + name,
        Some(SType::Numeric(name, NumericBacking::Float)) => "Nf:"@ + name,
        Some(SType::Duration) => "D"@,
        Some(SType::EnumType(name)) => "E:"@ + name,
        Some(SType::Unsupported(declared)) => "U:"@ + declared,
        Some(SType::Tuple(_)) => "U:a tuple"@,
        None => "U:a type outside the guaranteed subset"@,
    }
}

/// The `name=CODE` entries of the fields, joined by `;`.
pub open spec fn tuple_encoding(fields: Seq<(Seq<char>, Option<SType>)>) -> Seq<char>
    decreases fields.len(),
{
    if fields.len() == 0 {
        Seq::empty()
    } else {
        let last = fields.last();
        let entry = last.0 + "="@ + field_code(last.1);
        if fields.len() == 1 {
            entry
        } else {
            tuple_encoding(fields.drop_last()) + ";"@ + entry
        }
    }
}

pub open spec fn fields_view(fields: Seq<(String, Option<ExprType>)>) -> Seq<(Seq<char>, Option<SType>)> {
    Seq::new(fields.len(), |i: int| (fields[i].0@, opt_ty_view(fields[i].1)))
}

/// `s` split at its first `c`.
pub open spec fn split_once(s: Seq<char>, c: char) -> Option<(Seq<char>, Seq<char>)> {
    let k = first_index(s, c);
    if k < 0 {
        None
    } else {
        Some((s.take(k), s.skip(k + 1)))
    }
}

/// The type a field code decodes to.
pub open spec fn decode_code(code: Seq<char>) -> Option<SType> {
    if code == "B"@ {
        Some(SType::Boolean)
    } else if code == "D"@ {
        Some(SType::Duration)
    } else {
        match split_once(code, ':') {
            Some((tag, name)) => if tag == "Ni"@ {
                Some(SType::Numeric(name, NumericBacking::Integer))
            } else if tag == "Nf"@ {
                Some(SType::Numeric(name, NumericBacking::Float))
            } else if tag == "E"@ {
                Some(SType::EnumType(name))
            } else if tag == "U"@ {
                Some(SType::Unsupported(name))
            } else {
                None
            },
            None => None,
        }
    }
}

/// The type of field `name` in the encoding: the first non-empty `;`-entry
/// `field=CODE` with that field name and a code that decodes.
pub open spec fn encoded_field(s: Seq<char>, name: Seq<char>) -> Option<SType>
    decreases s.len(),
{
    let k = first_index(s, ';');
    let entry = if k < 0 {
        s
    } else {
        s.take(k)
    };
    let here = if entry.len() == 0 {
        None
    } else {
        match split_once(entry, '=') {
            Some((field, code)) => if field == name {
                decode_code(code)
            } else {
                None
            },
            None => None,
        }
    };
    if here is Some || k < 0 {
        here
    } else {
        proof {
            lemma_first_index_bound(s, ';');
        }
        encoded_field(s.skip(k + 1), name)
    }
}

/// The index of the first `c` in `cs[from..to]` (absolute), or `to`.
fn find_char(cs: &Vec<char>, from: usize, to: usize, c: char) -> (r: usize)
    requires
        from <= to <= cs.len(),
    ensures
        from <= r <= to,
        first_index(cs@.subrange(from as int, to as int), c) == if r < to {
            r - from
        } else {
            -1
        },
{
    let mut k = from;
    while k < to && cs[k] != c
        invariant
            from <= k <= to <= cs.len(),
            forall|j: int| from <= j < k ==> cs@[j] != c,
        decreases to - k,
    {
        k = k + 1;
    }
    proof {
        let sub = cs@.subrange(from as int, to as int);
        assert forall|j: int| 0 <= j < k - from implies sub[j] != c by {
            assert(sub[j] == cs@[from + j]);
        }
        lemma_first_index(sub, c, k - from);
    }
    k
}

impl ExprType {
    /// A copy of the type.
    pub fn copy(&self) -> (r: ExprType)
        ensures
            ty_view(r) == ty_view(*self),
    {
        match self {
            ExprType::Boolean => ExprType::Boolean,
            ExprType::Numeric(name, backing) => ExprType::Numeric(name.clone(), *backing),
            ExprType::Duration => ExprType::Duration,
            ExprType::EnumType(name) => ExprType::EnumType(name.clone()),
            ExprType::Tuple(encoded) => ExprType::Tuple(encoded.clone()),
            ExprType::Unsupported(declared) => ExprType::Unsupported(declared.clone()),
        }
    }

    /// Whether this is the boolean domain.
    pub fn is_boolean(&self) -> (r: bool)
        ensures
            r == (ty_view(*self) is Boolean),
    {
        match self {
            ExprType::Boolean => true,
            _ => false,
        }
    }

    /// The human rendering used in diagnostics ([`describe_type`]).
    pub fn describe(&self) -> (r: String)
        ensures
            r@ == describe_type(ty_view(*self)),
    {
        match self {
            ExprType::Boolean => String::from_str("boolean"),
            ExprType::Numeric(name, _) => {
                if name.as_str().is_empty() {
                    String::from_str("a numeric literal")
                } else {
                    let mut text = String::from_str("`");
                    text.append(name.as_str());
                    text.append("`");
                    text
                }
            },
            ExprType::Duration => String::from_str("duration"),
            ExprType::EnumType(name) => {
                let mut text = String::from_str("`");
                text.append(name.as_str());
                text.append("`");
                text
            },
            ExprType::Tuple(_) => String::from_str("a tuple"),
            ExprType::Unsupported(declared) => {
                let mut text = String::from_str("`");
                text.append(declared.as_str());
                text.append("`");
                text
            },
        }
    }

    /// The tuple domain over `fields`, in declaration order: the entries
    /// `name=CODE` ([`field_code`]) joined by `;`. A field outside the five
    /// domains is carried as `None`.
    pub fn tuple(fields: &[(String, Option<ExprType>)]) -> (r: ExprType)
        ensures
            ty_view(r) == SType::Tuple(tuple_encoding(fields_view(fields@))),
    {
        let ghost fv = fields_view(fields@);
        let mut text = String::new();
        let mut i: usize = 0;
        while i < fields.len()
            invariant
                i <= fields.len(),
                fv == fields_view(fields@),
                text@ == tuple_encoding(fv.take(i as int)),
            decreases fields.len() - i,
        {
            let ghost before = text@;
            if i > 0 {
                text.append(";");
            }
            text.append(fields[i].0.as_str());
            text.append("=");
            let code = match &fields[i].1 {
                Some(field) => encode_field(Some(field)),
                None => encode_field(None),
            };
            text.append(code.as_str());
            proof {
                assert(fv.take(i + 1).drop_last() =~= fv.take(i as int));
                assert(fv.take(i + 1).last() == fv[i as int]);
                if i == 0 {
                    assert(fv.take(0) =~= Seq::<(Seq<char>, Option<SType>)>::empty());
                }
            }
            i = i + 1;
        }
        assert(fv.take(fields.len() as int) =~= fv);
        ExprType::Tuple(text)
    }

    /// The type of the tuple field `name` ([`encoded_field`]).
    pub fn tuple_field(encoded: &str, name: &str) -> (r: Option<ExprType>)
        ensures
            opt_ty_view(r) == encoded_field(encoded@, name@),
    {
        let cs = str_to_chars(encoded);
        assert(cs@.skip(0) =~= cs@);
        field_from(&cs, 0, name)
    }
}

/// The code of one tuple field ([`field_code`]).
pub fn encode_field(field: Option<&ExprType>) -> (r: String)
    ensures
        r@ == field_code(
            match field {
                Some(t) => Some(ty_view(*t)),
                None => None,
            },
        ),
{
    match field {
        Some(ExprType::Boolean) => String::from_str("B"),
        Some(ExprType::Numeric(name, NumericBacking::Integer)) => {
            let mut text = String::from_str("Ni:");
            text.append(name.as_str());
            text
        },
        Some(ExprType::Numeric(name, NumericBacking::Float)) => {
            let mut text = String::from_str("Nf:");
            text.append(name.as_str());
            text
        },
        Some(ExprType::Duration) => String::from_str("D"),
        Some(ExprType::EnumType(name)) => {
            let mut text = String::from_str("E:");
            text.append(name.as_str());
            text
        },
        Some(ExprType::Unsupported(declared)) => {
            let mut text = String::from_str("U:");
            text.append(declared.as_str());
            text
        },
        Some(ExprType::Tuple(_)) => String::from_str("U:a tuple"),
        None => String::from_str("U:a type outside the guaranteed subset"),
    }
}

/// The type a field code decodes to ([`decode_code`]).
pub fn decode_field(code: &str) -> (r: Option<ExprType>)
    ensures
        opt_ty_view(r) == decode_code(code@),
{
    let cs = str_to_chars(code);
    assert(cs@.subrange(0, cs@.len() as int) =~= cs@);
    decode_chars(&cs, 0, cs.len())
}

fn decode_chars(cs: &Vec<char>, from: usize, to: usize) -> (r: Option<ExprType>)
    requires
        from <= to <= cs.len(),
    ensures
        opt_ty_view(r) == decode_code(cs@.subrange(from as int, to as int)),
{
    let ghost code = cs@.subrange(from as int, to as int);
    if chars_equal(cs, from, to, "B") {
        return Some(ExprType::Boolean);
    }
    if chars_equal(cs, from, to, "D") {
        return Some(ExprType::Duration);
    }
    let k = find_char(cs, from, to, ':');
    if k == to {
        return None;
    }
    assert(code.take(k - from) =~= cs@.subrange(from as int, k as int));
    assert(code.skip(k - from + 1) =~= cs@.subrange(k + 1, to as int));
    let name = chars_to_string(slice_chars_pub(cs, k + 1, to));
    if chars_equal(cs, from, k, "Ni") {
        Some(ExprType::Numeric(name, NumericBacking::Integer))
    } else if chars_equal(cs, from, k, "Nf") {
        Some(ExprType::Numeric(name, NumericBacking::Float))
    } else if chars_equal(cs, from, k, "E") {
        Some(ExprType::EnumType(name))
    } else if chars_equal(cs, from, k, "U") {
        Some(ExprType::Unsupported(name))
    } else {
        None
    }
}

/// [`encoded_field`] over `cs[start..]`.
fn field_from(cs: &Vec<char>, start: usize, name: &str) -> (r: Option<ExprType>)
    requires
        start <= cs.len(),
    ensures
        opt_ty_view(r) == encoded_field(cs@.skip(start as int), name@),
    decreases cs.len() - start,
{
    let ghost s = cs@.skip(start as int);
    let n = cs.len();
    let k = find_char(cs, start, n, ';');
    assert(cs@.subrange(start as int, n as int) =~= s);
    let ghost entry = if k < n {
        s.take(k - start)
    } else {
        s
    };
    assert(entry =~= cs@.subrange(start as int, k as int));
    let mut here: Option<ExprType> = None;
    if k > start {
        let e = find_char(cs, start, k, '=');
        if e < k {
            assert(entry.take(e - start) =~= cs@.subrange(start as int, e as int));
            assert(entry.skip(e - start + 1) =~= cs@.subrange(e + 1, k as int));
            let field = chars_to_string(slice_chars_pub(cs, start, e));
            if str_eq(field.as_str(), name) {
                here = decode_chars(cs, e + 1, k);
            }
        }
    }
    if here.is_some() || k == n {
        return here;
    }
    assert(s.skip(k - start + 1) =~= cs@.skip(k + 1));
    field_from(cs, k + 1, name)
}

// ==========================================================================
// Bindings, vocabulary, scope
// ==========================================================================

/// The first binding of `name` in `b`.
pub open spec fn first_binding<X>(b: Seq<(Seq<char>, X)>, name: Seq<char>) -> Option<X>
    decreases b.len(),
{
    if b.len() == 0 {
        None
    } else if b[0].0 == name {
        Some(b[0].1)
    } else {
        first_binding(b.drop_first(), name)
    }
}

pub proof fn lemma_first_binding_skip<X>(b: Seq<(Seq<char>, X)>, i: int, name: Seq<char>)
    requires
        0 <= i < b.len(),
    ensures
        b[i].0 == name ==> first_binding(b.skip(i), name) == Some(b[i].1),
        b[i].0 != name ==> first_binding(b.skip(i), name) == first_binding(b.skip(i + 1), name),
{
    assert(b.skip(i).drop_first() =~= b.skip(i + 1));
}

pub proof fn lemma_first_binding_push<X>(b: Seq<(Seq<char>, X)>, k: Seq<char>, x: X, n: Seq<char>)
    ensures
        first_binding(b.push((k, x)), n) == match first_binding(b, n) {
            Some(v) => Some(v),
            None => if k == n {
                Some(x)
            } else {
                None
            },
        },
    decreases b.len(),
{
    if b.len() > 0 {
        assert(b.push((k, x)).drop_first() =~= b.drop_first().push((k, x)));
        assert(b.push((k, x))[0] == b[0]);
        lemma_first_binding_push(b.drop_first(), k, x, n);
        if b[0].0 == n {
            assert(first_binding(b, n) == Some(b[0].1));
            assert(first_binding(b.push((k, x)), n) == Some(b[0].1));
        } else {
            assert(first_binding(b, n) == first_binding(b.drop_first(), n));
            assert(first_binding(b.push((k, x)), n) == first_binding(
                b.push((k, x)).drop_first(),
                n,
            ));
        }
    } else {
        assert(b.push((k, x)).drop_first() =~= Seq::<(Seq<char>, X)>::empty());
        assert(b.push((k, x))[0] == (k, x));
    }
}

pub proof fn lemma_first_binding_update<X>(b: Seq<(Seq<char>, X)>, i: int, x: X, n: Seq<char>)
    requires
        0 <= i < b.len(),
        forall|j: int| 0 <= j < i ==> b[j].0 != b[i].0,
    ensures
        first_binding(b.update(i, (b[i].0, x)), n) == if n == b[i].0 {
            Some(x)
        } else {
            first_binding(b, n)
        },
    decreases b.len(),
{
    let k = b[i].0;
    if i > 0 {
        assert(b.update(i, (k, x)).drop_first() =~= b.drop_first().update(i - 1, (k, x)));
        assert(b.update(i, (k, x))[0] == b[0]);
        assert(b[0].0 != k);
        lemma_first_binding_update(b.drop_first(), i - 1, x, n);
    } else {
        assert(b.update(0, (k, x)).drop_first() =~= b.drop_first());
        assert(b.update(0, (k, x))[0] == (k, x));
    }
}

pub open spec fn ty_bindings(b: Seq<(String, ExprType)>) -> Seq<(Seq<char>, SType)> {
    Seq::new(b.len(), |i: int| (b[i].0@, ty_view(b[i].1)))
}

/// The first binding of `name` among typed bindings, copied out.
pub fn lookup(bindings: &[(String, ExprType)], name: &str) -> (r: Option<ExprType>)
    ensures
        opt_ty_view(r) == first_binding(ty_bindings(bindings@), name@),
{
    let ghost view = ty_bindings(bindings@);
    let mut i: usize = 0;
    assert(view.skip(0) =~= view);
    while i < bindings.len()
        invariant
            i <= bindings.len(),
            view == ty_bindings(bindings@),
            first_binding(view, name@) == first_binding(view.skip(i as int), name@),
        decreases bindings.len() - i,
    {
        proof {
            lemma_first_binding_skip(view, i as int, name@);
        }
        if str_eq(bindings[i].0.as_str(), name) {
            return Some(bindings[i].1.copy());
        }
        i = i + 1;
    }
    assert(view.skip(i as int) =~= Seq::<(Seq<char>, SType)>::empty());
    None
}

/// One enum type as a contract expression needs it: the canonical reference
/// and the member names `Enum.MEMBER` may name.
#[derive(Debug, PartialEq, Eq)]
pub struct EnumDecl {
    pub reference: String,
    pub members: Vec<String>,
}

pub struct SEnum {
    pub reference: Seq<char>,
    pub members: Seq<Seq<char>>,
}

pub open spec fn enum_view(d: EnumDecl) -> SEnum {
    SEnum { reference: d.reference@, members: d.members@.map_values(|m: String| m@) }
}

impl EnumDecl {
    /// Whether the enum declares the member `name`.
    pub fn has_member(&self, name: &str) -> (r: bool)
        ensures
            r == enum_view(*self).members.contains(name@),
    {
        let ghost ms = enum_view(*self).members;
        let mut i: usize = 0;
        while i < self.members.len()
            invariant
                i <= self.members.len(),
                ms == enum_view(*self).members,
                forall|j: int| 0 <= j < i ==> ms[j] != name@,
            decreases self.members.len() - i,
        {
            if str_eq(self.members[i].as_str(), name) {
                assert(ms[i as int] == name@);
                return true;
            }
            i = i + 1;
        }
        false
    }
}

pub open spec fn enum_bindings(b: Seq<(String, EnumDecl)>) -> Seq<(Seq<char>, SEnum)> {
    Seq::new(b.len(), |i: int| (b[i].0@, enum_view(b[i].1)))
}

/// No name is bound twice.
pub open spec fn names_unique<X>(b: Seq<(Seq<char>, X)>) -> bool {
    forall|i: int, j: int| 0 <= i < j < b.len() ==> b[i].0 != b[j].0
}

/// The package-level declarations a contract expression may name, resolved:
/// constants with the type of their value, and enum types with their
/// members, each keyed by the name the file binds. Each name is bound once.
#[derive(Debug, PartialEq, Eq)]
pub struct ContractVocabulary {
    pub consts: Vec<(String, ExprType)>,
    pub enums: Vec<(String, EnumDecl)>,
}

impl Default for ContractVocabulary {
    fn default() -> (r: ContractVocabulary)
        ensures
            r.consts@.len() == 0,
            r.enums@.len() == 0,
    {
        ContractVocabulary::new()
    }
}

impl ContractVocabulary {
    /// The empty vocabulary.
    pub fn new() -> (r: ContractVocabulary)
        ensures
            r.consts@.len() == 0,
            r.enums@.len() == 0,
    {
        ContractVocabulary { consts: Vec::new(), enums: Vec::new() }
    }

    /// Binds the constant `name` to `ty`, replacing an earlier binding.
    pub fn insert_const(&mut self, name: String, ty: ExprType)
        ensures
            forall|n: Seq<char>|
                first_binding(ty_bindings(final(self).consts@), n) == if n == name@ {
                    Some(ty_view(ty))
                } else {
                    first_binding(ty_bindings(old(self).consts@), n)
                },
            final(self).enums@ == old(self).enums@,
    {
        let ghost before = ty_bindings(self.consts@);
        let mut i: usize = 0;
        while i < self.consts.len()
            invariant
                i <= self.consts.len(),
                before == ty_bindings(self.consts@),
                *self == *old(self),
                forall|j: int| 0 <= j < i ==> before[j].0 != name@,
            decreases self.consts.len() - i,
        {
            if str_eq(self.consts[i].0.as_str(), name.as_str()) {
                let ghost k = before[i as int].0;
                self.consts.set(i, (name, ty));
                proof {
                    lemma_first_binding_update(before, i as int, ty_view(ty), name@);
                    assert(ty_bindings(self.consts@) =~= before.update(i as int, (k, ty_view(ty))));
                    assert forall|n: Seq<char>| true implies first_binding(ty_bindings(self.consts@), n)
                        == if n == name@ {
                        Some(ty_view(ty))
                    } else {
                        first_binding(before, n)
                    } by {
                        lemma_first_binding_update(before, i as int, ty_view(ty), n);
                    }
                }
                return ;
            }
            i = i + 1;
        }
        proof {
            assert forall|n: Seq<char>| true implies first_binding(before, n) is Some || n != name@
                || first_binding(before, n) is None by {}
        }
        let ghost nm = name@;
        let ghost tv = ty_view(ty);
        self.consts.push((name, ty));
        proof {
            assert(ty_bindings(self.consts@) =~= before.push((nm, tv)));
            assert forall|n: Seq<char>| true implies first_binding(ty_bindings(self.consts@), n)
                == if n == nm {
                Some(tv)
            } else {
                first_binding(before, n)
            } by {
                lemma_first_binding_push(before, nm, tv, n);
                if n == nm {
                    lemma_first_binding_absent(before, n);
                }
            }
        }
    }

    /// Binds the enum type `name`, replacing an earlier binding.
    pub fn insert_enum(&mut self, name: String, decl: EnumDecl)
        ensures
            forall|n: Seq<char>|
                first_binding(enum_bindings(final(self).enums@), n) == if n == name@ {
                    Some(enum_view(decl))
                } else {
                    first_binding(enum_bindings(old(self).enums@), n)
                },
            final(self).consts@ == old(self).consts@,
    {
        let ghost before = enum_bindings(self.enums@);
        let mut i: usize = 0;
        while i < self.enums.len()
            invariant
                i <= self.enums.len(),
                before == enum_bindings(self.enums@),
                *self == *old(self),
                forall|j: int| 0 <= j < i ==> before[j].0 != name@,
            decreases self.enums.len() - i,
        {
            if str_eq(self.enums[i].0.as_str(), name.as_str()) {
                let ghost k = before[i as int].0;
                let ghost dv = enum_view(decl);
                self.enums.set(i, (name, decl));
                proof {
                    assert(enum_bindings(self.enums@) =~= before.update(i as int, (k, dv)));
                    assert forall|n: Seq<char>| true implies first_binding(enum_bindings(self.enums@), n)
                        == if n == k {
                        Some(dv)
                    } else {
                        first_binding(before, n)
                    } by {
                        lemma_first_binding_update(before, i as int, dv, n);
                    }
                }
                return ;
            }
            i = i + 1;
        }
        let ghost nm = name@;
        let ghost dv = enum_view(decl);
        self.enums.push((name, decl));
        proof {
            assert(enum_bindings(self.enums@) =~= before.push((nm, dv)));
            assert forall|n: Seq<char>| true implies first_binding(enum_bindings(self.enums@), n)
                == if n == nm {
                Some(dv)
            } else {
                first_binding(before, n)
            } by {
                lemma_first_binding_push(before, nm, dv, n);
                if n == nm {
                    lemma_first_binding_absent(before, n);
                }
            }
        }
    }

    /// The type of the constant `name`.
    pub fn const_type(&self, name: &str) -> (r: Option<ExprType>)
        ensures
            opt_ty_view(r) == first_binding(ty_bindings(self.consts@), name@),
    {
        lookup(self.consts.as_slice(), name)
    }

    /// The enum type `name`.
    pub fn enum_decl(&self, name: &str) -> (r: Option<&EnumDecl>)
        ensures
            match r {
                Some(d) => first_binding(enum_bindings(self.enums@), name@) == Some(enum_view(*d)),
                None => first_binding(enum_bindings(self.enums@), name@) is None,
            },
    {
        let ghost view = enum_bindings(self.enums@);
        let mut i: usize = 0;
        assert(view.skip(0) =~= view);
        while i < self.enums.len()
            invariant
                i <= self.enums.len(),
                view == enum_bindings(self.enums@),
                first_binding(view, name@) == first_binding(view.skip(i as int), name@),
            decreases self.enums.len() - i,
        {
            proof {
                lemma_first_binding_skip(view, i as int, name@);
            }
            if str_eq(self.enums[i].0.as_str(), name) {
                return Some(&self.enums[i].1);
            }
            i = i + 1;
        }
        assert(view.skip(i as int) =~= Seq::<(Seq<char>, SEnum)>::empty());
        None
    }
}

pub proof fn lemma_first_binding_absent<X>(b: Seq<(Seq<char>, X)>, n: Seq<char>)
    requires
        forall|j: int| 0 <= j < b.len() ==> b[j].0 != n,
    ensures
        first_binding(b, n) is None,
    decreases b.len(),
{
    if b.len() > 0 {
        lemma_first_binding_absent(b.drop_first(), n);
    }
}

/// The reference environment one `require`/`ensure` clause resolves against,
/// in resolution order. An `ensure` has `result` set and no signals; a
/// `require` has no `result` and carries the interface's signals.
pub struct ContractScope<'a> {
    pub params: &'a [(String, ExprType)],
    pub result: Option<ExprType>,
    pub signals: &'a [(String, ExprType)],
    pub vocabulary: &'a ContractVocabulary,
    pub resolution: &'a Resolution,
}

impl Default for ExprRefs {
    fn default() -> (r: ExprRefs)
        ensures
            refs_view(r) == no_refs(),
    {
        let r = ExprRefs {
            params: Vec::new(),
            signals: Vec::new(),
            uses_result: false,
            consts: Vec::new(),
            enum_types: Vec::new(),
        };
        assert(strs_view(r.params@) =~= Seq::empty());
        assert(strs_view(r.signals@) =~= Seq::empty());
        assert(strs_view(r.consts@) =~= Seq::empty());
        assert(strs_view(r.enum_types@) =~= Seq::empty());
        r
    }
}

/// The canonical reference of a resolved symbol: always the fully qualified
/// `package.Name`, whichever package is being checked.
pub fn qualified_ref(symbol: &Symbol) -> (r: String)
    ensures
        r@ == symbol.package@ + "."@ + symbol.name@,
{
    let mut text = String::from_str(symbol.package.as_str());
    text.append(".");
    text.append(symbol.name.as_str());
    text
}

/// The model of a [`ContractScope`].
pub struct SScope {
    pub params: Seq<(Seq<char>, SType)>,
    pub result: Option<SType>,
    pub signals: Seq<(Seq<char>, SType)>,
    pub consts: Seq<(Seq<char>, SType)>,
    pub enums: Seq<(Seq<char>, SEnum)>,
    pub symbols: Seq<(String, crate::resolve::Symbol)>,
}

pub open spec fn scope_view(scope: &ContractScope) -> SScope {
    SScope {
        params: ty_bindings(scope.params@),
        result: opt_ty_view(scope.result),
        signals: ty_bindings(scope.signals@),
        consts: ty_bindings(scope.vocabulary.consts@),
        enums: enum_bindings(scope.vocabulary.enums@),
        symbols: scope.resolution.symbols@,
    }
}

/// The references one clause reads, resolved. Each list keeps
/// first-mention order and holds no duplicate.
#[derive(Debug, PartialEq, Eq)]
pub struct ExprRefs {
    pub params: Vec<String>,
    pub signals: Vec<String>,
    pub uses_result: bool,
    pub consts: Vec<String>,
    /// The enum types named as the head of an `Enum.MEMBER` access.
    pub enum_types: Vec<String>,
}

// ==========================================================================
// The typing rules
// ==========================================================================

pub type SDiags = Seq<(DiagCode, Severity, usize, TextRange)>;

/// A RIDL-306 error at `range`.
pub open spec fn err306(range: TextRange) -> (DiagCode, Severity, usize, TextRange) {
    (DiagCode::RIDL_306, Severity::Error, DETACHED, range)
}

pub open spec fn is_upper(c: char) -> bool {
    'A' <= c <= 'Z'
}

pub open spec fn is_lower(c: char) -> bool {
    'a' <= c <= 'z'
}

/// `SCREAMING_SNAKE`: an upper-case first letter and no lower-case letter.
pub open spec fn screaming_snake(s: Seq<char>) -> bool {
    s.len() > 0 && is_upper(s[0]) && forall|i: int| 0 <= i < s.len() ==> !is_lower(#[trigger] s[i])
}

/// `CamelCase`: an upper-case first letter and some lower-case letter.
pub open spec fn camel_case(s: Seq<char>) -> bool {
    s.len() > 0 && is_upper(s[0]) && exists|i: int| 0 <= i < s.len() && is_lower(#[trigger] s[i])
}

/// A reference in the environment whose declared type is outside the five
/// domains is RIDL-306; every other type passes through.
pub open spec fn in_domain_rule(t: SType, range: TextRange) -> (Option<SType>, SDiags) {
    match t {
        SType::Unsupported(_) => (None, seq![err306(range)]),
        _ => (Some(t), Seq::empty()),
    }
}

/// A bare name, resolved in the order parameter, `result`, signal, constant.
pub open spec fn path_rule(name: Seq<char>, range: TextRange, sc: SScope) -> (Option<SType>, SDiags) {
    match first_binding(sc.params, name) {
        Some(t) => in_domain_rule(t, range),
        None => if name == "result"@ {
            match sc.result {
                Some(t) => in_domain_rule(t, range),
                None => (None, seq![err306(range)]),
            }
        } else {
            match first_binding(sc.signals, name) {
                Some(t) => in_domain_rule(t, range),
                None => match first_binding(sc.consts, name) {
                    Some(t) => in_domain_rule(t, range),
                    None => (None, seq![err306(range)]),
                },
            }
        },
    }
}

/// The enum a bare head names when no value in scope shadows it.
pub open spec fn enum_head(base: Expr, sc: SScope) -> Option<SEnum> {
    match base {
        Expr::Path { name: Some(t), .. } => if first_binding(sc.params, t.text@) is Some
            || first_binding(sc.signals, t.text@) is Some || first_binding(sc.consts, t.text@) is Some {
            None
        } else {
            first_binding(sc.enums, t.text@)
        },
        _ => None,
    }
}

/// Nominal unification of two numeric references: a bare
/// literal (the empty reference) unifies with any numeric; two named types
/// unify only when they name one declaration.
pub open spec fn numeric_join(left: Seq<char>, right: Seq<char>) -> Option<Seq<char>> {
    if left.len() == 0 {
        Some(right)
    } else if right.len() == 0 || left == right {
        Some(left)
    } else {
        None
    }
}

pub open spec fn is_boolean_type(t: SType) -> bool {
    t is Boolean
}

/// The typing rule of one binary operator over two typed operands.
pub open spec fn binary_rule(kind: TokenKind, a: SType, b: SType, range: TextRange) -> (
    Option<SType>,
    SDiags,
) {
    let boolean = (Some(SType::Boolean), Seq::<(DiagCode, Severity, usize, TextRange)>::empty());
    let refused = (None::<SType>, seq![err306(range)]);
    match kind {
        TokenKind::PipePipe | TokenKind::AmpAmp => if a is Boolean && b is Boolean {
            boolean
        } else {
            refused
        },
        TokenKind::EqEq | TokenKind::Neq => if match (a, b) {
            (SType::Boolean, SType::Boolean) => true,
            (SType::Duration, SType::Duration) => true,
            (SType::Numeric(l, _), SType::Numeric(r, _)) => numeric_join(l, r) is Some,
            (SType::EnumType(l), SType::EnumType(r)) => l == r,
            _ => false,
        } {
            boolean
        } else {
            refused
        },
        TokenKind::Lt | TokenKind::Le | TokenKind::Gt | TokenKind::Ge => if match (a, b) {
            (SType::Duration, SType::Duration) => true,
            (SType::Numeric(l, _), SType::Numeric(r, _)) => numeric_join(l, r) is Some,
            _ => false,
        } {
            boolean
        } else {
            refused
        },
        TokenKind::Plus | TokenKind::Minus | TokenKind::Star | TokenKind::Slash
        | TokenKind::Percent => match (a, b) {
            (SType::Numeric(l, lb), SType::Numeric(r, rb)) => match numeric_join(l, r) {
                Some(u) => if kind == TokenKind::Percent && backing_join(lb, rb)
                    != NumericBacking::Integer {
                    refused
                } else {
                    (Some(SType::Numeric(u, backing_join(lb, rb))), Seq::empty())
                },
                None => refused,
            },
            _ => refused,
        },
        _ => (None, Seq::empty()),
    }
}

/// The type of `e` under `sc` and the diagnostics inferring it raises, in
/// order. Every diagnostic is RIDL-306.
pub open spec fn spec_infer(e: Expr, sc: SScope) -> (Option<SType>, SDiags)
    decreases e,
{
    match e {
        Expr::Literal { token, .. } => match token {
            Some(t) => match t.kind {
                TokenKind::IntNumber => (
                    Some(SType::Numeric(Seq::empty(), NumericBacking::Integer)),
                    Seq::empty(),
                ),
                TokenKind::FloatNumber => (
                    Some(SType::Numeric(Seq::empty(), NumericBacking::Float)),
                    Seq::empty(),
                ),
                TokenKind::Duration => (Some(SType::Duration), Seq::empty()),
                TokenKind::TrueKw | TokenKind::FalseKw => (Some(SType::Boolean), Seq::empty()),
                TokenKind::String | TokenKind::Regex => (None, seq![err306(t.range)]),
                _ => (None, Seq::empty()),
            },
            None => (None, Seq::empty()),
        },
        Expr::Paren { inner, .. } => match inner {
            Some(b) => spec_infer(*b, sc),
            None => (None, Seq::empty()),
        },
        Expr::Path { name, .. } => match name {
            Some(t) => path_rule(t.text@, t.range, sc),
            None => (None, Seq::empty()),
        },
        Expr::Prefix { op, operand, range } => match operand {
            None => (None, Seq::empty()),
            Some(b) => {
                let (t, ds) = spec_infer(*b, sc);
                match (op, t) {
                    (Some(o), Some(t)) => match o.kind {
                        TokenKind::Bang => if t is Boolean {
                            (Some(t), ds)
                        } else {
                            (None, ds.push(err306(range)))
                        },
                        TokenKind::Minus => if t is Numeric {
                            (Some(t), ds)
                        } else {
                            (None, ds.push(err306(range)))
                        },
                        _ => (None, ds),
                    },
                    _ => (None, ds),
                }
            },
        },
        Expr::Member { base, member, range } => match (base, member) {
            (Some(b), Some(m)) => {
                let name = m.text@;
                if camel_case(name) {
                    (None, seq![err306(range)])
                } else if screaming_snake(name) {
                    match enum_head(*b, sc) {
                        Some(d) => if d.members.contains(name) {
                            (Some(SType::EnumType(d.reference)), Seq::empty())
                        } else {
                            (None, seq![err306(range)])
                        },
                        None => {
                            let ds = spec_infer(*b, sc).1;
                            if ds.len() == 0 {
                                (None, seq![err306(range)])
                            } else {
                                (None, ds)
                            }
                        },
                    }
                } else {
                    let (t, ds) = spec_infer(*b, sc);
                    match t {
                        Some(SType::Tuple(encoded)) => match encoded_field(encoded, name) {
                            Some(f) => {
                                let (ft, fd) = in_domain_rule(f, range);
                                (ft, ds + fd)
                            },
                            None => (None, ds.push(err306(range))),
                        },
                        Some(_) => (None, ds.push(err306(range))),
                        None => (None, ds),
                    }
                }
            },
            _ => (None, Seq::empty()),
        },
        Expr::Binary { lhs, op, rhs, range } => {
            let (lt, ld) = match lhs {
                Some(l) => spec_infer(*l, sc),
                None => (None, Seq::empty()),
            };
            let (rt, rd) = match rhs {
                Some(r) => spec_infer(*r, sc),
                None => (None, Seq::empty()),
            };
            let ds = ld + rd;
            match (op, lt, rt) {
                (Some(o), Some(a), Some(b)) => {
                    let (t, d) = binary_rule(o.kind, a, b, range);
                    (t, ds + d)
                },
                _ => (None, ds),
            }
        },
    }
}

// ==========================================================================
// Type checking
// ==========================================================================

fn error(out: &mut Vec<Diagnostic>, range: TextRange, message: String)
    ensures
        diags_view(final(out)@) == diags_view(old(out)@).push(err306(range)),
        diag_messages(final(out)@) == diag_messages(old(out)@).push(message@),
{
    let ghost text = message@;
    out.push(
        Diagnostic {
            code: DiagCode::RIDL_306,
            severity: Severity::Error,
            message,
            file: DETACHED,
            range,
        },
    );
    assert(diags_view(out@) =~= diags_view(old(out)@).push(err306(range)));
    assert(diag_messages(out@) =~= diag_messages(old(out)@).push(text));
}

/// Whether `name` is `SCREAMING_SNAKE` ([`screaming_snake`]).
pub fn is_screaming_snake(name: &str) -> (r: bool)
    ensures
        r == screaming_snake(name@),
{
    let cs = str_to_chars(name);
    if cs.len() == 0 || !('A' <= cs[0] && cs[0] <= 'Z') {
        return false;
    }
    let mut i: usize = 0;
    while i < cs.len()
        invariant
            i <= cs.len(),
            cs@ == name@,
            cs.len() > 0,
            is_upper(cs@[0]),
            forall|j: int| 0 <= j < i ==> !is_lower(#[trigger] cs@[j]),
        decreases cs.len() - i,
    {
        if 'a' <= cs[i] && cs[i] <= 'z' {
            assert(is_lower(cs@[i as int]));
            return false;
        }
        i = i + 1;
    }
    true
}

/// Whether `name` is `CamelCase` ([`camel_case`]).
pub fn is_camel_case(name: &str) -> (r: bool)
    ensures
        r == camel_case(name@),
{
    let cs = str_to_chars(name);
    if cs.len() == 0 || !('A' <= cs[0] && cs[0] <= 'Z') {
        return false;
    }
    let mut i: usize = 0;
    while i < cs.len()
        invariant
            i <= cs.len(),
            cs@ == name@,
            cs.len() > 0,
            is_upper(cs@[0]),
            forall|j: int| 0 <= j < i ==> !is_lower(#[trigger] cs@[j]),
        decreases cs.len() - i,
    {
        if 'a' <= cs[i] && cs[i] <= 'z' {
            assert(is_lower(name@[i as int]));
            return true;
        }
        i = i + 1;
    }
    false
}

/// Nominal unification of two numeric references ([`numeric_join`]).
pub fn unify_numeric(left: &str, right: &str) -> (r: Option<String>)
    ensures
        match r {
            Some(u) => numeric_join(left@, right@) == Some(u@),
            None => numeric_join(left@, right@) is None,
        },
{
    if left.is_empty() {
        Some(String::from_str(right))
    } else if right.is_empty() || str_eq(left, right) {
        Some(String::from_str(left))
    } else {
        None
    }
}

/// The message for two operands outside an operator's domain.
fn mismatch(op: &str, expected: &str, lhs: &ExprType, rhs: &ExprType) -> (r: String)
    ensures
        r@ == "`"@ + op@ + "` requires "@ + expected@ + ", found "@ + describe_type(ty_view(*lhs))
            + " and "@ + describe_type(ty_view(*rhs)) + " (expr-core §5.2)"@,
{
    let mut text = String::from_str("`");
    text.append(op);
    text.append("` requires ");
    text.append(expected);
    text.append(", found ");
    text.append(lhs.describe().as_str());
    text.append(" and ");
    text.append(rhs.describe().as_str());
    text.append(" (expr-core §5.2)");
    text
}

fn in_domain(found: ExprType, name: &str, noun: &str, range: TextRange, out: &mut Vec<Diagnostic>) -> (r:
    Option<ExprType>)
    ensures
        opt_ty_view(r) == in_domain_rule(ty_view(found), range).0,
        diags_view(final(out)@) == diags_view(old(out)@) + in_domain_rule(ty_view(found), range).1,
        diag_messages(final(out)@) == diag_messages(old(out)@) + domain_messages(ty_view(found), name@, noun@),
{
    match found {
        ExprType::Unsupported(declared) => {
            let mut text = String::from_str("`");
            text.append(name);
            text.append("` is a ");
            text.append(noun);
            text.append(" of type `");
            text.append(declared.as_str());
            text.append(
                "`, which is outside the guaranteed subset — a contract expression types boolean, numeric, duration, enum, and tuple values (expr-core §5.1)",
            );
            error(out, range, text);
            assert(seq![err306(range)] =~= Seq::empty().push(err306(range)));
            assert(diag_messages(out@) =~= diag_messages(old(out)@) + domain_messages(
                ty_view(ExprType::Unsupported(declared)),
                name@,
                noun@,
            ));
            None
        },
        typed => {
            assert(diags_view(out@) + Seq::empty() =~= diags_view(out@));
            assert(diag_messages(out@) + Seq::empty() =~= diag_messages(out@));
            Some(typed)
        },
    }
}

/// The message for a name that resolves to nothing a clause can see: an
/// `ensure` (a clause with a `result`) and a `require` see different names.
pub open spec fn unresolved_text(name: Seq<char>, in_ensure: bool) -> Seq<char> {
    "`"@ + name + if in_ensure {
        "` does not resolve here — an `ensure` sees `result`, the parameters, constants, and enum types only; the interface's own signals are readable in a `require` (ridl §13, expr-core §6)"@
    } else {
        "` does not resolve here — a `require` sees the parameters, the interface's own signals, constants, and enum types (expr-core §6)"@
    }
}

fn unresolved_message(name: &str, scope: &ContractScope) -> (r: String)
    ensures
        r@ == unresolved_text(name@, scope.result is Some),
{
    let mut text = String::from_str("`");
    text.append(name);
    if scope.result.is_some() {
        text.append(
            "` does not resolve here — an `ensure` sees `result`, the parameters, constants, and enum types only; the interface's own signals are readable in a `require` (ridl §13, expr-core §6)",
        );
    } else {
        text.append(
            "` does not resolve here — a `require` sees the parameters, the interface's own signals, constants, and enum types (expr-core §6)",
        );
    }
    text
}

fn infer_path(name: &str, range: TextRange, scope: &ContractScope, out: &mut Vec<Diagnostic>) -> (r:
    Option<ExprType>)
    ensures
        opt_ty_view(r) == path_rule(name@, range, scope_view(scope)).0,
        diags_view(final(out)@) == diags_view(old(out)@) + path_rule(name@, range, scope_view(scope)).1,
        diag_messages(final(out)@) == diag_messages(old(out)@) + path_messages(name@, scope_view(scope)),
{
    if let Some(found) = lookup(scope.params, name) {
        return in_domain(found, name, "parameter", range, out);
    }
    if str_eq(name, "result") {
        return match &scope.result {
            Some(found) => in_domain(found.copy(), name, "query result", range, out),
            None => {
                error(
                    out,
                    range,
                    String::from_str(
                        "`result` is not in scope here — `result` exists in an `ensure` on a query (expr-core §6)",
                    ),
                );
                assert(seq![err306(range)] =~= Seq::empty().push(err306(range)));
                assert(diag_messages(out@) =~= diag_messages(old(out)@) + path_messages(name@, scope_view(scope)));
                None
            },
        };
    }
    if let Some(found) = lookup(scope.signals, name) {
        return in_domain(found, name, "signal", range, out);
    }
    if let Some(found) = scope.vocabulary.const_type(name) {
        return in_domain(found, name, "constant", range, out);
    }
    let mut text = String::from_str("`");
    text.append(name);
    match scope.resolution.kind_of(name) {
        Some(SymbolKind::Enum) => {
            text.append("` names an enum type, which has no value — write `");
            text.append(name);
            text.append(".MEMBER` (expr-core §5.3)");
        },
        Some(_) => {
            text.append(
                "` names a declaration that is not a value of the guaranteed subset — a contract references parameters, `result`, the interface's own signals, constants, and enum types (expr-core §6)",
            );
        },
        None => {
            text = unresolved_message(name, scope);
        },
    }
    let ghost text_view = text@;
    error(out, range, text);
    assert(seq![err306(range)] =~= Seq::empty().push(err306(range)));
    assert(seq![text_view] =~= path_messages(name@, scope_view(scope)));
    assert(diag_messages(out@) =~= diag_messages(old(out)@) + path_messages(name@, scope_view(scope)));
    None
}

/// The enum declaration when `base` is a bare name that resolves to an enum
/// type and is not shadowed by a value in scope ([`enum_head`]).
fn enum_type_head<'a>(base: &Expr, scope: &'a ContractScope) -> (r: Option<&'a EnumDecl>)
    ensures
        match r {
            Some(d) => enum_head(*base, scope_view(scope)) == Some(enum_view(*d)),
            None => enum_head(*base, scope_view(scope)) is None,
        },
{
    match base {
        Expr::Path { name: Some(token), .. } => {
            let name = token.text.as_str();
            if lookup(scope.params, name).is_some() || lookup(scope.signals, name).is_some()
                || scope.vocabulary.const_type(name).is_some() {
                return None;
            }
            scope.vocabulary.enum_decl(name)
        },
        _ => None,
    }
}

fn infer(expr: &Expr, scope: &ContractScope, out: &mut Vec<Diagnostic>) -> (r: Option<ExprType>)
    ensures
        opt_ty_view(r) == spec_infer(*expr, scope_view(scope)).0,
        diags_view(final(out)@) == diags_view(old(out)@) + spec_infer(*expr, scope_view(scope)).1,
        diag_messages(final(out)@) == diag_messages(old(out)@) + infer_messages(*expr, scope_view(scope)),
    decreases *expr, 1nat,
{
    match expr {
        Expr::Literal { token, .. } => match token {
            Some(token) => infer_literal(token.kind, token.range, out),
            None => {
                assert(diags_view(out@) + Seq::empty() =~= diags_view(out@));
                assert(diag_messages(out@) + Seq::empty() =~= diag_messages(out@));
                None
            },
        },
        Expr::Paren { inner, .. } => match inner {
            Some(inner) => infer(inner, scope, out),
            None => {
                assert(diags_view(out@) + Seq::empty() =~= diags_view(out@));
                assert(diag_messages(out@) + Seq::empty() =~= diag_messages(out@));
                None
            },
        },
        Expr::Path { name, .. } => match name {
            Some(token) => infer_path(token.text.as_str(), token.range, scope, out),
            None => {
                assert(diags_view(out@) + Seq::empty() =~= diags_view(out@));
                assert(diag_messages(out@) + Seq::empty() =~= diag_messages(out@));
                None
            },
        },
        Expr::Prefix { .. } => infer_prefix(expr, scope, out),
        Expr::Member { .. } => infer_member(expr, scope, out),
        Expr::Binary { .. } => infer_binary(expr, scope, out),
    }
}

fn infer_literal(kind: TokenKind, range: TextRange, out: &mut Vec<Diagnostic>) -> (r: Option<ExprType>)
    ensures
        opt_ty_view(r) == spec_infer(
            Expr::Literal {
                token: Some(crate::syntax::Token { kind, text: arbitrary(), range }),
                range: arbitrary(),
            },
            arbitrary(),
        ).0,
        diags_view(final(out)@) == diags_view(old(out)@) + spec_infer(
            Expr::Literal {
                token: Some(crate::syntax::Token { kind, text: arbitrary(), range }),
                range: arbitrary(),
            },
            arbitrary(),
        ).1,
        diag_messages(final(out)@) == diag_messages(old(out)@) + if kind == TokenKind::String || kind
            == TokenKind::Regex {
            seq![
                "string or regex literal in a contract expression — no operator of the guaranteed subset works over strings or bytes (expr-core §5.3)"@,
            ]
        } else {
            Seq::empty()
        },
{
    assert(diags_view(out@) + Seq::empty() =~= diags_view(out@));
    assert(diag_messages(out@) + Seq::empty() =~= diag_messages(out@));
    match kind {
        TokenKind::IntNumber => Some(ExprType::Numeric(String::new(), NumericBacking::Integer)),
        TokenKind::FloatNumber => Some(ExprType::Numeric(String::new(), NumericBacking::Float)),
        TokenKind::Duration => Some(ExprType::Duration),
        TokenKind::TrueKw | TokenKind::FalseKw => Some(ExprType::Boolean),
        TokenKind::String | TokenKind::Regex => {
            error(
                out,
                range,
                String::from_str(
                    "string or regex literal in a contract expression — no operator of the guaranteed subset works over strings or bytes (expr-core §5.3)",
                ),
            );
            assert(seq![err306(range)] =~= Seq::empty().push(err306(range)));
            assert(diag_messages(out@) =~= diag_messages(old(out)@) + seq![
                "string or regex literal in a contract expression — no operator of the guaranteed subset works over strings or bytes (expr-core §5.3)"@,
            ]);
            None
        },
        _ => None,
    }
}

fn infer_prefix(expr: &Expr, scope: &ContractScope, out: &mut Vec<Diagnostic>) -> (r: Option<ExprType>)
    requires
        expr is Prefix,
    ensures
        opt_ty_view(r) == spec_infer(*expr, scope_view(scope)).0,
        diags_view(final(out)@) == diags_view(old(out)@) + spec_infer(*expr, scope_view(scope)).1,
        diag_messages(final(out)@) == diag_messages(old(out)@) + infer_messages(*expr, scope_view(scope)),
    decreases *expr, 0nat,
{
    let ghost start = diags_view(out@);
    let ghost start_messages = diag_messages(out@);
    let (op, operand, range) = match expr {
        Expr::Prefix { op, operand, range } => (op, operand, *range),
        _ => {
            return None;
        },
    };
    let operand = match operand {
        Some(operand) => operand,
        None => {
            assert(diags_view(out@) + Seq::empty() =~= diags_view(out@));
            return None;
        },
    };
    let inferred = infer(operand, scope, out);
    let token = match op {
        Some(token) => token,
        None => {
            return None;
        },
    };
    let operand_type = match inferred {
        Some(t) => t,
        None => {
            return None;
        },
    };
    match token.kind {
        TokenKind::Bang => {
            if operand_type.is_boolean() {
                Some(operand_type)
            } else {
                let mut text = String::from_str("`!` requires a boolean operand, found ");
                text.append(operand_type.describe().as_str());
                text.append(" (expr-core §5.3)");
                let ghost mid = diags_view(out@);
                error(out, range, text);
                assert(diags_view(out@) =~= start + (mid.subrange(start.len() as int, mid.len() as int)).push(err306(range)));
                None
            }
        },
        TokenKind::Minus => {
            if let ExprType::Numeric(_, _) = operand_type {
                Some(operand_type)
            } else {
                let mut text = String::from_str("unary `-` requires a numeric operand, found ");
                text.append(operand_type.describe().as_str());
                text.append(" (expr-core §5.3)");
                let ghost mid = diags_view(out@);
                error(out, range, text);
                assert(diags_view(out@) =~= start + (mid.subrange(start.len() as int, mid.len() as int)).push(err306(range)));
                None
            }
        },
        _ => None,
    }
}

fn infer_member(expr: &Expr, scope: &ContractScope, out: &mut Vec<Diagnostic>) -> (r: Option<ExprType>)
    requires
        expr is Member,
    ensures
        opt_ty_view(r) == spec_infer(*expr, scope_view(scope)).0,
        diags_view(final(out)@) == diags_view(old(out)@) + spec_infer(*expr, scope_view(scope)).1,
        diag_messages(final(out)@) == diag_messages(old(out)@) + infer_messages(*expr, scope_view(scope)),
    decreases *expr, 0nat,
{
    let ghost start = diags_view(out@);
    let ghost start_messages = diag_messages(out@);
    let (base, member, range) = match expr {
        Expr::Member { base, member, range } => (base, member, *range),
        _ => {
            return None;
        },
    };
    let (base, token) = match (base, member) {
        (Some(base), Some(token)) => (base, token),
        _ => {
            assert(diags_view(out@) + Seq::empty() =~= diags_view(out@));
            return None;
        },
    };
    let name = token.text.as_str();
    if is_camel_case(name) {
        let mut text = String::from_str("`.");
        text.append(name);
        text.append(
            "` names a type, not a member — a qualified path such as `pkg.Name.MEMBER` is not expressible in a contract expression; references resolve through the file's imports (expr-core §3.1)",
        );
        error(out, range, text);
        assert(seq![err306(range)] =~= Seq::empty().push(err306(range)));
        return None;
    }
    if is_screaming_snake(name) {
        if let Some(declared) = enum_type_head(base, scope) {
            if !declared.has_member(name) {
                let mut text = String::from_str("`");
                text.append(declared.reference.as_str());
                text.append("` has no member `");
                text.append(name);
                text.append("` (expr-core §5.3)");
                error(out, range, text);
                assert(seq![err306(range)] =~= Seq::empty().push(err306(range)));
                return None;
            }
            assert(diags_view(out@) + Seq::empty() =~= diags_view(out@));
            return Some(ExprType::EnumType(declared.reference.clone()));
        }
        let reported = out.len();
        let _ = infer(base, scope, out);
        if out.len() == reported {
            let mut text = String::from_str("`.");
            text.append(name);
            text.append(
                "` is an enum member access, which needs an enum type name on the left (expr-core §5.3)",
            );
            error(out, range, text);
            assert(diags_view(out@) =~= start + seq![err306(range)]);
        }
        return None;
    }
    let inferred = infer(base, scope, out);
    let ghost mid = diags_view(out@);
    match inferred {
        Some(ExprType::Tuple(encoded)) => match ExprType::tuple_field(encoded.as_str(), name) {
            Some(field) => {
                let r = in_domain(field, name, "tuple field", range, out);
                assert(diags_view(out@) =~= start + (mid.subrange(start.len() as int, mid.len() as int) + (diags_view(out@).subrange(mid.len() as int, diags_view(out@).len() as int))));
                r
            },
            None => {
                let mut text = String::from_str("the result tuple has no field `");
                text.append(name);
                text.append("` (expr-core §5.3)");
                error(out, range, text);
                assert(diags_view(out@) =~= start + (mid.subrange(start.len() as int, mid.len() as int)).push(err306(range)));
                None
            },
        },
        Some(other) => {
            let mut text = String::from_str("field access `.");
            text.append(name);
            text.append("` on ");
            text.append(other.describe().as_str());
            text.append(
                " — the guaranteed subset admits field access on a tuple-typed `result` only (expr-core §5.1)",
            );
            error(out, range, text);
            assert(diags_view(out@) =~= start + (mid.subrange(start.len() as int, mid.len() as int)).push(err306(range)));
            None
        },
        None => None,
    }
}

fn infer_binary(expr: &Expr, scope: &ContractScope, out: &mut Vec<Diagnostic>) -> (r: Option<ExprType>)
    requires
        expr is Binary,
    ensures
        opt_ty_view(r) == spec_infer(*expr, scope_view(scope)).0,
        diags_view(final(out)@) == diags_view(old(out)@) + spec_infer(*expr, scope_view(scope)).1,
        diag_messages(final(out)@) == diag_messages(old(out)@) + infer_messages(*expr, scope_view(scope)),
    decreases *expr, 0nat,
{
    let ghost start = diags_view(out@);
    let ghost start_messages = diag_messages(out@);
    let (lhs, op, rhs, range) = match expr {
        Expr::Binary { lhs, op, rhs, range } => (lhs, op, rhs, *range),
        _ => {
            return None;
        },
    };
    // Both sides are inferred before either is judged.
    let left = match lhs {
        Some(lhs) => infer(lhs, scope, out),
        None => {
            assert(diags_view(out@) + Seq::empty() =~= diags_view(out@));
            None
        },
    };
    let ghost after_left = diags_view(out@);
    let right = match rhs {
        Some(rhs) => infer(rhs, scope, out),
        None => {
            assert(diags_view(out@) + Seq::empty() =~= diags_view(out@));
            None
        },
    };
    let ghost after_right = diags_view(out@);
    assert(after_right =~= start + (after_left.subrange(start.len() as int, after_left.len() as int)
        + after_right.subrange(after_left.len() as int, after_right.len() as int)));
    let token = match op {
        Some(token) => token,
        None => {
            return None;
        },
    };
    let (left, right) = match (left, right) {
        (Some(left), Some(right)) => (left, right),
        _ => {
            return None;
        },
    };
    let op_text = token.text.as_str();
    let ghost mid = diags_view(out@);
    match token.kind {
        TokenKind::PipePipe | TokenKind::AmpAmp => {
            if left.is_boolean() && right.is_boolean() {
                assert(mid + Seq::empty() =~= mid);
                Some(ExprType::Boolean)
            } else {
                let mut text = String::from_str("`");
                text.append(op_text);
                text.append("` requires boolean operands, found ");
                text.append(left.describe().as_str());
                text.append(" and ");
                text.append(right.describe().as_str());
                text.append(" (expr-core §5.3)");
                error(out, range, text);
                assert(diags_view(out@) =~= mid + seq![err306(range)]);
                None
            }
        },
        TokenKind::EqEq | TokenKind::Neq => {
            let unifies = match (&left, &right) {
                (ExprType::Boolean, ExprType::Boolean) => true,
                (ExprType::Duration, ExprType::Duration) => true,
                (ExprType::Numeric(l, _), ExprType::Numeric(r, _)) => unify_numeric(
                    l.as_str(),
                    r.as_str(),
                ).is_some(),
                (ExprType::EnumType(l), ExprType::EnumType(r)) => str_eq(l.as_str(), r.as_str()),
                _ => false,
            };
            if unifies {
                assert(mid + Seq::empty() =~= mid);
                Some(ExprType::Boolean)
            } else {
                error(out, range, mismatch(op_text, "operands of one domain", &left, &right));
                assert(diags_view(out@) =~= mid + seq![err306(range)]);
                None
            }
        },
        TokenKind::Lt | TokenKind::Le | TokenKind::Gt | TokenKind::Ge => {
            let ordered = match (&left, &right) {
                (ExprType::Duration, ExprType::Duration) => true,
                (ExprType::Numeric(l, _), ExprType::Numeric(r, _)) => unify_numeric(
                    l.as_str(),
                    r.as_str(),
                ).is_some(),
                _ => false,
            };
            if ordered {
                assert(mid + Seq::empty() =~= mid);
                Some(ExprType::Boolean)
            } else {
                let both_enums = match (&left, &right) {
                    (ExprType::EnumType(_), ExprType::EnumType(_)) => true,
                    _ => false,
                };
                let text = if both_enums {
                    let mut text = String::from_str("`");
                    text.append(op_text);
                    text.append(
                        "` orders enum values — enums support `==` and `!=` only (expr-core §5.3)",
                    );
                    text
                } else {
                    mismatch(op_text, "operands of one ordered domain", &left, &right)
                };
                error(out, range, text);
                assert(diags_view(out@) =~= mid + seq![err306(range)]);
                None
            }
        },
        TokenKind::Plus | TokenKind::Minus | TokenKind::Star | TokenKind::Slash
        | TokenKind::Percent => {
            let result = match (&left, &right) {
                (ExprType::Numeric(l, lb), ExprType::Numeric(r, rb)) => match unify_numeric(
                    l.as_str(),
                    r.as_str(),
                ) {
                    Some(unified) => Some((unified, unify_backing(*lb, *rb))),
                    None => None,
                },
                _ => None,
            };
            let (reference, backing) = match result {
                Some(result) => result,
                None => {
                    let over_duration = match (&left, &right) {
                        (ExprType::Duration, _) => true,
                        (_, ExprType::Duration) => true,
                        _ => false,
                    };
                    let text = if over_duration {
                        let mut text = String::from_str("`");
                        text.append(op_text);
                        text.append(
                            "` over a duration — duration supports comparison only in the guaranteed subset (expr-core §5.3)",
                        );
                        text
                    } else {
                        mismatch(op_text, "numeric operands of one type", &left, &right)
                    };
                    error(out, range, text);
                    assert(diags_view(out@) =~= mid + seq![err306(range)]);
                    return None;
                },
            };
            if token.kind == TokenKind::Percent && backing != NumericBacking::Integer {
                let mut text = String::from_str("`%` requires integer-backed operands, found ");
                text.append(left.describe().as_str());
                text.append(" and ");
                text.append(right.describe().as_str());
                text.append(" (expr-core §5.3)");
                error(out, range, text);
                assert(diags_view(out@) =~= mid + seq![err306(range)]);
                return None;
            }
            assert(mid + Seq::empty() =~= mid);
            Some(ExprType::Numeric(reference, backing))
        },
        _ => {
            assert(mid + Seq::empty() =~= mid);
            None
        },
    }
}


// ==========================================================================
// Reference collection
// ==========================================================================

/// The model of [`ExprRefs`]: each list by the names it holds.
pub struct SRefs {
    pub params: Seq<Seq<char>>,
    pub signals: Seq<Seq<char>>,
    pub uses_result: bool,
    pub consts: Seq<Seq<char>>,
    pub enum_types: Seq<Seq<char>>,
}

pub open spec fn strs_view(v: Seq<String>) -> Seq<Seq<char>> {
    v.map_values(|s: String| s@)
}

pub open spec fn refs_view(r: ExprRefs) -> SRefs {
    SRefs {
        params: strs_view(r.params@),
        signals: strs_view(r.signals@),
        uses_result: r.uses_result,
        consts: strs_view(r.consts@),
        enum_types: strs_view(r.enum_types@),
    }
}

pub open spec fn no_refs() -> SRefs {
    SRefs {
        params: Seq::empty(),
        signals: Seq::empty(),
        uses_result: false,
        consts: Seq::empty(),
        enum_types: Seq::empty(),
    }
}

/// `list` with `name` appended unless it already holds it.
pub open spec fn with_name(list: Seq<Seq<char>>, name: Seq<char>) -> Seq<Seq<char>> {
    if list.contains(name) {
        list
    } else {
        list.push(name)
    }
}

/// What reading the bare name `name` adds to `acc`, resolved in the order
/// parameter, `result`, signal, constant; a name that is none of them adds
/// nothing.
pub open spec fn path_refs(name: Seq<char>, sc: SScope, acc: SRefs) -> SRefs {
    if first_binding(sc.params, name) is Some {
        SRefs { params: with_name(acc.params, name), ..acc }
    } else if name == "result"@ && sc.result is Some {
        SRefs { uses_result: true, ..acc }
    } else if first_binding(sc.signals, name) is Some {
        SRefs { signals: with_name(acc.signals, name), ..acc }
    } else if first_binding(sc.consts, name) is Some {
        SRefs { consts: with_name(acc.consts, name), ..acc }
    } else {
        acc
    }
}

/// Whether a member access is `Enum.MEMBER`: a `SCREAMING_SNAKE` member on a
/// head that names an enum type.
pub open spec fn is_enum_access(base: Expr, member: Option<crate::syntax::Token>, sc: SScope) -> bool {
    &&& member matches Some(m) && screaming_snake(m.text@)
    &&& enum_head(base, sc) is Some
}

/// The references `e` reads, added to `acc` left to right.
pub open spec fn refs_walk(e: Expr, sc: SScope, acc: SRefs) -> SRefs
    decreases e,
{
    match e {
        Expr::Literal { .. } => acc,
        Expr::Paren { inner, .. } => match inner {
            Some(b) => refs_walk(*b, sc, acc),
            None => acc,
        },
        Expr::Prefix { operand, .. } => match operand {
            Some(b) => refs_walk(*b, sc, acc),
            None => acc,
        },
        Expr::Binary { lhs, rhs, .. } => {
            let after = match lhs {
                Some(l) => refs_walk(*l, sc, acc),
                None => acc,
            };
            match rhs {
                Some(r) => refs_walk(*r, sc, after),
                None => after,
            }
        },
        Expr::Member { base, member, .. } => match base {
            None => acc,
            Some(b) => if is_enum_access(*b, member, sc) {
                match *b {
                    Expr::Path { name: Some(t), .. } => SRefs {
                        enum_types: with_name(acc.enum_types, t.text@),
                        ..acc
                    },
                    _ => acc,
                }
            } else {
                refs_walk(*b, sc, acc)
            },
        },
        Expr::Path { name, .. } => match name {
            Some(t) => path_refs(t.text@, sc, acc),
            None => acc,
        },
    }
}

/// Appends `name` to `list` unless the list already holds it.
fn push_once(list: &mut Vec<String>, name: &str)
    ensures
        strs_view(final(list)@) == with_name(strs_view(old(list)@), name@),
{
    let mut i: usize = 0;
    while i < list.len()
        invariant
            i <= list.len(),
            forall|j: int| 0 <= j < i ==> strs_view(list@)[j] != name@,
        decreases list.len() - i,
    {
        if str_eq(list[i].as_str(), name) {
            assert(strs_view(list@)[i as int] == name@);
            assert(strs_view(list@).contains(name@));
            return;
        }
        i = i + 1;
    }
    assert(!strs_view(list@).contains(name@)) by {
        if strs_view(list@).contains(name@) {
            let k = choose|k: int| 0 <= k < strs_view(list@).len() && strs_view(list@)[k] == name@;
            assert(strs_view(list@)[k] != name@);
        }
    }
    let ghost before = list@;
    list.push(String::from_str(name));
    assert(strs_view(list@) =~= strs_view(before).push(name@));
}

fn walk_refs(expr: &Expr, scope: &ContractScope, refs: &mut ExprRefs)
    ensures
        refs_view(*final(refs)) == refs_walk(*expr, scope_view(scope), refs_view(*old(refs))),
    decreases *expr,
{
    match expr {
        Expr::Literal { .. } => {},
        Expr::Paren { inner, .. } => {
            if let Some(inner) = inner {
                walk_refs(inner, scope, refs);
            }
        },
        Expr::Prefix { operand, .. } => {
            if let Some(operand) = operand {
                walk_refs(operand, scope, refs);
            }
        },
        Expr::Binary { lhs, rhs, .. } => {
            if let Some(lhs) = lhs {
                walk_refs(lhs, scope, refs);
            }
            if let Some(rhs) = rhs {
                walk_refs(rhs, scope, refs);
            }
        },
        Expr::Member { base, member, .. } => {
            let base = match base {
                Some(base) => base,
                None => {
                    return;
                },
            };
            let snake = match member {
                Some(token) => is_screaming_snake(token.text.as_str()),
                None => false,
            };
            let enum_access = snake && enum_type_head(base, scope).is_some();
            if enum_access {
                if let Expr::Path { name: Some(token), .. } = &**base {
                    push_once(&mut refs.enum_types, token.text.as_str());
                }
            } else {
                walk_refs(base, scope, refs);
            }
        },
        Expr::Path { name, .. } => {
            let token = match name {
                Some(token) => token,
                None => {
                    return;
                },
            };
            let name = token.text.as_str();
            if lookup(scope.params, name).is_some() {
                push_once(&mut refs.params, name);
            } else if str_eq(name, "result") && scope.result.is_some() {
                refs.uses_result = true;
            } else if lookup(scope.signals, name).is_some() {
                push_once(&mut refs.signals, name);
            } else if scope.vocabulary.const_type(name).is_some() {
                push_once(&mut refs.consts, name);
            }
        },
    }
}

/// The references `expr` reads, resolved against `scope` in the order the
/// checker resolves them ([`refs_walk`]). The enum type named as the head of
/// an `Enum.MEMBER` access is not a read; it is listed apart.
pub fn collect_refs(expr: &Expr, scope: &ContractScope) -> (r: ExprRefs)
    ensures
        refs_view(r) == refs_walk(*expr, scope_view(scope), no_refs()),
{
    let mut refs = ExprRefs::default();
    walk_refs(expr, scope, &mut refs);
    refs
}

// ==========================================================================
// The checker's messages
// ==========================================================================

/// The message for a reference whose declared type is outside the five
/// domains, naming the reference, what it is, and its type.
pub open spec fn domain_messages(t: SType, name: Seq<char>, noun: Seq<char>) -> Seq<Seq<char>> {
    match t {
        SType::Unsupported(declared) => seq![
            "`"@ + name + "` is a "@ + noun + " of type `"@ + declared
                + "`, which is outside the guaranteed subset — a contract expression types boolean, numeric, duration, enum, and tuple values (expr-core §5.1)"@,
        ],
        _ => Seq::empty(),
    }
}

/// The messages of [`path_rule`]: what a bare name is when it is no value a
/// clause can read — outside the domains, `result` where there is none, an
/// enum type, another declaration, or nothing a clause sees.
pub open spec fn path_messages(name: Seq<char>, sc: SScope) -> Seq<Seq<char>> {
    match first_binding(sc.params, name) {
        Some(t) => domain_messages(t, name, "parameter"@),
        None => if name == "result"@ {
            match sc.result {
                Some(t) => domain_messages(t, name, "query result"@),
                None => seq![
                    "`result` is not in scope here — `result` exists in an `ensure` on a query (expr-core §6)"@,
                ],
            }
        } else {
            match first_binding(sc.signals, name) {
                Some(t) => domain_messages(t, name, "signal"@),
                None => match first_binding(sc.consts, name) {
                    Some(t) => domain_messages(t, name, "constant"@),
                    None => seq![
                        match symbol_kind_of(sc.symbols, name) {
                            Some(SymbolKind::Enum) => "`"@ + name
                                + "` names an enum type, which has no value — write `"@ + name
                                + ".MEMBER` (expr-core §5.3)"@,
                            Some(_) => "`"@ + name
                                + "` names a declaration that is not a value of the guaranteed subset — a contract references parameters, `result`, the interface's own signals, constants, and enum types (expr-core §6)"@,
                            None => unresolved_text(name, sc.result is Some),
                        },
                    ],
                },
            }
        },
    }
}

/// The message for two operands outside an operator's domain.
pub open spec fn mismatch_text(op: Seq<char>, expected: Seq<char>, a: SType, b: SType) -> Seq<char> {
    "`"@ + op + "` requires "@ + expected + ", found "@ + describe_type(a) + " and "@ + describe_type(b)
        + " (expr-core §5.2)"@
}

/// The message of [`binary_rule`]'s refusal, if it refuses.
pub open spec fn binary_messages(kind: TokenKind, op: Seq<char>, a: SType, b: SType) -> Seq<Seq<char>> {
    match kind {
        TokenKind::PipePipe | TokenKind::AmpAmp => if a is Boolean && b is Boolean {
            Seq::empty()
        } else {
            seq![
                "`"@ + op + "` requires boolean operands, found "@ + describe_type(a) + " and "@
                    + describe_type(b) + " (expr-core §5.3)"@,
            ]
        },
        TokenKind::EqEq | TokenKind::Neq => if match (a, b) {
            (SType::Boolean, SType::Boolean) => true,
            (SType::Duration, SType::Duration) => true,
            (SType::Numeric(l, _), SType::Numeric(r, _)) => numeric_join(l, r) is Some,
            (SType::EnumType(l), SType::EnumType(r)) => l == r,
            _ => false,
        } {
            Seq::empty()
        } else {
            seq![mismatch_text(op, "operands of one domain"@, a, b)]
        },
        TokenKind::Lt | TokenKind::Le | TokenKind::Gt | TokenKind::Ge => if match (a, b) {
            (SType::Duration, SType::Duration) => true,
            (SType::Numeric(l, _), SType::Numeric(r, _)) => numeric_join(l, r) is Some,
            _ => false,
        } {
            Seq::empty()
        } else if a is EnumType && b is EnumType {
            seq!["`"@ + op + "` orders enum values — enums support `==` and `!=` only (expr-core §5.3)"@]
        } else {
            seq![mismatch_text(op, "operands of one ordered domain"@, a, b)]
        },
        TokenKind::Plus | TokenKind::Minus | TokenKind::Star | TokenKind::Slash
        | TokenKind::Percent => match (a, b) {
            (SType::Numeric(l, lb), SType::Numeric(r, rb)) if numeric_join(l, r) is Some => if kind
                == TokenKind::Percent && backing_join(lb, rb) != NumericBacking::Integer {
                seq![
                    "`%` requires integer-backed operands, found "@ + describe_type(a) + " and "@
                        + describe_type(b) + " (expr-core §5.3)"@,
                ]
            } else {
                Seq::empty()
            },
            _ => if a is Duration || b is Duration {
                seq![
                    "`"@ + op
                        + "` over a duration — duration supports comparison only in the guaranteed subset (expr-core §5.3)"@,
                ]
            } else {
                seq![mismatch_text(op, "numeric operands of one type"@, a, b)]
            },
        },
        _ => Seq::empty(),
    }
}

/// The messages of [`spec_infer`]'s diagnostics, in the same order.
pub open spec fn infer_messages(e: Expr, sc: SScope) -> Seq<Seq<char>>
    decreases e,
{
    match e {
        Expr::Literal { token, .. } => match token {
            Some(t) => if t.kind == TokenKind::String || t.kind == TokenKind::Regex {
                seq![
                    "string or regex literal in a contract expression — no operator of the guaranteed subset works over strings or bytes (expr-core §5.3)"@,
                ]
            } else {
                Seq::empty()
            },
            None => Seq::empty(),
        },
        Expr::Paren { inner, .. } => match inner {
            Some(b) => infer_messages(*b, sc),
            None => Seq::empty(),
        },
        Expr::Path { name, .. } => match name {
            Some(t) => path_messages(t.text@, sc),
            None => Seq::empty(),
        },
        Expr::Prefix { op, operand, .. } => match operand {
            None => Seq::empty(),
            Some(b) => {
                let ms = infer_messages(*b, sc);
                match (op, spec_infer(*b, sc).0) {
                    (Some(o), Some(t)) => match o.kind {
                        TokenKind::Bang => if t is Boolean {
                            ms
                        } else {
                            ms.push(
                                "`!` requires a boolean operand, found "@ + describe_type(t) + " (expr-core §5.3)"@,
                            )
                        },
                        TokenKind::Minus => if t is Numeric {
                            ms
                        } else {
                            ms.push(
                                "unary `-` requires a numeric operand, found "@ + describe_type(t)
                                    + " (expr-core §5.3)"@,
                            )
                        },
                        _ => ms,
                    },
                    _ => ms,
                }
            },
        },
        Expr::Member { base, member, .. } => match (base, member) {
            (Some(b), Some(m)) => {
                let name = m.text@;
                if camel_case(name) {
                    seq![
                        "`."@ + name
                            + "` names a type, not a member — a qualified path such as `pkg.Name.MEMBER` is not expressible in a contract expression; references resolve through the file's imports (expr-core §3.1)"@,
                    ]
                } else if screaming_snake(name) {
                    match enum_head(*b, sc) {
                        Some(d) => if d.members.contains(name) {
                            Seq::empty()
                        } else {
                            seq!["`"@ + d.reference + "` has no member `"@ + name + "` (expr-core §5.3)"@]
                        },
                        None => if spec_infer(*b, sc).1.len() == 0 {
                            seq![
                                "`."@ + name
                                    + "` is an enum member access, which needs an enum type name on the left (expr-core §5.3)"@,
                            ]
                        } else {
                            infer_messages(*b, sc)
                        },
                    }
                } else {
                    let ms = infer_messages(*b, sc);
                    match spec_infer(*b, sc).0 {
                        Some(SType::Tuple(encoded)) => match encoded_field(encoded, name) {
                            Some(f) => ms + domain_messages(f, name, "tuple field"@),
                            None => ms.push("the result tuple has no field `"@ + name + "` (expr-core §5.3)"@),
                        },
                        Some(other) => ms.push(
                            "field access `."@ + name + "` on "@ + describe_type(other)
                                + " — the guaranteed subset admits field access on a tuple-typed `result` only (expr-core §5.1)"@,
                        ),
                        None => ms,
                    }
                }
            },
            _ => Seq::empty(),
        },
        Expr::Binary { lhs, op, rhs, .. } => {
            let (lt, lm) = match lhs {
                Some(l) => (spec_infer(*l, sc).0, infer_messages(*l, sc)),
                None => (None, Seq::empty()),
            };
            let (rt, rm) = match rhs {
                Some(r) => (spec_infer(*r, sc).0, infer_messages(*r, sc)),
                None => (None, Seq::empty()),
            };
            match (op, lt, rt) {
                (Some(o), Some(a), Some(b)) => lm + rm + binary_messages(o.kind, o.text@, a, b),
                _ => lm + rm,
            }
        },
    }
}

/// The messages of [`spec_check`]'s diagnostics, in the same order.
pub open spec fn check_messages(e: Expr, sc: SScope) -> Seq<Seq<char>> {
    let ms = infer_messages(e, sc);
    let t = spec_infer(e, sc).0;
    let boolean = t == Some(SType::Boolean);
    let ms2 = if t is Some && !boolean {
        ms.push(
            "contract expression is "@ + describe_type(t->0)
                + ", not a predicate — the root of a `require`/`ensure` must be boolean (expr-core §5.3)"@,
        )
    } else {
        ms
    };
    if boolean && sc.result is Some && !refs_walk(e, sc, no_refs()).uses_result {
        ms2.push(
            "`ensure` references no `result` — a postcondition that observes nothing of the result (ridl §13)"@,
        )
    } else {
        ms2
    }
}

// ==========================================================================
// Checking one clause
// ==========================================================================

/// A RIDL-305 warning at `range`.
pub open spec fn warn305(range: TextRange) -> (DiagCode, Severity, usize, TextRange) {
    (DiagCode::RIDL_305, Severity::Warning, DETACHED, range)
}

/// The root type and the diagnostics of one clause: the inferred type must
/// be boolean (else one more RIDL-306 at the whole expression), and a
/// well-typed `ensure` that never reads `result` draws RIDL-305.
pub open spec fn spec_check(e: Expr, sc: SScope) -> (Option<SType>, SDiags) {
    let (t, ds) = spec_infer(e, sc);
    let boolean = t == Some(SType::Boolean);
    let ds2 = if t is Some && !boolean {
        ds.push(err306(e.spec_range()))
    } else {
        ds
    };
    if boolean && sc.result is Some && !refs_walk(e, sc, no_refs()).uses_result {
        (Some(SType::Boolean), ds2.push(warn305(e.spec_range())))
    } else if boolean {
        (Some(SType::Boolean), ds2)
    } else {
        (None, ds2)
    }
}

/// Type-checks one `require`/`ensure` expression ([`spec_check`]): the root
/// type, `Some(Boolean)` for a clause that checks and `None` once any error
/// was raised, and the diagnostics — RIDL-306 errors for every form outside
/// the guaranteed subset, a RIDL-305 warning for an `ensure` that never reads
/// `result`. The diagnostics carry [`DETACHED`]: the caller stamps its file.
pub fn check_contract_expr(expr: &Expr, scope: &ContractScope) -> (r: (Option<ExprType>, Vec<Diagnostic>))
    ensures
        opt_ty_view(r.0) == spec_check(*expr, scope_view(scope)).0,
        r.0 is Some ==> r.0 == Some(ExprType::Boolean),
        diags_view(r.1@) == spec_check(*expr, scope_view(scope)).1,
        diag_messages(r.1@) == check_messages(*expr, scope_view(scope)),
{
    let mut diagnostics: Vec<Diagnostic> = Vec::new();
    assert(diags_view(diagnostics@) =~= Seq::empty());
    assert(diag_messages(diagnostics@) =~= Seq::empty());
    let inferred = infer(expr, scope, &mut diagnostics);
    assert(diags_view(diagnostics@) =~= spec_infer(*expr, scope_view(scope)).1);
    assert(diag_messages(diagnostics@) =~= infer_messages(*expr, scope_view(scope)));
    let range = expr.range();
    let root = match inferred {
        Some(ExprType::Boolean) => Some(ExprType::Boolean),
        Some(other) => {
            let mut text = String::from_str("contract expression is ");
            text.append(other.describe().as_str());
            text.append(
                ", not a predicate — the root of a `require`/`ensure` must be boolean (expr-core §5.3)",
            );
            error(&mut diagnostics, range, text);
            None
        },
        None => None,
    };
    if root.is_some() && scope.result.is_some() && !collect_refs(expr, scope).uses_result {
        let ghost before = diagnostics@;
        let ghost before_messages = diag_messages(diagnostics@);
        diagnostics.push(
            Diagnostic {
                code: DiagCode::RIDL_305,
                severity: Severity::Warning,
                message: String::from_str(
                    "`ensure` references no `result` — a postcondition that observes nothing of the result (ridl §13)",
                ),
                file: DETACHED,
                range,
            },
        );
        assert(diags_view(diagnostics@) =~= diags_view(before).push(warn305(range)));
        assert(diag_messages(diagnostics@) =~= before_messages.push(
            "`ensure` references no `result` — a postcondition that observes nothing of the result (ridl §13)"@,
        ));
    }
    (root, diagnostics)
}

// ==========================================================================
// Laws
// ==========================================================================


// --------------------------------------------------------------------------
// Tuple encoding
// --------------------------------------------------------------------------

/// Whether `s` holds no `c`.
pub open spec fn lacks(s: Seq<char>, c: char) -> bool {
    forall|j: int| 0 <= j < s.len() ==> s[j] != c
}

/// The names a field type mentions hold no `;`.
pub open spec fn type_names_lack_semicolon(t: Option<SType>) -> bool {
    match t {
        Some(SType::Numeric(n, _)) => lacks(n, ';'),
        Some(SType::EnumType(n)) => lacks(n, ';'),
        Some(SType::Unsupported(n)) => lacks(n, ';'),
        _ => true,
    }
}

/// Fields a tuple encoding can carry: no field name holds `;` or `=`, and
/// no name a field's type mentions holds `;`.
pub open spec fn encodable_fields(fields: Seq<(Seq<char>, Option<SType>)>) -> bool {
    forall|i: int|
        0 <= i < fields.len() ==> lacks(#[trigger] fields[i].0, ';') && lacks(fields[i].0, '=')
            && type_names_lack_semicolon(fields[i].1)
}

/// What a field's type reads back as from its code: the type itself, with a
/// tuple and a type outside the subset read back as the unsupported type
/// they are carried as.
pub open spec fn field_read_back(t: Option<SType>) -> SType {
    match t {
        Some(SType::Tuple(_)) => SType::Unsupported("a tuple"@),
        Some(x) => x,
        None => SType::Unsupported("a type outside the guaranteed subset"@),
    }
}

/// The type of the first field named `name`, read back.
pub open spec fn first_field(fields: Seq<(Seq<char>, Option<SType>)>, name: Seq<char>) -> Option<SType>
    decreases fields.len(),
{
    if fields.len() == 0 {
        None
    } else if fields[0].0 == name {
        Some(field_read_back(fields[0].1))
    } else {
        first_field(fields.drop_first(), name)
    }
}

pub open spec fn field_entry(f: (Seq<char>, Option<SType>)) -> Seq<char> {
    f.0 + "="@ + field_code(f.1)
}

proof fn lemma_tag_split(tag: Seq<char>, name: Seq<char>)
    requires
        tag.len() >= 1,
        lacks(tag, ':'),
    ensures
        split_once(tag + ":"@ + name, ':') == Some((tag, name)),
{
    reveal_strlit(":");
    let s = tag + ":"@ + name;
    assert forall|j: int| 0 <= j < tag.len() implies s[j] != ':' by {
        assert(s[j] == tag[j]);
    }
    lemma_first_index(s, ':', tag.len() as int);
    assert(s.take(tag.len() as int) =~= tag);
    assert(s.skip(tag.len() as int + 1) =~= name);
}

proof fn lemma_code_reads_back(t: Option<SType>)
    ensures
        decode_code(field_code(t)) == Some(field_read_back(t)),
{
    reveal_strlit("B");
    reveal_strlit("D");
    reveal_strlit("Ni");
    reveal_strlit("Nf");
    reveal_strlit("E");
    reveal_strlit("U");
    reveal_strlit("Ni:");
    reveal_strlit("Nf:");
    reveal_strlit("E:");
    reveal_strlit("U:");
    reveal_strlit(":");
    reveal_strlit("a tuple");
    reveal_strlit("U:a tuple");
    reveal_strlit("a type outside the guaranteed subset");
    reveal_strlit("U:a type outside the guaranteed subset");
    match t {
        Some(SType::Numeric(name, NumericBacking::Integer)) => {
            assert("Ni:"@ + name =~= "Ni"@ + ":"@ + name);
            lemma_tag_split("Ni"@, name);
            assert(("Ni:"@ + name).len() >= 3);
        },
        Some(SType::Numeric(name, NumericBacking::Float)) => {
            assert("Nf:"@ + name =~= "Nf"@ + ":"@ + name);
            lemma_tag_split("Nf"@, name);
            assert(("Nf:"@ + name).len() >= 3);
            assert("Nf"@ != "Ni"@) by {
                assert("Nf"@[1] != "Ni"@[1]);
            }
        },
        Some(SType::EnumType(name)) => {
            assert("E:"@ + name =~= "E"@ + ":"@ + name);
            lemma_tag_split("E"@, name);
            assert(("E:"@ + name)[1] == ':');
            assert(("E:"@ + name) != "B"@ && ("E:"@ + name) != "D"@) by {
                assert(("E:"@ + name).len() >= 2);
            }
            assert("E"@ != "Ni"@ && "E"@ != "Nf"@);
        },
        Some(SType::Unsupported(name)) => {
            assert("U:"@ + name =~= "U"@ + ":"@ + name);
            lemma_tag_split("U"@, name);
            assert(("U:"@ + name) != "B"@ && ("U:"@ + name) != "D"@) by {
                assert(("U:"@ + name).len() >= 2);
            }
            assert("U"@ != "Ni"@ && "U"@ != "Nf"@ && "U"@ != "E"@);
        },
        Some(SType::Tuple(_)) => {
            assert("U:a tuple"@ =~= "U"@ + ":"@ + "a tuple"@);
            lemma_tag_split("U"@, "a tuple"@);
            assert("U"@ != "Ni"@ && "U"@ != "Nf"@ && "U"@ != "E"@);
        },
        None => {
            assert("U:a type outside the guaranteed subset"@ =~= "U"@ + ":"@
                + "a type outside the guaranteed subset"@);
            lemma_tag_split("U"@, "a type outside the guaranteed subset"@);
            assert("U"@ != "Ni"@ && "U"@ != "Nf"@ && "U"@ != "E"@);
        },
        _ => {},
    }
}

proof fn lemma_code_lacks_semicolon(t: Option<SType>)
    requires
        type_names_lack_semicolon(t),
    ensures
        lacks(field_code(t), ';'),
{
    reveal_strlit("B");
    reveal_strlit("D");
    reveal_strlit("Ni:");
    reveal_strlit("Nf:");
    reveal_strlit("E:");
    reveal_strlit("U:");
    reveal_strlit("U:a tuple");
    reveal_strlit("U:a type outside the guaranteed subset");
    let code = field_code(t);
    match t {
        Some(SType::Numeric(n, NumericBacking::Integer)) => {
            assert forall|j: int| 0 <= j < code.len() implies code[j] != ';' by {
                if j >= 3 {
                    assert(code[j] == n[j - 3]);
                }
            }
        },
        Some(SType::Numeric(n, NumericBacking::Float)) => {
            assert forall|j: int| 0 <= j < code.len() implies code[j] != ';' by {
                if j >= 3 {
                    assert(code[j] == n[j - 3]);
                }
            }
        },
        Some(SType::EnumType(n)) => {
            assert forall|j: int| 0 <= j < code.len() implies code[j] != ';' by {
                if j >= 2 {
                    assert(code[j] == n[j - 2]);
                }
            }
        },
        Some(SType::Unsupported(n)) => {
            assert forall|j: int| 0 <= j < code.len() implies code[j] != ';' by {
                if j >= 2 {
                    assert(code[j] == n[j - 2]);
                }
            }
        },
        _ => {},
    }
}

/// What [`encoded_field`] reads from one entry `name=CODE`.
proof fn lemma_entry_reads(f: (Seq<char>, Option<SType>), name: Seq<char>)
    requires
        lacks(f.0, ';'),
        lacks(f.0, '='),
        type_names_lack_semicolon(f.1),
    ensures
        field_entry(f).len() > 0,
        lacks(field_entry(f), ';'),
        split_once(field_entry(f), '=') == Some((f.0, field_code(f.1))),
{
    reveal_strlit("=");
    let e = field_entry(f);
    lemma_code_lacks_semicolon(f.1);
    let code = field_code(f.1);
    assert forall|j: int| 0 <= j < e.len() implies e[j] != ';' by {
        if j < f.0.len() {
            assert(e[j] == f.0[j]);
        } else if j > f.0.len() {
            assert(e[j] == code[j - f.0.len() - 1]);
        }
    }
    assert forall|j: int| 0 <= j < f.0.len() implies e[j] != '=' by {
        assert(e[j] == f.0[j]);
    }
    lemma_first_index(e, '=', f.0.len() as int);
    assert(e.take(f.0.len() as int) =~= f.0);
    assert(e.skip(f.0.len() as int + 1) =~= code);
}

/// A tuple encoding read from the front: the first entry, then the rest.
proof fn lemma_encoding_front(fields: Seq<(Seq<char>, Option<SType>)>)
    requires
        fields.len() >= 2,
    ensures
        tuple_encoding(fields) == field_entry(fields[0]) + ";"@ + tuple_encoding(fields.drop_first()),
    decreases fields.len(),
{
    let d = fields.drop_last();
    let f = fields.drop_first();
    assert(tuple_encoding(fields) == tuple_encoding(d) + ";"@ + field_entry(fields.last()));
    if fields.len() == 2 {
        assert(d.last() == fields[0]);
        assert(f.last() == fields[1]);
        assert(tuple_encoding(d) == field_entry(d.last()));
        assert(tuple_encoding(f) == field_entry(f.last()));
    } else {
        lemma_encoding_front(d);
        assert(d.drop_first() =~= f.drop_last());
        assert(d[0] == fields[0]);
        assert(f.last() == fields.last());
        assert(tuple_encoding(f) == tuple_encoding(f.drop_last()) + ";"@ + field_entry(f.last()));
        let a = field_entry(fields[0]);
        let m = tuple_encoding(f.drop_last());
        let z = field_entry(fields.last());
        assert(a + ";"@ + m + ";"@ + z =~= a + ";"@ + (m + ";"@ + z));
    }
}

/// What [`encoded_field`] reads past a first entry `x` free of `;`.
proof fn lemma_encoded_after(x: Seq<char>, y: Seq<char>, name: Seq<char>)
    requires
        lacks(x, ';'),
    ensures
        encoded_field(x + ";"@ + y, name) == ({
            let here = if x.len() == 0 {
                None
            } else {
                match split_once(x, '=') {
                    Some((field, code)) => if field == name {
                        decode_code(code)
                    } else {
                        None
                    },
                    None => None,
                }
            };
            if here is Some {
                here
            } else {
                encoded_field(y, name)
            }
        }),
{
    reveal_strlit(";");
    let s = x + ";"@ + y;
    assert forall|j: int| 0 <= j < x.len() implies s[j] != ';' by {
        assert(s[j] == x[j]);
    }
    lemma_first_index(s, ';', x.len() as int);
    assert(s.take(x.len() as int) =~= x);
    assert(s.skip(x.len() as int + 1) =~= y);
}

/// A tuple's field type reads back from its encoding: the field `name` of
/// [`ExprType::tuple`]'s encoding is the first field of that name, its type
/// as encoded (a tuple or a type outside the subset reads back as the
/// unsupported type it is carried as), and no type when no field has the
/// name — for fields whose names hold no `;` or `=` and whose types name
/// nothing holding `;`.
pub proof fn law_tuple_field_reads_back(fields: Seq<(Seq<char>, Option<SType>)>, name: Seq<char>)
    requires
        encodable_fields(fields),
    ensures
        encoded_field(tuple_encoding(fields), name) == first_field(fields, name),
    decreases fields.len(),
{
    if fields.len() == 0 {
        assert(first_index(Seq::<char>::empty(), ';') == -1);
    } else {
        let f = fields[0];
        assert(lacks(fields[0].0, ';'));
        lemma_entry_reads(f, name);
        lemma_code_reads_back(f.1);
        let rest = fields.drop_first();
        assert forall|i: int| 0 <= i < rest.len() implies lacks(#[trigger] rest[i].0, ';') && lacks(
            rest[i].0,
            '=',
        ) && type_names_lack_semicolon(rest[i].1) by {
            assert(rest[i] == fields[i + 1]);
        }
        if fields.len() == 1 {
            let e = field_entry(f);
            assert(fields.last() == f);
            assert(tuple_encoding(fields) == e);
            lemma_first_index(e, ';', e.len() as int);
            assert(first_field(rest, name) is None);
        } else {
            lemma_encoding_front(fields);
            lemma_encoded_after(field_entry(f), tuple_encoding(rest), name);
            law_tuple_field_reads_back(rest, name);
        }
    }
}

/// With pairwise distinct field names, every field reads back from the
/// encoding as its own type (a tuple or a type outside the subset as the
/// unsupported type it is carried as), and a name that is no field's reads
/// back as no type — for fields whose names hold no `;` or `=` and whose
/// types name nothing holding `;`.
pub proof fn law_tuple_fields_read_back(fields: Seq<(Seq<char>, Option<SType>)>)
    requires
        encodable_fields(fields),
        forall|i: int, j: int| 0 <= i < j < fields.len() ==> fields[i].0 != fields[j].0,
    ensures
        forall|k: int|
            0 <= k < fields.len() ==> encoded_field(tuple_encoding(fields), #[trigger] fields[k].0) == Some(
                field_read_back(fields[k].1),
            ),
        forall|name: Seq<char>|
            (forall|k: int| 0 <= k < fields.len() ==> fields[k].0 != name) ==> #[trigger] encoded_field(
                tuple_encoding(fields),
                name,
            ) is None,
{
    assert forall|k: int| 0 <= k < fields.len() implies encoded_field(
        tuple_encoding(fields),
        #[trigger] fields[k].0,
    ) == Some(field_read_back(fields[k].1)) by {
        law_tuple_field_reads_back(fields, fields[k].0);
        lemma_first_field_at(fields, k);
    }
    assert forall|name: Seq<char>|
        (forall|k: int| 0 <= k < fields.len() ==> fields[k].0 != name) implies #[trigger] encoded_field(
        tuple_encoding(fields),
        name,
    ) is None by {
        law_tuple_field_reads_back(fields, name);
        lemma_first_field_absent(fields, name);
    }
}

/// With distinct names, the first field named like the `k`-th is the `k`-th.
proof fn lemma_first_field_at(fields: Seq<(Seq<char>, Option<SType>)>, k: int)
    requires
        0 <= k < fields.len(),
        forall|i: int, j: int| 0 <= i < j < fields.len() ==> fields[i].0 != fields[j].0,
    ensures
        first_field(fields, fields[k].0) == Some(field_read_back(fields[k].1)),
    decreases fields.len(),
{
    if k > 0 {
        let rest = fields.drop_first();
        assert(fields[0].0 != fields[k].0);
        assert forall|i: int, j: int| 0 <= i < j < rest.len() implies rest[i].0 != rest[j].0 by {
            assert(rest[i] == fields[i + 1] && rest[j] == fields[j + 1]);
        }
        assert(rest[k - 1] == fields[k]);
        lemma_first_field_at(rest, k - 1);
    }
}

/// No field has a name that no field holds.
proof fn lemma_first_field_absent(fields: Seq<(Seq<char>, Option<SType>)>, name: Seq<char>)
    requires
        forall|k: int| 0 <= k < fields.len() ==> fields[k].0 != name,
    ensures
        first_field(fields, name) is None,
    decreases fields.len(),
{
    if fields.len() > 0 {
        let rest = fields.drop_first();
        assert forall|k: int| 0 <= k < rest.len() implies rest[k].0 != name by {
            assert(rest[k] == fields[k + 1]);
        }
        assert(fields[0].0 != name);
        lemma_first_field_absent(rest, name);
    }
}

/// An expression that infers a type raised no diagnostic on the way.
pub proof fn lemma_typed_is_clean(e: Expr, sc: SScope)
    ensures
        spec_infer(e, sc).0 is Some ==> spec_infer(e, sc).1.len() == 0,
    decreases e,
{
    match e {
        Expr::Paren { inner: Some(b), .. } => {
            lemma_typed_is_clean(*b, sc);
        },
        Expr::Prefix { operand: Some(b), .. } => {
            lemma_typed_is_clean(*b, sc);
        },
        Expr::Member { base: Some(b), member: Some(_), .. } => {
            lemma_typed_is_clean(*b, sc);
        },
        Expr::Binary { lhs, rhs, .. } => {
            if let Some(l) = lhs {
                lemma_typed_is_clean(*l, sc);
            }
            if let Some(r) = rhs {
                lemma_typed_is_clean(*r, sc);
            }
        },
        _ => {},
    }
}

/// A clause that checks — its root type is `Some` — raised no error: its
/// only possible diagnostic is the RIDL-305 warning of an `ensure` that
/// does not read `result`. Equivalently, any error leaves the root `None`.
pub proof fn law_checked_clause_raises_no_error(e: Expr, sc: SScope)
    ensures
        spec_check(e, sc).0 is Some ==> (spec_check(e, sc).1 == Seq::<
            (DiagCode, Severity, usize, TextRange),
        >::empty() || spec_check(e, sc).1 == seq![warn305(e.spec_range())]),
        (exists|i: int|
            0 <= i < spec_check(e, sc).1.len() && (#[trigger] spec_check(e, sc).1[i]).1
                == Severity::Error) ==> spec_check(e, sc).0 is None,
{
    lemma_typed_is_clean(e, sc);
    if spec_check(e, sc).0 is Some {
        assert(spec_infer(e, sc).1 =~= Seq::<(DiagCode, Severity, usize, TextRange)>::empty());
        if spec_check(e, sc).1.len() > 0 {
            assert(spec_check(e, sc).1 =~= seq![warn305(e.spec_range())]);
        } else {
            assert(spec_check(e, sc).1 =~= Seq::<(DiagCode, Severity, usize, TextRange)>::empty());
        }
    }
}


/// Every diagnostic inference raises is a RIDL-306 error.
proof fn lemma_infer_raises_306(e: Expr, sc: SScope)
    ensures
        forall|i: int|
            0 <= i < spec_infer(e, sc).1.len() ==> (#[trigger] spec_infer(e, sc).1[i]).0 == DiagCode::RIDL_306,
    decreases e,
{
    match e {
        Expr::Paren { inner: Some(b), .. } => {
            lemma_infer_raises_306(*b, sc);
        },
        Expr::Prefix { operand: Some(b), .. } => {
            lemma_infer_raises_306(*b, sc);
            let ds = spec_infer(*b, sc).1;
            assert forall|i: int| 0 <= i < spec_infer(e, sc).1.len() implies (#[trigger] spec_infer(
                e,
                sc,
            ).1[i]).0 == DiagCode::RIDL_306 by {
                if i < ds.len() {
                    assert(spec_infer(e, sc).1[i] == ds[i]);
                }
            }
        },
        Expr::Member { base: Some(b), member: Some(m), range } => {
            lemma_infer_raises_306(*b, sc);
            let ds = spec_infer(*b, sc).1;
            let out = spec_infer(e, sc).1;
            assert forall|i: int| 0 <= i < out.len() implies (#[trigger] out[i]).0 == DiagCode::RIDL_306 by {
                if out.len() == 1 && out[0] == err306(range) {
                } else if i < ds.len() {
                    assert(out[i] == ds[i]);
                }
            }
        },
        Expr::Binary { lhs, rhs, .. } => {
            let ld = match lhs {
                Some(l) => spec_infer(*l, sc).1,
                None => Seq::empty(),
            };
            let rd = match rhs {
                Some(r) => spec_infer(*r, sc).1,
                None => Seq::empty(),
            };
            if let Some(l) = lhs {
                lemma_infer_raises_306(*l, sc);
            }
            if let Some(r) = rhs {
                lemma_infer_raises_306(*r, sc);
            }
            assert forall|i: int| 0 <= i < spec_infer(e, sc).1.len() implies (#[trigger] spec_infer(
                e,
                sc,
            ).1[i]).0 == DiagCode::RIDL_306 by {
                if i < ld.len() {
                    assert(spec_infer(e, sc).1[i] == ld[i]);
                } else if i < ld.len() + rd.len() {
                    assert(spec_infer(e, sc).1[i] == rd[i - ld.len()]);
                }
            }
        },
        _ => {},
    }
}

/// Equality is defined wherever ordering is: when `l < r` (or `<=`, `>`,
/// `>=`) type-checks as a boolean, so do `l == r` and `l != r`, raising
/// exactly what the ordering raises — in particular over two durations and
/// over two numbers of one nominal type.
pub proof fn law_equality_wherever_ordering(
    lhs: Expr,
    order: Token,
    equality: Token,
    rhs: Expr,
    range: TextRange,
    sc: SScope,
)
    requires
        order.kind == TokenKind::Lt || order.kind == TokenKind::Le || order.kind == TokenKind::Gt || order.kind
            == TokenKind::Ge,
        equality.kind == TokenKind::EqEq || equality.kind == TokenKind::Neq,
        spec_infer(
            Expr::Binary { lhs: Some(Box::new(lhs)), op: Some(order), rhs: Some(Box::new(rhs)), range },
            sc,
        ).0 == Some(SType::Boolean),
    ensures
        spec_infer(Expr::Binary { lhs: Some(Box::new(lhs)), op: Some(equality), rhs: Some(Box::new(rhs)), range }, sc)
            == spec_infer(
            Expr::Binary { lhs: Some(Box::new(lhs)), op: Some(order), rhs: Some(Box::new(rhs)), range },
            sc,
        ),
{
}

/// Whether equality type-checks does not depend on the operands' order nor
/// on `==` versus `!=`: `l == r` infers a type exactly as `r != l` does.
pub proof fn law_equality_typing_is_symmetric(
    lhs: Expr,
    eq: Token,
    ne: Token,
    rhs: Expr,
    range: TextRange,
    sc: SScope,
)
    requires
        eq.kind == TokenKind::EqEq,
        ne.kind == TokenKind::Neq,
    ensures
        spec_infer(Expr::Binary { lhs: Some(Box::new(lhs)), op: Some(eq), rhs: Some(Box::new(rhs)), range }, sc).0
            == spec_infer(
            Expr::Binary { lhs: Some(Box::new(rhs)), op: Some(ne), rhs: Some(Box::new(lhs)), range },
            sc,
        ).0,
{
}

/// Two durations compare for equality: `l == r` and `l != r` over operands
/// that both type as durations infer a boolean and raise nothing, and as a
/// `require` (no `result` in scope) the clause checks clean.
pub proof fn law_duration_equality_is_boolean(lhs: Expr, op: Token, rhs: Expr, range: TextRange, sc: SScope)
    requires
        op.kind == TokenKind::EqEq || op.kind == TokenKind::Neq,
        spec_infer(lhs, sc).0 == Some(SType::Duration),
        spec_infer(rhs, sc).0 == Some(SType::Duration),
    ensures
        spec_infer(Expr::Binary { lhs: Some(Box::new(lhs)), op: Some(op), rhs: Some(Box::new(rhs)), range }, sc)
            == (Some(SType::Boolean), Seq::<(DiagCode, Severity, usize, TextRange)>::empty()),
        sc.result is None ==> spec_check(
            Expr::Binary { lhs: Some(Box::new(lhs)), op: Some(op), rhs: Some(Box::new(rhs)), range },
            sc,
        ) == (Some(SType::Boolean), Seq::<(DiagCode, Severity, usize, TextRange)>::empty()),
{
    lemma_typed_is_clean(lhs, sc);
    lemma_typed_is_clean(rhs, sc);
    let e = Expr::Binary { lhs: Some(Box::new(lhs)), op: Some(op), rhs: Some(Box::new(rhs)), range };
    assert(spec_infer(lhs, sc).1 + spec_infer(rhs, sc).1 =~= Seq::<(DiagCode, Severity, usize, TextRange)>::empty());
    assert(spec_infer(e, sc).1 =~= Seq::<(DiagCode, Severity, usize, TextRange)>::empty());
}

/// A clause draws RIDL-305 exactly when it checks as a boolean, it sits
/// where `result` exists (an `ensure` on a query), and it never reads
/// `result` (the references [`collect_refs`] gives); it draws it once, last,
/// as a warning over the whole clause.
pub proof fn law_ridl_305_exactly_when_result_goes_unread(e: Expr, sc: SScope)
    ensures
        (exists|i: int|
            0 <= i < spec_check(e, sc).1.len() && (#[trigger] spec_check(e, sc).1[i]).0 == DiagCode::RIDL_305)
            <==> (spec_infer(e, sc).0 == Some(SType::Boolean) && sc.result is Some && !refs_walk(
            e,
            sc,
            no_refs(),
        ).uses_result),
        forall|i: int|
            0 <= i < spec_check(e, sc).1.len() && (#[trigger] spec_check(e, sc).1[i]).0 == DiagCode::RIDL_305
                ==> i == spec_check(e, sc).1.len() - 1 && spec_check(e, sc).1[i] == warn305(e.spec_range()),
{
    lemma_infer_raises_306(e, sc);
    let ds = spec_infer(e, sc).1;
    let out = spec_check(e, sc).1;
    let cond = spec_infer(e, sc).0 == Some(SType::Boolean) && sc.result is Some && !refs_walk(
        e,
        sc,
        no_refs(),
    ).uses_result;
    if cond {
        assert(out == ds.push(warn305(e.spec_range())));
        assert(out[ds.len() as int].0 == DiagCode::RIDL_305);
        assert forall|i: int| 0 <= i < out.len() && (#[trigger] out[i]).0 == DiagCode::RIDL_305 implies i
            == out.len() - 1 && out[i] == warn305(e.spec_range()) by {
            if i < ds.len() {
                assert(out[i] == ds[i]);
            }
        }
    } else {
        assert forall|i: int| 0 <= i < out.len() implies (#[trigger] out[i]).0 != DiagCode::RIDL_305 by {
            if i < ds.len() {
                assert(out[i] == ds[i]);
            }
        }
    }
}

// ==========================================================================
// Canonical text
// ==========================================================================

/// The binding power of a prefix operator, of a member access, and of a
/// primary, above every binary operator's.
pub const PREFIX_POWER: u8 = 6;
pub const POSTFIX_POWER: u8 = 7;
pub const PRIMARY_POWER: u8 = 8;

/// `body` in parentheses when `wrap` holds.
pub open spec fn wrapped(wrap: bool, body: Seq<char>) -> Seq<char> {
    if wrap {
        seq!['('] + body + seq![')']
    } else {
        body
    }
}

/// The canonical spelling of a literal: a number renders as its exact value
/// ([`crate::exact::decimal_text`]), keeping a fractional part when it was
/// written with one; anything else, or a number the exact reader refuses,
/// renders as written.
pub open spec fn literal_text(kind: TokenKind, text: Seq<char>) -> Seq<char> {
    if kind == TokenKind::IntNumber || kind == TokenKind::FloatNumber {
        match decimal_literal_value(text) {
            Some((n, d)) => {
                let rendered = decimal_text(n, d);
                if text.contains('.') && !rendered.contains('.') {
                    rendered + ".0"@
                } else {
                    rendered
                }
            },
            None => text,
        }
    } else {
        text
    }
}

/// A number's canonical spelling reads back as the same exact value: the
/// text [`literal_text`] gives a number literal spells the value the
/// literal spells.
pub proof fn law_canonical_number_keeps_its_value(kind: TokenKind, text: Seq<char>)
    requires
        kind == TokenKind::IntNumber || kind == TokenKind::FloatNumber,
        decimal_literal_value(text) is Some,
        text.len() < 0x3fff_ffff,
    ensures
        decimal_literal_value(literal_text(kind, text)) matches Some(v) && rat_eq(v, decimal_literal_value(text)->0),
{
    lemma_literal_positional(text);
    let v = decimal_literal_value(text)->0;
    lemma_positional_reads_back(v.0, v.1);
}

/// The canonical rendering of `e` in a position that binds at least `min`:
/// single spaces around every binary operator, none inside parentheses or
/// around `.`, written parentheses dropped and re-inserted only where the
/// binding power or the left associativity of the operators needs them.
pub open spec fn render(e: Expr, min: u8) -> Seq<char>
    decreases e,
{
    match e {
        Expr::Paren { inner, .. } => match inner {
            Some(b) => render(*b, min),
            None => Seq::empty(),
        },
        Expr::Binary { lhs, op, rhs, .. } => match op {
            None => Seq::empty(),
            Some(t) => {
                let power = binary_power(t.kind);
                let left = match lhs {
                    Some(l) => render(*l, power),
                    None => Seq::empty(),
                };
                let right = match rhs {
                    Some(r) => render(*r, (power + 1) as u8),
                    None => Seq::empty(),
                };
                wrapped(power < min, left + seq![' '] + t.text@ + seq![' '] + right)
            },
        },
        Expr::Prefix { op, operand, .. } => match op {
            None => Seq::empty(),
            Some(t) => {
                let inner = match operand {
                    Some(b) => render(*b, POSTFIX_POWER),
                    None => Seq::empty(),
                };
                wrapped(PREFIX_POWER < min, t.text@ + inner)
            },
        },
        Expr::Member { base, member, .. } => {
            let head = match base {
                Some(b) => render(*b, POSTFIX_POWER),
                None => Seq::empty(),
            };
            let name = match member {
                Some(t) => t.text@,
                None => Seq::empty(),
            };
            wrapped(POSTFIX_POWER < min, head + seq!['.'] + name)
        },
        Expr::Path { name, .. } => {
            let text = match name {
                Some(t) => t.text@,
                None => Seq::empty(),
            };
            wrapped(PRIMARY_POWER < min, text)
        },
        Expr::Literal { token, .. } => match token {
            Some(t) => literal_text(t.kind, t.text@),
            None => Seq::empty(),
        },
    }
}

fn append_str(out: &mut Vec<char>, text: &str)
    ensures
        final(out)@ == old(out)@ + text@,
{
    let mut cs = str_to_chars(text);
    out.append(&mut cs);
}

fn contains_char(cs: &Vec<char>, c: char) -> (r: bool)
    ensures
        r == cs@.contains(c),
{
    let mut i: usize = 0;
    while i < cs.len()
        invariant
            i <= cs.len(),
            forall|j: int| 0 <= j < i ==> cs@[j] != c,
        decreases cs.len() - i,
    {
        if cs[i] == c {
            assert(cs@[i as int] == c);
            return true;
        }
        i = i + 1;
    }
    false
}

fn literal_chars(kind: TokenKind, text: &str) -> (r: Vec<char>)
    ensures
        r@ == literal_text(kind, text@),
{
    let written = str_to_chars(text);
    if kind != TokenKind::IntNumber && kind != TokenKind::FloatNumber {
        return written;
    }
    let value = match ExactValue::parse(text) {
        Some(value) => value,
        None => {
            return written;
        },
    };
    let rendered = value.to_decimal_string();
    let mut cs = str_to_chars(rendered.as_str());
    if contains_char(&written, '.') && !contains_char(&cs, '.') {
        cs.push('.');
        cs.push('0');
        assert(cs@ =~= rendered@ + ".0"@) by {
            reveal_strlit(".0");
        }
    }
    cs
}

fn render_into(expr: &Expr, min: u8, out: &mut Vec<char>)
    ensures
        final(out)@ == old(out)@ + render(*expr, min),
    decreases *expr, 1nat,
{
    let ghost start = out@;
    match expr {
        Expr::Paren { inner, .. } => {
            if let Some(inner) = inner {
                render_into(inner, min, out);
            } else {
                assert(out@ =~= start + Seq::empty());
            }
        },
        Expr::Binary { .. } => render_binary(expr, min, out),
        Expr::Prefix { .. } => render_prefix(expr, min, out),
        Expr::Member { .. } => render_member(expr, min, out),
        Expr::Path { name, .. } => {
            let wrap = PRIMARY_POWER < min;
            if wrap {
                out.push('(');
            }
            let ghost open = out@;
            if let Some(token) = name {
                append_str(out, token.text.as_str());
            }
            let ghost after = out@;
            if wrap {
                out.push(')');
            }
            let ghost text = match name {
                Some(t) => t.text@,
                None => Seq::empty(),
            };
            assert(after =~= open + text);
            assert(out@ =~= start + wrapped(wrap, text));
        },
        Expr::Literal { token, .. } => {
            if let Some(token) = token {
                let mut cs = literal_chars(token.kind, token.text.as_str());
                out.append(&mut cs);
            } else {
                assert(out@ =~= start + Seq::empty());
            }
        },
    }
}

#[verifier::spinoff_prover]
#[verifier::rlimit(40)]
fn render_binary(expr: &Expr, min: u8, out: &mut Vec<char>)
    requires
        expr is Binary,
    ensures
        final(out)@ == old(out)@ + render(*expr, min),
    decreases *expr, 0nat,
{
    let ghost start = out@;
    let (lhs, op, rhs) = match expr {
        Expr::Binary { lhs, op, rhs, .. } => (lhs, op, rhs),
        _ => {
            return;
        },
    };
    let token = match op {
        Some(token) => token,
        None => {
            assert(out@ =~= start + Seq::empty());
            return;
        },
    };
    let power = binary_power_of(token.kind);
    let wrap = power < min;
    if wrap {
        out.push('(');
    }
    let ghost open = out@;
    if let Some(lhs) = lhs {
        render_into(lhs, power, out);
    }
    let ghost after_left = out@;
    out.push(' ');
    append_str(out, token.text.as_str());
    out.push(' ');
    let ghost mid = out@;
    if let Some(rhs) = rhs {
        render_into(rhs, power + 1, out);
    }
    let ghost after_right = out@;
    if wrap {
        out.push(')');
    }
    let ghost left = match lhs {
        Some(l) => render(**l, power),
        None => Seq::empty(),
    };
    let ghost right = match rhs {
        Some(r) => render(**r, (power + 1) as u8),
        None => Seq::empty(),
    };
    assert(after_left =~= open + left);
    assert(mid =~= open + left + seq![' '] + token.text@ + seq![' ']);
    assert(after_right =~= mid + right);
    assert(out@ =~= start + wrapped(wrap, left + seq![' '] + token.text@ + seq![' '] + right));
}

fn render_prefix(expr: &Expr, min: u8, out: &mut Vec<char>)
    requires
        expr is Prefix,
    ensures
        final(out)@ == old(out)@ + render(*expr, min),
    decreases *expr, 0nat,
{
    let ghost start = out@;
    let (op, operand) = match expr {
        Expr::Prefix { op, operand, .. } => (op, operand),
        _ => {
            return;
        },
    };
    let token = match op {
        Some(token) => token,
        None => {
            assert(out@ =~= start + Seq::empty());
            return;
        },
    };
    let wrap = PREFIX_POWER < min;
    if wrap {
        out.push('(');
    }
    let ghost open = out@;
    append_str(out, token.text.as_str());
    if let Some(operand) = operand {
        render_into(operand, POSTFIX_POWER, out);
    }
    let ghost after = out@;
    if wrap {
        out.push(')');
    }
    let ghost inner = match operand {
        Some(b) => render(**b, POSTFIX_POWER),
        None => Seq::empty(),
    };
    assert(after =~= open + token.text@ + inner);
    assert(out@ =~= start + wrapped(wrap, token.text@ + inner));
}

fn render_member(expr: &Expr, min: u8, out: &mut Vec<char>)
    requires
        expr is Member,
    ensures
        final(out)@ == old(out)@ + render(*expr, min),
    decreases *expr, 0nat,
{
    let ghost start = out@;
    let (base, member) = match expr {
        Expr::Member { base, member, .. } => (base, member),
        _ => {
            return;
        },
    };
    let wrap = POSTFIX_POWER < min;
    if wrap {
        out.push('(');
    }
    let ghost open = out@;
    if let Some(base) = base {
        render_into(base, POSTFIX_POWER, out);
    }
    let ghost after_base = out@;
    out.push('.');
    if let Some(token) = member {
        append_str(out, token.text.as_str());
    }
    let ghost after = out@;
    if wrap {
        out.push(')');
    }
    let ghost head = match base {
        Some(b) => render(**b, POSTFIX_POWER),
        None => Seq::empty(),
    };
    let ghost name = match member {
        Some(t) => t.text@,
        None => Seq::empty(),
    };
    assert(after_base =~= open + head);
    assert(after =~= open + head + seq!['.'] + name);
    assert(out@ =~= start + wrapped(wrap, head + seq!['.'] + name));
}

/// An expression as far as its rendering reads it: the tree of operators,
/// names and literals, without source ranges or written parentheses. A part
/// the parser could not recover is `Missing`.
pub enum ExprShape {
    Missing,
    Literal(Option<(TokenKind, Seq<char>)>),
    Path(Option<Seq<char>>),
    Prefix(Option<(TokenKind, Seq<char>)>, Box<ExprShape>),
    Member(Box<ExprShape>, Option<Seq<char>>),
    Binary(Box<ExprShape>, Option<(TokenKind, Seq<char>)>, Box<ExprShape>),
}

pub open spec fn token_shape(t: Option<Token>) -> Option<(TokenKind, Seq<char>)> {
    match t {
        Some(x) => Some((x.kind, x.text@)),
        None => None,
    }
}

pub open spec fn name_shape(t: Option<Token>) -> Option<Seq<char>> {
    match t {
        Some(x) => Some(x.text@),
        None => None,
    }
}

/// The shape of an expression: a written parenthesis is its content.
pub open spec fn shape_of(e: Expr) -> ExprShape
    decreases e,
{
    match e {
        Expr::Paren { inner, .. } => match inner {
            Some(b) => shape_of(*b),
            None => ExprShape::Missing,
        },
        Expr::Literal { token, .. } => ExprShape::Literal(token_shape(token)),
        Expr::Path { name, .. } => ExprShape::Path(name_shape(name)),
        Expr::Prefix { op, operand, .. } => ExprShape::Prefix(
            token_shape(op),
            Box::new(
                match operand {
                    Some(b) => shape_of(*b),
                    None => ExprShape::Missing,
                },
            ),
        ),
        Expr::Member { base, member, .. } => ExprShape::Member(
            Box::new(
                match base {
                    Some(b) => shape_of(*b),
                    None => ExprShape::Missing,
                },
            ),
            name_shape(member),
        ),
        Expr::Binary { lhs, op, rhs, .. } => ExprShape::Binary(
            Box::new(
                match lhs {
                    Some(b) => shape_of(*b),
                    None => ExprShape::Missing,
                },
            ),
            token_shape(op),
            Box::new(
                match rhs {
                    Some(b) => shape_of(*b),
                    None => ExprShape::Missing,
                },
            ),
        ),
    }
}

/// [`render`] over a shape.
pub open spec fn render_shape(s: ExprShape, min: u8) -> Seq<char>
    decreases s,
{
    match s {
        ExprShape::Missing => Seq::empty(),
        ExprShape::Binary(lhs, op, rhs) => match op {
            None => Seq::empty(),
            Some((kind, text)) => {
                let power = binary_power(kind);
                wrapped(
                    power < min,
                    render_shape(*lhs, power) + seq![' '] + text + seq![' '] + render_shape(*rhs, (power + 1) as u8),
                )
            },
        },
        ExprShape::Prefix(op, operand) => match op {
            None => Seq::empty(),
            Some((_, text)) => wrapped(PREFIX_POWER < min, text + render_shape(*operand, POSTFIX_POWER)),
        },
        ExprShape::Member(base, member) => {
            let name = match member {
                Some(t) => t,
                None => Seq::empty(),
            };
            wrapped(POSTFIX_POWER < min, render_shape(*base, POSTFIX_POWER) + seq!['.'] + name)
        },
        ExprShape::Path(name) => wrapped(
            PRIMARY_POWER < min,
            match name {
                Some(t) => t,
                None => Seq::empty(),
            },
        ),
        ExprShape::Literal(token) => match token {
            Some((kind, text)) => literal_text(kind, text),
            None => Seq::empty(),
        },
    }
}

proof fn lemma_render_reads_shape(e: Expr, min: u8)
    ensures
        render(e, min) == render_shape(shape_of(e), min),
    decreases e,
{
    match e {
        Expr::Paren { inner, .. } => {
            if let Some(b) = inner {
                lemma_render_reads_shape(*b, min);
            }
        },
        Expr::Binary { lhs, op, rhs, .. } => {
            if let Some(t) = op {
                let power = binary_power(t.kind);
                match lhs {
                    Some(l) => lemma_render_reads_shape(*l, power),
                    None => assert(render_shape(ExprShape::Missing, power) =~= Seq::empty()),
                }
                match rhs {
                    Some(r) => lemma_render_reads_shape(*r, (power + 1) as u8),
                    None => assert(render_shape(ExprShape::Missing, (power + 1) as u8) =~= Seq::empty()),
                }
            }
        },
        Expr::Prefix { operand, .. } => match operand {
            Some(b) => lemma_render_reads_shape(*b, POSTFIX_POWER),
            None => assert(render_shape(ExprShape::Missing, POSTFIX_POWER) =~= Seq::empty()),
        },
        Expr::Member { base, .. } => match base {
            Some(b) => lemma_render_reads_shape(*b, POSTFIX_POWER),
            None => assert(render_shape(ExprShape::Missing, POSTFIX_POWER) =~= Seq::empty()),
        },
        _ => {},
    }
}

/// The canonical text depends on the parse tree alone: two expressions of
/// the same shape — whatever their spacing, their source ranges and their
/// written parentheses — render alike, in any position.
pub proof fn law_rendering_ignores_layout(a: Expr, b: Expr, min: u8)
    requires
        shape_of(a) == shape_of(b),
    ensures
        render(a, min) == render(b, min),
{
    lemma_render_reads_shape(a, min);
    lemma_render_reads_shape(b, min);
}

/// The canonical one-line rendering of a contract expression ([`render`]):
/// it depends on the tree and not on the written spacing or parentheses.
pub fn canonical_expr_text(expr: &Expr) -> (r: String)
    ensures
        r@ == render(*expr, 0),
{
    let mut out: Vec<char> = Vec::new();
    render_into(expr, 0, &mut out);
    assert(out@ =~= render(*expr, 0));
    chars_to_string(out)
}

} // verus!
