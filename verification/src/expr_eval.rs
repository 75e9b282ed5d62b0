//! The contract-expression evaluator: total evaluation of the guaranteed
//! subset over the exact domains.
//!
//! Three properties are load-bearing, and each is part of the contract of
//! [`eval_expr`]:
//!
//! - **Total.** Every input yields a [`Value`] or an [`EvalError`]; a depth
//!   guard refuses a pathologically nested expression.
//! - **Exact.** Numbers are exact rationals ([`ExactValue`]), never floats;
//!   durations are exact microsecond counts.
//! - **One fault.** Division by zero is the single evaluation fault
//!   ([`EvalError::DivisionByZero`]).

use vstd::prelude::*;

use crate::chars::{str_eq, str_to_chars};
use crate::exact::{
    abs, decimal_literal_value, gcd, rat_add, rat_div, rat_eq, rat_lt, rat_mul, rat_sub, reduce, slice_chars_pub,
    tdiv, trem, ExactValue,
};
use crate::expr::{backing_join, unify_backing, NumericBacking};
use crate::syntax::{chars_equal, Expr, Token, TokenKind};

pub use crate::syntax::parse_contract_expr;

verus! {

// ==========================================================================
// Types
// ==========================================================================

/// A value of the guaranteed subset.
#[derive(Debug, PartialEq, Eq)]
pub enum Value {
    Bool(bool),
    /// An exact rational together with the backing of the type it came from:
    /// `/` truncates over integer-backed operands and `%` requires them.
    Num(ExactValue, NumericBacking),
    /// An exact microsecond count.
    Dur(ExactValue),
    /// An enum member: the canonical `package.Enum` reference and the
    /// member's declared value.
    EnumVal(String, i64),
    /// A tuple-returning query's `result`, in declaration order.
    Tuple(Vec<(String, Value)>),
}

/// The environment one clause evaluates against: the parameters, `result`
/// (in an `ensure`), and the named values that are neither — a package
/// constant under its bare name, an enum member under its dotted
/// `Enum.MEMBER` spelling. The first binding of a name wins.
pub struct EvalEnv<'a> {
    pub params: &'a [(String, Value)],
    pub result: Option<Value>,
    pub consts: &'a [(String, Value)],
}

/// Why an evaluation did not produce a value.
#[derive(Debug, PartialEq, Eq)]
pub enum EvalError {
    /// A name the environment does not bind.
    UnboundRef(String),
    /// An operand outside the operator's domain, or a form the guaranteed
    /// subset does not admit. The string describes what was found.
    TypeMismatch(String),
    /// `/` or `%` with a zero divisor — the single evaluation fault.
    DivisionByZero,
}

/// The deepest expression nesting [`eval_expr`] walks before giving up.
pub const MAX_DEPTH: u32 = 128;

// ==========================================================================
// The model
// ==========================================================================

/// The mathematical value of a [`Value`].
pub enum SValue {
    Bool(bool),
    Num((int, int), NumericBacking),
    Dur((int, int)),
    EnumVal(Seq<char>, int),
    Tuple(Seq<(Seq<char>, SValue)>),
}

/// The model of an [`EvalError`]: the unbound name, or the kind of refusal.
pub enum SError {
    UnboundRef(Seq<char>),
    TypeMismatch(Seq<char>),
    DivisionByZero,
}

pub struct SEnv {
    pub params: Seq<(Seq<char>, SValue)>,
    pub result: Option<SValue>,
    pub consts: Seq<(Seq<char>, SValue)>,
}

pub open spec fn value_view(v: Value) -> SValue
    decreases v,
{
    match v {
        Value::Bool(b) => SValue::Bool(b),
        Value::Num(q, backing) => SValue::Num(q.pair(), backing),
        Value::Dur(q) => SValue::Dur(q.pair()),
        Value::EnumVal(reference, member) => SValue::EnumVal(reference@, member as int),
        Value::Tuple(fields) => SValue::Tuple(bindings_view(fields@)),
    }
}

pub open spec fn bindings_view(b: Seq<(String, Value)>) -> Seq<(Seq<char>, SValue)>
    decreases b,
{
    if b.len() == 0 {
        Seq::empty()
    } else {
        let last = b[b.len() - 1];
        bindings_view(b.subrange(0, b.len() - 1)).push((last.0@, value_view(last.1)))
    }
}

pub open spec fn env_view(env: &EvalEnv) -> SEnv {
    SEnv {
        params: bindings_view(env.params@),
        result: match env.result {
            Some(v) => Some(value_view(v)),
            None => None,
        },
        consts: bindings_view(env.consts@),
    }
}

pub open spec fn error_view(e: EvalError) -> SError {
    match e {
        EvalError::UnboundRef(name) => SError::UnboundRef(name@),
        EvalError::TypeMismatch(m) => SError::TypeMismatch(m@),
        EvalError::DivisionByZero => SError::DivisionByZero,
    }
}

pub open spec fn result_view(r: Result<Value, EvalError>) -> Result<SValue, SError> {
    match r {
        Ok(v) => Ok(value_view(v)),
        Err(e) => Err(error_view(e)),
    }
}

/// Whether every number in the value has a positive denominator.
pub open spec fn value_wf(v: Value) -> bool
    decreases v,
{
    match v {
        Value::Num(q, _) => q.wf(),
        Value::Dur(q) => q.wf(),
        Value::Tuple(fields) => forall|i: int|
            0 <= i < fields@.len() ==> value_wf(#[trigger] fields@[i].1),
        _ => true,
    }
}

pub open spec fn bindings_wf(b: Seq<(String, Value)>) -> bool {
    forall|i: int| 0 <= i < b.len() ==> value_wf(#[trigger] b[i].1)
}

/// Every number the environment binds is well formed.
pub open spec fn env_wf(env: &EvalEnv) -> bool {
    &&& bindings_wf(env.params@)
    &&& bindings_wf(env.consts@)
    &&& env.result matches Some(v) ==> value_wf(v)
}

/// The first binding of `name`.
pub open spec fn lookup(b: Seq<(Seq<char>, SValue)>, name: Seq<char>) -> Option<SValue>
    decreases b.len(),
{
    if b.len() == 0 {
        None
    } else if b[0].0 == name {
        Some(b[0].1)
    } else {
        lookup(b.drop_first(), name)
    }
}

/// The microseconds one unit of a duration literal stands for.
pub open spec fn duration_unit(unit: Seq<char>) -> Option<(int, int)> {
    if unit == seq!['n', 's'] {
        Some((1int, 1000int))
    } else if unit == seq!['u', 's'] {
        Some((1int, 1int))
    } else if unit == seq!['m', 's'] {
        Some((1000int, 1int))
    } else if unit == seq!['s'] {
        Some((1000000int, 1int))
    } else if unit == seq!['m', 'i', 'n'] {
        Some((60000000int, 1int))
    } else if unit == seq!['h'] {
        Some((3600000000int, 1int))
    } else {
        None
    }
}

pub open spec fn is_unit_letter(c: char) -> bool {
    'a' <= c <= 'z'
}

/// The index of the first lower-case letter of `s`, or `s.len()`.
pub open spec fn unit_start(s: Seq<char>) -> nat
    decreases s.len(),
{
    if s.len() == 0 {
        0
    } else if is_unit_letter(s[0]) {
        0
    } else {
        1 + unit_start(s.drop_first())
    }
}

/// The exact microsecond count a duration literal spells: a decimal number
/// followed by one of `ns`, `us`, `ms`, `s`, `min`, `h`.
pub open spec fn duration_literal_us(s: Seq<char>) -> Option<(int, int)> {
    let k = unit_start(s) as int;
    match (decimal_literal_value(s.take(k)), duration_unit(s.skip(k))) {
        (Some(q), Some(f)) => Some(rat_mul(q, f)),
        _ => None,
    }
}

/// The refusal for a tree shape a parse error left behind.
pub open spec fn malformed_text(what: Seq<char>) -> SError {
    SError::TypeMismatch(what + " — the expression did not parse"@)
}

/// The refusal for an operator whose operands lie outside its domain.
pub open spec fn domain_text(op: Seq<char>, expected: Seq<char>, l: SValue, r: SValue) -> SError {
    SError::TypeMismatch(
        "`"@ + op + "` requires "@ + expected + ", found "@ + describe_text(l) + " and "@ + describe_text(r),
    )
}

/// The refusal for an integer-backed operand holding a non-integral value.
pub open spec fn integral_text(op: Seq<char>) -> SError {
    SError::TypeMismatch("`"@ + op + "` has an integer-backed operand holding a non-integral value"@)
}

pub open spec fn literal_value(t: Token) -> Result<SValue, SError> {
    match t.kind {
        TokenKind::IntNumber => match decimal_literal_value(t.text@) {
            Some(q) => Ok(SValue::Num(q, NumericBacking::Integer)),
            None => Err(SError::TypeMismatch("`"@ + t.text@ + "` is not an exact decimal literal"@)),
        },
        TokenKind::FloatNumber => match decimal_literal_value(t.text@) {
            Some(q) => Ok(SValue::Num(q, NumericBacking::Float)),
            None => Err(SError::TypeMismatch("`"@ + t.text@ + "` is not an exact decimal literal"@)),
        },
        TokenKind::Duration => match duration_literal_us(t.text@) {
            Some(q) => Ok(SValue::Dur(q)),
            None => Err(SError::TypeMismatch("`"@ + t.text@ + "` is not a duration literal"@)),
        },
        TokenKind::TrueKw => Ok(SValue::Bool(true)),
        TokenKind::FalseKw => Ok(SValue::Bool(false)),
        TokenKind::String | TokenKind::Regex => Err(
            SError::TypeMismatch(
                "a string or regex literal — no operator of the guaranteed subset works over strings or bytes (expr-core §5.3)"@,
            ),
        ),
        _ => Err(SError::TypeMismatch("`"@ + t.text@ + "` is not a literal of the guaranteed subset"@)),
    }
}

/// A bare name: a parameter first, then `result`, then the named values.
pub open spec fn path_value(name: Seq<char>, env: SEnv) -> Result<SValue, SError> {
    match lookup(env.params, name) {
        Some(v) => Ok(v),
        None => if name == "result"@ {
            match env.result {
                Some(v) => Ok(v),
                None => Err(SError::UnboundRef("result"@)),
            }
        } else {
            match lookup(env.consts, name) {
                Some(v) => Ok(v),
                None => Err(SError::UnboundRef(name)),
            }
        },
    }
}

pub open spec fn prefix_value(kind: TokenKind, v: SValue) -> Result<SValue, SError> {
    match kind {
        TokenKind::Bang => match v {
            SValue::Bool(b) => Ok(SValue::Bool(!b)),
            _ => Err(SError::TypeMismatch("`!` requires a boolean operand, found "@ + describe_text(v))),
        },
        TokenKind::Minus => match v {
            SValue::Num(q, backing) => Ok(SValue::Num((-q.0, q.1), backing)),
            _ => Err(SError::TypeMismatch("unary `-` requires a numeric operand, found "@ + describe_text(v))),
        },
        _ => Err(malformed_text("an unknown prefix operator"@)),
    }
}

/// Equality within one domain; enum values compare within one enum type.
pub open spec fn equal_values(l: SValue, r: SValue, op: Seq<char>) -> Result<bool, SError> {
    match (l, r) {
        (SValue::Bool(a), SValue::Bool(b)) => Ok(a == b),
        (SValue::Num(a, _), SValue::Num(b, _)) => Ok(rat_eq(a, b)),
        (SValue::Dur(a), SValue::Dur(b)) => Ok(rat_eq(a, b)),
        (SValue::EnumVal(ta, a), SValue::EnumVal(tb, b)) => if ta == tb {
            Ok(a == b)
        } else {
            Err(
                SError::TypeMismatch(
                    "`"@ + op + "` compares `"@ + ta + "` with `"@ + tb
                        + "` — enum equality is within one enum type"@,
                ),
            )
        },
        _ => Err(domain_text(op, "operands of one domain"@, l, r)),
    }
}


pub open spec fn binary_value(kind: TokenKind, op: Seq<char>, l: SValue, r: SValue) -> Result<SValue, SError> {
    match kind {
        TokenKind::EqEq => match equal_values(l, r, op) {
            Ok(b) => Ok(SValue::Bool(b)),
            Err(e) => Err(e),
        },
        TokenKind::Neq => match equal_values(l, r, op) {
            Ok(b) => Ok(SValue::Bool(!b)),
            Err(e) => Err(e),
        },
        TokenKind::Lt | TokenKind::Le | TokenKind::Gt | TokenKind::Ge => match (l, r) {
            (SValue::Num(a, _), SValue::Num(b, _)) | (SValue::Dur(a), SValue::Dur(b)) => Ok(
                SValue::Bool(
                    match kind {
                        TokenKind::Lt => rat_lt(a, b),
                        TokenKind::Le => !rat_lt(b, a),
                        TokenKind::Gt => rat_lt(b, a),
                        _ => !rat_lt(a, b),
                    },
                ),
            ),
            _ => Err(domain_text(op, "operands of one ordered domain"@, l, r)),
        },
        TokenKind::Plus | TokenKind::Minus | TokenKind::Star => match (l, r) {
            (SValue::Num(a, ba), SValue::Num(b, bb)) => Ok(
                SValue::Num(
                    match kind {
                        TokenKind::Plus => rat_add(a, b),
                        TokenKind::Minus => rat_sub(a, b),
                        _ => rat_mul(a, b),
                    },
                    backing_join(ba, bb),
                ),
            ),
            _ => Err(domain_text(op, "numeric operands"@, l, r)),
        },
        TokenKind::Slash => match (l, r) {
            (SValue::Num(a, ba), SValue::Num(b, bb)) => if b.0 == 0 {
                Err(SError::DivisionByZero)
            } else if backing_join(ba, bb) == NumericBacking::Integer {
                if a.1 == 1 && b.1 == 1 {
                    Ok(SValue::Num((tdiv(a.0, b.0), 1), NumericBacking::Integer))
                } else {
                    Err(integral_text(op))
                }
            } else {
                Ok(SValue::Num(rat_div(a, b), NumericBacking::Float))
            },
            _ => Err(domain_text(op, "numeric operands"@, l, r)),
        },
        TokenKind::Percent => match (l, r) {
            (SValue::Num(a, ba), SValue::Num(b, bb)) => if b.0 == 0 {
                Err(SError::DivisionByZero)
            } else if backing_join(ba, bb) != NumericBacking::Integer {
                Err(SError::TypeMismatch("`%` requires integer-backed operands (expr-core §5.3)"@))
            } else if a.1 == 1 && b.1 == 1 {
                Ok(SValue::Num((trem(a.0, b.0), 1), NumericBacking::Integer))
            } else {
                Err(integral_text(op))
            },
            _ => Err(domain_text(op, "numeric operands"@, l, r)),
        },
        _ => Err(malformed_text("an unknown binary operator"@)),
    }
}

/// The dotted `Enum.MEMBER` value, when the base is a bare name no value in
/// scope shadows and the named values bind the dotted spelling.
pub open spec fn enum_member_value(base: Expr, member: Seq<char>, env: SEnv) -> Option<SValue> {
    match base {
        Expr::Path { name: Some(head), .. } => if lookup(env.params, head.text@) is None
            && head.text@ != "result"@ {
            lookup(env.consts, head.text@ + seq!['.'] + member)
        } else {
            None
        },
        _ => None,
    }
}

/// The refusal for a `&&`/`||` operand that is no boolean.
pub open spec fn bool_refusal(op: Seq<char>, v: SValue) -> SError {
    SError::TypeMismatch("`"@ + op + "` requires boolean operands, found "@ + describe_text(v))
}

/// The message of the depth guard's refusal.
pub open spec fn too_deep_text() -> Seq<char> {
    "expression nests deeper than "@ + "128 levels"@
}

/// Whether evaluating `e` at nesting `depth` meets the depth guard before
/// anything else: the guard itself, or — through the operand evaluation
/// reaches first (a parenthesis's inner expression, a complete prefix
/// expression's operand, the base of a member access whose base is not a
/// bare name, a complete binary expression's left operand) — one level down.
pub open spec fn too_deep(e: Expr, depth: nat) -> bool
    decreases e,
{
    depth > MAX_DEPTH || match e {
        Expr::Paren { inner: Some(b), .. } => too_deep(*b, depth + 1),
        Expr::Prefix { op: Some(_), operand: Some(b), .. } => too_deep(*b, depth + 1),
        Expr::Member { base: Some(b), member: Some(_), .. } => !(*b is Path) && too_deep(*b, depth + 1),
        Expr::Binary { lhs: Some(l), op: Some(_), rhs: Some(_), .. } => too_deep(*l, depth + 1),
        _ => false,
    }
}

/// The value of `e` under `env` at nesting `depth`.
pub open spec fn spec_eval(e: Expr, env: SEnv, depth: nat) -> Result<SValue, SError>
    decreases e,
{
    if depth > MAX_DEPTH {
        Err(SError::TypeMismatch(too_deep_text()))
    } else {
        match e {
            Expr::Literal { token, .. } => match token {
                Some(t) => literal_value(t),
                None => Err(malformed_text("a literal with no token"@)),
            },
            Expr::Paren { inner, .. } => match inner {
                Some(b) => spec_eval(*b, env, depth + 1),
                None => Err(malformed_text("an empty parenthesis"@)),
            },
            Expr::Path { name, .. } => match name {
                Some(t) => path_value(t.text@, env),
                None => Err(malformed_text("a path with no name"@)),
            },
            Expr::Prefix { op, operand, .. } => match (op, operand) {
                (Some(t), Some(b)) => match spec_eval(*b, env, depth + 1) {
                    Ok(v) => prefix_value(t.kind, v),
                    Err(x) => Err(x),
                },
                (_, None) => Err(malformed_text("a prefix operator with no operand"@)),
                (None, _) => Err(malformed_text("a prefix expression with no operator"@)),
            },
            Expr::Member { base, member, .. } => match (base, member) {
                (Some(b), Some(m)) => match enum_member_value(*b, m.text@, env) {
                    Some(v) => Ok(v),
                    None => match spec_eval(*b, env, depth + 1) {
                        Ok(SValue::Tuple(fields)) => match lookup(fields, m.text@) {
                            Some(v) => Ok(v),
                            None => Err(SError::UnboundRef("result."@ + m.text@)),
                        },
                        Ok(v) => Err(
                            SError::TypeMismatch(
                                "field access `."@ + m.text@ + "` on "@ + describe_text(v)
                                    + " — the guaranteed subset admits field access on a tuple-typed `result` only"@,
                            ),
                        ),
                        Err(x) => Err(x),
                    },
                },
                (None, _) => Err(malformed_text("a member access with no base"@)),
                (_, None) => Err(malformed_text("a member access with no member name"@)),
            },
            Expr::Binary { lhs, op, rhs, .. } => match (lhs, op, rhs) {
                (Some(l), Some(t), Some(r)) => if t.kind == TokenKind::AmpAmp || t.kind
                    == TokenKind::PipePipe {
                    match spec_eval(*l, env, depth + 1) {
                        Ok(SValue::Bool(a)) => if a == (t.kind == TokenKind::PipePipe) {
                            Ok(SValue::Bool(a))
                        } else {
                            match spec_eval(*r, env, depth + 1) {
                                Ok(SValue::Bool(b)) => Ok(SValue::Bool(b)),
                                Ok(v) => Err(bool_refusal(t.text@, v)),
                                Err(x) => Err(x),
                            }
                        },
                        Ok(v) => Err(bool_refusal(t.text@, v)),
                        Err(x) => Err(x),
                    }
                } else {
                    match spec_eval(*l, env, depth + 1) {
                        Ok(a) => match spec_eval(*r, env, depth + 1) {
                            Ok(b) => binary_value(t.kind, t.text@, a, b),
                            Err(x) => Err(x),
                        },
                        Err(x) => Err(x),
                    }
                },
                (_, None, _) => Err(malformed_text("a binary expression with no operator"@)),
                _ => Err(malformed_text("a binary expression missing an operand"@)),
            },
        }
    }
}

// ==========================================================================
// Model lemmas
// ==========================================================================

pub proof fn lemma_bindings_view(b: Seq<(String, Value)>)
    ensures
        bindings_view(b).len() == b.len(),
        forall|i: int|
            0 <= i < b.len() ==> #[trigger] bindings_view(b)[i] == (b[i].0@, value_view(b[i].1)),
    decreases b.len(),
{
    if b.len() > 0 {
        lemma_bindings_view(b.subrange(0, b.len() - 1));
    }
}

proof fn lemma_lookup_step(s: Seq<(Seq<char>, SValue)>, i: int, name: Seq<char>)
    requires
        0 <= i < s.len(),
    ensures
        s.skip(i)[0] == s[i],
        s[i].0 == name ==> lookup(s.skip(i), name) == Some(s[i].1),
        s[i].0 != name ==> lookup(s.skip(i), name) == lookup(s.skip(i + 1), name),
{
    assert(s.skip(i).drop_first() =~= s.skip(i + 1));
}

// ==========================================================================
// Copies and lookups
// ==========================================================================

impl Value {
    /// A copy of the value.
    pub fn copy(&self) -> (r: Value)
        ensures
            value_view(r) == value_view(*self),
            value_wf(*self) ==> value_wf(r),
        decreases self,
    {
        match self {
            Value::Bool(b) => Value::Bool(*b),
            Value::Num(q, backing) => Value::Num(q.copy(), *backing),
            Value::Dur(q) => Value::Dur(q.copy()),
            Value::EnumVal(reference, member) => Value::EnumVal(reference.clone(), *member),
            Value::Tuple(fields) => {
                let mut out: Vec<(String, Value)> = Vec::new();
                let mut i: usize = 0;
                while i < fields.len()
                    invariant
                        i <= fields.len(),
                        *self == Value::Tuple(*fields),
                        out@.len() == i,
                        forall|j: int|
                            0 <= j < i ==> (#[trigger] out@[j]).0@ == fields@[j].0@ && value_view(
                                out@[j].1,
                            ) == value_view(fields@[j].1) && (value_wf(fields@[j].1) ==> value_wf(
                                out@[j].1,
                            )),
                    decreases fields.len() - i,
                {
                    proof {
                        let v = (*self)->Tuple_0;
                        assert(v == *fields);
                        assert(decreases_to!(*self => v));
                        assert(decreases_to!(v => v@));
                        assert(decreases_to!(v@ => v@[i as int]));
                        assert(decreases_to!(v@[i as int] => v@[i as int].1));
                    }
                    let name = fields[i].0.clone();
                    let value = fields[i].1.copy();
                    out.push((name, value));
                    i = i + 1;
                }
                proof {
                    lemma_bindings_view(out@);
                    lemma_bindings_view(fields@);
                    assert(bindings_view(out@) =~= bindings_view(fields@));
                }
                Value::Tuple(out)
            },
        }
    }
}

/// The first binding of `name`, copied out.
fn lookup_binding(b: &[(String, Value)], name: &str) -> (r: Option<Value>)
    requires
        bindings_wf(b@),
    ensures
        r matches Some(v) ==> value_wf(v) && lookup(bindings_view(b@), name@) == Some(
            value_view(v),
        ),
        r is None ==> lookup(bindings_view(b@), name@) is None,
{
    let ghost view = bindings_view(b@);
    proof {
        lemma_bindings_view(b@);
    }
    let mut i: usize = 0;
    assert(view.skip(0) =~= view);
    while i < b.len()
        invariant
            i <= b.len(),
            view == bindings_view(b@),
            view.len() == b@.len(),
            bindings_wf(b@),
            forall|j: int| 0 <= j < b@.len() ==> #[trigger] view[j] == (b@[j].0@, value_view(b@[j].1)),
            lookup(view, name@) == lookup(view.skip(i as int), name@),
        decreases b.len() - i,
    {
        proof {
            lemma_lookup_step(view, i as int, name@);
        }
        if str_eq(b[i].0.as_str(), name) {
            return Some(b[i].1.copy());
        }
        i = i + 1;
    }
    assert(view.skip(i as int) =~= Seq::<(Seq<char>, SValue)>::empty());
    None
}

/// The human rendering of a value's domain, for messages.
pub open spec fn describe_text(v: SValue) -> Seq<char> {
    match v {
        SValue::Bool(_) => "a boolean"@,
        SValue::Num(_, _) => "a number"@,
        SValue::Dur(_) => "a duration"@,
        SValue::EnumVal(reference, _) => "`"@ + reference + "`"@,
        SValue::Tuple(_) => "a tuple"@,
    }
}

/// The human rendering of a value's domain ([`describe_text`]).
pub fn describe(value: &Value) -> (r: String)
    ensures
        r@ == describe_text(value_view(*value)),
{
    match value {
        Value::Bool(_) => String::from_str("a boolean"),
        Value::Num(_, _) => String::from_str("a number"),
        Value::Dur(_) => String::from_str("a duration"),
        Value::EnumVal(reference, _) => {
            let mut text = String::from_str("`");
            text.append(reference.as_str());
            text.append("`");
            text
        },
        Value::Tuple(_) => String::from_str("a tuple"),
    }
}

/// The refusal for an operator whose operands lie outside its domain.
fn domain_mismatch(op: &str, expected: &str, left: &Value, right: &Value) -> (r: EvalError)
    ensures
        r matches EvalError::TypeMismatch(t) && t@ == "`"@ + op@ + "` requires "@ + expected@ + ", found "@
            + describe_text(value_view(*left)) + " and "@ + describe_text(value_view(*right)),
{
    let mut text = String::from_str("`");
    text.append(op);
    text.append("` requires ");
    text.append(expected);
    text.append(", found ");
    text.append(describe(left).as_str());
    text.append(" and ");
    text.append(describe(right).as_str());
    EvalError::TypeMismatch(text)
}

/// The refusal for a tree shape a parse error left behind.
fn malformed(what: &str) -> (r: EvalError)
    ensures
        r matches EvalError::TypeMismatch(t) && t@ == what@ + " — the expression did not parse"@,
{
    let mut text = String::from_str(what);
    text.append(" — the expression did not parse");
    EvalError::TypeMismatch(text)
}

/// The boolean a `&&`/`||` operand holds, or the refusal.
fn expect_bool(value: Value, op: &str) -> (r: Result<bool, EvalError>)
    ensures
        value_view(value) matches SValue::Bool(b) ==> r == Ok::<bool, EvalError>(b),
        !(value_view(value) is Bool) ==> (r matches Err(e) && error_view(e) == bool_refusal(op@, value_view(value))),
{
    match value {
        Value::Bool(held) => Ok(held),
        other => {
            let mut text = String::from_str("`");
            text.append(op);
            text.append("` requires boolean operands, found ");
            text.append(describe(&other).as_str());
            Err(EvalError::TypeMismatch(text))
        },
    }
}

// ==========================================================================
// Literals and names
// ==========================================================================

proof fn lemma_unit_start(s: Seq<char>, k: int)
    requires
        0 <= k <= s.len(),
        forall|j: int| 0 <= j < k ==> !is_unit_letter(#[trigger] s[j]),
        k < s.len() ==> is_unit_letter(s[k]),
    ensures
        unit_start(s) == k,
    decreases s.len(),
{
    if s.len() > 0 && k > 0 {
        assert forall|j: int| 0 <= j < k - 1 implies !is_unit_letter(#[trigger] s.drop_first()[j]) by {
            assert(s.drop_first()[j] == s[j + 1]);
        }
        lemma_unit_start(s.drop_first(), k - 1);
    }
}

/// The exact microsecond count of a duration literal
/// ([`duration_literal_us`]).
fn duration_value(text: &str) -> (r: Option<ExactValue>)
    ensures
        r matches Some(q) ==> q.wf() && duration_literal_us(text@) == Some(q.pair()),
        r is None ==> duration_literal_us(text@) is None,
{
    let cs = str_to_chars(text);
    let n = cs.len();
    let mut k: usize = 0;
    while k < n && !('a' <= cs[k] && cs[k] <= 'z')
        invariant
            k <= n,
            n == cs.len(),
            forall|j: int| 0 <= j < k ==> !is_unit_letter(#[trigger] cs@[j]),
        decreases n - k,
    {
        k = k + 1;
    }
    proof {
        lemma_unit_start(cs@, k as int);
        reveal_strlit("ns");
        reveal_strlit("us");
        reveal_strlit("ms");
        reveal_strlit("s");
        reveal_strlit("min");
        reveal_strlit("h");
        assert("ns"@ =~= seq!['n', 's']);
        assert("us"@ =~= seq!['u', 's']);
        assert("ms"@ =~= seq!['m', 's']);
        assert("s"@ =~= seq!['s']);
        assert("min"@ =~= seq!['m', 'i', 'n']);
        assert("h"@ =~= seq!['h']);
        assert(cs@.skip(k as int) =~= cs@.subrange(k as int, n as int));
    }
    let number = slice_chars_pub(&cs, 0, k);
    assert(number@ =~= cs@.take(k as int));
    let q = match ExactValue::parse_chars(&number) {
        Some(q) => q,
        None => {
            return None;
        },
    };
    let factor = if chars_equal(&cs, k, n, "ns") {
        proof {
            reveal_with_fuel(gcd, 3);
            assert(abs(1) == 1 && abs(1000) == 1000);
            assert(gcd(1, 1000) == 1);
            assert(reduce(1, 1000) == (1int, 1000int));
        }
        ExactValue::from_ratio_i64(1, 1000)
    } else if chars_equal(&cs, k, n, "us") {
        ExactValue::from_i64(1)
    } else if chars_equal(&cs, k, n, "ms") {
        ExactValue::from_i64(1000)
    } else if chars_equal(&cs, k, n, "s") {
        ExactValue::from_i64(1000000)
    } else if chars_equal(&cs, k, n, "min") {
        ExactValue::from_i64(60000000)
    } else if chars_equal(&cs, k, n, "h") {
        ExactValue::from_i64(3600000000)
    } else {
        return None;
    };
    Some(q.mul(&factor))
}

fn eval_literal(token: &Token) -> (r: Result<Value, EvalError>)
    ensures
        result_view(r) == literal_value(*token),
        r matches Ok(v) ==> value_wf(v),
{
    match token.kind {
        TokenKind::IntNumber | TokenKind::FloatNumber => {
            let backing = if token.kind == TokenKind::IntNumber {
                NumericBacking::Integer
            } else {
                NumericBacking::Float
            };
            match ExactValue::parse(token.text.as_str()) {
                Some(value) => Ok(Value::Num(value, backing)),
                None => {
                    let mut text = String::from_str("`");
                    text.append(token.text.as_str());
                    text.append("` is not an exact decimal literal");
                    Err(EvalError::TypeMismatch(text))
                },
            }
        },
        TokenKind::Duration => match duration_value(token.text.as_str()) {
            Some(us) => Ok(Value::Dur(us)),
            None => {
                let mut text = String::from_str("`");
                text.append(token.text.as_str());
                text.append("` is not a duration literal");
                Err(EvalError::TypeMismatch(text))
            },
        },
        TokenKind::TrueKw => Ok(Value::Bool(true)),
        TokenKind::FalseKw => Ok(Value::Bool(false)),
        TokenKind::String | TokenKind::Regex => Err(
            EvalError::TypeMismatch(
                String::from_str(
                    "a string or regex literal — no operator of the guaranteed subset works over strings or bytes (expr-core §5.3)",
                ),
            ),
        ),
        _ => {
            let mut text = String::from_str("`");
            text.append(token.text.as_str());
            text.append("` is not a literal of the guaranteed subset");
            Err(EvalError::TypeMismatch(text))
        },
    }
}

fn eval_path(name: &str, env: &EvalEnv) -> (r: Result<Value, EvalError>)
    requires
        env_wf(env),
    ensures
        result_view(r) == path_value(name@, env_view(env)),
        r matches Ok(v) ==> value_wf(v),
{
    if let Some(value) = lookup_binding(env.params, name) {
        return Ok(value);
    }
    if str_eq(name, "result") {
        return match &env.result {
            Some(value) => Ok(value.copy()),
            None => Err(EvalError::UnboundRef(String::from_str("result"))),
        };
    }
    match lookup_binding(env.consts, name) {
        Some(value) => Ok(value),
        None => Err(EvalError::UnboundRef(String::from_str(name))),
    }
}

// ==========================================================================
// Operators
// ==========================================================================

/// Equality within one domain; enum values compare within one enum type.
fn equality(left: &Value, right: &Value, op: &str) -> (r: Result<bool, EvalError>)
    requires
        value_wf(*left),
        value_wf(*right),
    ensures
        match r {
            Ok(b) => equal_values(value_view(*left), value_view(*right), op@) == Ok::<bool, SError>(b),
            Err(e) => equal_values(value_view(*left), value_view(*right), op@) == Err::<bool, SError>(
                error_view(e),
            ),
        },
{
    match (left, right) {
        (Value::Bool(a), Value::Bool(b)) => Ok(*a == *b),
        (Value::Num(a, _), Value::Num(b, _)) => Ok(a.equals(b)),
        (Value::Dur(a), Value::Dur(b)) => Ok(a.equals(b)),
        (Value::EnumVal(left_type, left_value), Value::EnumVal(right_type, right_value)) => {
            if !str_eq(left_type.as_str(), right_type.as_str()) {
                let mut text = String::from_str("`");
                text.append(op);
                text.append("` compares `");
                text.append(left_type.as_str());
                text.append("` with `");
                text.append(right_type.as_str());
                text.append("` — enum equality is within one enum type");
                return Err(EvalError::TypeMismatch(text));
            }
            Ok(*left_value == *right_value)
        },
        _ => Err(domain_mismatch(op, "operands of one domain", left, right)),
    }
}

/// The operands of an ordering comparison: two numbers or two durations.
fn ordered_pair<'a>(left: &'a Value, right: &'a Value) -> (r: Option<(&'a ExactValue, &'a ExactValue)>)
    requires
        value_wf(*left),
        value_wf(*right),
    ensures
        r matches Some((a, b)) ==> a.wf() && b.wf() && match (value_view(*left), value_view(*right)) {
            (SValue::Num(x, _), SValue::Num(y, _)) => x == a.pair() && y == b.pair(),
            (SValue::Dur(x), SValue::Dur(y)) => x == a.pair() && y == b.pair(),
            _ => false,
        },
        r is None ==> match (value_view(*left), value_view(*right)) {
            (SValue::Num(_, _), SValue::Num(_, _)) => false,
            (SValue::Dur(_), SValue::Dur(_)) => false,
            _ => true,
        },
{
    match (left, right) {
        (Value::Num(a, _), Value::Num(b, _)) => Some((a, b)),
        (Value::Dur(a), Value::Dur(b)) => Some((a, b)),
        _ => None,
    }
}

fn integral_refusal(op: &str) -> (r: EvalError)
    ensures
        r matches EvalError::TypeMismatch(t) && t@ == "`"@ + op@
            + "` has an integer-backed operand holding a non-integral value"@,
{
    let mut text = String::from_str("`");
    text.append(op);
    text.append("` has an integer-backed operand holding a non-integral value");
    EvalError::TypeMismatch(text)
}

fn binary_op(op: &Token, left: &Value, right: &Value) -> (r: Result<Value, EvalError>)
    requires
        value_wf(*left),
        value_wf(*right),
    ensures
        result_view(r) == binary_value(op.kind, op.text@, value_view(*left), value_view(*right)),
        r matches Ok(v) ==> value_wf(v),
{
    let text = op.text.as_str();
    match op.kind {
        TokenKind::EqEq | TokenKind::Neq => {
            let equal = equality(left, right, text)?;
            Ok(Value::Bool(if op.kind == TokenKind::EqEq { equal } else { !equal }))
        },
        TokenKind::Lt | TokenKind::Le | TokenKind::Gt | TokenKind::Ge => {
            let (a, b) = match ordered_pair(left, right) {
                Some(pair) => pair,
                None => {
                    return Err(domain_mismatch(text, "operands of one ordered domain", left, right));
                },
            };
            Ok(
                Value::Bool(
                    match op.kind {
                        TokenKind::Lt => a.lt(b),
                        TokenKind::Le => !b.lt(a),
                        TokenKind::Gt => b.lt(a),
                        _ => !a.lt(b),
                    },
                ),
            )
        },
        TokenKind::Plus | TokenKind::Minus | TokenKind::Star | TokenKind::Slash
        | TokenKind::Percent => {
            let (a, ba, b, bb) = match (left, right) {
                (Value::Num(a, ba), Value::Num(b, bb)) => (a, *ba, b, *bb),
                _ => {
                    return Err(domain_mismatch(text, "numeric operands", left, right));
                },
            };
            let backing = unify_backing(ba, bb);
            match op.kind {
                TokenKind::Plus => Ok(Value::Num(a.add(b), backing)),
                TokenKind::Minus => Ok(Value::Num(a.sub(b), backing)),
                TokenKind::Star => Ok(Value::Num(a.mul(b), backing)),
                TokenKind::Slash => {
                    if b.is_zero() {
                        return Err(EvalError::DivisionByZero);
                    }
                    if backing == NumericBacking::Integer {
                        if !a.is_integer() || !b.is_integer() {
                            return Err(integral_refusal(text));
                        }
                        return Ok(Value::Num(a.integer_tdiv(b), backing));
                    }
                    Ok(Value::Num(a.div(b), backing))
                },
                _ => {
                    if b.is_zero() {
                        return Err(EvalError::DivisionByZero);
                    }
                    if backing != NumericBacking::Integer {
                        return Err(
                            EvalError::TypeMismatch(
                                String::from_str(
                                    "`%` requires integer-backed operands (expr-core §5.3)",
                                ),
                            ),
                        );
                    }
                    if !a.is_integer() || !b.is_integer() {
                        return Err(integral_refusal(text));
                    }
                    Ok(Value::Num(a.integer_trem(b), backing))
                },
            }
        },
        _ => Err(malformed("an unknown binary operator")),
    }
}

// ==========================================================================
// Evaluation
// ==========================================================================

/// Evaluates one guaranteed-subset expression against `env`.
///
/// Total: every input yields a [`Value`] or an [`EvalError`], exactly the
/// outcome [`spec_eval`] defines — including the short-circuit of `&&` and
/// `||`, division by zero as the one fault, and the depth guard.
pub fn eval_expr(expr: &Expr, env: &EvalEnv) -> (r: Result<Value, EvalError>)
    requires
        env_wf(env),
    ensures
        result_view(r) == spec_eval(*expr, env_view(env), 0),
        r matches Ok(v) ==> value_wf(v),
        too_deep(*expr, 0) ==> (r matches Err(EvalError::TypeMismatch(m)) && m@ == too_deep_text()),
{
    eval(expr, env, 0)
}

fn eval(expr: &Expr, env: &EvalEnv, depth: u32) -> (r: Result<Value, EvalError>)
    requires
        env_wf(env),
        depth <= MAX_DEPTH + 1,
    ensures
        result_view(r) == spec_eval(*expr, env_view(env), depth as nat),
        r matches Ok(v) ==> value_wf(v),
        too_deep(*expr, depth as nat) ==> (r matches Err(EvalError::TypeMismatch(m)) && m@ == too_deep_text()),
    decreases expr,
{
    if depth > MAX_DEPTH {
        let mut text = String::from_str("expression nests deeper than ");
        text.append("128 levels");
        return Err(EvalError::TypeMismatch(text));
    }
    match expr {
        Expr::Literal { token, .. } => match token {
            Some(token) => eval_literal(token),
            None => Err(malformed("a literal with no token")),
        },
        Expr::Paren { inner, .. } => match inner {
            Some(inner) => eval(inner, env, depth + 1),
            None => Err(malformed("an empty parenthesis")),
        },
        Expr::Path { name, .. } => match name {
            Some(token) => eval_path(token.text.as_str(), env),
            None => Err(malformed("a path with no name")),
        },
        Expr::Prefix { op, operand, .. } => {
            let operand = match operand {
                Some(operand) => operand,
                None => {
                    return Err(malformed("a prefix operator with no operand"));
                },
            };
            let token = match op {
                Some(token) => token,
                None => {
                    return Err(malformed("a prefix expression with no operator"));
                },
            };
            let value = eval(operand, env, depth + 1)?;
            match token.kind {
                TokenKind::Bang => match value {
                    Value::Bool(held) => Ok(Value::Bool(!held)),
                    other => {
                        let mut text = String::from_str("`!` requires a boolean operand, found ");
                        text.append(describe(&other).as_str());
                        Err(EvalError::TypeMismatch(text))
                    },
                },
                TokenKind::Minus => match value {
                    Value::Num(held, backing) => Ok(Value::Num(held.neg(), backing)),
                    other => {
                        let mut text = String::from_str(
                            "unary `-` requires a numeric operand, found ",
                        );
                        text.append(describe(&other).as_str());
                        Err(EvalError::TypeMismatch(text))
                    },
                },
                _ => Err(malformed("an unknown prefix operator")),
            }
        },
        Expr::Member { base, member, .. } => {
            let base = match base {
                Some(base) => base,
                None => {
                    return Err(malformed("a member access with no base"));
                },
            };
            let token = match member {
                Some(token) => token,
                None => {
                    return Err(malformed("a member access with no member name"));
                },
            };
            let name = token.text.as_str();
            // `Enum.MEMBER`: a bare head that no value in scope shadows.
            match &**base {
                Expr::Path { name: Some(head), .. } => {
                    let head_text = head.text.as_str();
                    let shadowed = lookup_binding(env.params, head_text).is_some() || str_eq(
                        head_text,
                        "result",
                    );
                    if !shadowed {
                        let mut key = String::from_str(head_text);
                        key.append(".");
                        key.append(name);
                        proof {
                            reveal_strlit(".");
                            assert("."@ =~= seq!['.']);
                        }
                        if let Some(value) = lookup_binding(env.consts, key.as_str()) {
                            return Ok(value);
                        }
                    }
                },
                _ => {},
            }
            match eval(base, env, depth + 1)? {
                Value::Tuple(fields) => match lookup_binding(fields.as_slice(), name) {
                    Some(value) => Ok(value),
                    None => {
                        let mut text = String::from_str("result.");
                        text.append(name);
                        Err(EvalError::UnboundRef(text))
                    },
                },
                other => {
                    let mut text = String::from_str("field access `.");
                    text.append(name);
                    text.append("` on ");
                    text.append(describe(&other).as_str());
                    text.append(
                        " — the guaranteed subset admits field access on a tuple-typed `result` only",
                    );
                    Err(EvalError::TypeMismatch(text))
                },
            }
        },
        Expr::Binary { lhs, op, rhs, .. } => {
            let token = match op {
                Some(token) => token,
                None => {
                    return Err(malformed("a binary expression with no operator"));
                },
            };
            let (lhs, rhs) = match (lhs, rhs) {
                (Some(lhs), Some(rhs)) => (lhs, rhs),
                _ => {
                    return Err(malformed("a binary expression missing an operand"));
                },
            };
            let text = token.text.as_str();
            // `&&` and `||` short-circuit left to right.
            if token.kind == TokenKind::AmpAmp || token.kind == TokenKind::PipePipe {
                let left = expect_bool(eval(lhs, env, depth + 1)?, text)?;
                let short_circuit = token.kind == TokenKind::PipePipe;
                if left == short_circuit {
                    return Ok(Value::Bool(left));
                }
                let right = expect_bool(eval(rhs, env, depth + 1)?, text)?;
                return Ok(Value::Bool(right));
            }
            let left = eval(lhs, env, depth + 1)?;
            let right = eval(rhs, env, depth + 1)?;
            binary_op(token, &left, &right)
        },
    }
}

// ==========================================================================
// Laws
// ==========================================================================

/// `&&` short-circuits: once its left operand evaluates to `false`, the
/// conjunction is `false` whatever the right operand would do — even fault.
pub proof fn law_and_short_circuits(
    lhs: Expr,
    op: Token,
    rhs: Expr,
    range: crate::syntax::TextRange,
    env: SEnv,
    depth: nat,
)
    requires
        op.kind == TokenKind::AmpAmp,
        depth <= MAX_DEPTH,
        spec_eval(lhs, env, depth + 1) == Ok::<SValue, SError>(SValue::Bool(false)),
    ensures
        spec_eval(
            Expr::Binary {
                lhs: Some(Box::new(lhs)),
                op: Some(op),
                rhs: Some(Box::new(rhs)),
                range,
            },
            env,
            depth,
        ) == Ok::<SValue, SError>(SValue::Bool(false)),
{
}

/// `||` short-circuits: once its left operand evaluates to `true`, the
/// disjunction is `true` whatever the right operand would do.
pub proof fn law_or_short_circuits(
    lhs: Expr,
    op: Token,
    rhs: Expr,
    range: crate::syntax::TextRange,
    env: SEnv,
    depth: nat,
)
    requires
        op.kind == TokenKind::PipePipe,
        depth <= MAX_DEPTH,
        spec_eval(lhs, env, depth + 1) == Ok::<SValue, SError>(SValue::Bool(true)),
    ensures
        spec_eval(
            Expr::Binary {
                lhs: Some(Box::new(lhs)),
                op: Some(op),
                rhs: Some(Box::new(rhs)),
                range,
            },
            env,
            depth,
        ) == Ok::<SValue, SError>(SValue::Bool(true)),
{
}

/// Division by zero is the defined fault: `/` and `%` with a zero divisor
/// yield `DivisionByZero`, whatever the dividend and the backings.
pub proof fn law_division_by_zero_faults(
    kind: TokenKind,
    op: Seq<char>,
    a: (int, int),
    ba: NumericBacking,
    b: (int, int),
    bb: NumericBacking,
)
    requires
        kind == TokenKind::Slash || kind == TokenKind::Percent,
        b.0 == 0,
    ensures
        binary_value(kind, op, SValue::Num(a, ba), SValue::Num(b, bb)) == Err::<SValue, SError>(
            SError::DivisionByZero,
        ),
{
}

/// Integer division truncates toward zero and the remainder takes the
/// dividend's sign: `a == tdiv(a, b) * b + trem(a, b)`, the remainder is
/// smaller than the divisor in magnitude, and it is zero or has `a`'s sign.
pub proof fn law_truncating_division(a: int, b: int)
    requires
        b != 0,
    ensures
        tdiv(a, b) * b + trem(a, b) == a,
        abs(trem(a, b)) < abs(b),
        trem(a, b) == 0 || (trem(a, b) < 0) == (a < 0),
        abs(tdiv(a, b) * b) <= abs(a),
{
    let q = (abs(a) / abs(b)) as int;
    let r0 = abs(a) as int - q * abs(b) as int;
    assert(0 <= r0 < abs(b)) by (nonlinear_arith)
        requires
            q == (abs(a) / abs(b)) as int,
            r0 == abs(a) as int - q * abs(b) as int,
            abs(b) > 0,
    ;
    assert(q >= 0) by (nonlinear_arith)
        requires
            q == (abs(a) / abs(b)) as int,
            abs(b) > 0,
    ;
    if a >= 0 && b > 0 {
        assert(tdiv(a, b) == q);
        assert(trem(a, b) == a - b * q);
        assert(q * b == b * q) by (nonlinear_arith);
        assert(abs(a) == a && abs(b) == b);
        assert(a - b * q == r0);
        assert(q * b >= 0) by (nonlinear_arith)
            requires
                q >= 0,
                b > 0,
        ;
    } else if a >= 0 && b < 0 {
        assert(tdiv(a, b) == -q);
        assert(trem(a, b) == a - b * (-q));
        assert(b * (-q) == q * abs(b)) by (nonlinear_arith)
            requires
                abs(b) == -b,
        ;
        assert((-q) * b == q * abs(b)) by (nonlinear_arith)
            requires
                abs(b) == -b,
        ;
        assert(q * abs(b) >= 0) by (nonlinear_arith)
            requires
                q >= 0,
                abs(b) > 0,
        ;
    } else if a < 0 && b > 0 {
        assert(tdiv(a, b) == -q);
        assert(trem(a, b) == a - b * (-q));
        assert(b * (-q) == -(q * abs(b))) by (nonlinear_arith)
            requires
                abs(b) == b,
        ;
        assert((-q) * b == -(q * abs(b))) by (nonlinear_arith)
            requires
                abs(b) == b,
        ;
        assert(q * abs(b) >= 0) by (nonlinear_arith)
            requires
                q >= 0,
                abs(b) > 0,
        ;
    } else {
        assert(tdiv(a, b) == q);
        assert(trem(a, b) == a - b * q);
        assert(b * q == -(q * abs(b))) by (nonlinear_arith)
            requires
                abs(b) == -b,
        ;
        assert(q * b == -(q * abs(b))) by (nonlinear_arith)
            requires
                abs(b) == -b,
        ;
        assert(q * abs(b) >= 0) by (nonlinear_arith)
            requires
                q >= 0,
                abs(b) > 0,
        ;
    }
}

/// An exact decimal's value has a positive denominator.
proof fn lemma_decimal_den_positive(d: Seq<char>)
    ensures
        decimal_literal_value(d) matches Some(q) ==> q.1 > 0,
{
    let (neg, int_part, frac_part, has_dot) = crate::exact::decimal_parts(d);
    crate::exact::lemma_pow10_positive(frac_part.len());
    let magnitude = crate::exact::digits_value(crate::exact::ascii_bytes(int_part + frac_part)) as int;
    crate::positional::lemma_reduce_den_positive(
        if neg {
            -magnitude
        } else {
            magnitude
        },
        crate::exact::pow10(frac_part.len()) as int,
    );
}

/// The literal `d` followed by the unit `u` reads `d` as its number and `u`
/// as its unit.
proof fn lemma_split_unit(d: Seq<char>, u: Seq<char>)
    requires
        forall|j: int| 0 <= j < d.len() ==> !is_unit_letter(#[trigger] d[j]),
        u.len() > 0,
        is_unit_letter(u[0]),
    ensures
        duration_literal_us(d + u) == match (decimal_literal_value(d), duration_unit(u)) {
            (Some(q), Some(f)) => Some(rat_mul(q, f)),
            _ => None,
        },
{
    let s = d + u;
    assert forall|j: int| 0 <= j < d.len() implies !is_unit_letter(#[trigger] s[j]) by {
        assert(s[j] == d[j]);
    }
    assert(s[d.len() as int] == u[0]);
    lemma_unit_start(s, d.len() as int);
    assert(s.take(d.len() as int) =~= d);
    assert(s.skip(d.len() as int) =~= u);
}

/// `q` times the unit factor `f` (a whole number of microseconds, or one
/// per thousand) is worth `q.0 * n / (q.1 * m)`.
proof fn lemma_scaled(q: (int, int), n: int, m: int)
    requires
        q.1 > 0,
        m > 0,
    ensures
        rat_eq(rat_mul(q, (n, m)), (q.0 * n, q.1 * m)),
{
    assert(q.1 * m > 0) by (nonlinear_arith)
        requires
            q.1 > 0,
            m > 0,
    ;
    crate::positional::lemma_reduce_keeps_value(q.0 * n, q.1 * m, q.0 * n, q.1 * m);
}

/// A duration literal is its exact count of microseconds: a decimal `d`
/// written with `us` is `d` microseconds, with `ns` a thousandth of that,
/// with `ms` a thousand times it, with `s` a million times, with `min`
/// sixty seconds' worth and with `h` sixty minutes' worth — so `1h` and
/// `3600s` and `60min` are one duration.
pub proof fn law_duration_units(d: Seq<char>)
    requires
        decimal_literal_value(d) is Some,
        forall|j: int| 0 <= j < d.len() ==> !is_unit_letter(#[trigger] d[j]),
    ensures
        ({
            let q = decimal_literal_value(d)->0;
            &&& duration_literal_us(d + "ns"@) matches Some(v) && rat_eq(v, (q.0, q.1 * 1000))
            &&& duration_literal_us(d + "us"@) matches Some(v) && rat_eq(v, q)
            &&& duration_literal_us(d + "ms"@) matches Some(v) && rat_eq(v, (q.0 * 1000, q.1))
            &&& duration_literal_us(d + "s"@) matches Some(v) && rat_eq(v, (q.0 * 1000 * 1000, q.1))
            &&& duration_literal_us(d + "min"@) matches Some(v) && rat_eq(v, (q.0 * 60 * 1000 * 1000, q.1))
            &&& duration_literal_us(d + "h"@) matches Some(v) && rat_eq(v, (q.0 * 60 * 60 * 1000 * 1000, q.1))
        }),
{
    let q = decimal_literal_value(d)->0;
    lemma_decimal_den_positive(d);
    reveal_strlit("ns");
    reveal_strlit("us");
    reveal_strlit("ms");
    reveal_strlit("s");
    reveal_strlit("min");
    reveal_strlit("h");
    assert("ns"@ =~= seq!['n', 's']);
    assert("us"@ =~= seq!['u', 's']);
    assert("ms"@ =~= seq!['m', 's']);
    assert("s"@ =~= seq!['s']);
    assert("min"@ =~= seq!['m', 'i', 'n']);
    assert("h"@ =~= seq!['h']);
    assert(seq!['h'][0] != seq!['s'][0]);
    assert(seq!['h'] != seq!['s']);
    lemma_split_unit(d, "ns"@);
    lemma_split_unit(d, "us"@);
    lemma_split_unit(d, "ms"@);
    lemma_split_unit(d, "s"@);
    lemma_split_unit(d, "min"@);
    lemma_split_unit(d, "h"@);
    lemma_scaled(q, 1, 1000);
    lemma_scaled(q, 1, 1);
    lemma_scaled(q, 1000, 1);
    lemma_scaled(q, 1000000, 1);
    lemma_scaled(q, 60000000, 1);
    lemma_scaled(q, 3600000000, 1);
    assert(rat_eq(rat_mul(q, (1, 1)), q)) by (nonlinear_arith)
        requires
            rat_eq(rat_mul(q, (1, 1)), (q.0 * 1, q.1 * 1)),
    ;
    assert(duration_literal_us(d + "ns"@) == Some(rat_mul(q, (1, 1000))));
    assert(duration_literal_us(d + "us"@) == Some(rat_mul(q, (1, 1))));
    assert(duration_literal_us(d + "ms"@) == Some(rat_mul(q, (1000, 1))));
    assert(duration_literal_us(d + "s"@) == Some(rat_mul(q, (1000000, 1))));
    assert(duration_literal_us(d + "min"@) == Some(rat_mul(q, (60000000, 1))));
    assert(duration_literal_us(d + "h"@) == Some(rat_mul(q, (3600000000, 1))));
}

/// A duration literal evaluates to the duration its text spells
/// ([`law_duration_units`]), wherever it stands within the depth guard.
pub proof fn law_duration_literal_evaluates(t: Token, range: crate::syntax::TextRange, env: SEnv, depth: nat)
    requires
        t.kind == TokenKind::Duration,
        depth <= MAX_DEPTH,
        duration_literal_us(t.text@) is Some,
    ensures
        spec_eval(Expr::Literal { token: Some(t), range }, env, depth) == Ok::<SValue, SError>(
            SValue::Dur(duration_literal_us(t.text@)->0),
        ),
{
}

} // verus!
