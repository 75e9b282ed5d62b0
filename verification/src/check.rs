//! The checker's value-level rules: constant values, range membership and
//! its rendering, the int64 edge an omitted bound defaults to, length-bound
//! defaults, regex validity and declared-init validation, and the nouns the
//! diagnostics name declarations by.

use vstd::prelude::*;

use crate::chars::{chars_to_string, str_to_chars};
use crate::diag::{diag_messages, diags_view, DiagCode, Diagnostic, Severity, DETACHED};
use crate::exact::{decimal_text, nat_decimal, rat_lt, slice_chars_pub, ExactValue};
use crate::init::Constraint;
use crate::resolve::SymbolKind;
use crate::syntax::TextRange;
use crate::text::u64_text;

verus! {

/// A constant's value, resolved for use in range bounds and init values: an
/// exact number, a boolean, a text value, or a regex constant's source text
/// (delimiters included).
#[derive(Debug, PartialEq, Eq)]
pub enum ConstValue {
    Number(ExactValue),
    Bool(bool),
    Text(String),
    Regex(String),
}

// ==========================================================================
// Names and nouns
// ==========================================================================

/// The body of a typl regex literal: its text without the enclosing `/…/`
/// delimiters, or the text itself when it is not delimited.
pub open spec fn regex_body_text(raw: Seq<char>) -> Seq<char> {
    if raw.len() >= 2 && raw[0] == '/' && raw.last() == '/' {
        raw.subrange(1, raw.len() - 1)
    } else {
        raw
    }
}

/// The ECMA-262 body of a typl regex literal ([`regex_body_text`]).
pub fn regex_body(raw: &str) -> (r: String)
    ensures
        r@ == regex_body_text(raw@),
{
    let cs = str_to_chars(raw);
    let n = cs.len();
    if n >= 2 && cs[0] == '/' && cs[n - 1] == '/' {
        chars_to_string(slice_chars_pub(&cs, 1, n - 1))
    } else {
        String::from_str(raw)
    }
}

/// One segment of a dotted global name: an ASCII lowercase letter followed by
/// ASCII lowercase letters or digits.
pub open spec fn lowercase_segment(s: Seq<char>) -> bool {
    &&& s.len() > 0
    &&& 'a' <= s[0] <= 'z'
    &&& forall|i: int| 0 <= i < s.len() ==> ('a' <= #[trigger] s[i] <= 'z' || '0' <= s[i] <= '9')
}

/// Whether `segment` is a lowercase name segment ([`lowercase_segment`]).
pub fn is_lowercase_name_segment(segment: &str) -> (r: bool)
    ensures
        r == lowercase_segment(segment@),
{
    let cs = str_to_chars(segment);
    if cs.len() == 0 || !('a' <= cs[0] && cs[0] <= 'z') {
        return false;
    }
    let mut i: usize = 0;
    while i < cs.len()
        invariant
            i <= cs.len(),
            cs@ == segment@,
            forall|j: int| 0 <= j < i ==> ('a' <= #[trigger] cs@[j] <= 'z' || '0' <= cs@[j] <= '9'),
        decreases cs.len() - i,
    {
        let c = cs[i];
        if !(('a' <= c && c <= 'z') || ('0' <= c && c <= '9')) {
            return false;
        }
        i = i + 1;
    }
    true
}

/// The interaction kind an attribute block sits on.
#[derive(Debug, Clone, Copy, PartialEq, Eq, Structural)]
pub enum MemberKind {
    Signal,
    Event,
    Command,
    Query,
    Final,
}

pub open spec fn member_noun(kind: MemberKind) -> Seq<char> {
    match kind {
        MemberKind::Signal => "signal"@,
        MemberKind::Event => "event"@,
        MemberKind::Command => "command"@,
        MemberKind::Query => "query"@,
        MemberKind::Final => "final"@,
    }
}

impl MemberKind {
    /// The keyword the interaction kind is declared with.
    pub fn noun(self) -> (r: &'static str)
        ensures
            r@ == member_noun(self),
    {
        match self {
            MemberKind::Signal => "signal",
            MemberKind::Event => "event",
            MemberKind::Command => "command",
            MemberKind::Query => "query",
            MemberKind::Final => "final",
        }
    }
}

/// The class of a scalar's backing primitive.
#[derive(Debug, Clone, Copy, PartialEq, Eq, Structural)]
pub enum BackingClass {
    Boolean,
    Integer,
    Float,
    Str,
    Bytes,
    Unknown,
}

pub open spec fn backing_noun(class: BackingClass) -> Seq<char> {
    match class {
        BackingClass::Boolean => "boolean"@,
        BackingClass::Integer => "integer"@,
        BackingClass::Float => "float"@,
        BackingClass::Str => "string"@,
        BackingClass::Bytes => "bytes"@,
        BackingClass::Unknown => "unknown"@,
    }
}

/// The primitive keyword of a backing class.
pub fn primitive_noun(class: BackingClass) -> (r: &'static str)
    ensures
        r@ == backing_noun(class),
{
    match class {
        BackingClass::Boolean => "boolean",
        BackingClass::Integer => "integer",
        BackingClass::Float => "float",
        BackingClass::Str => "string",
        BackingClass::Bytes => "bytes",
        BackingClass::Unknown => "unknown",
    }
}

pub open spec fn symbol_noun(kind: SymbolKind) -> Seq<char> {
    match kind {
        SymbolKind::Type => "type"@,
        SymbolKind::Const => "constant"@,
        SymbolKind::Struct => "struct"@,
        SymbolKind::Enum => "enum"@,
        SymbolKind::EnumSet => "enumset"@,
        SymbolKind::Union => "union"@,
        SymbolKind::Interface => "interface"@,
    }
}

/// The noun a declaration kind is named by in messages.
pub fn kind_noun(kind: SymbolKind) -> (r: &'static str)
    ensures
        r@ == symbol_noun(kind),
{
    match kind {
        SymbolKind::Type => "type",
        SymbolKind::Const => "constant",
        SymbolKind::Struct => "struct",
        SymbolKind::Enum => "enum",
        SymbolKind::EnumSet => "enumset",
        SymbolKind::Union => "union",
        SymbolKind::Interface => "interface",
    }
}

/// The indefinite article of [`kind_noun`]: `an` before a vowel sound.
pub fn kind_article(kind: SymbolKind) -> (r: &'static str)
    ensures
        r@ == (if kind == SymbolKind::Enum || kind == SymbolKind::EnumSet || kind
            == SymbolKind::Interface {
            "an"@
        } else {
            "a"@
        }),
{
    match kind {
        SymbolKind::Enum | SymbolKind::EnumSet | SymbolKind::Interface => "an",
        _ => "a",
    }
}

// ==========================================================================
// Ranges
// ==========================================================================

pub open spec fn opt_pair(v: Option<&ExactValue>) -> Option<(int, int)> {
    match v {
        Some(x) => Some(x.pair()),
        None => None,
    }
}

pub open spec fn opt_wf(v: Option<&ExactValue>) -> bool {
    v matches Some(x) ==> x.wf()
}

/// Range membership: `min <= value <= max`, an absent bound being open.
pub open spec fn in_range(value: (int, int), min: Option<(int, int)>, max: Option<(int, int)>) -> bool {
    &&& min matches Some(m) ==> !rat_lt(value, m)
    &&& max matches Some(m) ==> !rat_lt(m, value)
}

/// Whether `value` lies in the inclusive range `[min, max]` ([`in_range`]).
pub fn range_accepts(value: &ExactValue, min: Option<&ExactValue>, max: Option<&ExactValue>) -> (r:
    bool)
    requires
        value.wf(),
        opt_wf(min),
        opt_wf(max),
    ensures
        r == in_range(value.pair(), opt_pair(min), opt_pair(max)),
{
    let above = match min {
        Some(m) => !value.lt(m),
        None => true,
    };
    let below = match max {
        Some(m) => !m.lt(value),
        None => true,
    };
    above && below
}

/// Whether `value` falls outside `[min, max]`: the negation of
/// [`range_accepts`].
pub fn out_of_bounds(value: &ExactValue, min: Option<&ExactValue>, max: Option<&ExactValue>) -> (r:
    bool)
    requires
        value.wf(),
        opt_wf(min),
        opt_wf(max),
    ensures
        r == !in_range(value.pair(), opt_pair(min), opt_pair(max)),
{
    !range_accepts(value, min, max)
}

/// How a range bound is written in a message: its exact decimal text, or
/// `..` for an open side.
pub open spec fn bound_text(bound: Option<(int, int)>) -> Seq<char> {
    match bound {
        Some((n, d)) => decimal_text(n, d),
        None => ".."@,
    }
}

/// The text of a range bound ([`bound_text`]).
pub fn render_bound(bound: Option<&ExactValue>) -> (r: String)
    requires
        opt_wf(bound),
    ensures
        r@ == bound_text(opt_pair(bound)),
{
    match bound {
        Some(value) => value.to_decimal_string(),
        None => String::from_str(".."),
    }
}

/// Whether `value` is strictly positive.
pub fn exact_is_positive(value: &ExactValue) -> (r: bool)
    requires
        value.wf(),
    ensures
        r == (value.numer() > 0),
{
    let zero = ExactValue::zero();
    zero.lt(value)
}

/// The value as a `u64`, when it is an integer in range.
pub fn exact_to_u64(value: &ExactValue) -> (r: Option<u64>)
    requires
        value.wf(),
    ensures
        r matches Some(v) ==> value.denom() == 1 && v as int == value.numer(),
        r is None <==> (value.denom() != 1 || !(0 <= value.numer() <= u64::MAX)),
{
    value.to_u64()
}

/// The value as an `i64`, when it is an integer in range.
pub fn exact_to_i64(value: &ExactValue) -> (r: Option<i64>)
    requires
        value.wf(),
    ensures
        r matches Some(v) ==> value.denom() == 1 && v as int == value.numer(),
        r is None <==> (value.denom() != 1 || !(i64::MIN <= value.numer() <= i64::MAX)),
{
    value.to_i64()
}

/// The int64 domain edge an omitted integer bound defaults to: `i64::MAX`
/// for the upper side, `i64::MIN` for the lower.
pub fn int64_edge(upper: bool) -> (r: ExactValue)
    ensures
        r.wf(),
        r.pair() == (if upper {
            i64::MAX as int
        } else {
            i64::MIN as int
        }, 1int),
{
    if upper {
        ExactValue::from_i64(i64::MAX)
    } else {
        ExactValue::from_i64(i64::MIN)
    }
}

/// The length bounds of a string or bytes scalar, as written: `[min..max]`
/// (either side may be missing) or a single fixed length `[n]`.
#[derive(Debug, Clone, Copy, PartialEq, Eq, Structural)]
pub struct LenBound {
    pub min: Option<u64>,
    pub max: Option<u64>,
    /// Whether the bound is a range (`..`) rather than one fixed length.
    pub range: bool,
}

/// The effective length bounds: a range defaults an open minimum to 0 and
/// an open maximum to 256; a fixed length is both bounds; no bound at all is
/// the `[0..256]` default.
pub open spec fn len_rule(bound: Option<LenBound>) -> (u64, u64) {
    match bound {
        Some(b) => if b.range {
            (
                match b.min {
                    Some(m) => m,
                    None => 0,
                },
                match b.max {
                    Some(m) => m,
                    None => 256,
                },
            )
        } else {
            let n = match b.min {
                Some(m) => m,
                None => 0,
            };
            (n, n)
        },
        None => (0, 256),
    }
}

/// The effective length bounds ([`len_rule`]) and, for a string or bytes
/// type written without any bound, the TYPL-103 warning that the default
/// applies. `noun` is `string` or `bytes`.
pub fn len_bounds(bound: Option<LenBound>, noun: &str, span: TextRange) -> (r: (
    u64,
    u64,
    Option<Diagnostic>,
))
    ensures
        (r.0, r.1) == len_rule(bound),
        r.2 is Some <==> bound is None,
        r.2 matches Some(d) ==> d.code == DiagCode::TYPL_103 && d.severity == Severity::Warning
            && d.range == span && d.file == DETACHED
            && d.message@ == "`"@ + noun@ + "` without explicit bounds; the default `[0..256]` applies"@,
{
    match bound {
        Some(b) => {
            if b.range {
                let min = match b.min {
                    Some(m) => m,
                    None => 0,
                };
                let max = match b.max {
                    Some(m) => m,
                    None => 256,
                };
                (min, max, None)
            } else {
                let n = match b.min {
                    Some(m) => m,
                    None => 0,
                };
                (n, n, None)
            }
        },
        None => {
            let mut text = String::from_str("`");
            text.append(noun);
            text.append("` without explicit bounds; the default `[0..256]` applies");
            (
                0,
                256,
                Some(
                    Diagnostic {
                        code: DiagCode::TYPL_103,
                        severity: Severity::Warning,
                        message: text,
                        file: DETACHED,
                        range: span,
                    },
                ),
            )
        },
    }
}

// ==========================================================================
// Regular expressions
// ==========================================================================

#[verifier::external_type_specification]
#[verifier::external_body]
pub struct ExRegex(regress::Regex);

/// Whether the regress engine accepts `pattern` as an ECMA-262 regular
/// expression (default flags).
pub uninterp spec fn regex_parses(pattern: Seq<char>) -> bool;

/// Whether the regular expression compiled from `pattern` (default flags)
/// finds a match anywhere in `text`.
pub uninterp spec fn regex_finds(pattern: Seq<char>, text: Seq<char>) -> bool;

/// A regular expression compiled from `source`.
pub struct CompiledPattern {
    source: String,
    regex: regress::Regex,
}

impl View for CompiledPattern {
    type V = Seq<char>;

    closed spec fn view(&self) -> Seq<char> {
        self.source@
    }
}

/// `regress::Regex::new`: compiles `pattern` with the default flags. The
/// engine refuses exactly the patterns it cannot parse; which those are is
/// the engine's ECMA-262 grammar, named here [`regex_parses`].
#[verifier::external_body]
fn compile_pattern(pattern: &str) -> (r: Option<CompiledPattern>)
    ensures
        r is Some <==> regex_parses(pattern@),
        r matches Some(c) ==> c@ == pattern@,
{
    match regress::Regex::new(pattern) {
        Ok(regex) => Some(CompiledPattern { source: String::from(pattern), regex }),
        Err(_) => None,
    }
}

/// `regress::Regex::find`: whether the compiled regex matches anywhere in
/// `text` ([`regex_finds`] of its source).
#[verifier::external_body]
fn pattern_finds(compiled: &CompiledPattern, text: &str) -> (r: bool)
    ensures
        r == regex_finds(compiled@, text@),
{
    compiled.regex.find(text).is_some()
}

/// TYPL-106 for a regex literal the engine cannot parse: the literal's `/…/`
/// delimiters are stripped and the body is compiled.
pub fn validate_regex(raw: &str, range: TextRange) -> (r: Option<Diagnostic>)
    ensures
        r is Some <==> !regex_parses(regex_body_text(raw@)),
        r matches Some(d) ==> d.code == DiagCode::TYPL_106 && d.severity == Severity::Error
            && d.range == range && d.file == DETACHED
            && d.message@ == "invalid regular expression syntax"@,
{
    let body = regex_body(raw);
    match compile_pattern(body.as_str()) {
        Some(_) => None,
        None => Some(
            Diagnostic {
                code: DiagCode::TYPL_106,
                severity: Severity::Error,
                message: String::from_str("invalid regular expression syntax"),
                file: DETACHED,
                range,
            },
        ),
    }
}

// ==========================================================================
// Declared inits
// ==========================================================================

pub open spec fn violation_at(code: DiagCode, range: TextRange) -> (DiagCode, Severity, usize, TextRange) {
    (code, Severity::Error, DETACHED, range)
}

/// The diagnostics a declared string init draws: one when its length (in
/// characters) is below the minimum or else above the maximum, and one when
/// the constraint carries a pattern the engine parses and the pattern finds
/// no match in the text.
pub open spec fn string_init_rule(
    text: Seq<char>,
    constraint: Option<Constraint>,
    range: TextRange,
    violation: DiagCode,
) -> Seq<(DiagCode, Severity, usize, TextRange)> {
    match constraint {
        None => Seq::empty(),
        Some(c) => {
            let n = text.len();
            let short = c.len_min matches Some(m) && n < m;
            let long = c.len_max matches Some(m) && n > m;
            let length = if short || long {
                seq![violation_at(violation, range)]
            } else {
                Seq::empty()
            };
            let pattern = match c.pattern {
                Some(p) => if regex_parses(regex_body_text(p@)) && !regex_finds(
                    regex_body_text(p@),
                    text,
                ) {
                    seq![violation_at(violation, range)]
                } else {
                    Seq::empty()
                },
                None => Seq::empty(),
            };
            length + pattern
        },
    }
}

/// The messages of [`string_init_rule`]'s diagnostics, in the same order:
/// the length finding names the length and the bound it breaks, the pattern
/// finding quotes the text.
pub open spec fn string_init_messages(
    text: Seq<char>,
    constraint: Option<Constraint>,
) -> Seq<Seq<char>> {
    match constraint {
        None => Seq::empty(),
        Some(c) => {
            let n = text.len();
            let length = if c.len_min matches Some(m) && n < m {
                seq![
                    "init string length "@ + nat_decimal(n) + " is below the declared minimum "@
                        + nat_decimal(c.len_min->0 as nat),
                ]
            } else if c.len_max matches Some(m) && n > m {
                seq![
                    "init string length "@ + nat_decimal(n) + " exceeds the declared maximum "@
                        + nat_decimal(c.len_max->0 as nat),
                ]
            } else {
                Seq::empty()
            };
            let pattern = match c.pattern {
                Some(p) => if regex_parses(regex_body_text(p@)) && !regex_finds(
                    regex_body_text(p@),
                    text,
                ) {
                    seq!["init string `"@ + text + "` does not match the type's `match` pattern"@]
                } else {
                    Seq::empty()
                },
                None => Seq::empty(),
            };
            length + pattern
        },
    }
}

/// Checks a declared string/bytes init against the type's length bound and
/// `match` pattern ([`string_init_rule`]). Length counts Unicode scalar
/// values; a pattern matches anywhere (typl patterns anchor themselves with
/// `^`…`$`); a pattern the engine cannot parse is skipped here, its own site
/// reports it. `violation` is the code an out-of-constraint init draws.
pub fn check_string_init(
    text: &str,
    constraint: Option<&Constraint>,
    range: TextRange,
    violation: DiagCode,
) -> (r: Vec<Diagnostic>)
    ensures
        diags_view(r@) == string_init_rule(
            text@,
            match constraint {
                Some(c) => Some(*c),
                None => None,
            },
            range,
            violation,
        ),
        diag_messages(r@) == string_init_messages(
            text@,
            match constraint {
                Some(c) => Some(*c),
                None => None,
            },
        ),
{
    let mut out: Vec<Diagnostic> = Vec::new();
    let c = match constraint {
        Some(c) => c,
        None => {
            assert(diags_view(out@) =~= Seq::empty());
            assert(diag_messages(out@) =~= Seq::empty());
            return out;
        },
    };
    let length = str_to_chars(text).len() as u64;
    let short = match c.len_min {
        Some(m) => length < m,
        None => false,
    };
    let long = match c.len_max {
        Some(m) => length > m,
        None => false,
    };
    if short {
        let min = match c.len_min {
            Some(m) => m,
            None => 0,
        };
        let mut message = String::from_str("init string length ");
        message.append(u64_text(length).as_str());
        message.append(" is below the declared minimum ");
        message.append(u64_text(min).as_str());
        out.push(
            Diagnostic { code: violation, severity: Severity::Error, message, file: DETACHED, range },
        );
    } else if long {
        let max = match c.len_max {
            Some(m) => m,
            None => 0,
        };
        let mut message = String::from_str("init string length ");
        message.append(u64_text(length).as_str());
        message.append(" exceeds the declared maximum ");
        message.append(u64_text(max).as_str());
        out.push(
            Diagnostic { code: violation, severity: Severity::Error, message, file: DETACHED, range },
        );
    }
    let ghost after_length = diags_view(out@);
    if let Some(pattern) = &c.pattern {
        let body = regex_body(pattern.as_str());
        if let Some(compiled) = compile_pattern(body.as_str()) {
            if !pattern_finds(&compiled, text) {
                let mut message = String::from_str("init string `");
                message.append(text);
                message.append("` does not match the type's `match` pattern");
                out.push(
                    Diagnostic {
                        code: violation,
                        severity: Severity::Error,
                        message,
                        file: DETACHED,
                        range,
                    },
                );
            }
        }
    }
    assert(diags_view(out@) =~= string_init_rule(text@, Some(*c), range, violation));
    assert(diag_messages(out@) =~= string_init_messages(text@, Some(*c)));
    out
}

/// The value a declared `= value` init holds, as the checker reads it: a
/// literal of one kind, a constant reference resolved to the constant's
/// value, or — for a constant that does not resolve or a malformed literal —
/// the text as written.
#[derive(Debug, PartialEq, Eq)]
pub enum InitLiteral {
    Number(ExactValue),
    Bool(bool),
    Str(String),
    Regex(String),
    Const(ConstValue),
    Written(String),
}

/// The numeric side of a scalar as the checker resolved it: its constraint
/// and its exact range bounds.
#[derive(Debug, PartialEq, Eq)]
pub struct ScalarParts {
    pub constraint: Option<Constraint>,
    pub min: Option<ExactValue>,
    pub max: Option<ExactValue>,
}

impl ScalarParts {
    pub open spec fn wf(&self) -> bool {
        &&& self.min matches Some(m) ==> m.wf()
        &&& self.max matches Some(m) ==> m.wf()
    }

    pub open spec fn bounds(&self) -> (Option<(int, int)>, Option<(int, int)>) {
        (
            match self.min {
                Some(m) => Some(m.pair()),
                None => None,
            },
            match self.max {
                Some(m) => Some(m.pair()),
                None => None,
            },
        )
    }
}

pub open spec fn literal_wf(l: InitLiteral) -> bool {
    match l {
        InitLiteral::Number(v) => v.wf(),
        InitLiteral::Const(ConstValue::Number(v)) => v.wf(),
        _ => true,
    }
}

pub open spec fn bool_text(b: bool) -> Seq<char> {
    if b {
        "true"@
    } else {
        "false"@
    }
}

/// The text a declared init lowers to, and the diagnostics validating it
/// draws: a number outside the declared range is one `violation`; a string
/// is checked by [`string_init_rule`]; a boolean, a regex, and a written
/// text are not checked.
pub open spec fn declared_init_rule(
    literal: InitLiteral,
    parts: ScalarParts,
    range: TextRange,
    violation: DiagCode,
) -> (Seq<char>, Seq<(DiagCode, Severity, usize, TextRange)>) {
    let number = |v: ExactValue|
        (
            decimal_text(v.numer(), v.denom()),
            if in_range(v.pair(), parts.bounds().0, parts.bounds().1) {
                Seq::<(DiagCode, Severity, usize, TextRange)>::empty()
            } else {
                seq![violation_at(violation, range)]
            },
        );
    let string = |t: String| (t@, string_init_rule(t@, parts.constraint, range, violation));
    match literal {
        InitLiteral::Number(v) => number(v),
        InitLiteral::Bool(b) => (bool_text(b), Seq::empty()),
        InitLiteral::Str(t) => string(t),
        InitLiteral::Regex(t) => (t@, Seq::empty()),
        InitLiteral::Const(ConstValue::Number(v)) => number(v),
        InitLiteral::Const(ConstValue::Bool(b)) => (bool_text(b), Seq::empty()),
        InitLiteral::Const(ConstValue::Text(t)) => string(t),
        InitLiteral::Const(ConstValue::Regex(t)) => (t@, Seq::empty()),
        InitLiteral::Written(t) => (t@, Seq::empty()),
    }
}

/// The messages of [`declared_init_rule`]'s diagnostics: a number outside
/// the range names itself and the range; a string's are
/// [`string_init_messages`].
pub open spec fn declared_init_messages(literal: InitLiteral, parts: ScalarParts) -> Seq<Seq<char>> {
    let number = |v: ExactValue|
        if in_range(v.pair(), parts.bounds().0, parts.bounds().1) {
            Seq::<Seq<char>>::empty()
        } else {
            seq![
                "init value "@ + decimal_text(v.numer(), v.denom()) + " is outside the declared range ["@
                    + bound_text(parts.bounds().0) + ".."@ + bound_text(parts.bounds().1) + "]"@,
            ]
        };
    match literal {
        InitLiteral::Number(v) => number(v),
        InitLiteral::Str(t) => string_init_messages(t@, parts.constraint),
        InitLiteral::Const(ConstValue::Number(v)) => number(v),
        InitLiteral::Const(ConstValue::Text(t)) => string_init_messages(t@, parts.constraint),
        _ => Seq::empty(),
    }
}

fn no_diags() -> (v: Vec<Diagnostic>)
    ensures
        diags_view(v@) == Seq::<(DiagCode, Severity, usize, TextRange)>::empty(),
        diag_messages(v@) == Seq::<Seq<char>>::empty(),
{
    let v: Vec<Diagnostic> = Vec::new();
    assert(diags_view(v@) =~= Seq::empty());
    assert(diag_messages(v@) =~= Seq::empty());
    v
}

pub(crate) fn bool_string(b: bool) -> (r: String)
    ensures
        r@ == bool_text(b),
{
    if b {
        String::from_str("true")
    } else {
        String::from_str("false")
    }
}

fn number_init(value: &ExactValue, parts: &ScalarParts, range: TextRange, violation: DiagCode) -> (r: (
    String,
    Vec<Diagnostic>,
))
    requires
        value.wf(),
        parts.wf(),
    ensures
        r.0@ == decimal_text(value.numer(), value.denom()),
        diags_view(r.1@) == (if in_range(value.pair(), parts.bounds().0, parts.bounds().1) {
            Seq::<(DiagCode, Severity, usize, TextRange)>::empty()
        } else {
            seq![violation_at(violation, range)]
        }),
        diag_messages(r.1@) == declared_init_messages(InitLiteral::Number(*value), *parts),
{
    let mut out: Vec<Diagnostic> = Vec::new();
    let text = value.to_decimal_string();
    if out_of_bounds(value, parts.min.as_ref(), parts.max.as_ref()) {
        let mut message = String::from_str("init value ");
        message.append(text.as_str());
        message.append(" is outside the declared range [");
        message.append(render_bound(parts.min.as_ref()).as_str());
        message.append("..");
        message.append(render_bound(parts.max.as_ref()).as_str());
        message.append("]");
        out.push(
            Diagnostic { code: violation, severity: Severity::Error, message, file: DETACHED, range },
        );
        assert(diags_view(out@) =~= seq![violation_at(violation, range)]);
        assert(diag_messages(out@) =~= declared_init_messages(InitLiteral::Number(*value), *parts));
    } else {
        assert(diags_view(out@) =~= Seq::empty());
        assert(diag_messages(out@) =~= Seq::empty());
    }
    (text, out)
}

/// Validates a declared init against the scalar's constraint and gives the
/// text it lowers to ([`declared_init_rule`]). `violation` is the code an
/// out-of-constraint init draws: TYPL-109 for a type or a field, RIDL-110
/// for a signal's init override.
pub fn lower_declared_init(
    literal: &InitLiteral,
    parts: &ScalarParts,
    range: TextRange,
    violation: DiagCode,
) -> (r: (String, Vec<Diagnostic>))
    requires
        literal_wf(*literal),
        parts.wf(),
    ensures
        r.0@ == declared_init_rule(*literal, *parts, range, violation).0,
        diags_view(r.1@) == declared_init_rule(*literal, *parts, range, violation).1,
        diag_messages(r.1@) == declared_init_messages(*literal, *parts),
{
    match literal {
        InitLiteral::Number(v) => number_init(v, parts, range, violation),
        InitLiteral::Bool(b) => (bool_string(*b), no_diags()),
        InitLiteral::Str(t) => (
            t.clone(),
            check_string_init(t.as_str(), parts.constraint.as_ref(), range, violation),
        ),
        InitLiteral::Regex(t) => (t.clone(), no_diags()),
        InitLiteral::Const(ConstValue::Number(v)) => number_init(v, parts, range, violation),
        InitLiteral::Const(ConstValue::Bool(b)) => (bool_string(*b), no_diags()),
        InitLiteral::Const(ConstValue::Text(t)) => (
            t.clone(),
            check_string_init(t.as_str(), parts.constraint.as_ref(), range, violation),
        ),
        InitLiteral::Const(ConstValue::Regex(t)) => (t.clone(), no_diags()),
        InitLiteral::Written(t) => (t.clone(), no_diags()),
    }
}

// ==========================================================================
// Interaction attributes
// ==========================================================================

/// One attribute of an interaction's attribute block, in source order: a
/// `require` or `ensure` predicate, or a `key = value` attribute (its key
/// absent when the key was a reserved word).
#[derive(Debug, PartialEq, Eq)]
pub enum Attribute {
    Require(TextRange),
    Ensure(TextRange),
    Key(Option<String>, TextRange),
}

/// The attribute keys the general form defines.
pub open spec fn attribute_keys() -> Seq<Seq<char>> {
    seq!["default"@, "init"@, "persist"@, "invariant"@, "labels"@, "deprecated"@]
}

fn is_attribute_key(key: &str) -> (r: bool)
    ensures
        r == attribute_keys().contains(key@),
{
    let words: [&str; 6] = ["default", "init", "persist", "invariant", "labels", "deprecated"];
    assert(words@.map_values(|w: &str| w@) =~= attribute_keys());
    let mut i: usize = 0;
    while i < 6
        invariant
            i <= 6,
            words@.map_values(|w: &str| w@) == attribute_keys(),
            forall|j: int| 0 <= j < i ==> attribute_keys()[j] != key@,
        decreases 6 - i,
    {
        if crate::chars::str_eq(words[i], key) {
            assert(attribute_keys()[i as int] == words@[i as int]@);
            return true;
        }
        i = i + 1;
    }
    false
}

/// The diagnostics of an interaction's attributes, in order: `require` is
/// RIDL-301 anywhere but a command or a query; `ensure` is RIDL-302 on a
/// command and RIDL-301 anywhere but a query; a key the general form
/// defines is FORM-107 (no key is consumable on an interaction), any other
/// key FORM-106, and a key repeated in the block also FORM-108.
pub open spec fn attrs_rule(attrs: Seq<Attribute>, n: int, kind: MemberKind) -> (Seq<SDiagOf>, Seq<Seq<char>>)
    decreases n,
{
    if n <= 0 {
        (Seq::empty(), Seq::empty())
    } else {
        let (ds, seen) = attrs_rule(attrs, n - 1, kind);
        let at = |code: DiagCode, r: TextRange| seq![(code, Severity::Error, DETACHED, r)];
        match attrs[n - 1] {
            Attribute::Require(r) => (
                ds + if kind == MemberKind::Command || kind == MemberKind::Query {
                    Seq::empty()
                } else {
                    at(DiagCode::RIDL_301, r)
                },
                seen,
            ),
            Attribute::Ensure(r) => (
                ds + if kind == MemberKind::Query {
                    Seq::empty()
                } else if kind == MemberKind::Command {
                    at(DiagCode::RIDL_302, r)
                } else {
                    at(DiagCode::RIDL_301, r)
                },
                seen,
            ),
            Attribute::Key(None, _) => (ds, seen),
            Attribute::Key(Some(k), r) => (
                ds + (if attribute_keys().contains(k@) {
                    at(DiagCode::FORM_107, r)
                } else {
                    at(DiagCode::FORM_106, r)
                }) + (if seen.contains(k@) {
                    at(DiagCode::FORM_108, r)
                } else {
                    Seq::empty()
                }),
                if seen.contains(k@) {
                    seen
                } else {
                    seen.push(k@)
                },
            ),
        }
    }
}

pub type SDiagOf = (DiagCode, Severity, usize, TextRange);

/// The messages of [`attrs_rule`]'s diagnostics for the first `n`
/// attributes, naming the kind or the key.
pub open spec fn attrs_messages(attrs: Seq<Attribute>, n: int, kind: MemberKind) -> Seq<Seq<char>>
    decreases n,
{
    if n <= 0 {
        Seq::empty()
    } else {
        let noun = member_noun(kind);
        let seen = attrs_rule(attrs, n - 1, kind).1;
        attrs_messages(attrs, n - 1, kind) + match attrs[n - 1] {
            Attribute::Require(_) => if kind == MemberKind::Command || kind == MemberKind::Query {
                Seq::empty()
            } else {
                seq!["`require` not valid on "@ + noun + " — contracts belong to `command` and `query`"@]
            },
            Attribute::Ensure(_) => if kind == MemberKind::Query {
                Seq::empty()
            } else if kind == MemberKind::Command {
                seq!["`ensure` not valid on command — a command has no result to observe"@]
            } else {
                seq!["`ensure` not valid on "@ + noun + " — contracts belong to `query`"@]
            },
            Attribute::Key(None, _) => Seq::empty(),
            Attribute::Key(Some(k), _) => (if attribute_keys().contains(k@) {
                seq!["attribute `"@ + k@ + "` not valid on "@ + noun]
            } else {
                seq!["unknown attribute key `"@ + k@ + "`"@]
            }) + (if seen.contains(k@) {
                seq!["duplicate attribute key `"@ + k@ + "`"@]
            } else {
                Seq::empty()
            }),
        }
    }
}

/// Checks the attribute block of an interaction of kind `kind`
/// ([`attrs_rule`]).
pub fn check_member_attrs(attrs: &[Attribute], kind: MemberKind) -> (r: Vec<Diagnostic>)
    ensures
        diags_view(r@) == attrs_rule(attrs@, attrs.len() as int, kind).0,
        diag_messages(r@) == attrs_messages(attrs@, attrs.len() as int, kind),
{
    let noun = kind.noun();
    let mut out: Vec<Diagnostic> = Vec::new();
    let mut seen: Vec<String> = Vec::new();
    let mut i: usize = 0;
    assert(diags_view(out@) =~= Seq::empty());
    assert(diag_messages(out@) =~= Seq::empty());
    assert(crate::expr::strs_view(seen@) =~= Seq::empty());
    while i < attrs.len()
        invariant
            i <= attrs.len(),
            noun@ == member_noun(kind),
            diags_view(out@) == attrs_rule(attrs@, i as int, kind).0,
            diag_messages(out@) == attrs_messages(attrs@, i as int, kind),
            crate::expr::strs_view(seen@) == attrs_rule(attrs@, i as int, kind).1,
        decreases attrs.len() - i,
    {
        let ghost before = diags_view(out@);
        let ghost before_messages = diag_messages(out@);
        match &attrs[i] {
            Attribute::Require(range) => {
                if !(kind == MemberKind::Command || kind == MemberKind::Query) {
                    let mut message = String::from_str("`require` not valid on ");
                    message.append(noun);
                    message.append(" — contracts belong to `command` and `query`");
                    out.push(Diagnostic { code: DiagCode::RIDL_301, severity: Severity::Error, message, file: DETACHED, range: *range });
                }
            },
            Attribute::Ensure(range) => {
                if kind == MemberKind::Command {
                    let message = String::from_str(
                        "`ensure` not valid on command — a command has no result to observe",
                    );
                    out.push(Diagnostic { code: DiagCode::RIDL_302, severity: Severity::Error, message, file: DETACHED, range: *range });
                } else if kind != MemberKind::Query {
                    let mut message = String::from_str("`ensure` not valid on ");
                    message.append(noun);
                    message.append(" — contracts belong to `query`");
                    out.push(Diagnostic { code: DiagCode::RIDL_301, severity: Severity::Error, message, file: DETACHED, range: *range });
                }
            },
            Attribute::Key(key, range) => {
                if let Some(key) = key {
                    if is_attribute_key(key.as_str()) {
                        let mut message = String::from_str("attribute `");
                        message.append(key.as_str());
                        message.append("` not valid on ");
                        message.append(noun);
                        out.push(Diagnostic { code: DiagCode::FORM_107, severity: Severity::Error, message, file: DETACHED, range: *range });
                    } else {
                        let mut message = String::from_str("unknown attribute key `");
                        message.append(key.as_str());
                        message.append("`");
                        out.push(Diagnostic { code: DiagCode::FORM_106, severity: Severity::Error, message, file: DETACHED, range: *range });
                    }
                    if crate::resolve::contains_name(seen.as_slice(), key.as_str()) {
                        let mut message = String::from_str("duplicate attribute key `");
                        message.append(key.as_str());
                        message.append("`");
                        out.push(Diagnostic { code: DiagCode::FORM_108, severity: Severity::Error, message, file: DETACHED, range: *range });
                    } else {
                        let ghost s0 = crate::expr::strs_view(seen@);
                        seen.push(key.clone());
                        assert(crate::expr::strs_view(seen@) =~= s0.push(key@));
                    }
                }
            },
        }
        assert(diags_view(out@) =~= attrs_rule(attrs@, i + 1, kind).0);
        assert(diag_messages(out@) =~= attrs_messages(attrs@, i + 1, kind));
        i = i + 1;
    }
    out
}

// ==========================================================================
// Constant values
// ==========================================================================

/// One declaration of the workspace, as constant evaluation reads it: where
/// it is declared, its kind, its value literal, and — for a value naming
/// another constant — the declaration that name resolves to in the
/// declaring package (its package and name).
#[derive(Debug, PartialEq, Eq)]
pub struct ConstEntry {
    pub package: String,
    pub name: String,
    pub kind: SymbolKind,
    pub value: Option<crate::decls::LitKind>,
    pub next: Option<(String, String)>,
}

/// The model of a [`ConstValue`].
pub enum SConstValue {
    Number((int, int)),
    Bool(bool),
    Text(Seq<char>),
    Regex(Seq<char>),
}

pub open spec fn const_value_view(v: ConstValue) -> SConstValue {
    match v {
        ConstValue::Number(x) => SConstValue::Number(x.pair()),
        ConstValue::Bool(b) => SConstValue::Bool(b),
        ConstValue::Text(t) => SConstValue::Text(t@),
        ConstValue::Regex(t) => SConstValue::Regex(t@),
    }
}

pub open spec fn graph_wf(graph: Seq<ConstEntry>) -> bool {
    forall|i: int| 0 <= i < graph.len() ==> crate::decls::opt_lit_wf(#[trigger] graph[i].value)
}

/// The index of the first declaration named `name` in `package`, or -1.
pub open spec fn entry_index(graph: Seq<ConstEntry>, package: Seq<char>, name: Seq<char>, n: int) -> int
    decreases n,
{
    if n <= 0 {
        -1
    } else {
        let earlier = entry_index(graph, package, name, n - 1);
        if earlier >= 0 {
            earlier
        } else if graph[n - 1].package@ == package && graph[n - 1].name@ == name {
            n - 1
        } else {
            -1
        }
    }
}

/// The value of the constant `package.name`, following `const = const`
/// chains for at most `fuel` declarations: a literal is the value; a name
/// continues at the declaration it resolves to; anything else — not a
/// constant, no literal, a malformed one, a name that resolves nowhere — has
/// no value.
pub open spec fn chain_value(graph: Seq<ConstEntry>, package: Seq<char>, name: Seq<char>, fuel: nat) -> Option<
    SConstValue,
>
    decreases fuel,
{
    if fuel == 0 {
        None
    } else {
        let i = entry_index(graph, package, name, graph.len() as int);
        if i < 0 || graph[i].kind != SymbolKind::Const {
            None
        } else {
            match graph[i].value {
                Some(crate::decls::LitKind::Number(v)) => Some(SConstValue::Number(v.pair())),
                Some(crate::decls::LitKind::Bool(b)) => Some(SConstValue::Bool(b)),
                Some(crate::decls::LitKind::Str(t)) => Some(SConstValue::Text(t@)),
                Some(crate::decls::LitKind::Regex(t)) => Some(SConstValue::Regex(t@)),
                Some(crate::decls::LitKind::ConstRef(_)) => match graph[i].next {
                    Some((p, n)) => chain_value(graph, p@, n@, (fuel - 1) as nat),
                    None => None,
                },
                _ => None,
            }
        }
    }
}

/// The value of a constant: its chain followed through every declaration
/// at most once — a chain that returns to a constant it has passed is a
/// cycle and has no value.
pub open spec fn const_value_rule(graph: Seq<ConstEntry>, package: Seq<char>, name: Seq<char>) -> Option<SConstValue> {
    chain_value(graph, package, name, graph.len())
}

fn find_entry(graph: &[ConstEntry], package: &str, name: &str) -> (r: Option<usize>)
    ensures
        match r {
            Some(i) => i < graph.len() && entry_index(graph@, package@, name@, graph.len() as int) == i,
            None => entry_index(graph@, package@, name@, graph.len() as int) < 0,
        },
{
    let mut i: usize = 0;
    while i < graph.len()
        invariant
            i <= graph.len(),
            entry_index(graph@, package@, name@, i as int) < 0,
        decreases graph.len() - i,
    {
        if crate::chars::str_eq(graph[i].package.as_str(), package) && crate::chars::str_eq(
            graph[i].name.as_str(),
            name,
        ) {
            proof {
                lemma_entry_index_stable(graph@, package@, name@, i + 1, graph.len() as int);
            }
            return Some(i);
        }
        i = i + 1;
    }
    None
}

proof fn lemma_entry_index_stable(graph: Seq<ConstEntry>, package: Seq<char>, name: Seq<char>, a: int, b: int)
    requires
        0 <= a <= b,
        entry_index(graph, package, name, a) >= 0,
    ensures
        entry_index(graph, package, name, b) == entry_index(graph, package, name, a),
    decreases b - a,
{
    if a < b {
        lemma_entry_index_stable(graph, package, name, a, b - 1);
    }
}

fn literal_value(v: &ConstEntry) -> (r: Option<ConstValue>)
    requires
        crate::decls::opt_lit_wf(v.value),
    ensures
        match v.value {
            Some(crate::decls::LitKind::Number(x)) => r matches Some(c) && const_value_view(c)
                == SConstValue::Number(x.pair()),
            Some(crate::decls::LitKind::Bool(b)) => r matches Some(c) && const_value_view(c)
                == SConstValue::Bool(b),
            Some(crate::decls::LitKind::Str(t)) => r matches Some(c) && const_value_view(c)
                == SConstValue::Text(t@),
            Some(crate::decls::LitKind::Regex(t)) => r matches Some(c) && const_value_view(c)
                == SConstValue::Regex(t@),
            _ => r is None,
        },
        r matches Some(ConstValue::Number(x)) ==> x.wf(),
{
    match &v.value {
        Some(crate::decls::LitKind::Number(x)) => Some(ConstValue::Number(x.copy())),
        Some(crate::decls::LitKind::Bool(b)) => Some(ConstValue::Bool(*b)),
        Some(crate::decls::LitKind::Str(t)) => Some(ConstValue::Text(t.clone())),
        Some(crate::decls::LitKind::Regex(t)) => Some(ConstValue::Regex(t.clone())),
        _ => None,
    }
}

/// The value of the constant `package.name` ([`const_value_rule`]).
pub fn const_value_of(graph: &[ConstEntry], package: &str, name: &str) -> (r: Option<ConstValue>)
    requires
        graph_wf(graph@),
    ensures
        match r {
            Some(v) => const_value_rule(graph@, package@, name@) == Some(const_value_view(v)),
            None => const_value_rule(graph@, package@, name@) is None,
        },
        r matches Some(ConstValue::Number(x)) ==> x.wf(),
{
    let mut package_now = String::from_str(package);
    let mut name_now = String::from_str(name);
    let mut fuel: usize = graph.len();
    loop
        invariant
            graph_wf(graph@),
            fuel <= graph.len(),
            const_value_rule(graph@, package@, name@) == chain_value(
                graph@,
                package_now@,
                name_now@,
                fuel as nat,
            ),
        decreases fuel,
    {
        if fuel == 0 {
            return None;
        }
        let i = match find_entry(graph, package_now.as_str(), name_now.as_str()) {
            Some(i) => i,
            None => {
                return None;
            },
        };
        if graph[i].kind != SymbolKind::Const {
            return None;
        }
        assert(crate::decls::opt_lit_wf(graph@[i as int].value));
        match &graph[i].value {
            Some(crate::decls::LitKind::ConstRef(_)) => match &graph[i].next {
                Some((p, n)) => {
                    package_now = p.clone();
                    name_now = n.clone();
                    fuel = fuel - 1;
                },
                None => {
                    return None;
                },
            },
            _ => {
                return literal_value(&graph[i]);
            },
        }
    }
}

/// The value of the constant `name` binds in `symbols`, through its chain
/// ([`const_value_rule`]); none when the name binds no constant.
pub open spec fn bound_const_value(graph: Seq<ConstEntry>, symbols: Seq<(String, crate::resolve::Symbol)>, name: Seq<
    char,
>) -> Option<SConstValue> {
    match crate::expr::first_binding(crate::resolve::sym_bindings(symbols), name) {
        Some(s) => if s.2 == SymbolKind::Const {
            const_value_rule(graph, s.1, s.0)
        } else {
            None
        },
        None => None,
    }
}

/// The value of the constant `name` binds in `symbols`
/// ([`bound_const_value`]).
pub fn const_value_in(graph: &[ConstEntry], symbols: &[(String, crate::resolve::Symbol)], name: &str) -> (r: Option<
    ConstValue,
>)
    requires
        graph_wf(graph@),
    ensures
        match r {
            Some(v) => bound_const_value(graph@, symbols@, name@) == Some(const_value_view(v)),
            None => bound_const_value(graph@, symbols@, name@) is None,
        },
        r matches Some(ConstValue::Number(x)) ==> x.wf(),
{
    let symbol = match crate::resolve::find_symbol(symbols, name) {
        Some(s) => s,
        None => {
            return None;
        },
    };
    if symbol.kind != SymbolKind::Const {
        return None;
    }
    const_value_of(graph, symbol.package.as_str(), symbol.name.as_str())
}

/// The value of the constant `name` names in a package's resolved view: the
/// symbol it binds, evaluated through its declaration's `const = const`
/// chain ([`const_value_of`]); `None` when the name binds no constant, its
/// value is malformed, or the chain is a cycle.
pub fn const_value(graph: &[ConstEntry], res: &crate::resolve::Resolution, name: &str) -> (r: Option<ConstValue>)
    requires
        graph_wf(graph@),
    ensures
        match crate::expr::first_binding(crate::resolve::sym_bindings(res.symbols@), name@) {
            Some(s) => if s.2 == SymbolKind::Const {
                match r {
                    Some(v) => const_value_rule(graph@, s.1, s.0) == Some(const_value_view(v)),
                    None => const_value_rule(graph@, s.1, s.0) is None,
                }
            } else {
                r is None
            },
            None => r is None,
        },
{
    let symbol = match crate::resolve::find_symbol(res.symbols.as_slice(), name) {
        Some(s) => s,
        None => {
            return None;
        },
    };
    if symbol.kind != SymbolKind::Const {
        return None;
    }
    const_value_of(graph, symbol.package.as_str(), symbol.name.as_str())
}

/// A constant whose value names itself has no value.
pub proof fn law_self_reference_has_no_value(graph: Seq<ConstEntry>, package: Seq<char>, name: Seq<char>, fuel: nat)
    requires
        ({
            let i = entry_index(graph, package, name, graph.len() as int);
            &&& i >= 0
            &&& graph[i].kind == SymbolKind::Const
            &&& graph[i].value matches Some(crate::decls::LitKind::ConstRef(_))
            &&& graph[i].next matches Some((p, n)) && p@ == package && n@ == name
        }),
    ensures
        chain_value(graph, package, name, fuel) is None,
    decreases fuel,
{
    if fuel > 0 {
        law_self_reference_has_no_value(graph, package, name, (fuel - 1) as nat);
    }
}

} // verus!
