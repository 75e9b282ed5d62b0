//! The checker's declaration rules, over what the checker reads of a
//! declaration: literal classification, `reserved` tombstones, enum values,
//! union arms and result unions, and constant values with their range and
//! nominal-identity checks.

use vstd::prelude::*;

use crate::check::{
    in_range, regex_body_text, regex_parses, render_bound, validate_regex, ConstValue, ScalarParts,
};
use crate::check::{BackingClass, InitLiteral};
use crate::init::{init_view, scalar_init, type_rule, Backing, Constraint, InitValue, PrimitiveType};
use crate::chars::{str_eq, str_to_chars};
use crate::diag::{diag_messages, diags_view, DiagCode, Diagnostic, Severity, DETACHED};
use crate::exact::{abs, decimal_literal_value, decimal_text, gcd, rat_lt, rat_mul, rat_sub, reduce, tdiv, trem, ExactValue};
use crate::resolve::{SDiag, SymbolKind};
use crate::syntax::{TextRange, TokenKind};
use crate::text::i64_text;

verus! {

// ==========================================================================
// Literals
// ==========================================================================

/// What a literal holds, read off its token: an exact number, a constant
/// reference, a boolean, a string's inner text, a regex with its
/// delimiters, or nothing usable.
#[derive(Debug, PartialEq, Eq)]
pub enum LitKind {
    Number(ExactValue),
    ConstRef(String),
    Bool(bool),
    Str(String),
    Regex(String),
    Malformed,
}

pub open spec fn lit_wf(l: LitKind) -> bool {
    l matches LitKind::Number(v) ==> v.wf()
}

pub open spec fn opt_lit_wf(l: Option<LitKind>) -> bool {
    l matches Some(k) ==> lit_wf(k)
}

/// A string literal's inner text: without its enclosing quotes when it has
/// both.
pub open spec fn string_inner(text: Seq<char>) -> Seq<char> {
    if text.len() >= 2 && text[0] == '"' && text.last() == '"' {
        text.subrange(1, text.len() - 1)
    } else {
        text
    }
}

/// Classifies a literal from its token kind and its significant text. The
/// token kind is kept because `1` and `1.0` are one exact value.
pub open spec fn literal_rule(kind: TokenKind, text: Seq<char>) -> LitKindView {
    match kind {
        TokenKind::TrueKw => LitKindView::Bool(true),
        TokenKind::FalseKw => LitKindView::Bool(false),
        TokenKind::Regex => LitKindView::Regex(text),
        TokenKind::String => LitKindView::Str(string_inner(text)),
        TokenKind::IntNumber | TokenKind::FloatNumber => match decimal_literal_value(text) {
            Some(v) => LitKindView::Number(v),
            None => LitKindView::Malformed,
        },
        TokenKind::Ident => LitKindView::ConstRef(text),
        _ => LitKindView::Malformed,
    }
}

/// The model of a [`LitKind`].
pub enum LitKindView {
    Number((int, int)),
    ConstRef(Seq<char>),
    Bool(bool),
    Str(Seq<char>),
    Regex(Seq<char>),
    Malformed,
}

pub open spec fn lit_view(l: LitKind) -> LitKindView {
    match l {
        LitKind::Number(v) => LitKindView::Number(v.pair()),
        LitKind::ConstRef(s) => LitKindView::ConstRef(s@),
        LitKind::Bool(b) => LitKindView::Bool(b),
        LitKind::Str(s) => LitKindView::Str(s@),
        LitKind::Regex(s) => LitKindView::Regex(s@),
        LitKind::Malformed => LitKindView::Malformed,
    }
}

/// The kind of a literal ([`literal_rule`]).
pub fn literal_kind(kind: TokenKind, text: &str) -> (r: LitKind)
    ensures
        lit_view(r) == literal_rule(kind, text@),
        lit_wf(r),
{
    match kind {
        TokenKind::TrueKw => LitKind::Bool(true),
        TokenKind::FalseKw => LitKind::Bool(false),
        TokenKind::Regex => LitKind::Regex(String::from_str(text)),
        TokenKind::String => {
            let cs = str_to_chars(text);
            let n = cs.len();
            if n >= 2 && cs[0] == '"' && cs[n - 1] == '"' {
                LitKind::Str(
                    crate::chars::chars_to_string(crate::exact::slice_chars_pub(&cs, 1, n - 1)),
                )
            } else {
                LitKind::Str(String::from_str(text))
            }
        },
        TokenKind::IntNumber | TokenKind::FloatNumber => match ExactValue::parse(text) {
            Some(value) => LitKind::Number(value),
            None => LitKind::Malformed,
        },
        TokenKind::Ident => LitKind::ConstRef(String::from_str(text)),
        _ => LitKind::Malformed,
    }
}

/// The `i64` a literal spells: an integer number in range.
pub open spec fn lit_i64(l: Option<LitKind>) -> Option<i64> {
    match l {
        Some(LitKind::Number(v)) => if v.denom() == 1 && i64::MIN <= v.numer() <= i64::MAX {
            Some(v.numer() as i64)
        } else {
            None
        },
        _ => None,
    }
}

fn literal_i64(l: &Option<LitKind>) -> (r: Option<i64>)
    requires
        opt_lit_wf(*l),
    ensures
        r == lit_i64(*l),
{
    match l {
        Some(LitKind::Number(v)) => v.to_i64(),
        _ => None,
    }
}

// ==========================================================================
// Tombstones
// ==========================================================================

/// A `reserved` entry: a retired name, or a retired value.
#[derive(Debug, PartialEq, Eq)]
pub struct ReservedEntry {
    pub name: Option<String>,
    pub value: Option<LitKind>,
    pub range: TextRange,
}

/// A lowered tombstone: its ordinal slot (zero for an enum, whose retired
/// identity is the value), and the retired name or value.
#[derive(Debug, PartialEq, Eq)]
pub struct Reserved {
    pub ordinal: u32,
    pub name: Option<String>,
    pub value: Option<i64>,
}

pub open spec fn reserved_wf(e: ReservedEntry) -> bool {
    opt_lit_wf(e.value)
}

/// The model of a [`Reserved`].
pub open spec fn reserved_view(r: Reserved) -> (u32, Option<Seq<char>>, Option<i64>) {
    (
        r.ordinal,
        match r.name {
            Some(n) => Some(n@),
            None => None,
        },
        r.value,
    )
}

pub open spec fn lowered_reserved(e: ReservedEntry, ordinal: u32) -> (u32, Option<Seq<char>>, Option<i64>) {
    (
        ordinal,
        match e.name {
            Some(n) => Some(n@),
            None => None,
        },
        lit_i64(e.value),
    )
}

/// Lowers one tombstone into its slot.
pub fn lower_reserved(entry: &ReservedEntry, ordinal: u32) -> (r: Reserved)
    requires
        reserved_wf(*entry),
    ensures
        reserved_view(r) == lowered_reserved(*entry, ordinal),
{
    Reserved {
        ordinal,
        name: match &entry.name {
            Some(n) => Some(n.clone()),
            None => None,
        },
        value: literal_i64(&entry.value),
    }
}

/// The retired names and values a declaration's tombstones record, and the
/// TYPL-211 warnings for a name or value retired twice.
pub struct Retired {
    pub names: Seq<Seq<char>>,
    pub values: Seq<i64>,
    pub diags: Seq<SDiag>,
}

/// Records one tombstone: a named entry retires its name (TYPL-211 when the
/// name is retired already); an unnamed one retires its integer value
/// (TYPL-211 when that value is retired already).
pub open spec fn retire(acc: Retired, e: ReservedEntry) -> Retired {
    let warn = (DiagCode::TYPL_211, Severity::Warning, DETACHED, e.range);
    match e.name {
        Some(n) => if acc.names.contains(n@) {
            Retired { diags: acc.diags.push(warn), ..acc }
        } else {
            Retired { names: acc.names.push(n@), ..acc }
        },
        None => match lit_i64(e.value) {
            Some(v) => if acc.values.contains(v) {
                Retired { diags: acc.diags.push(warn), ..acc }
            } else {
                Retired { values: acc.values.push(v), ..acc }
            },
            None => acc,
        },
    }
}

/// The message [`retire`] raises, if it raises one: it names the entry
/// recorded twice.
pub open spec fn retire_messages(acc: Retired, e: ReservedEntry) -> Seq<Seq<char>> {
    match e.name {
        Some(n) => if acc.names.contains(n@) {
            seq!["duplicate `reserved` entry `"@ + n@ + "`"@]
        } else {
            Seq::empty()
        },
        None => match lit_i64(e.value) {
            Some(v) => if acc.values.contains(v) {
                seq!["duplicate `reserved` entry "@ + crate::exact::int_decimal(v as int)]
            } else {
                Seq::empty()
            },
            None => Seq::empty(),
        },
    }
}

pub open spec fn no_retired() -> Retired {
    Retired { names: Seq::empty(), values: Seq::empty(), diags: Seq::empty() }
}

pub(crate) fn contains_str(list: &Vec<String>, name: &str) -> (r: bool)
    ensures
        r == crate::expr::strs_view(list@).contains(name@),
{
    crate::resolve::contains_name(list.as_slice(), name)
}

fn contains_i64(list: &Vec<i64>, v: i64) -> (r: bool)
    ensures
        r == list@.contains(v),
{
    let mut i: usize = 0;
    while i < list.len()
        invariant
            i <= list.len(),
            forall|j: int| 0 <= j < i ==> list@[j] != v,
        decreases list.len() - i,
    {
        if list[i] == v {
            assert(list@[i as int] == v);
            return true;
        }
        i = i + 1;
    }
    false
}

/// Records one tombstone ([`retire`]).
pub fn record_reserved(
    entry: &ReservedEntry,
    names: &mut Vec<String>,
    values: &mut Vec<i64>,
    out: &mut Vec<Diagnostic>,
)
    requires
        reserved_wf(*entry),
    ensures
        ({
            let after = retire(
                Retired {
                    names: crate::expr::strs_view(old(names)@),
                    values: old(values)@,
                    diags: diags_view(old(out)@),
                },
                *entry,
            );
            &&& crate::expr::strs_view(final(names)@) == after.names
            &&& final(values)@ == after.values
            &&& diags_view(final(out)@) == after.diags
        }),
        diag_messages(final(out)@) == diag_messages(old(out)@) + retire_messages(
            Retired {
                names: crate::expr::strs_view(old(names)@),
                values: old(values)@,
                diags: diags_view(old(out)@),
            },
            *entry,
        ),
{
    let ghost d0 = diags_view(out@);
    let ghost m0 = diag_messages(out@);
    if let Some(name) = &entry.name {
        if contains_str(names, name.as_str()) {
            let mut message = String::from_str("duplicate `reserved` entry `");
            message.append(name.as_str());
            message.append("`");
            push_at(out, DiagCode::TYPL_211, Severity::Warning, entry.range, message);
        } else {
            let ghost n0 = crate::expr::strs_view(names@);
            names.push(name.clone());
            assert(crate::expr::strs_view(names@) =~= n0.push(name@));
            assert(diag_messages(out@) =~= m0 + Seq::<Seq<char>>::empty());
        }
        return;
    }
    if let Some(value) = literal_i64(&entry.value) {
        if contains_i64(values, value) {
            let mut message = String::from_str("duplicate `reserved` entry ");
            message.append(i64_text(value).as_str());
            push_at(out, DiagCode::TYPL_211, Severity::Warning, entry.range, message);
        } else {
            values.push(value);
            assert(diag_messages(out@) =~= m0 + Seq::<Seq<char>>::empty());
        }
    } else {
        assert(diag_messages(out@) =~= m0 + Seq::<Seq<char>>::empty());
    }
}

// ==========================================================================
// Enums
// ==========================================================================

/// One member of an enum body, in source order: a tombstone, or a value
/// with its name, the literal it is assigned, and the ranges of both.
#[derive(Debug, PartialEq, Eq)]
pub enum EnumMember {
    Reserved(ReservedEntry),
    Value { name: Option<String>, name_range: TextRange, value: Option<LitKind>, value_range: TextRange },
}

pub open spec fn enum_member_wf(m: EnumMember) -> bool {
    match m {
        EnumMember::Reserved(e) => reserved_wf(e),
        EnumMember::Value { value, .. } => opt_lit_wf(value),
    }
}

/// One lowered enum value.
#[derive(Debug, PartialEq, Eq)]
pub struct EnumValue {
    pub name: String,
    pub value: i64,
}

/// A lowered enum: its values and its tombstones.
#[derive(Debug, PartialEq, Eq)]
pub struct EnumDef {
    pub values: Vec<EnumValue>,
    pub reserved: Vec<Reserved>,
}

/// The contract-error category names an `error` enum must not declare: they
/// are implicit and standardized.
pub open spec fn stratum_2_categories() -> Seq<Seq<char>> {
    seq![
        "INVALID_VALUE"@,
        "PRECONDITION_FAILED"@,
        "CONTRACT_BROKEN"@,
        "UNKNOWN_INTERACTION"@,
    ]
}

/// Whether `name` is a contract-error category name.
pub fn is_stratum_2_category(name: &str) -> (r: bool)
    ensures
        r == stratum_2_categories().contains(name@),
{
    let words: [&str; 4] = [
        "INVALID_VALUE",
        "PRECONDITION_FAILED",
        "CONTRACT_BROKEN",
        "UNKNOWN_INTERACTION",
    ];
    assert(words@.map_values(|w: &str| w@) =~= stratum_2_categories());
    let mut i: usize = 0;
    while i < 4
        invariant
            i <= 4,
            words@.map_values(|w: &str| w@) == stratum_2_categories(),
            forall|j: int| 0 <= j < i ==> stratum_2_categories()[j] != name@,
        decreases 4 - i,
    {
        if str_eq(words[i], name) {
            assert(stratum_2_categories()[i as int] == words@[i as int]@);
            return true;
        }
        i = i + 1;
    }
    false
}

/// What lowering an enum has produced so far: the values by name and
/// number, the tombstones, the numbers seen, and the diagnostics.
pub struct SEnumState {
    pub values: Seq<(Seq<char>, i64)>,
    pub reserved: Seq<(u32, Option<Seq<char>>, Option<i64>)>,
    pub seen: Seq<i64>,
    pub diags: Seq<SDiag>,
}

/// One member of an enum: a tombstone lowers into slot zero; a named value
/// draws TYPL-210 when its name is retired, RIDL-307 (warning) when an
/// `error` enum names a contract-error category, TYPL-203 when it has no
/// integer value (and is then dropped), TYPL-210 when its number is retired,
/// and TYPL-203 when its number repeats an earlier one; an unnamed value is
/// dropped.
pub open spec fn enum_step(acc: SEnumState, m: EnumMember, retired: Retired, is_error: bool) -> SEnumState {
    match m {
        EnumMember::Reserved(e) => SEnumState { reserved: acc.reserved.push(lowered_reserved(e, 0)), ..acc },
        EnumMember::Value { name, name_range, value, value_range } => match name {
            None => acc,
            Some(n) => {
                let d1 = if retired.names.contains(n@) {
                    seq![(DiagCode::TYPL_210, Severity::Error, DETACHED, name_range)]
                } else {
                    Seq::empty()
                };
                let d2 = if is_error && stratum_2_categories().contains(n@) {
                    seq![(DiagCode::RIDL_307, Severity::Warning, DETACHED, name_range)]
                } else {
                    Seq::empty()
                };
                match lit_i64(value) {
                    None => SEnumState {
                        diags: acc.diags + d1 + d2 + seq![
                            (DiagCode::TYPL_203, Severity::Error, DETACHED, name_range),
                        ],
                        ..acc
                    },
                    Some(v) => {
                        let d3 = if retired.values.contains(v) {
                            seq![(DiagCode::TYPL_210, Severity::Error, DETACHED, value_range)]
                        } else {
                            Seq::empty()
                        };
                        let d4 = if acc.seen.contains(v) {
                            seq![(DiagCode::TYPL_203, Severity::Error, DETACHED, value_range)]
                        } else {
                            Seq::empty()
                        };
                        SEnumState {
                            values: acc.values.push((n@, v)),
                            reserved: acc.reserved,
                            seen: if acc.seen.contains(v) {
                                acc.seen
                            } else {
                                acc.seen.push(v)
                            },
                            diags: acc.diags + d1 + d2 + d3 + d4,
                        }
                    },
                }
            },
        },
    }
}

/// The tombstones of the first `n` members, recorded in order.
pub open spec fn enum_retired(members: Seq<EnumMember>, n: int) -> Retired
    decreases n,
{
    if n <= 0 {
        no_retired()
    } else {
        let acc = enum_retired(members, n - 1);
        match members[n - 1] {
            EnumMember::Reserved(e) => retire(acc, e),
            _ => acc,
        }
    }
}

/// The first `n` members lowered in order, after the tombstone pre-pass.
pub open spec fn enum_fold(members: Seq<EnumMember>, n: int, retired: Retired, is_error: bool) -> SEnumState
    decreases n,
{
    if n <= 0 {
        SEnumState { values: Seq::empty(), reserved: Seq::empty(), seen: Seq::empty(), diags: retired.diags }
    } else {
        enum_step(enum_fold(members, n - 1, retired, is_error), members[n - 1], retired, is_error)
    }
}

/// The messages of the tombstone pre-pass over the first `n` enum members.
pub open spec fn enum_retired_messages(members: Seq<EnumMember>, n: int) -> Seq<Seq<char>>
    decreases n,
{
    if n <= 0 {
        Seq::empty()
    } else {
        enum_retired_messages(members, n - 1) + match members[n - 1] {
            EnumMember::Reserved(e) => retire_messages(enum_retired(members, n - 1), e),
            _ => Seq::empty(),
        }
    }
}

/// The messages of [`enum_step`]'s diagnostics for the first `n` members,
/// each naming the value or the number it is about.
pub open spec fn enum_messages(members: Seq<EnumMember>, n: int, retired: Retired, is_error: bool) -> Seq<
    Seq<char>,
>
    decreases n,
{
    if n <= 0 {
        Seq::empty()
    } else {
        let seen = enum_fold(members, n - 1, retired, is_error).seen;
        enum_messages(members, n - 1, retired, is_error) + match members[n - 1] {
            EnumMember::Value { name: Some(a), value, .. } => (if retired.names.contains(a@) {
                seq!["enum value `"@ + a@ + "` re-declares a `reserved` name"@]
            } else {
                Seq::empty()
            }) + (if is_error && stratum_2_categories().contains(a@) {
                seq![
                    "`error` enum value `"@ + a@
                        + "` is a reserved Stratum-2 contract-error category — choose a different name"@,
                ]
            } else {
                Seq::empty()
            }) + match lit_i64(value) {
                None => seq!["enum value `"@ + a@ + "` has no explicit integer value"@],
                Some(v) => (if retired.values.contains(v) {
                    seq!["enum value "@ + crate::exact::int_decimal(v as int) + " re-uses a `reserved` value"@]
                } else {
                    Seq::empty()
                }) + (if seen.contains(v) {
                    seq!["duplicate enum value "@ + crate::exact::int_decimal(v as int)]
                } else {
                    Seq::empty()
                }),
            },
            _ => Seq::empty(),
        }
    }
}

pub open spec fn enum_values_view(v: Seq<EnumValue>) -> Seq<(Seq<char>, i64)> {
    v.map_values(|e: EnumValue| (e.name@, e.value))
}

pub open spec fn reserveds_view(v: Seq<Reserved>) -> Seq<(u32, Option<Seq<char>>, Option<i64>)> {
    v.map_values(|r: Reserved| reserved_view(r))
}

pub(crate) fn push_at(out: &mut Vec<Diagnostic>, code: DiagCode, severity: Severity, range: TextRange, message: String)
    ensures
        diags_view(final(out)@) == diags_view(old(out)@).push((code, severity, DETACHED, range)),
        diag_messages(final(out)@) == diag_messages(old(out)@).push(message@),
{
    let ghost text = message@;
    out.push(Diagnostic { code, severity, message, file: DETACHED, range });
    assert(diags_view(out@) =~= diags_view(old(out)@).push((code, severity, DETACHED, range)));
    assert(diag_messages(out@) =~= diag_messages(old(out)@).push(text));
}

/// Lowers an enum body ([`enum_fold`] after [`enum_retired`]): every
/// tombstone is recorded first, then the members lower in source order.
#[verifier::rlimit(80)]
pub fn lower_enum(members: &[EnumMember], is_error: bool) -> (r: (EnumDef, Vec<Diagnostic>))
    requires
        forall|i: int| 0 <= i < members.len() ==> enum_member_wf(#[trigger] members@[i]),
    ensures
        ({
            let s = enum_fold(
                members@,
                members.len() as int,
                enum_retired(members@, members.len() as int),
                is_error,
            );
            &&& enum_values_view(r.0.values@) == s.values
            &&& reserveds_view(r.0.reserved@) == s.reserved
            &&& diags_view(r.1@) == s.diags
            &&& diag_messages(r.1@) == enum_retired_messages(members@, members.len() as int) + enum_messages(
                members@,
                members.len() as int,
                enum_retired(members@, members.len() as int),
                is_error,
            )
        }),
{
    let mut names: Vec<String> = Vec::new();
    let mut retired_values: Vec<i64> = Vec::new();
    let mut out: Vec<Diagnostic> = Vec::new();
    let mut i: usize = 0;
    assert(crate::expr::strs_view(names@) =~= Seq::empty());
    assert(diags_view(out@) =~= Seq::empty());
    assert(diag_messages(out@) =~= Seq::empty());
    while i < members.len()
        invariant
            i <= members.len(),
            forall|j: int| 0 <= j < members.len() ==> enum_member_wf(#[trigger] members@[j]),
            crate::expr::strs_view(names@) == enum_retired(members@, i as int).names,
            retired_values@ == enum_retired(members@, i as int).values,
            diags_view(out@) == enum_retired(members@, i as int).diags,
            diag_messages(out@) == enum_retired_messages(members@, i as int),
        decreases members.len() - i,
    {
        assert(enum_member_wf(members@[i as int]));
        let ghost before_messages = diag_messages(out@);
        if let EnumMember::Reserved(entry) = &members[i] {
            record_reserved(entry, &mut names, &mut retired_values, &mut out);
        } else {
            assert(diag_messages(out@) =~= before_messages + Seq::<Seq<char>>::empty());
        }
        i = i + 1;
    }
    let ghost retired = enum_retired(members@, members.len() as int);
    let ghost retired_messages = diag_messages(out@);
    let mut values: Vec<EnumValue> = Vec::new();
    let mut reserved: Vec<Reserved> = Vec::new();
    let mut seen: Vec<i64> = Vec::new();
    let mut k: usize = 0;
    assert(enum_values_view(values@) =~= Seq::empty());
    assert(reserveds_view(reserved@) =~= Seq::empty());
    while k < members.len()
        invariant
            k <= members.len(),
            forall|j: int| 0 <= j < members.len() ==> enum_member_wf(#[trigger] members@[j]),
            crate::expr::strs_view(names@) == retired.names,
            retired_values@ == retired.values,
            ({
                let s = enum_fold(members@, k as int, retired, is_error);
                &&& enum_values_view(values@) == s.values
                &&& reserveds_view(reserved@) == s.reserved
                &&& seen@ == s.seen
                &&& diags_view(out@) == s.diags
            }),
            diag_messages(out@) == retired_messages + enum_messages(members@, k as int, retired, is_error),
        decreases members.len() - k,
    {
        assert(enum_member_wf(members@[k as int]));
        let ghost before_values = enum_values_view(values@);
        let ghost before_reserved = reserveds_view(reserved@);
        let ghost before_diags = diags_view(out@);
        match &members[k] {
            EnumMember::Reserved(entry) => {
                let lowered = lower_reserved(entry, 0);
                reserved.push(lowered);
                assert(reserveds_view(reserved@) =~= before_reserved.push(lowered_reserved(*entry, 0)));
            },
            EnumMember::Value { name, name_range, value, value_range } => {
                if let Some(name) = name {
                    if contains_str(&names, name.as_str()) {
                        let mut message = String::from_str("enum value `");
                        message.append(name.as_str());
                        message.append("` re-declares a `reserved` name");
                        push_at(&mut out, DiagCode::TYPL_210, Severity::Error, *name_range, message);
                    }
                    if is_error && is_stratum_2_category(name.as_str()) {
                        let mut message = String::from_str("`error` enum value `");
                        message.append(name.as_str());
                        message.append(
                            "` is a reserved Stratum-2 contract-error category — choose a different name",
                        );
                        push_at(&mut out, DiagCode::RIDL_307, Severity::Warning, *name_range, message);
                    }
                    match literal_i64(value) {
                        None => {
                            let mut message = String::from_str("enum value `");
                            message.append(name.as_str());
                            message.append("` has no explicit integer value");
                            push_at(&mut out, DiagCode::TYPL_203, Severity::Error, *name_range, message);
                        },
                        Some(v) => {
                            if contains_i64(&retired_values, v) {
                                let mut message = String::from_str("enum value ");
                                message.append(i64_text(v).as_str());
                                message.append(" re-uses a `reserved` value");
                                push_at(&mut out, DiagCode::TYPL_210, Severity::Error, *value_range, message);
                            }
                            if contains_i64(&seen, v) {
                                let mut message = String::from_str("duplicate enum value ");
                                message.append(i64_text(v).as_str());
                                push_at(&mut out, DiagCode::TYPL_203, Severity::Error, *value_range, message);
                            } else {
                                seen.push(v);
                            }
                            values.push(EnumValue { name: name.clone(), value: v });
                            assert(enum_values_view(values@) =~= before_values.push((name@, v)));
                        },
                    }
                    assert(diags_view(out@) =~= enum_fold(members@, k + 1, retired, is_error).diags);
                }
            },
        }
        assert(diag_messages(out@) =~= retired_messages + enum_messages(members@, k + 1, retired, is_error));
        k = k + 1;
    }
    (EnumDef { values, reserved }, out)
}

// ==========================================================================
// Unions
// ==========================================================================

/// What a union arm's type reference is, as the checker read it.
#[derive(Debug, PartialEq, Eq)]
pub enum ArmType {
    /// No type is written.
    Missing,
    /// A primitive keyword (`integer`, `string`, …) where a named type
    /// belongs.
    Primitive { keyword: String, range: TextRange },
    /// A named type: the path as written and where it stands; what resolving
    /// it as a type gave (its canonical reference and `error` modifier);
    /// and what looking the path up found (the declaration's kind and
    /// `error` modifier).
    Named {
        written: String,
        range: TextRange,
        resolved: Option<(String, bool)>,
        found: Option<(SymbolKind, bool)>,
    },
}

/// One member of a union body, in source order: a tombstone or an arm.
#[derive(Debug, PartialEq, Eq)]
pub enum UnionMember {
    Reserved(ReservedEntry),
    Arm { name: Option<String>, name_range: TextRange, ty: ArmType },
}

pub open spec fn union_member_wf(m: UnionMember) -> bool {
    match m {
        UnionMember::Reserved(e) => reserved_wf(e),
        _ => true,
    }
}

/// One lowered arm: its name, its ordinal slot, and its type reference.
#[derive(Debug, PartialEq, Eq)]
pub struct UnionArm {
    pub name: String,
    pub ordinal: u32,
    pub type_ref: String,
}

/// A lowered union: its arms, whether it is a result union (one success arm
/// and one error arm), and its tombstones.
#[derive(Debug, PartialEq, Eq)]
pub struct UnionDef {
    pub arms: Vec<UnionArm>,
    pub is_result: bool,
    pub reserved: Vec<Reserved>,
}

/// What lowering a union has produced so far.
pub struct SUnionState {
    pub ordinal: nat,
    pub arms: Seq<(Seq<char>, u32, Seq<char>)>,
    pub reserved: Seq<(u32, Option<Seq<char>>, Option<i64>)>,
    /// The `error` modifier of every named arm whose type resolved.
    pub kinds: Seq<bool>,
    pub all_resolved: bool,
    pub diags: Seq<SDiag>,
}

/// The tombstones among the first `n` union members, recorded in order.
pub open spec fn union_retired(members: Seq<UnionMember>, n: int) -> Retired
    decreases n,
{
    if n <= 0 {
        no_retired()
    } else {
        let acc = union_retired(members, n - 1);
        match members[n - 1] {
            UnionMember::Reserved(e) => retire(acc, e),
            _ => acc,
        }
    }
}

/// One member of a union: tombstones and arms share the ordinal counter; a
/// named arm draws TYPL-210 when its name is retired and TYPL-204 when its
/// type is a primitive; an arm whose type is missing, primitive, or
/// unresolved leaves the union not fully resolved.
pub open spec fn union_step(acc: SUnionState, m: UnionMember, retired: Retired) -> SUnionState {
    let ordinal = acc.ordinal + 1;
    match m {
        UnionMember::Reserved(e) => SUnionState {
            ordinal,
            reserved: acc.reserved.push(lowered_reserved(e, ordinal as u32)),
            ..acc
        },
        UnionMember::Arm { name, name_range, ty } => match name {
            None => SUnionState { ordinal, ..acc },
            Some(n) => {
                let d1 = if retired.names.contains(n@) {
                    seq![(DiagCode::TYPL_210, Severity::Error, DETACHED, name_range)]
                } else {
                    Seq::empty()
                };
                let (type_ref, kind, resolved, d2) = match ty {
                    ArmType::Missing => (Seq::<char>::empty(), None::<bool>, false, Seq::<SDiag>::empty()),
                    ArmType::Primitive { keyword, range } => (
                        keyword@,
                        None,
                        false,
                        seq![(DiagCode::TYPL_204, Severity::Error, DETACHED, range)],
                    ),
                    ArmType::Named { written, resolved, .. } => match resolved {
                        Some((canonical, is_error)) => (canonical@, Some(is_error), true, Seq::empty()),
                        None => (written@, None, false, Seq::empty()),
                    },
                };
                SUnionState {
                    ordinal,
                    arms: acc.arms.push((n@, ordinal as u32, type_ref)),
                    reserved: acc.reserved,
                    kinds: match kind {
                        Some(k) => acc.kinds.push(k),
                        None => acc.kinds,
                    },
                    all_resolved: acc.all_resolved && resolved,
                    diags: acc.diags + d1 + d2,
                }
            },
        },
    }
}

pub open spec fn union_fold(members: Seq<UnionMember>, n: int, retired: Retired) -> SUnionState
    decreases n,
{
    if n <= 0 {
        SUnionState {
            ordinal: 0,
            arms: Seq::empty(),
            reserved: Seq::empty(),
            kinds: Seq::empty(),
            all_resolved: true,
            diags: retired.diags,
        }
    } else {
        union_step(union_fold(members, n - 1, retired), members[n - 1], retired)
    }
}

/// TYPL-214 for the arms among the first `n` members of an `error union`
/// whose path names a declaration that is neither a constant nor
/// error-typed.
pub open spec fn error_union_diags(members: Seq<UnionMember>, n: int) -> Seq<SDiag>
    decreases n,
{
    if n <= 0 {
        Seq::empty()
    } else {
        error_union_diags(members, n - 1) + match members[n - 1] {
            UnionMember::Arm { ty: ArmType::Named { range, found: Some((kind, is_error)), .. }, .. } => if kind
                != SymbolKind::Const && !is_error {
                seq![(DiagCode::TYPL_214, Severity::Error, DETACHED, range)]
            } else {
                Seq::empty()
            },
            _ => Seq::empty(),
        }
    }
}

pub open spec fn count_errors(kinds: Seq<bool>) -> nat
    decreases kinds.len(),
{
    if kinds.len() == 0 {
        0
    } else {
        count_errors(kinds.drop_last()) + if kinds.last() {
            1nat
        } else {
            0nat
        }
    }
}

/// The verdict on a union's arms: an `error union` draws TYPL-214 for every
/// arm that is not error-typed; otherwise a fully resolved union that mixes
/// success and error arms is a result union when it has exactly one of
/// each, and draws TYPL-213 at its name otherwise.
pub open spec fn union_verdict(
    members: Seq<UnionMember>,
    s: SUnionState,
    is_error: bool,
    name_range: TextRange,
) -> (bool, Seq<SDiag>) {
    if is_error {
        (false, error_union_diags(members, members.len() as int))
    } else if s.all_resolved && s.kinds.len() > 0 {
        let errors = count_errors(s.kinds);
        let successes = s.kinds.len() - errors;
        if errors > 0 && successes > 0 {
            if errors == 1 && successes == 1 {
                (true, Seq::empty())
            } else {
                (false, seq![(DiagCode::TYPL_213, Severity::Error, DETACHED, name_range)])
            }
        } else {
            (false, Seq::empty())
        }
    } else {
        (false, Seq::empty())
    }
}

/// The messages of the tombstone pre-pass over the first `n` union members.
pub open spec fn union_retired_messages(members: Seq<UnionMember>, n: int) -> Seq<Seq<char>>
    decreases n,
{
    if n <= 0 {
        Seq::empty()
    } else {
        union_retired_messages(members, n - 1) + match members[n - 1] {
            UnionMember::Reserved(e) => retire_messages(union_retired(members, n - 1), e),
            _ => Seq::empty(),
        }
    }
}

/// The messages of the arms among the first `n` members: a retired name
/// and a primitive type each name the arm.
pub open spec fn union_arm_messages(members: Seq<UnionMember>, n: int, retired: Retired) -> Seq<Seq<char>>
    decreases n,
{
    if n <= 0 {
        Seq::empty()
    } else {
        union_arm_messages(members, n - 1, retired) + match members[n - 1] {
            UnionMember::Arm { name: Some(a), ty, .. } => (if retired.names.contains(a@) {
                seq!["union arm `"@ + a@ + "` re-declares a `reserved` name"@]
            } else {
                Seq::empty()
            }) + match ty {
                ArmType::Primitive { keyword, .. } => seq![
                    "union arm `"@ + a@ + "` has primitive type `"@ + keyword@
                        + "` — arms reference named types only"@,
                ],
                _ => Seq::empty(),
            },
            _ => Seq::empty(),
        }
    }
}

/// The messages of [`error_union_diags`]: each names the arm.
pub open spec fn error_union_messages(members: Seq<UnionMember>, n: int) -> Seq<Seq<char>>
    decreases n,
{
    if n <= 0 {
        Seq::empty()
    } else {
        error_union_messages(members, n - 1) + match members[n - 1] {
            UnionMember::Arm { name, ty: ArmType::Named { found: Some((kind, is_error)), .. }, .. } => if kind
                != SymbolKind::Const && !is_error {
                seq![
                    "`error union` arm `"@ + match name {
                        Some(a) => a@,
                        None => Seq::empty(),
                    } + "` is not error-typed"@,
                ]
            } else {
                Seq::empty()
            },
            _ => Seq::empty(),
        }
    }
}

/// The messages of [`union_verdict`]'s diagnostics: a mixed union counts
/// its success and error arms.
pub open spec fn union_verdict_messages(members: Seq<UnionMember>, s: SUnionState, is_error: bool) -> Seq<
    Seq<char>,
> {
    if is_error {
        error_union_messages(members, members.len() as int)
    } else if s.all_resolved && s.kinds.len() > 0 {
        let errors = count_errors(s.kinds);
        let successes = (s.kinds.len() - errors) as nat;
        if errors > 0 && successes > 0 && !(errors == 1 && successes == 1) {
            seq![
                "union mixes "@ + crate::exact::nat_decimal(successes) + " success and "@
                    + crate::exact::nat_decimal(errors) + " error arms — a result union has exactly one of each"@,
            ]
        } else {
            Seq::empty()
        }
    } else {
        Seq::empty()
    }
}

pub open spec fn union_arms_view(v: Seq<UnionArm>) -> Seq<(Seq<char>, u32, Seq<char>)> {
    v.map_values(|a: UnionArm| (a.name@, a.ordinal, a.type_ref@))
}

proof fn lemma_count_errors_bound(kinds: Seq<bool>)
    ensures
        count_errors(kinds) <= kinds.len(),
    decreases kinds.len(),
{
    if kinds.len() > 0 {
        lemma_count_errors_bound(kinds.drop_last());
    }
}

/// Lowers a union body: tombstones first, then arms and tombstones in
/// source order ([`union_fold`]), then the verdict on its arms
/// ([`union_verdict`]). `name_range` is where the union's name stands.
pub fn lower_union(members: &[UnionMember], is_error: bool, name_range: TextRange) -> (r: (
    UnionDef,
    Vec<Diagnostic>,
))
    requires
        members.len() < u32::MAX,
        forall|i: int| 0 <= i < members.len() ==> union_member_wf(#[trigger] members@[i]),
    ensures
        ({
            let s = union_fold(members@, members.len() as int, union_retired(members@, members.len() as int));
            let v = union_verdict(members@, s, is_error, name_range);
            &&& union_arms_view(r.0.arms@) == s.arms
            &&& reserveds_view(r.0.reserved@) == s.reserved
            &&& r.0.is_result == v.0
            &&& diags_view(r.1@) == s.diags + v.1
            &&& diag_messages(r.1@) == union_retired_messages(members@, members.len() as int)
                + union_arm_messages(members@, members.len() as int, union_retired(members@, members.len() as int))
                + union_verdict_messages(members@, s, is_error)
        }),
{
    let mut names: Vec<String> = Vec::new();
    let mut retired_values: Vec<i64> = Vec::new();
    let mut out: Vec<Diagnostic> = Vec::new();
    let mut i: usize = 0;
    assert(crate::expr::strs_view(names@) =~= Seq::empty());
    assert(diags_view(out@) =~= Seq::empty());
    assert(diag_messages(out@) =~= Seq::empty());
    while i < members.len()
        invariant
            i <= members.len(),
            forall|j: int| 0 <= j < members.len() ==> union_member_wf(#[trigger] members@[j]),
            crate::expr::strs_view(names@) == union_retired(members@, i as int).names,
            retired_values@ == union_retired(members@, i as int).values,
            diags_view(out@) == union_retired(members@, i as int).diags,
            diag_messages(out@) == union_retired_messages(members@, i as int),
        decreases members.len() - i,
    {
        assert(union_member_wf(members@[i as int]));
        let ghost before_messages = diag_messages(out@);
        if let UnionMember::Reserved(entry) = &members[i] {
            record_reserved(entry, &mut names, &mut retired_values, &mut out);
        } else {
            assert(diag_messages(out@) =~= before_messages + Seq::<Seq<char>>::empty());
        }
        i = i + 1;
    }
    let ghost retired = union_retired(members@, members.len() as int);
    let ghost retired_messages = diag_messages(out@);
    let mut arms: Vec<UnionArm> = Vec::new();
    let mut reserved: Vec<Reserved> = Vec::new();
    let mut kinds: Vec<bool> = Vec::new();
    let mut all_resolved = true;
    let mut ordinal: u32 = 0;
    let mut k: usize = 0;
    assert(union_arms_view(arms@) =~= Seq::empty());
    assert(reserveds_view(reserved@) =~= Seq::empty());
    while k < members.len()
        invariant
            k <= members.len() < u32::MAX,
            forall|j: int| 0 <= j < members.len() ==> union_member_wf(#[trigger] members@[j]),
            crate::expr::strs_view(names@) == retired.names,
            ({
                let s = union_fold(members@, k as int, retired);
                &&& ordinal as nat == s.ordinal
                &&& s.ordinal == k
                &&& union_arms_view(arms@) == s.arms
                &&& reserveds_view(reserved@) == s.reserved
                &&& kinds@ == s.kinds
                &&& all_resolved == s.all_resolved
                &&& diags_view(out@) == s.diags
            }),
            diag_messages(out@) == retired_messages + union_arm_messages(members@, k as int, retired),
        decreases members.len() - k,
    {
        assert(union_member_wf(members@[k as int]));
        ordinal = ordinal + 1;
        let ghost before_arms = union_arms_view(arms@);
        let ghost before_reserved = reserveds_view(reserved@);
        let ghost before_diags = diags_view(out@);
        let ghost before_messages = diag_messages(out@);
        match &members[k] {
            UnionMember::Reserved(entry) => {
                let lowered = lower_reserved(entry, ordinal);
                reserved.push(lowered);
                assert(reserveds_view(reserved@) =~= before_reserved.push(lowered_reserved(*entry, ordinal)));
            },
            UnionMember::Arm { name, name_range: arm_range, ty } => {
                if let Some(name) = name {
                    if contains_str(&names, name.as_str()) {
                        let mut message = String::from_str("union arm `");
                        message.append(name.as_str());
                        message.append("` re-declares a `reserved` name");
                        push_at(&mut out, DiagCode::TYPL_210, Severity::Error, *arm_range, message);
                    }
                    let type_ref = match ty {
                        ArmType::Missing => {
                            all_resolved = false;
                            String::new()
                        },
                        ArmType::Primitive { keyword, range } => {
                            let mut message = String::from_str("union arm `");
                            message.append(name.as_str());
                            message.append("` has primitive type `");
                            message.append(keyword.as_str());
                            message.append("` — arms reference named types only");
                            push_at(&mut out, DiagCode::TYPL_204, Severity::Error, *range, message);
                            all_resolved = false;
                            keyword.clone()
                        },
                        ArmType::Named { written, resolved, .. } => match resolved {
                            Some((canonical, arm_is_error)) => {
                                kinds.push(*arm_is_error);
                                canonical.clone()
                            },
                            None => {
                                all_resolved = false;
                                written.clone()
                            },
                        },
                    };
                    arms.push(UnionArm { name: name.clone(), ordinal, type_ref });
                    assert(union_arms_view(arms@) =~= union_fold(members@, k + 1, retired).arms);
                    assert(diags_view(out@) =~= union_fold(members@, k + 1, retired).diags);
                }
            },
        }
        assert(diag_messages(out@) =~= retired_messages + union_arm_messages(members@, k + 1, retired));
        k = k + 1;
    }
    let ghost s = union_fold(members@, members.len() as int, retired);
    let ghost after_arms = diags_view(out@);
    let ghost after_arm_messages = diag_messages(out@);
    let mut is_result = false;
    if is_error {
        let mut j: usize = 0;
        assert(after_arms + error_union_diags(members@, 0) =~= after_arms);
        assert(after_arm_messages + error_union_messages(members@, 0) =~= after_arm_messages);
        while j < members.len()
            invariant
                j <= members.len(),
                diags_view(out@) == after_arms + error_union_diags(members@, j as int),
                diag_messages(out@) == after_arm_messages + error_union_messages(members@, j as int),
            decreases members.len() - j,
        {
            let ghost before = diags_view(out@);
            let ghost before_messages = diag_messages(out@);
            if let UnionMember::Arm { name, ty: ArmType::Named { range, found: Some((kind, arm_is_error)), .. }, .. } = &members[j] {
                if *kind != SymbolKind::Const && !*arm_is_error {
                    let mut message = String::from_str("`error union` arm `");
                    match name {
                        Some(n) => message.append(n.as_str()),
                        None => {},
                    }
                    message.append("` is not error-typed");
                    push_at(&mut out, DiagCode::TYPL_214, Severity::Error, *range, message);
                }
            }
            assert(diags_view(out@) =~= after_arms + error_union_diags(members@, j + 1));
            assert(diag_messages(out@) =~= after_arm_messages + error_union_messages(members@, j + 1));
            j = j + 1;
        }
    } else if all_resolved && kinds.len() > 0 {
        let mut errors: usize = 0;
        let mut q: usize = 0;
        while q < kinds.len()
            invariant
                q <= kinds.len(),
                errors == count_errors(kinds@.take(q as int)),
                errors <= q,
            decreases kinds.len() - q,
        {
            assert(kinds@.take(q + 1).drop_last() =~= kinds@.take(q as int));
            if kinds[q] {
                errors = errors + 1;
            }
            q = q + 1;
        }
        assert(kinds@.take(kinds.len() as int) =~= kinds@);
        let successes = kinds.len() - errors;
        if errors > 0 && successes > 0 {
            if errors == 1 && successes == 1 {
                is_result = true;
            } else {
                let mut message = String::from_str("union mixes ");
                message.append(crate::text::u64_text(successes as u64).as_str());
                message.append(" success and ");
                message.append(crate::text::u64_text(errors as u64).as_str());
                message.append(" error arms — a result union has exactly one of each");
                push_at(&mut out, DiagCode::TYPL_213, Severity::Error, name_range, message);
            }
        }
        assert(diags_view(out@) =~= s.diags + union_verdict(members@, s, is_error, name_range).1);
        assert(diag_messages(out@) =~= after_arm_messages + union_verdict_messages(members@, s, is_error));
    } else {
        assert(diags_view(out@) =~= s.diags + Seq::empty());
        assert(diag_messages(out@) =~= after_arm_messages + Seq::<Seq<char>>::empty());
    }
    (UnionDef { arms, is_result, reserved }, out)
}

// ==========================================================================
// Constants
// ==========================================================================

/// A constant's declared type, as the checker read it.
#[derive(Debug, PartialEq, Eq)]
pub enum ConstTypeRef {
    /// A primitive keyword, as written.
    Primitive(String),
    /// A named declaration: its canonical reference; whether it is a scalar
    /// `type`; and, for a scalar type, its exact range bounds.
    Named {
        canonical: String,
        is_type: bool,
        bounds: Option<(Option<ExactValue>, Option<ExactValue>)>,
    },
    /// A path that does not resolve, as written.
    Unresolved(String),
}

/// A `const` declaration as the checker reads it. For a value naming another
/// constant, the checker's findings about that constant ride along: the
/// nominal-identity violation it found (this constant's type and the
/// other's, as displayed), the other constant's numeric value, and its
/// resolved value.
#[derive(Debug, PartialEq, Eq)]
pub struct ConstDecl {
    pub name: String,
    pub value: Option<LitKind>,
    /// The value literal as written (empty when there is none).
    pub written: String,
    pub value_range: TextRange,
    pub type_ref: Option<ConstTypeRef>,
    pub nominal_violation: Option<(String, String)>,
    pub referenced_number: Option<ExactValue>,
    pub referenced_value: Option<ConstValue>,
}

/// A lowered constant: its type reference, its value as a value (never a
/// reference), and, for a regex constant, its pattern.
#[derive(Debug, PartialEq, Eq)]
pub struct ConstDef {
    pub type_ref: Option<String>,
    pub value: String,
    pub regex: Option<String>,
}

pub open spec fn const_decl_wf(d: ConstDecl) -> bool {
    &&& opt_lit_wf(d.value)
    &&& (d.type_ref matches Some(ConstTypeRef::Named { bounds: Some((lo, hi)), .. }) ==> (lo matches Some(
        m,
    ) ==> m.wf()) && (hi matches Some(m) ==> m.wf()))
    &&& d.referenced_number matches Some(v) ==> v.wf()
    &&& d.referenced_value matches Some(ConstValue::Number(v)) ==> v.wf()
}

/// The range a constant's value is checked against: the bounds of its
/// scalar type.
pub open spec fn const_bounds(t: Option<ConstTypeRef>) -> Option<(Option<(int, int)>, Option<(int, int)>)> {
    match t {
        Some(ConstTypeRef::Named { is_type: true, bounds: Some((lo, hi)), .. }) => Some(
            (
                match lo {
                    Some(m) => Some(m.pair()),
                    None => None,
                },
                match hi {
                    Some(m) => Some(m.pair()),
                    None => None,
                },
            ),
        ),
        _ => None,
    }
}

pub open spec fn type_ref_text(t: Option<ConstTypeRef>) -> Option<Seq<char>> {
    match t {
        Some(ConstTypeRef::Primitive(k)) => Some(k@),
        Some(ConstTypeRef::Named { canonical, .. }) => Some(canonical@),
        Some(ConstTypeRef::Unresolved(w)) => Some(w@),
        None => None,
    }
}

/// The diagnostics of a constant, in order: TYPL-108 for a numeric value
/// outside its type's range; TYPL-108 for a value naming a constant of
/// another named type; failing that, TYPL-108 for a named constant whose
/// numeric value lies outside the range; TYPL-106 for a regex value the
/// engine cannot parse. All of them point at the value.
pub open spec fn const_diags(d: ConstDecl) -> Seq<SDiag> {
    const_diags_with(d, opt_pair(d.referenced_number))
}

/// [`const_diags`], with `number` the numeric value of the constant the
/// value names.
pub open spec fn const_diags_with(d: ConstDecl, number: Option<(int, int)>) -> Seq<SDiag> {
    let at = |code: DiagCode| seq![(code, Severity::Error, DETACHED, d.value_range)];
    let bounds = const_bounds(d.type_ref);
    let d1 = match (d.value, bounds) {
        (Some(LitKind::Number(v)), Some((lo, hi))) => if in_range(v.pair(), lo, hi) {
            Seq::empty()
        } else {
            at(DiagCode::TYPL_108)
        },
        _ => Seq::empty(),
    };
    let target_is_type = d.type_ref matches Some(ConstTypeRef::Named { is_type: true, .. });
    let nominal = d.value matches Some(LitKind::ConstRef(_)) && target_is_type
        && d.nominal_violation is Some;
    let d2 = if nominal {
        at(DiagCode::TYPL_108)
    } else {
        Seq::empty()
    };
    let d3 = match (d.value, bounds, number) {
        (Some(LitKind::ConstRef(_)), Some((lo, hi)), Some(v)) => if !nominal && !in_range(v, lo, hi) {
            at(DiagCode::TYPL_108)
        } else {
            Seq::empty()
        },
        _ => Seq::empty(),
    };
    let d4 = match d.value {
        Some(LitKind::Regex(t)) => if regex_parses(regex_body_text(t@)) {
            Seq::empty()
        } else {
            at(DiagCode::TYPL_106)
        },
        _ => Seq::empty(),
    };
    d1 + d2 + d3 + d4
}

/// The message of a constant's out-of-range finding: the constant, its
/// value, the declared type and that type's range.
pub open spec fn const_range_message(
    name: Seq<char>,
    value: (int, int),
    declared: Seq<char>,
    lo: Option<(int, int)>,
    hi: Option<(int, int)>,
) -> Seq<char> {
    "const `"@ + name + "` value "@ + decimal_text(value.0, value.1) + " outside `"@ + declared
        + "` range ["@ + crate::check::bound_text(lo) + ", "@ + crate::check::bound_text(hi) + "]"@
}

/// The messages of [`const_diags`], in the same order: the range findings
/// name the constant, its value and the declared type with its range; the
/// nominal finding names both constants and both types; the regex finding
/// says the syntax is invalid.
pub open spec fn const_messages(d: ConstDecl) -> Seq<Seq<char>> {
    const_messages_with(d, opt_pair(d.referenced_number))
}

/// [`const_messages`], with `number` the numeric value of the constant the
/// value names.
pub open spec fn const_messages_with(d: ConstDecl, number: Option<(int, int)>) -> Seq<Seq<char>> {
    let bounds = const_bounds(d.type_ref);
    let declared = match d.type_ref {
        Some(ConstTypeRef::Named { canonical, .. }) => canonical@,
        _ => Seq::empty(),
    };
    let d1 = match (d.value, bounds) {
        (Some(LitKind::Number(v)), Some((lo, hi))) => if in_range(v.pair(), lo, hi) {
            Seq::empty()
        } else {
            seq![const_range_message(d.name@, v.pair(), declared, lo, hi)]
        },
        _ => Seq::empty(),
    };
    let target_is_type = d.type_ref matches Some(ConstTypeRef::Named { is_type: true, .. });
    let nominal = d.value matches Some(LitKind::ConstRef(_)) && target_is_type
        && d.nominal_violation is Some;
    let d2 = match (d.value, d.nominal_violation) {
        (Some(LitKind::ConstRef(source)), Some((target_display, source_display))) => if nominal {
            seq![
                "const `"@ + d.name@ + "` of type `"@ + target_display@
                    + "` cannot be initialized from `"@ + source@ + "` of type `"@ + source_display@
                    + "` — nominal types are not interchangeable (§5.7)"@,
            ]
        } else {
            Seq::empty()
        },
        _ => Seq::empty(),
    };
    let d3 = match (d.value, bounds, number) {
        (Some(LitKind::ConstRef(_)), Some((lo, hi)), Some(v)) => if !nominal && !in_range(v, lo, hi) {
            seq![const_range_message(d.name@, v, declared, lo, hi)]
        } else {
            Seq::empty()
        },
        _ => Seq::empty(),
    };
    let d4 = match d.value {
        Some(LitKind::Regex(t)) => if regex_parses(regex_body_text(t@)) {
            Seq::empty()
        } else {
            seq!["invalid regular expression syntax"@]
        },
        _ => Seq::empty(),
    };
    d1 + d2 + d3 + d4
}

/// The value a constant lowers to, and its pattern, given the value of the
/// constant it names when its value names one ([`const_value_rule`]).
pub open spec fn const_text(d: ConstDecl, referenced: Option<crate::check::SConstValue>) -> (
    Seq<char>,
    Option<Seq<char>>,
) {
    let resolved = match d.value {
        Some(LitKind::ConstRef(_)) => match referenced {
            Some(crate::check::SConstValue::Number(p)) => Some(LitKindView::Number(p)),
            Some(crate::check::SConstValue::Bool(b)) => Some(LitKindView::Bool(b)),
            Some(crate::check::SConstValue::Text(t)) => Some(LitKindView::Str(t)),
            Some(crate::check::SConstValue::Regex(t)) => Some(LitKindView::Regex(t)),
            None => None,
        },
        Some(k) => Some(lit_view(k)),
        None => None,
    };
    match resolved {
        Some(LitKindView::Number((n, dd))) => (decimal_text(n, dd), None),
        Some(LitKindView::Bool(b)) => (if b {
            "true"@
        } else {
            "false"@
        }, None),
        Some(LitKindView::Str(t)) => (t, None),
        Some(LitKindView::Regex(t)) => (Seq::empty(), Some(t)),
        _ => (d.written@, None),
    }
}

/// The numeric value among the value of a named constant.
pub open spec fn reference_number(v: Option<crate::check::SConstValue>) -> Option<(int, int)> {
    match v {
        Some(crate::check::SConstValue::Number(p)) => Some(p),
        _ => None,
    }
}

pub open spec fn opt_const_view(v: Option<ConstValue>) -> Option<crate::check::SConstValue> {
    match v {
        Some(x) => Some(crate::check::const_value_view(x)),
        None => None,
    }
}

/// The value of the constant a constant's value names, followed through its
/// chain: the constant the name binds in `symbols`, valued in `graph`
/// ([`crate::check::const_value_rule`]); none when the value names no
/// constant.
pub open spec fn const_reference(
    d: ConstDecl,
    graph: Seq<crate::check::ConstEntry>,
    symbols: Seq<(String, crate::resolve::Symbol)>,
) -> Option<crate::check::SConstValue> {
    match d.value {
        Some(LitKind::ConstRef(n)) => crate::check::bound_const_value(graph, symbols, n@),
        _ => None,
    }
}

/// The value a constant lowers to, and its pattern: a number as its exact
/// decimal text, a boolean as `true`/`false`, a string as its text, a regex
/// as the pattern (with an empty value); a value naming another constant
/// lowers as that constant's resolved value; anything else as written.
pub open spec fn const_value_rule(d: ConstDecl) -> (Seq<char>, Option<Seq<char>>) {
    let resolved = match d.value {
        Some(LitKind::ConstRef(_)) => match d.referenced_value {
            Some(ConstValue::Number(v)) => Some(LitKindView::Number(v.pair())),
            Some(ConstValue::Bool(b)) => Some(LitKindView::Bool(b)),
            Some(ConstValue::Text(t)) => Some(LitKindView::Str(t@)),
            Some(ConstValue::Regex(t)) => Some(LitKindView::Regex(t@)),
            None => None,
        },
        Some(k) => Some(lit_view(k)),
        None => None,
    };
    match resolved {
        Some(LitKindView::Number((n, dd))) => (decimal_text(n, dd), None),
        Some(LitKindView::Bool(b)) => (if b {
            "true"@
        } else {
            "false"@
        }, None),
        Some(LitKindView::Str(t)) => (t, None),
        Some(LitKindView::Regex(t)) => (Seq::empty(), Some(t)),
        _ => (d.written@, None),
    }
}

fn range_message(name: &str, value: &ExactValue, declared: &str, lo: &Option<ExactValue>, hi: &Option<ExactValue>) -> (r: String)
    requires
        value.wf(),
        lo matches Some(m) ==> m.wf(),
        hi matches Some(m) ==> m.wf(),
    ensures
        r@ == "const `"@ + name@ + "` value "@ + decimal_text(value.numer(), value.denom()) + " outside `"@
            + declared@ + "` range ["@ + crate::check::bound_text(opt_pair(*lo)) + ", "@ + crate::check::bound_text(
            opt_pair(*hi),
        ) + "]"@,
{
    let mut message = String::from_str("const `");
    message.append(name);
    message.append("` value ");
    message.append(value.to_decimal_string().as_str());
    message.append(" outside `");
    message.append(declared);
    message.append("` range [");
    message.append(render_bound(lo.as_ref()).as_str());
    message.append(", ");
    message.append(render_bound(hi.as_ref()).as_str());
    message.append("]");
    message
}

/// Lowers a `const` declaration: its diagnostics ([`const_diags`]) and its
/// lowered form ([`const_value_rule`], [`type_ref_text`]).
pub fn lower_const(decl: &ConstDecl) -> (r: (ConstDef, Vec<Diagnostic>))
    requires
        const_decl_wf(*decl),
    ensures
        match r.0.type_ref {
            Some(t) => type_ref_text(decl.type_ref) == Some(t@),
            None => type_ref_text(decl.type_ref) is None,
        },
        r.0.value@ == const_value_rule(*decl).0,
        match r.0.regex {
            Some(t) => const_value_rule(*decl).1 == Some(t@),
            None => const_value_rule(*decl).1 is None,
        },
        diags_view(r.1@) == const_diags(*decl),
        diag_messages(r.1@) == const_messages(*decl),
{
    lower_const_with(decl, &decl.referenced_value, &decl.referenced_number)
}

/// Lowers a `const` declaration whose value may name another constant: the
/// named constant's value is followed through its whole chain
/// ([`const_reference`]), and the declaration lowers as that value.
pub fn lower_const_in(
    decl: &ConstDecl,
    graph: &[crate::check::ConstEntry],
    symbols: &[(String, crate::resolve::Symbol)],
) -> (r: (ConstDef, Vec<Diagnostic>))
    requires
        const_decl_wf(*decl),
        crate::check::graph_wf(graph@),
    ensures
        match r.0.type_ref {
            Some(t) => type_ref_text(decl.type_ref) == Some(t@),
            None => type_ref_text(decl.type_ref) is None,
        },
        r.0.value@ == const_text(*decl, const_reference(*decl, graph@, symbols@)).0,
        match r.0.regex {
            Some(t) => const_text(*decl, const_reference(*decl, graph@, symbols@)).1 == Some(t@),
            None => const_text(*decl, const_reference(*decl, graph@, symbols@)).1 is None,
        },
        diags_view(r.1@) == const_diags_with(*decl, reference_number(const_reference(*decl, graph@, symbols@))),
        diag_messages(r.1@) == const_messages_with(
            *decl,
            reference_number(const_reference(*decl, graph@, symbols@)),
        ),
{
    let referenced = match &decl.value {
        Some(LitKind::ConstRef(n)) => crate::check::const_value_in(graph, symbols, n.as_str()),
        _ => None,
    };
    let number = match &referenced {
        Some(ConstValue::Number(v)) => Some(v.copy()),
        _ => None,
    };
    lower_const_with(decl, &referenced, &number)
}

fn lower_const_with(decl: &ConstDecl, referenced: &Option<ConstValue>, number: &Option<ExactValue>) -> (r: (
    ConstDef,
    Vec<Diagnostic>,
))
    requires
        const_decl_wf(*decl),
        *referenced matches Some(ConstValue::Number(v)) ==> v.wf(),
        *number matches Some(v) ==> v.wf(),
    ensures
        match r.0.type_ref {
            Some(t) => type_ref_text(decl.type_ref) == Some(t@),
            None => type_ref_text(decl.type_ref) is None,
        },
        r.0.value@ == const_text(*decl, opt_const_view(*referenced)).0,
        match r.0.regex {
            Some(t) => const_text(*decl, opt_const_view(*referenced)).1 == Some(t@),
            None => const_text(*decl, opt_const_view(*referenced)).1 is None,
        },
        diags_view(r.1@) == const_diags_with(*decl, opt_pair(*number)),
        diag_messages(r.1@) == const_messages_with(*decl, opt_pair(*number)),
{
    let mut out: Vec<Diagnostic> = Vec::new();
    let range = decl.value_range;
    let type_ref = match &decl.type_ref {
        Some(ConstTypeRef::Primitive(k)) => Some(k.clone()),
        Some(ConstTypeRef::Named { canonical, .. }) => Some(canonical.clone()),
        Some(ConstTypeRef::Unresolved(w)) => Some(w.clone()),
        None => None,
    };
    let (bounds, target_is_type) = match &decl.type_ref {
        Some(ConstTypeRef::Named { canonical, is_type, bounds }) => (
            if *is_type {
                match bounds {
                    Some((lo, hi)) => Some((lo, hi, canonical.as_str())),
                    None => None,
                }
            } else {
                None
            },
            *is_type,
        ),
        _ => (None, false),
    };
    let ghost d0 = diags_view(out@);
    assert(d0 =~= Seq::empty());
    assert(diag_messages(out@) =~= Seq::empty());
    if let (Some(LitKind::Number(v)), Some((lo, hi, declared))) = (&decl.value, &bounds) {
        if crate::check::out_of_bounds(v, lo.as_ref(), hi.as_ref()) {
            let message = range_message(decl.name.as_str(), v, declared, lo, hi);
            push_at(&mut out, DiagCode::TYPL_108, Severity::Error, range, message);
        }
    }
    let is_ref = match &decl.value {
        Some(LitKind::ConstRef(_)) => true,
        _ => false,
    };
    let nominal = is_ref && target_is_type && decl.nominal_violation.is_some();
    if nominal {
        if let (Some(LitKind::ConstRef(source)), Some((target_display, source_display))) = (
            &decl.value,
            &decl.nominal_violation,
        ) {
            let mut message = String::from_str("const `");
            message.append(decl.name.as_str());
            message.append("` of type `");
            message.append(target_display.as_str());
            message.append("` cannot be initialized from `");
            message.append(source.as_str());
            message.append("` of type `");
            message.append(source_display.as_str());
            message.append("` — nominal types are not interchangeable (§5.7)");
            push_at(&mut out, DiagCode::TYPL_108, Severity::Error, range, message);
        }
    }
    if !nominal && is_ref {
        if let (Some((lo, hi, declared)), Some(v)) = (&bounds, number) {
            if crate::check::out_of_bounds(v, lo.as_ref(), hi.as_ref()) {
                let message = range_message(decl.name.as_str(), v, declared, lo, hi);
                push_at(&mut out, DiagCode::TYPL_108, Severity::Error, range, message);
            }
        }
    }
    if let Some(LitKind::Regex(text)) = &decl.value {
        if let Some(diagnostic) = validate_regex(text.as_str(), range) {
            let ghost before = diags_view(out@);
            let ghost before_messages = diag_messages(out@);
            out.push(diagnostic);
            assert(diags_view(out@) =~= before.push((DiagCode::TYPL_106, Severity::Error, DETACHED, range)));
            assert(diag_messages(out@) =~= before_messages.push("invalid regular expression syntax"@));
        }
    }
    assert(diags_view(out@) =~= const_diags_with(*decl, opt_pair(*number)));
    assert(diag_messages(out@) =~= const_messages_with(*decl, opt_pair(*number)));
    let (value, regex) = match &decl.value {
        Some(LitKind::ConstRef(_)) => match referenced {
            Some(ConstValue::Number(v)) => (v.to_decimal_string(), None),
            Some(ConstValue::Bool(b)) => (bool_text(*b), None),
            Some(ConstValue::Text(t)) => (t.clone(), None),
            Some(ConstValue::Regex(t)) => (String::new(), Some(t.clone())),
            None => (decl.written.clone(), None),
        },
        Some(LitKind::Number(v)) => (v.to_decimal_string(), None),
        Some(LitKind::Bool(b)) => (bool_text(*b), None),
        Some(LitKind::Str(t)) => (t.clone(), None),
        Some(LitKind::Regex(t)) => (String::new(), Some(t.clone())),
        Some(LitKind::Malformed) | None => (decl.written.clone(), None),
    };
    proof {
        reveal_strlit("");
    }
    (ConstDef { type_ref, value, regex }, out)
}

fn bool_text(b: bool) -> (r: String)
    ensures
        r@ == (if b {
            "true"@
        } else {
            "false"@
        }),
{
    if b {
        String::from_str("true")
    } else {
        String::from_str("false")
    }
}

// ==========================================================================
// Length-bounded scalars
// ==========================================================================

/// The `match` pattern of a string scalar as the checker read it: the
/// literal, where it stands, and — for a constant reference — the regex
/// constant it names (its pattern and canonical reference), when it names
/// one.
#[derive(Debug, PartialEq, Eq)]
pub struct PatternLiteral {
    pub kind: LitKind,
    pub range: TextRange,
    pub regex_const: Option<(String, String)>,
}

/// The pattern and pattern constant a `match` literal gives a string
/// scalar: an inline regex is the pattern; a reference to a regex constant
/// gives its pattern and canonical name; a reference that names no regex
/// constant keeps the name as written.
pub open spec fn pattern_rule(p: Option<PatternLiteral>) -> (Option<Seq<char>>, Option<Seq<char>>) {
    match p {
        Some(PatternLiteral { kind: LitKind::Regex(t), .. }) => (Some(t@), None),
        Some(PatternLiteral { kind: LitKind::ConstRef(n), regex_const, .. }) => match regex_const {
            Some((t, c)) => (Some(t@), Some(c@)),
            None => (None, Some(n@)),
        },
        _ => (None, None),
    }
}

/// TYPL-106 for an inline `match` regex of a string scalar that the engine
/// cannot parse.
pub open spec fn pattern_diags(allow_pattern: bool, pattern: Option<PatternLiteral>) -> Seq<SDiag> {
    match (allow_pattern, pattern) {
        (true, Some(PatternLiteral { kind: LitKind::Regex(t), range, .. })) => if regex_parses(
            regex_body_text(t@),
        ) {
            Seq::empty()
        } else {
            seq![(DiagCode::TYPL_106, Severity::Error, DETACHED, range)]
        },
        _ => Seq::empty(),
    }
}

/// Lowers the constraint of a `string` (`allow_pattern`) or `bytes` scalar:
/// the effective length bounds ([`crate::check::len_rule`], with the TYPL-103
/// warning at `span` when no bound is written) and, for a string, the
/// `match` pattern ([`pattern_rule`]; TYPL-106 at the literal for an inline
/// regex the engine cannot parse).
pub fn lower_len_scalar(
    noun: &str,
    allow_pattern: bool,
    bound: Option<crate::check::LenBound>,
    pattern: &Option<PatternLiteral>,
    span: TextRange,
) -> (r: (crate::init::Constraint, Vec<Diagnostic>))
    ensures
        r.0.len_min == Some(crate::check::len_rule(bound).0),
        r.0.len_max == Some(crate::check::len_rule(bound).1),
        r.0.min is None && r.0.max is None && r.0.step is None,
        ({
            let p = if allow_pattern {
                pattern_rule(*pattern)
            } else {
                (None, None)
            };
            &&& match r.0.pattern {
                Some(t) => p.0 == Some(t@),
                None => p.0 is None,
            }
            &&& match r.0.pattern_const {
                Some(t) => p.1 == Some(t@),
                None => p.1 is None,
            }
        }),
        diags_view(r.1@) == (if bound is None {
            seq![(DiagCode::TYPL_103, Severity::Warning, DETACHED, span)]
        } else {
            Seq::empty()
        }) + pattern_diags(allow_pattern, *pattern),
{
    let (len_min, len_max, warning) = crate::check::len_bounds(bound, noun, span);
    let mut out: Vec<Diagnostic> = Vec::new();
    if let Some(w) = warning {
        out.push(w);
    }
    let ghost first = diags_view(out@);
    assert(first =~= (if bound is None {
        seq![(DiagCode::TYPL_103, Severity::Warning, DETACHED, span)]
    } else {
        Seq::<SDiag>::empty()
    }));
    let mut found_pattern: Option<String> = None;
    let mut pattern_const: Option<String> = None;
    if allow_pattern {
        if let Some(literal) = pattern {
            match &literal.kind {
                LitKind::Regex(text) => {
                    if let Some(d) = validate_regex(text.as_str(), literal.range) {
                        out.push(d);
                    }
                    found_pattern = Some(text.clone());
                },
                LitKind::ConstRef(name) => match &literal.regex_const {
                    Some((text, canonical)) => {
                        found_pattern = Some(text.clone());
                        pattern_const = Some(canonical.clone());
                    },
                    None => {
                        pattern_const = Some(name.clone());
                    },
                },
                _ => {},
            }
        }
    }
    assert(diags_view(out@) =~= first + pattern_diags(allow_pattern, *pattern));
    let constraint = crate::init::Constraint {
        min: None,
        max: None,
        step: None,
        len_min: Some(len_min),
        len_max: Some(len_max),
        pattern: found_pattern,
        pattern_const,
    };
    (constraint, out)
}

// ==========================================================================
// Numeric scalars
// ==========================================================================

/// A range bound or `step` as written: its literal, where it stands, and
/// whether its token is an integer number (`1` rather than `1.0`); for a
/// constant reference, the value the constant resolves to, if it resolves.
#[derive(Debug, PartialEq, Eq)]
pub struct BoundLiteral {
    pub kind: LitKind,
    pub range: TextRange,
    pub int_form: bool,
    pub constant: Option<ConstValue>,
}

/// A numeric constraint `[min..max step s]` as written, any part of which
/// may be missing, and where the whole constraint stands.
#[derive(Debug, PartialEq, Eq)]
pub struct RangeConstraint {
    pub range: TextRange,
    pub min: Option<BoundLiteral>,
    pub max: Option<BoundLiteral>,
    pub step: Option<BoundLiteral>,
}

/// A borrowed constraint, as the constraint itself.
pub open spec fn unref(c: Option<&RangeConstraint>) -> Option<RangeConstraint> {
    match c {
        Some(k) => Some(*k),
        None => None,
    }
}

pub open spec fn bound_wf(b: Option<BoundLiteral>) -> bool {
    b matches Some(l) ==> {
        &&& lit_wf(l.kind)
        &&& l.constant matches Some(ConstValue::Number(v)) ==> v.wf()
    }
}

pub open spec fn range_constraint_wf(c: Option<RangeConstraint>) -> bool {
    c matches Some(k) ==> bound_wf(k.min) && bound_wf(k.max) && bound_wf(k.step)
}

/// The value a written bound resolves to: a number literal is its value; a
/// reference to a numeric constant is the constant's value; a reference to
/// another constant draws TYPL-105, and to no constant an uncoded error,
/// both at the literal; any other literal resolves to nothing.
pub open spec fn bound_rule(b: BoundLiteral) -> (Option<(int, int)>, Seq<SDiag>) {
    match b.kind {
        LitKind::Number(v) => (Some(v.pair()), Seq::empty()),
        LitKind::ConstRef(_) => match b.constant {
            Some(ConstValue::Number(v)) => (Some(v.pair()), Seq::empty()),
            Some(_) => (None, seq![(DiagCode::TYPL_105, Severity::Error, DETACHED, b.range)]),
            None => (None, seq![(DiagCode::NONE, Severity::Error, DETACHED, b.range)]),
        },
        _ => (None, Seq::empty()),
    }
}

/// [`bound_rule`] for a part that may be missing.
pub open spec fn opt_bound_rule(b: Option<BoundLiteral>) -> (Option<(int, int)>, Seq<SDiag>) {
    match b {
        Some(l) => bound_rule(l),
        None => (None, Seq::empty()),
    }
}

/// The message of [`bound_rule`]'s diagnostic, when it draws one: a
/// reference to a constant that is not numeric, or to no constant, names it.
pub open spec fn bound_messages(b: Option<BoundLiteral>) -> Seq<Seq<char>> {
    match b {
        Some(l) => match l.kind {
            LitKind::ConstRef(name) => match l.constant {
                Some(ConstValue::Number(_)) => Seq::empty(),
                Some(_) => seq!["range bound constant `"@ + name@ + "` is not numeric"@],
                None => seq!["unknown constant `"@ + name@ + "` in range bound"@],
            },
            _ => Seq::empty(),
        },
        None => Seq::empty(),
    }
}

pub open spec fn opt_message(d: Option<Diagnostic>) -> Seq<Seq<char>> {
    match d {
        Some(x) => seq![x.message@],
        None => Seq::empty(),
    }
}

pub open spec fn opt_pair(v: Option<ExactValue>) -> Option<(int, int)> {
    match v {
        Some(x) => Some(x.pair()),
        None => None,
    }
}

pub open spec fn opt_diag(d: Option<Diagnostic>) -> Seq<SDiag> {
    match d {
        Some(x) => seq![crate::diag::diag_view(x)],
        None => Seq::empty(),
    }
}

/// Resolves a written range bound or step ([`bound_rule`]).
pub fn resolve_range_bound(b: &BoundLiteral) -> (r: (Option<ExactValue>, Option<Diagnostic>))
    requires
        bound_wf(Some(*b)),
    ensures
        opt_pair(r.0) == bound_rule(*b).0,
        opt_diag(r.1) == bound_rule(*b).1,
        opt_message(r.1) == bound_messages(Some(*b)),
        r.0 matches Some(v) ==> v.wf(),
{
    match &b.kind {
        LitKind::Number(v) => (Some(v.copy()), None),
        LitKind::ConstRef(name) => match &b.constant {
            Some(ConstValue::Number(v)) => (Some(v.copy()), None),
            Some(_) => {
                let mut message = String::from_str("range bound constant `");
                message.append(name.as_str());
                message.append("` is not numeric");
                let d = Diagnostic {
                    code: DiagCode::TYPL_105,
                    severity: Severity::Error,
                    message,
                    file: DETACHED,
                    range: b.range,
                };
                (None, Some(d))
            },
            None => {
                let mut message = String::from_str("unknown constant `");
                message.append(name.as_str());
                message.append("` in range bound");
                let d = Diagnostic {
                    code: DiagCode::NONE,
                    severity: Severity::Error,
                    message,
                    file: DETACHED,
                    range: b.range,
                };
                (None, Some(d))
            },
        },
        _ => (None, None),
    }
}

/// [`resolve_range_bound`] for a part that may be missing.
fn resolve_opt_bound(b: &Option<BoundLiteral>) -> (r: (Option<ExactValue>, Option<Diagnostic>))
    requires
        bound_wf(*b),
    ensures
        opt_pair(r.0) == opt_bound_rule(*b).0,
        opt_diag(r.1) == opt_bound_rule(*b).1,
        opt_message(r.1) == bound_messages(*b),
        r.0 matches Some(v) ==> v.wf(),
{
    match b {
        Some(l) => resolve_range_bound(l),
        None => (None, None),
    }
}

fn push_opt(out: &mut Vec<Diagnostic>, d: Option<Diagnostic>)
    ensures
        diags_view(final(out)@) == diags_view(old(out)@) + opt_diag(d),
        diag_messages(final(out)@) == diag_messages(old(out)@) + opt_message(d),
{
    let ghost before = diags_view(out@);
    let ghost before_messages = diag_messages(out@);
    match d {
        Some(x) => {
            let ghost v = crate::diag::diag_view(x);
            let ghost m = x.message@;
            out.push(x);
            assert(diags_view(out@) =~= before + seq![v]);
            assert(diag_messages(out@) =~= before_messages + seq![m]);
        },
        None => {
            assert(diags_view(out@) =~= before + Seq::<SDiag>::empty());
            assert(diag_messages(out@) =~= before_messages + Seq::<Seq<char>>::empty());
        },
    }
}

/// The decimal text of a resolved value.
pub open spec fn opt_decimal(v: Option<(int, int)>) -> Option<Seq<char>> {
    match v {
        Some(p) => Some(decimal_text(p.0, p.1)),
        None => None,
    }
}

pub open spec fn opt_text(s: Option<String>) -> Option<Seq<char>> {
    match s {
        Some(t) => Some(t@),
        None => None,
    }
}

fn decimal_of(v: &Option<ExactValue>) -> (r: Option<String>)
    requires
        v matches Some(x) ==> x.wf(),
    ensures
        opt_text(r) == opt_decimal(opt_pair(*v)),
{
    match v {
        Some(x) => Some(x.to_decimal_string()),
        None => None,
    }
}

/// What the storage width of a numeric scalar is derived from.
#[derive(Debug, PartialEq, Eq)]
pub enum WidthBasis {
    /// No width: a written bound or step did not resolve, or an integer
    /// range leaves the `int64` domain.
    Deferred,
    /// `int64`: an integer without a range.
    Int64,
    /// `float64`: a float without a constraint or with an open bound.
    Float64,
    /// The exact range, and for a float its step, that the width is derived
    /// from.
    Range { min: ExactValue, max: ExactValue, step: Option<ExactValue> },
}

/// The model of a [`WidthBasis`].
pub enum SWidth {
    Deferred,
    Int64,
    Float64,
    Range((int, int), (int, int), Option<(int, int)>),
}

pub open spec fn width_view(w: WidthBasis) -> SWidth {
    match w {
        WidthBasis::Deferred => SWidth::Deferred,
        WidthBasis::Int64 => SWidth::Int64,
        WidthBasis::Float64 => SWidth::Float64,
        WidthBasis::Range { min, max, step } => SWidth::Range(min.pair(), max.pair(), opt_pair(step)),
    }
}

pub open spec fn width_wf(w: WidthBasis) -> bool {
    w matches WidthBasis::Range { min, max, step } ==> min.wf() && max.wf() && (step matches Some(s) ==> s.wf())
}

/// A storage width.
#[derive(Debug, Clone, Copy, PartialEq, Eq, Structural)]
pub enum Width {
    U8,
    I8,
    U16,
    I16,
    U32,
    I32,
    U64,
    I64,
    F32,
    F64,
}

pub open spec fn rat_le(a: (int, int), b: (int, int)) -> bool {
    !rat_lt(b, a)
}

/// The smallest integer width that holds every value of `[lo, hi]`:
/// unsigned when the minimum is not negative, signed otherwise.
pub open spec fn int_width_rule(lo: (int, int), hi: (int, int)) -> Width {
    if rat_le((0, 1), lo) {
        if rat_le(hi, (0xff, 1)) {
            Width::U8
        } else if rat_le(hi, (0xffff, 1)) {
            Width::U16
        } else if rat_le(hi, (0xffff_ffff, 1)) {
            Width::U32
        } else {
            Width::U64
        }
    } else if rat_le((-0x80, 1), lo) && rat_le(hi, (0x7f, 1)) {
        Width::I8
    } else if rat_le((-0x8000, 1), lo) && rat_le(hi, (0x7fff, 1)) {
        Width::I16
    } else if rat_le((-0x8000_0000, 1), lo) && rat_le(hi, (0x7fff_ffff, 1)) {
        Width::I32
    } else {
        Width::I64
    }
}

/// The storage width of an integer: none when deferred; `int64` without a
/// range; otherwise the smallest width holding the range
/// ([`int_width_rule`]).
pub open spec fn integer_storage(w: SWidth) -> Option<Width> {
    match w {
        SWidth::Deferred => None,
        SWidth::Int64 => Some(Width::I64),
        SWidth::Float64 => Some(Width::F64),
        SWidth::Range(lo, hi, _) => Some(int_width_rule(lo, hi)),
    }
}

/// `2^n`.
pub open spec fn two_to(n: nat) -> int
    decreases n,
{
    if n == 0 {
        1
    } else {
        2 * two_to((n - 1) as nat)
    }
}

/// `m` with every factor of two divided out (zero stays zero).
pub open spec fn odd_part(m: int) -> int
    decreases abs(m),
{
    if m != 0 && m % 2 == 0 {
        odd_part(m / 2)
    } else {
        m
    }
}

/// Whether `x` is a finite IEEE 754 binary32 value: a multiple of
/// `2^-149` whose odd part has at most 24 bits, below `2^128` in magnitude.
pub open spec fn binary32_value(x: (int, int)) -> bool {
    let scaled = rat_mul(x, (two_to(149), 1));
    &&& scaled.1 == 1
    &&& abs(odd_part(scaled.0)) < two_to(24)
    &&& rat_lt((-two_to(128), 1), x)
    &&& rat_lt(x, (two_to(128), 1))
}

/// The storage width of a float over `[lo, hi]`, counted by its values:
/// `float32` when a positive `step` puts at most `2^24` values on the range
/// (`hi - lo < 2^24 · step`, the significand of a binary32) and both bounds
/// are binary32 values ([`binary32_value`]); `float64` otherwise, and
/// always without a step.
pub open spec fn float_width_rule(lo: (int, int), hi: (int, int), step: Option<(int, int)>) -> Width {
    match step {
        Some(s) => if rat_lt((0, 1), s) && rat_lt(rat_sub(hi, lo), rat_mul(s, (two_to(24), 1)))
            && binary32_value(lo) && binary32_value(hi) {
            Width::F32
        } else {
            Width::F64
        },
        None => Width::F64,
    }
}

/// The storage width of a float: none when deferred; over both bounds the
/// count-based width ([`float_width_rule`]); `float64` otherwise.
pub open spec fn float_storage(w: SWidth) -> Option<Width> {
    match w {
        SWidth::Deferred => None,
        SWidth::Range(lo, hi, step) => Some(float_width_rule(lo, hi, step)),
        _ => Some(Width::F64),
    }
}

proof fn lemma_reduce_by_one(n: int)
    ensures
        reduce(n, 1) == (n, 1int),
{
    assert(abs(n) % 1 == 0);
    assert(gcd(1, 0) == 1);
    assert(gcd(abs(n), 1) == gcd(1, abs(n) % 1));
    assert(abs(1) == 1);
    assert(n / 1 == n);
}

/// `2^n` as an exact value.
fn power_of_two(n: u32) -> (r: ExactValue)
    ensures
        r.wf(),
        r.pair() == (two_to(n as nat), 1int),
{
    let two = ExactValue::from_i64(2);
    let mut p = ExactValue::from_i64(1);
    let mut i: u32 = 0;
    while i < n
        invariant
            i <= n,
            two.wf(),
            two.pair() == (2int, 1int),
            p.wf(),
            p.pair() == (two_to(i as nat), 1int),
        decreases n - i,
    {
        let ghost a = two_to(i as nat);
        proof {
            lemma_reduce_by_one(a * 2);
        }
        p = p.mul(&two);
        assert(p.pair() == reduce(a * 2, 1int * 1int));
        i = i + 1;
        assert(two_to(i as nat) == 2 * two_to((i - 1) as nat));
    }
    p
}

proof fn lemma_halving(n: int)
    ensures
        trem(n, 2) == 0 <==> n % 2 == 0,
        n % 2 == 0 ==> tdiv(n, 2) == n / 2,
        n % 2 == 0 && n != 0 ==> abs(n / 2) < abs(n),
{
    assert(abs(2) == 2);
    if n >= 0 {
        assert(abs(n) == n);
        assert(tdiv(n, 2) == n / 2);
        assert(trem(n, 2) == n % 2);
    } else {
        let m = -n;
        assert(abs(n) == m);
        assert(tdiv(n, 2) == -(m / 2));
        assert(trem(n, 2) == -(m % 2));
        assert(m % 2 == 0 <==> n % 2 == 0);
        if n % 2 == 0 {
            assert(n / 2 == -(m / 2));
        }
    }
}

/// The odd part of an integer ([`odd_part`]).
fn odd_part_of(m: &ExactValue) -> (r: ExactValue)
    requires
        m.wf(),
        m.denom() == 1,
    ensures
        r.wf(),
        r.pair() == (odd_part(m.numer()), 1int),
{
    let two = ExactValue::from_i64(2);
    let mut v = m.copy();
    loop
        invariant
            two.wf(),
            two.pair() == (2int, 1int),
            v.wf(),
            v.denom() == 1,
            odd_part(v.numer()) == odd_part(m.numer()),
        decreases abs(v.numer()),
    {
        proof {
            lemma_halving(v.numer());
        }
        if v.is_zero() {
            return v;
        }
        let rest = v.integer_trem(&two);
        if !rest.is_zero() {
            return v;
        }
        v = v.integer_tdiv(&two);
    }
}

/// Whether `x` is a binary32 value ([`binary32_value`]).
pub fn is_binary32(x: &ExactValue) -> (r: bool)
    requires
        x.wf(),
    ensures
        r == binary32_value(x.pair()),
{
    let scale = power_of_two(149);
    let scaled = x.mul(&scale);
    if !scaled.is_integer() {
        return false;
    }
    let odd = odd_part_of(&scaled);
    let limit = power_of_two(24);
    let fits = limit.neg().lt(&odd) && odd.lt(&limit);
    let edge = power_of_two(128);
    fits && edge.neg().lt(x) && x.lt(&edge)
}

/// The count-based storage width of a float over `[lo, hi]`
/// ([`float_width_rule`]).
pub fn float_width(lo: &ExactValue, hi: &ExactValue, step: &Option<ExactValue>) -> (r: Width)
    requires
        lo.wf(),
        hi.wf(),
        step matches Some(s) ==> s.wf(),
    ensures
        r == float_width_rule(lo.pair(), hi.pair(), opt_pair(*step)),
{
    match step {
        Some(s) => {
            let zero = ExactValue::zero();
            let span = hi.sub(lo);
            let room = s.mul(&power_of_two(24));
            if zero.lt(s) && span.lt(&room) && is_binary32(lo) && is_binary32(hi) {
                Width::F32
            } else {
                Width::F64
            }
        },
        None => Width::F64,
    }
}

/// The storage width of an enum set whose highest bit is `high`: the
/// smallest unsigned width with that many bits.
pub open spec fn enumset_width_rule(high: nat) -> Width {
    if high <= 7 {
        Width::U8
    } else if high <= 15 {
        Width::U16
    } else if high <= 31 {
        Width::U32
    } else {
        Width::U64
    }
}

fn below(v: &ExactValue, bound: i64) -> (r: bool)
    requires
        v.wf(),
    ensures
        r == rat_le(v.pair(), (bound as int, 1)),
{
    let b = ExactValue::from_i64(bound);
    !b.lt(v)
}

fn above(v: &ExactValue, bound: i64) -> (r: bool)
    requires
        v.wf(),
    ensures
        r == rat_le((bound as int, 1), v.pair()),
{
    let b = ExactValue::from_i64(bound);
    !v.lt(&b)
}

/// The smallest integer width holding `[lo, hi]` ([`int_width_rule`]).
pub fn int_width(lo: &ExactValue, hi: &ExactValue) -> (r: Width)
    requires
        lo.wf(),
        hi.wf(),
    ensures
        r == int_width_rule(lo.pair(), hi.pair()),
{
    if above(lo, 0) {
        if below(hi, 0xff) {
            Width::U8
        } else if below(hi, 0xffff) {
            Width::U16
        } else if below(hi, 0xffff_ffff) {
            Width::U32
        } else {
            Width::U64
        }
    } else if above(lo, -0x80) && below(hi, 0x7f) {
        Width::I8
    } else if above(lo, -0x8000) && below(hi, 0x7fff) {
        Width::I16
    } else if above(lo, -0x8000_0000) && below(hi, 0x7fff_ffff) {
        Width::I32
    } else {
        Width::I64
    }
}

/// A lowered numeric scalar: its constraint and exact bounds, its exact
/// step (a float's only), what its width is derived from, and the storage
/// width where the scalar's own rule fixes it.
#[derive(Debug, PartialEq, Eq)]
pub struct NumericScalar {
    pub parts: ScalarParts,
    pub step: Option<ExactValue>,
    pub width: WidthBasis,
    pub storage: Option<Width>,
}

/// Whether an exact value lies in the `int64` domain `[-2^63..2^63-1]`.
pub open spec fn in_int64(v: (int, int)) -> bool {
    !rat_lt(v, (i64::MIN as int, 1int)) && !rat_lt((i64::MAX as int, 1int), v)
}

/// The lowering of an `integer` scalar: its resolved bounds, what its width
/// is derived from, and its diagnostics, in order. Without a constraint:
/// TYPL-101 and `int64`. With one: the bounds' own diagnostics, TYPL-105
/// for a written `step`, TYPL-104 when the minimum exceeds the maximum;
/// an omitted bound takes the `int64` edge of its side; a written bound that
/// did not resolve defers the width, and an effective range leaving the
/// `int64` domain draws TYPL-111 and has no width.
pub open spec fn integer_scalar_rule(c: Option<RangeConstraint>, decl_span: TextRange) -> (
    Option<(int, int)>,
    Option<(int, int)>,
    SWidth,
    Seq<SDiag>,
) {
    match c {
        None => (None, None, SWidth::Int64, seq![(DiagCode::TYPL_101, Severity::Warning, DETACHED, decl_span)]),
        Some(k) => {
            let (min, dmin) = opt_bound_rule(k.min);
            let (max, dmax) = opt_bound_rule(k.max);
            let unresolved = (k.min is Some && min is None) || (k.max is Some && max is None);
            let dstep = match k.step {
                Some(s) => seq![(DiagCode::TYPL_105, Severity::Error, DETACHED, s.range)],
                None => Seq::empty(),
            };
            let d104 = match (min, max) {
                (Some(a), Some(b)) => if rat_lt(b, a) {
                    seq![(DiagCode::TYPL_104, Severity::Error, DETACHED, k.range)]
                } else {
                    Seq::empty()
                },
                _ => Seq::empty(),
            };
            let lo = match min {
                Some(a) => a,
                None => (i64::MIN as int, 1int),
            };
            let hi = match max {
                Some(b) => b,
                None => (i64::MAX as int, 1int),
            };
            let fits = in_int64(lo) && in_int64(hi);
            let width = if unresolved {
                SWidth::Deferred
            } else if fits {
                SWidth::Range(lo, hi, None)
            } else {
                SWidth::Deferred
            };
            let d111 = if !unresolved && !fits {
                seq![(DiagCode::TYPL_111, Severity::Error, DETACHED, k.range)]
            } else {
                Seq::empty()
            };
            (min, max, width, dmin + dmax + dstep + d104 + d111)
        },
    }
}

pub open spec fn range_inverted_text(min: (int, int), max: (int, int)) -> Seq<char> {
    "range minimum "@ + decimal_text(min.0, min.1) + " is greater than maximum "@ + decimal_text(max.0, max.1)
}

/// The messages of [`integer_scalar_rule`]'s diagnostics, in the same order.
pub open spec fn integer_scalar_messages(c: Option<RangeConstraint>) -> Seq<Seq<char>> {
    match c {
        None => seq!["`integer` without a range constraint"@],
        Some(k) => {
            let (min, _) = opt_bound_rule(k.min);
            let (max, _) = opt_bound_rule(k.max);
            let unresolved = (k.min is Some && min is None) || (k.max is Some && max is None);
            let mstep = if k.step is Some {
                seq!["`step` is not valid on an `integer` type"@]
            } else {
                Seq::empty()
            };
            let m104 = match (min, max) {
                (Some(a), Some(b)) => if rat_lt(b, a) {
                    seq![range_inverted_text(a, b)]
                } else {
                    Seq::empty()
                },
                _ => Seq::empty(),
            };
            let lo = match min {
                Some(a) => a,
                None => (i64::MIN as int, 1int),
            };
            let hi = match max {
                Some(b) => b,
                None => (i64::MAX as int, 1int),
            };
            let m111 = if !unresolved && !(in_int64(lo) && in_int64(hi)) {
                seq!["integer range bound outside the `int64` domain `[-2^63..2^63-1]`"@]
            } else {
                Seq::empty()
            };
            bound_messages(k.min) + bound_messages(k.max) + mstep + m104 + m111
        },
    }
}

fn range_inverted_message(min: &ExactValue, max: &ExactValue) -> (r: String)
    requires
        min.wf(),
        max.wf(),
    ensures
        r@ == "range minimum "@ + decimal_text(min.numer(), min.denom()) + " is greater than maximum "@
            + decimal_text(max.numer(), max.denom()),
{
    let mut message = String::from_str("range minimum ");
    message.append(min.to_decimal_string().as_str());
    message.append(" is greater than maximum ");
    message.append(max.to_decimal_string().as_str());
    message
}

/// Lowers an `integer` scalar ([`integer_scalar_rule`]): the constraint
/// keeps the decimal text of each resolved bound.
pub fn lower_integer_scalar(constraint: Option<&RangeConstraint>, decl_span: TextRange) -> (r: (
    NumericScalar,
    Vec<Diagnostic>,
))
    requires
        range_constraint_wf(unref(constraint)),
    ensures
        ({
            let rule = integer_scalar_rule(unref(constraint), decl_span);
            &&& opt_pair(r.0.parts.min) == rule.0
            &&& opt_pair(r.0.parts.max) == rule.1
            &&& width_view(r.0.width) == rule.2
            &&& r.0.storage == integer_storage(rule.2)
            &&& diags_view(r.1@) == rule.3
            &&& diag_messages(r.1@) == integer_scalar_messages(unref(constraint))
            &&& match r.0.parts.constraint {
                None => constraint is None,
                Some(k) => constraint is Some && opt_text(k.min) == opt_decimal(rule.0) && opt_text(k.max)
                    == opt_decimal(rule.1) && k.step is None && k.len_min is None && k.len_max is None
                    && k.pattern is None && k.pattern_const is None,
            }
        }),
        r.0.parts.wf(),
        r.0.step is None,
        width_wf(r.0.width),
{
    let mut out: Vec<Diagnostic> = Vec::new();
    match constraint {
        None => {
            push_at(
                &mut out,
                DiagCode::TYPL_101,
                Severity::Warning,
                decl_span,
                String::from_str("`integer` without a range constraint"),
            );
            assert(diags_view(out@) =~= seq![(DiagCode::TYPL_101, Severity::Warning, DETACHED, decl_span)]);
            assert(diag_messages(out@) =~= integer_scalar_messages(unref(constraint)));
            let parts = ScalarParts { constraint: None, min: None, max: None };
            (NumericScalar { parts, step: None, width: WidthBasis::Int64, storage: Some(Width::I64) }, out)
        },
        Some(c) => {
            let ghost k = *c;
            assert(diag_messages(out@) =~= Seq::<Seq<char>>::empty());
            let (min, dmin) = resolve_opt_bound(&c.min);
            push_opt(&mut out, dmin);
            let (max, dmax) = resolve_opt_bound(&c.max);
            push_opt(&mut out, dmax);
            assert(diag_messages(out@) =~= bound_messages(k.min) + bound_messages(k.max));
            let unresolved = (c.min.is_some() && min.is_none()) || (c.max.is_some() && max.is_none());
            if let Some(s) = &c.step {
                push_at(
                    &mut out,
                    DiagCode::TYPL_105,
                    Severity::Error,
                    s.range,
                    String::from_str("`step` is not valid on an `integer` type"),
                );
            }
            let ghost rule = integer_scalar_rule(unref(constraint), decl_span);
            let ghost dstep = match k.step {
                Some(s) => seq![(DiagCode::TYPL_105, Severity::Error, DETACHED, s.range)],
                None => Seq::<SDiag>::empty(),
            };
            let ghost d104 = match (opt_pair(min), opt_pair(max)) {
                (Some(a), Some(b)) => if rat_lt(b, a) {
                    seq![(DiagCode::TYPL_104, Severity::Error, DETACHED, k.range)]
                } else {
                    Seq::<SDiag>::empty()
                },
                _ => Seq::<SDiag>::empty(),
            };
            assert(diags_view(out@) =~= opt_bound_rule(k.min).1 + opt_bound_rule(k.max).1 + dstep);
            let ghost mstep = if k.step is Some {
                seq!["`step` is not valid on an `integer` type"@]
            } else {
                Seq::<Seq<char>>::empty()
            };
            let ghost m104 = match (opt_pair(min), opt_pair(max)) {
                (Some(a), Some(b)) => if rat_lt(b, a) {
                    seq![range_inverted_text(a, b)]
                } else {
                    Seq::<Seq<char>>::empty()
                },
                _ => Seq::<Seq<char>>::empty(),
            };
            assert(diag_messages(out@) =~= bound_messages(k.min) + bound_messages(k.max) + mstep);
            if let (Some(a), Some(b)) = (&min, &max) {
                if b.lt(a) {
                    push_at(&mut out, DiagCode::TYPL_104, Severity::Error, c.range, range_inverted_message(a, b));
                }
            }
            assert(diags_view(out@) =~= opt_bound_rule(k.min).1 + opt_bound_rule(k.max).1 + dstep + d104);
            assert(diag_messages(out@) =~= bound_messages(k.min) + bound_messages(k.max) + mstep + m104);
            let ghost before_111 = diags_view(out@);
            let ghost before_111_messages = diag_messages(out@);
            let width = if unresolved {
                WidthBasis::Deferred
            } else {
                let lo = match &min {
                    Some(a) => a.copy(),
                    None => crate::check::int64_edge(false),
                };
                let hi = match &max {
                    Some(b) => b.copy(),
                    None => crate::check::int64_edge(true),
                };
                let floor = crate::check::int64_edge(false);
                let ceiling = crate::check::int64_edge(true);
                let outside = lo.lt(&floor) || ceiling.lt(&lo) || hi.lt(&floor) || ceiling.lt(&hi);
                if outside {
                    push_at(
                        &mut out,
                        DiagCode::TYPL_111,
                        Severity::Error,
                        c.range,
                        String::from_str("integer range bound outside the `int64` domain `[-2^63..2^63-1]`"),
                    );
                    assert(diags_view(out@) =~= before_111 + seq![(DiagCode::TYPL_111, Severity::Error, DETACHED, k.range)]);
                    assert(diag_messages(out@) =~= before_111_messages + seq![
                        "integer range bound outside the `int64` domain `[-2^63..2^63-1]`"@,
                    ]);
                    WidthBasis::Deferred
                } else {
                    assert(diags_view(out@) =~= before_111 + Seq::<SDiag>::empty());
                    assert(diag_messages(out@) =~= before_111_messages + Seq::<Seq<char>>::empty());
                    WidthBasis::Range { min: lo, max: hi, step: None }
                }
            };
            let storage = match &width {
                WidthBasis::Range { min: lo, max: hi, .. } => Some(int_width(lo, hi)),
                _ => None,
            };
            assert(diags_view(out@) =~= rule.3);
            assert(diag_messages(out@) =~= integer_scalar_messages(unref(constraint)));
            let cons = Constraint {
                min: decimal_of(&min),
                max: decimal_of(&max),
                step: None,
                len_min: None,
                len_max: None,
                pattern: None,
                pattern_const: None,
            };
            let parts = ScalarParts { constraint: Some(cons), min, max };
            (NumericScalar { parts, step: None, width, storage }, out)
        },
    }
}

/// The lowering of a `float` scalar: its resolved bounds and step, what its
/// width is derived from, and its diagnostics, in order. Without a
/// constraint: TYPL-102 and `float64`. With one: the diagnostics of the
/// minimum, the maximum and the step; TYPL-105 for a step spelled as an
/// integer; TYPL-104 when the minimum exceeds the maximum; TYPL-105 for a
/// step that is not positive or, with both bounds, larger than the range;
/// TYPL-102 unless the minimum, the maximum and the step are all written.
/// A written part that did not resolve defers the width; both bounds give
/// the range the width is derived from; otherwise `float64`.
pub open spec fn float_scalar_rule(c: Option<RangeConstraint>, decl_span: TextRange) -> (
    Option<(int, int)>,
    Option<(int, int)>,
    Option<(int, int)>,
    SWidth,
    Seq<SDiag>,
) {
    let d102 = seq![(DiagCode::TYPL_102, Severity::Warning, DETACHED, decl_span)];
    match c {
        None => (None, None, None, SWidth::Float64, d102),
        Some(k) => {
            let (min, dmin) = opt_bound_rule(k.min);
            let (max, dmax) = opt_bound_rule(k.max);
            let (step, dstep) = opt_bound_rule(k.step);
            let unresolved = (k.min is Some && min is None) || (k.max is Some && max is None) || (
            k.step is Some && step is None);
            let step_range = match k.step {
                Some(s) => s.range,
                None => k.range,
            };
            let dint = match k.step {
                Some(s) => if s.int_form {
                    seq![(DiagCode::TYPL_105, Severity::Error, DETACHED, s.range)]
                } else {
                    Seq::empty()
                },
                None => Seq::empty(),
            };
            let d104 = match (min, max) {
                (Some(a), Some(b)) => if rat_lt(b, a) {
                    seq![(DiagCode::TYPL_104, Severity::Error, DETACHED, k.range)]
                } else {
                    Seq::empty()
                },
                _ => Seq::empty(),
            };
            let bad_step = match (min, max, step) {
                (Some(a), Some(b), Some(s)) => !rat_lt((0int, 1int), s) || rat_lt(rat_sub(b, a), s),
                (_, _, Some(s)) => !rat_lt((0int, 1int), s),
                _ => false,
            };
            let dbad = if bad_step {
                seq![(DiagCode::TYPL_105, Severity::Error, DETACHED, step_range)]
            } else {
                Seq::empty()
            };
            let dmissing = if k.min is None || k.max is None || k.step is None {
                d102
            } else {
                Seq::empty()
            };
            let width = if unresolved {
                SWidth::Deferred
            } else if min is Some && max is Some {
                SWidth::Range(min->0, max->0, step)
            } else {
                SWidth::Float64
            };
            (min, max, step, width, dmin + dmax + dstep + dint + d104 + dbad + dmissing)
        },
    }
}

/// The messages of [`float_scalar_rule`]'s diagnostics, in the same order.
pub open spec fn float_scalar_messages(c: Option<RangeConstraint>) -> Seq<Seq<char>> {
    let m102 = seq!["`float` without both a range and a `step`"@];
    match c {
        None => m102,
        Some(k) => {
            let (min, _) = opt_bound_rule(k.min);
            let (max, _) = opt_bound_rule(k.max);
            let (step, _) = opt_bound_rule(k.step);
            let mint = match k.step {
                Some(s) => if s.int_form {
                    seq!["integer-form `step` on a `float` type (write `1.0`, not `1`)"@]
                } else {
                    Seq::empty()
                },
                None => Seq::empty(),
            };
            let m104 = match (min, max) {
                (Some(a), Some(b)) => if rat_lt(b, a) {
                    seq![range_inverted_text(a, b)]
                } else {
                    Seq::empty()
                },
                _ => Seq::empty(),
            };
            let mbad = match step {
                Some(s) => if !rat_lt((0int, 1int), s) {
                    seq!["`step` must be positive"@]
                } else if (min matches Some(a) && max matches Some(b) && rat_lt(rat_sub(b, a), s)) {
                    seq!["`step` is larger than the range"@]
                } else {
                    Seq::empty()
                },
                None => Seq::empty(),
            };
            let mmissing = if k.min is None || k.max is None || k.step is None {
                m102
            } else {
                Seq::empty()
            };
            bound_messages(k.min) + bound_messages(k.max) + bound_messages(k.step) + mint + m104 + mbad
                + mmissing
        },
    }
}

fn step_message(positive: bool) -> (r: String)
    ensures
        r@ == if positive {
            "`step` is larger than the range"@
        } else {
            "`step` must be positive"@
        },
{
    if positive {
        String::from_str("`step` is larger than the range")
    } else {
        String::from_str("`step` must be positive")
    }
}

/// Lowers a `float` scalar ([`float_scalar_rule`]): the constraint keeps
/// the decimal text of each resolved bound and of the step.
#[verifier::rlimit(60)]
pub fn lower_float_scalar(constraint: Option<&RangeConstraint>, decl_span: TextRange) -> (r: (
    NumericScalar,
    Vec<Diagnostic>,
))
    requires
        range_constraint_wf(unref(constraint)),
    ensures
        ({
            let rule = float_scalar_rule(unref(constraint), decl_span);
            &&& opt_pair(r.0.parts.min) == rule.0
            &&& opt_pair(r.0.parts.max) == rule.1
            &&& opt_pair(r.0.step) == rule.2
            &&& width_view(r.0.width) == rule.3
            &&& r.0.storage == float_storage(rule.3)
            &&& diags_view(r.1@) == rule.4
            &&& diag_messages(r.1@) == float_scalar_messages(unref(constraint))
            &&& match r.0.parts.constraint {
                None => constraint is None,
                Some(k) => constraint is Some && opt_text(k.min) == opt_decimal(rule.0) && opt_text(k.max)
                    == opt_decimal(rule.1) && opt_text(k.step) == opt_decimal(rule.2) && k.len_min is None
                    && k.len_max is None && k.pattern is None && k.pattern_const is None,
            }
        }),
        r.0.parts.wf(),
        r.0.step matches Some(s) ==> s.wf(),
        width_wf(r.0.width),
{
    let mut out: Vec<Diagnostic> = Vec::new();
    let warning = String::from_str("`float` without both a range and a `step`");
    match constraint {
        None => {
            push_at(&mut out, DiagCode::TYPL_102, Severity::Warning, decl_span, warning);
            assert(diags_view(out@) =~= seq![(DiagCode::TYPL_102, Severity::Warning, DETACHED, decl_span)]);
            assert(diag_messages(out@) =~= float_scalar_messages(unref(constraint)));
            let parts = ScalarParts { constraint: None, min: None, max: None };
            (NumericScalar { parts, step: None, width: WidthBasis::Float64, storage: Some(Width::F64) }, out)
        },
        Some(c) => {
            let ghost k = *c;
            let ghost rule = float_scalar_rule(unref(constraint), decl_span);
            assert(diag_messages(out@) =~= Seq::<Seq<char>>::empty());
            let (min, dmin) = resolve_opt_bound(&c.min);
            push_opt(&mut out, dmin);
            let (max, dmax) = resolve_opt_bound(&c.max);
            push_opt(&mut out, dmax);
            let (step, dstep) = resolve_opt_bound(&c.step);
            push_opt(&mut out, dstep);
            let ghost resolved = opt_bound_rule(k.min).1 + opt_bound_rule(k.max).1 + opt_bound_rule(k.step).1;
            assert(diags_view(out@) =~= resolved);
            let ghost resolved_messages = bound_messages(k.min) + bound_messages(k.max) + bound_messages(k.step);
            assert(diag_messages(out@) =~= resolved_messages);
            let unresolved = (c.min.is_some() && min.is_none()) || (c.max.is_some() && max.is_none()) || (
            c.step.is_some() && step.is_none());
            let step_range = match &c.step {
                Some(s) => s.range,
                None => c.range,
            };
            if let Some(s) = &c.step {
                if s.int_form {
                    push_at(
                        &mut out,
                        DiagCode::TYPL_105,
                        Severity::Error,
                        s.range,
                        String::from_str("integer-form `step` on a `float` type (write `1.0`, not `1`)"),
                    );
                }
            }
            let ghost dint = match k.step {
                Some(s) => if s.int_form {
                    seq![(DiagCode::TYPL_105, Severity::Error, DETACHED, s.range)]
                } else {
                    Seq::<SDiag>::empty()
                },
                None => Seq::<SDiag>::empty(),
            };
            assert(diags_view(out@) =~= resolved + dint);
            let ghost mint = match k.step {
                Some(s) => if s.int_form {
                    seq!["integer-form `step` on a `float` type (write `1.0`, not `1`)"@]
                } else {
                    Seq::<Seq<char>>::empty()
                },
                None => Seq::<Seq<char>>::empty(),
            };
            assert(diag_messages(out@) =~= resolved_messages + mint);
            let ghost m104 = match (opt_pair(min), opt_pair(max)) {
                (Some(a), Some(b)) => if rat_lt(b, a) {
                    seq![range_inverted_text(a, b)]
                } else {
                    Seq::<Seq<char>>::empty()
                },
                _ => Seq::<Seq<char>>::empty(),
            };
            let ghost d104 = match (opt_pair(min), opt_pair(max)) {
                (Some(a), Some(b)) => if rat_lt(b, a) {
                    seq![(DiagCode::TYPL_104, Severity::Error, DETACHED, k.range)]
                } else {
                    Seq::<SDiag>::empty()
                },
                _ => Seq::<SDiag>::empty(),
            };
            if let (Some(a), Some(b)) = (&min, &max) {
                if b.lt(a) {
                    push_at(&mut out, DiagCode::TYPL_104, Severity::Error, c.range, range_inverted_message(a, b));
                }
            }
            assert(diags_view(out@) =~= resolved + dint + d104);
            assert(diag_messages(out@) =~= resolved_messages + mint + m104);
            let ghost before_step = diags_view(out@);
            let ghost before_step_messages = diag_messages(out@);
            if let Some(s) = &step {
                let zero = ExactValue::zero();
                let positive = zero.lt(s);
                let bad = match (&min, &max) {
                    (Some(a), Some(b)) => {
                        let span = b.sub(a);
                        !positive || span.lt(s)
                    },
                    _ => !positive,
                };
                if bad {
                    push_at(&mut out, DiagCode::TYPL_105, Severity::Error, step_range, step_message(positive));
                }
            }
            let ghost bad_step = match (opt_pair(min), opt_pair(max), opt_pair(step)) {
                (Some(a), Some(b), Some(s)) => !rat_lt((0int, 1int), s) || rat_lt(rat_sub(b, a), s),
                (_, _, Some(s)) => !rat_lt((0int, 1int), s),
                _ => false,
            };
            assert(diags_view(out@) =~= before_step + (if bad_step {
                seq![(DiagCode::TYPL_105, Severity::Error, DETACHED, step_range)]
            } else {
                Seq::<SDiag>::empty()
            }));
            let ghost mbad = match opt_pair(step) {
                Some(s) => if !rat_lt((0int, 1int), s) {
                    seq!["`step` must be positive"@]
                } else if (opt_pair(min) matches Some(a) && opt_pair(max) matches Some(b) && rat_lt(
                    rat_sub(b, a),
                    s,
                )) {
                    seq!["`step` is larger than the range"@]
                } else {
                    Seq::<Seq<char>>::empty()
                },
                None => Seq::<Seq<char>>::empty(),
            };
            assert(diag_messages(out@) =~= before_step_messages + mbad);
            let ghost before_missing = diags_view(out@);
            let ghost before_missing_messages = diag_messages(out@);
            if c.min.is_none() || c.max.is_none() || c.step.is_none() {
                push_at(&mut out, DiagCode::TYPL_102, Severity::Warning, decl_span, warning);
            }
            assert(diags_view(out@) =~= before_missing + (if k.min is None || k.max is None || k.step is None {
                seq![(DiagCode::TYPL_102, Severity::Warning, DETACHED, decl_span)]
            } else {
                Seq::<SDiag>::empty()
            }));
            assert(diags_view(out@) =~= rule.4);
            assert(diag_messages(out@) =~= before_missing_messages + (if k.min is None || k.max is None
                || k.step is None {
                seq!["`float` without both a range and a `step`"@]
            } else {
                Seq::<Seq<char>>::empty()
            }));
            assert(diag_messages(out@) =~= float_scalar_messages(unref(constraint)));
            let width = if unresolved {
                WidthBasis::Deferred
            } else {
                match (&min, &max) {
                    (Some(a), Some(b)) => {
                        let s = match &step {
                            Some(x) => Some(x.copy()),
                            None => None,
                        };
                        WidthBasis::Range { min: a.copy(), max: b.copy(), step: s }
                    },
                    _ => WidthBasis::Float64,
                }
            };
            let storage = match &width {
                WidthBasis::Deferred => None,
                WidthBasis::Range { min: lo, max: hi, step: s } => Some(float_width(lo, hi, s)),
                _ => Some(Width::F64),
            };
            let cons = Constraint {
                min: decimal_of(&min),
                max: decimal_of(&max),
                step: decimal_of(&step),
                len_min: None,
                len_max: None,
                pattern: None,
                pattern_const: None,
            };
            let parts = ScalarParts { constraint: Some(cons), min, max };
            (NumericScalar { parts, step, width, storage }, out)
        },
    }
}

// ==========================================================================
// Scalar dispatch and type definitions
// ==========================================================================

/// A scalar constraint as written: its numeric part (range and step), its
/// length bound, and its `match` pattern.
#[derive(Debug, PartialEq, Eq)]
pub struct ScalarConstraint {
    pub numeric: RangeConstraint,
    pub len: Option<crate::check::LenBound>,
    pub pattern: Option<PatternLiteral>,
}

pub open spec fn scalar_constraint_wf(c: Option<ScalarConstraint>) -> bool {
    c matches Some(k) ==> range_constraint_wf(Some(k.numeric))
}

pub open spec fn numeric_part(c: Option<ScalarConstraint>) -> Option<RangeConstraint> {
    match c {
        Some(k) => Some(k.numeric),
        None => None,
    }
}

pub open spec fn len_part(c: Option<ScalarConstraint>) -> Option<crate::check::LenBound> {
    match c {
        Some(k) => k.len,
        None => None,
    }
}

pub open spec fn pattern_part(c: Option<ScalarConstraint>) -> Option<PatternLiteral> {
    match c {
        Some(k) => k.pattern,
        None => None,
    }
}

/// What lowering a scalar of `class` gives: an integer by
/// [`integer_scalar_rule`], a float by [`float_scalar_rule`], a string or
/// bytes by the length-bound lowering ([`lower_len_scalar`]); a boolean, or
/// a scalar whose backing is unknown, has no constraint, bounds or width.
pub open spec fn scalar_lowered(class: BackingClass, c: Option<ScalarConstraint>, span: TextRange, r: NumericScalar) -> bool {
    match class {
        BackingClass::Integer => {
            let rule = integer_scalar_rule(numeric_part(c), span);
            &&& opt_pair(r.parts.min) == rule.0
            &&& opt_pair(r.parts.max) == rule.1
            &&& width_view(r.width) == rule.2
            &&& r.storage == integer_storage(rule.2)
            &&& r.step is None
            &&& match r.parts.constraint {
                None => c is None,
                Some(k) => c is Some && opt_text(k.min) == opt_decimal(rule.0) && opt_text(k.max) == opt_decimal(rule.1)
                    && k.step is None && k.len_min is None && k.len_max is None && k.pattern is None
                    && k.pattern_const is None,
            }
        },
        BackingClass::Float => {
            let rule = float_scalar_rule(numeric_part(c), span);
            &&& opt_pair(r.parts.min) == rule.0
            &&& opt_pair(r.parts.max) == rule.1
            &&& opt_pair(r.step) == rule.2
            &&& width_view(r.width) == rule.3
            &&& r.storage == float_storage(rule.3)
            &&& match r.parts.constraint {
                None => c is None,
                Some(k) => c is Some && opt_text(k.min) == opt_decimal(rule.0) && opt_text(k.max) == opt_decimal(rule.1)
                    && opt_text(k.step) == opt_decimal(rule.2) && k.len_min is None && k.len_max is None
                    && k.pattern is None && k.pattern_const is None,
            }
        },
        BackingClass::Str | BackingClass::Bytes => {
            let allow = class == BackingClass::Str;
            let p = if allow {
                pattern_rule(pattern_part(c))
            } else {
                (None, None)
            };
            &&& r.parts.constraint matches Some(k) && k.len_min == Some(crate::check::len_rule(len_part(c)).0)
                && k.len_max == Some(crate::check::len_rule(len_part(c)).1) && k.min is None && k.max is None
                && k.step is None && opt_text(k.pattern) == p.0 && opt_text(k.pattern_const) == p.1
            &&& r.parts.min is None && r.parts.max is None && r.step is None
            &&& r.width == WidthBasis::Deferred
            &&& r.storage is None
        },
        BackingClass::Boolean | BackingClass::Unknown => {
            &&& r.parts.constraint is None && r.parts.min is None && r.parts.max is None && r.step is None
            &&& r.width == WidthBasis::Deferred
            &&& r.storage is None
        },
    }
}

/// The diagnostics of lowering a scalar of `class` ([`scalar_lowered`]).
pub open spec fn scalar_diags(class: BackingClass, c: Option<ScalarConstraint>, span: TextRange) -> Seq<SDiag> {
    match class {
        BackingClass::Integer => integer_scalar_rule(numeric_part(c), span).3,
        BackingClass::Float => float_scalar_rule(numeric_part(c), span).4,
        BackingClass::Str | BackingClass::Bytes => (if len_part(c) is None {
            seq![(DiagCode::TYPL_103, Severity::Warning, DETACHED, span)]
        } else {
            Seq::empty()
        }) + pattern_diags(class == BackingClass::Str, pattern_part(c)),
        BackingClass::Boolean | BackingClass::Unknown => Seq::empty(),
    }
}

/// Lowers the constraint of a scalar of `class` standing at `span`
/// ([`scalar_lowered`]). A boolean takes no constraint syntax, and a stray
/// one is ignored.
pub fn lower_scalar(class: BackingClass, constraint: &Option<ScalarConstraint>, span: TextRange) -> (r: (
    NumericScalar,
    Vec<Diagnostic>,
))
    requires
        scalar_constraint_wf(*constraint),
    ensures
        scalar_lowered(class, *constraint, span, r.0),
        diags_view(r.1@) == scalar_diags(class, *constraint, span),
        r.0.parts.wf(),
        r.0.step matches Some(s) ==> s.wf(),
        width_wf(r.0.width),
{
    let ghost c = constraint;
    match class {
        BackingClass::Integer => {
            let numeric = match constraint {
                Some(k) => Some(&k.numeric),
                None => None,
            };
            lower_integer_scalar(numeric, span)
        },
        BackingClass::Float => {
            let numeric = match constraint {
                Some(k) => Some(&k.numeric),
                None => None,
            };
            lower_float_scalar(numeric, span)
        },
        BackingClass::Str | BackingClass::Bytes => {
            let none: Option<PatternLiteral> = None;
            let (len, pattern) = match constraint {
                Some(k) => (k.len, &k.pattern),
                None => (None, &none),
            };
            let allow = class == BackingClass::Str;
            let noun = if allow {
                "string"
            } else {
                "bytes"
            };
            let (cons, ds) = lower_len_scalar(noun, allow, len, pattern, span);
            let parts = ScalarParts { constraint: Some(cons), min: None, max: None };
            (NumericScalar { parts, step: None, width: WidthBasis::Deferred, storage: None }, ds)
        },
        BackingClass::Boolean | BackingClass::Unknown => {
            let out: Vec<Diagnostic> = Vec::new();
            assert(diags_view(out@) =~= Seq::empty());
            let parts = ScalarParts { constraint: None, min: None, max: None };
            (NumericScalar { parts, step: None, width: WidthBasis::Deferred, storage: None }, out)
        },
    }
}

/// The diagnostic a primitive written without a constraint draws in field
/// position: TYPL-208 for a bare `string` or `bytes` (define a named type);
/// the TYPL-101 and TYPL-102 warnings for a bare `integer` or `float`; none
/// for a boolean, and none at all as a map key.
pub open spec fn bare_primitive_rule(class: BackingClass, map_key: bool) -> Option<(DiagCode, Severity)> {
    if map_key {
        None
    } else {
        match class {
            BackingClass::Str | BackingClass::Bytes => Some((DiagCode::TYPL_208, Severity::Error)),
            BackingClass::Integer => Some((DiagCode::TYPL_101, Severity::Warning)),
            BackingClass::Float => Some((DiagCode::TYPL_102, Severity::Warning)),
            _ => None,
        }
    }
}

/// Checks a primitive written without a constraint at `span`
/// ([`bare_primitive_rule`]).
pub fn check_bare_primitive(class: BackingClass, span: TextRange, map_key: bool) -> (r: Option<Diagnostic>)
    ensures
        match bare_primitive_rule(class, map_key) {
            Some((code, severity)) => r matches Some(d) && d.code == code && d.severity == severity && d.range == span
                && d.file == DETACHED,
            None => r is None,
        },
{
    if map_key {
        return None;
    }
    let (code, severity, message) = match class {
        BackingClass::Str | BackingClass::Bytes => {
            let mut message = String::from_str("`");
            message.append(crate::check::primitive_noun(class));
            message.append("` must not be used directly as a field type — define a named `type`");
            (DiagCode::TYPL_208, Severity::Error, message)
        },
        BackingClass::Integer => (
            DiagCode::TYPL_101,
            Severity::Warning,
            String::from_str("`integer` without a range constraint"),
        ),
        BackingClass::Float => (
            DiagCode::TYPL_102,
            Severity::Warning,
            String::from_str("`float` without both a range and a `step`"),
        ),
        _ => {
            return None;
        },
    };
    Some(Diagnostic { code, severity, message, file: DETACHED, range: span })
}

/// The backing class of a primitive.
pub open spec fn primitive_class(p: PrimitiveType) -> BackingClass {
    match p {
        PrimitiveType::Boolean => BackingClass::Boolean,
        PrimitiveType::Integer => BackingClass::Integer,
        PrimitiveType::Float => BackingClass::Float,
        PrimitiveType::String => BackingClass::Str,
        PrimitiveType::Bytes => BackingClass::Bytes,
        PrimitiveType::Unspecified => BackingClass::Unknown,
    }
}

/// The backing class of a primitive ([`primitive_class`]).
pub fn class_of_primitive(p: PrimitiveType) -> (r: BackingClass)
    ensures
        r == primitive_class(p),
{
    match p {
        PrimitiveType::Boolean => BackingClass::Boolean,
        PrimitiveType::Integer => BackingClass::Integer,
        PrimitiveType::Float => BackingClass::Float,
        PrimitiveType::String => BackingClass::Str,
        PrimitiveType::Bytes => BackingClass::Bytes,
        PrimitiveType::Unspecified => BackingClass::Unknown,
    }
}

/// A type's backing as written: a primitive, or a unit expression with
/// where it stands and its canonical form when it parses as a UCUM unit
/// expression.
#[derive(Debug, PartialEq, Eq)]
pub enum BackingSpec {
    Primitive(PrimitiveType),
    Unit { written: String, range: TextRange, canonical: Option<String> },
}

/// The model of an [`Backing`](crate::init::Backing).
pub enum SBacking {
    Primitive(PrimitiveType),
    Unit(Seq<char>),
}

pub open spec fn backing_view(b: Option<Backing>) -> Option<SBacking> {
    match b {
        Some(Backing::Primitive(p)) => Some(SBacking::Primitive(p)),
        Some(Backing::Unit(u)) => Some(SBacking::Unit(u@)),
        None => None,
    }
}

/// The lowered backing, its class, and its diagnostics: a primitive is
/// classed by [`primitive_class`]; a unit is float-classed and lowers by its
/// canonical form, or — when it does not parse — by the text as written,
/// with TYPL-110 at the unit; no backing is of unknown class.
pub open spec fn backing_rule(b: Option<BackingSpec>) -> (Option<SBacking>, BackingClass, Seq<SDiag>) {
    match b {
        None => (None, BackingClass::Unknown, Seq::empty()),
        Some(BackingSpec::Primitive(p)) => (Some(SBacking::Primitive(p)), primitive_class(p), Seq::empty()),
        Some(BackingSpec::Unit { written, range, canonical }) => match canonical {
            Some(c) => (Some(SBacking::Unit(c@)), BackingClass::Float, Seq::empty()),
            None => (
                Some(SBacking::Unit(written@)),
                BackingClass::Float,
                seq![(DiagCode::TYPL_110, Severity::Error, DETACHED, range)],
            ),
        },
    }
}

/// Lowers a type's backing ([`backing_rule`]).
pub fn lower_backing(backing: &Option<BackingSpec>) -> (r: (Option<Backing>, BackingClass, Option<Diagnostic>))
    ensures
        backing_view(r.0) == backing_rule(*backing).0,
        r.1 == backing_rule(*backing).1,
        opt_diag(r.2) == backing_rule(*backing).2,
{
    match backing {
        None => (None, BackingClass::Unknown, None),
        Some(BackingSpec::Primitive(p)) => (Some(Backing::Primitive(*p)), class_of_primitive(*p), None),
        Some(BackingSpec::Unit { written, range, canonical }) => match canonical {
            Some(c) => (Some(Backing::Unit(c.clone())), BackingClass::Float, None),
            None => {
                let mut message = String::from_str("unknown or malformed UCUM unit expression `");
                message.append(written.as_str());
                message.append("`");
                let d = Diagnostic { code: DiagCode::TYPL_110, severity: Severity::Error, message, file: DETACHED, range: *range };
                (Some(Backing::Unit(written.clone())), BackingClass::Float, Some(d))
            },
        },
    }
}

/// A lowered scalar type definition: its backing, its lowered scalar part
/// (constraint, exact bounds and step, width basis), its declared init text,
/// and its init — the declared one, or the derived one.
#[derive(Debug, PartialEq, Eq)]
pub struct LoweredTypeDef {
    pub backing: Option<Backing>,
    pub scalar: NumericScalar,
    pub declared_init: Option<String>,
    pub init: InitValue,
}

/// Lowers a scalar `type` named `name` at `name_range`, whose backing (or,
/// without one, its name) stands at `span`: the backing
/// ([`lower_backing`]), the constraint ([`lower_scalar`]), the declared init
/// checked against the type's own constraint (TYPL-109), and otherwise the
/// derived init ([`crate::init::type_rule`]) — TYPL-115 (info) at the name
/// when that is not derivable. The diagnostics come in that order.
pub fn lower_type(
    name: &str,
    name_range: TextRange,
    backing: &Option<BackingSpec>,
    span: TextRange,
    constraint: &Option<ScalarConstraint>,
    init: &Option<(InitLiteral, TextRange)>,
) -> (r: (LoweredTypeDef, Vec<Diagnostic>))
    requires
        scalar_constraint_wf(*constraint),
        *init matches Some((l, _)) ==> crate::check::literal_wf(l),
    ensures
        backing_view(r.0.backing) == backing_rule(*backing).0,
        scalar_lowered(backing_rule(*backing).1, *constraint, span, r.0.scalar),
        ({
            let head = backing_rule(*backing).2 + scalar_diags(backing_rule(*backing).1, *constraint, span);
            match *init {
                Some((literal, range)) => {
                    let d = crate::check::declared_init_rule(literal, r.0.scalar.parts, range, DiagCode::TYPL_109);
                    &&& r.0.declared_init matches Some(t) && t@ == d.0
                    &&& init_view(r.0.init) == scalar_init(d.0)
                    &&& diags_view(r.1@) == head + d.1
                },
                None => {
                    let derived = type_rule(
                        crate::init::TypeDef { backing: r.0.backing, constraint: r.0.scalar.parts.constraint },
                    );
                    &&& r.0.declared_init is None
                    &&& init_view(r.0.init) == derived
                    &&& diags_view(r.1@) == head + if derived.0 {
                        Seq::empty()
                    } else {
                        seq![(DiagCode::TYPL_115, Severity::Info, DETACHED, name_range)]
                    }
                },
            }
        }),
{
    let mut out: Vec<Diagnostic> = Vec::new();
    let (lowered_backing, class, backing_diag) = lower_backing(backing);
    push_opt(&mut out, backing_diag);
    let (scalar, scalar_diags) = lower_scalar(class, constraint, span);
    let ghost ds = diags_view(scalar_diags@);
    let ghost head = diags_view(out@) + ds;
    let mut k: usize = 0;
    let ghost start = diags_view(out@);
    while k < scalar_diags.len()
        invariant
            k <= scalar_diags.len(),
            ds == diags_view(scalar_diags@),
            diags_view(out@) == start + ds.take(k as int),
        decreases scalar_diags.len() - k,
    {
        let d = &scalar_diags[k];
        let ghost mid = diags_view(out@);
        out.push(Diagnostic { code: d.code, severity: d.severity, message: d.message.clone(), file: d.file, range: d.range });
        assert(ds.take(k + 1) =~= ds.take(k as int).push(ds[k as int]));
        assert(diags_view(out@) =~= mid.push(ds[k as int]));
        k = k + 1;
    }
    assert(ds.take(ds.len() as int) =~= ds);
    assert(diags_view(out@) == head);
    match init {
        Some((literal, range)) => {
            let (text, init_diags) = crate::check::lower_declared_init(literal, &scalar.parts, *range, DiagCode::TYPL_109);
            let ghost d1 = diags_view(init_diags@);
            let mut j: usize = 0;
            while j < init_diags.len()
                invariant
                    j <= init_diags.len(),
                    d1 == diags_view(init_diags@),
                    diags_view(out@) == head + d1.take(j as int),
                decreases init_diags.len() - j,
            {
                let d = &init_diags[j];
                let ghost mid = diags_view(out@);
                out.push(Diagnostic { code: d.code, severity: d.severity, message: d.message.clone(), file: d.file, range: d.range });
                assert(d1.take(j + 1) =~= d1.take(j as int).push(d1[j as int]));
                assert(diags_view(out@) =~= mid.push(d1[j as int]));
                j = j + 1;
            }
            assert(d1.take(d1.len() as int) =~= d1);
            let init_value = InitValue { derivable: true, value: Some(text.clone()) };
            (LoweredTypeDef { backing: lowered_backing, scalar, declared_init: Some(text), init: init_value }, out)
        },
        None => {
            let NumericScalar { parts, step, width, storage } = scalar;
            let ScalarParts { constraint: lowered_constraint, min, max } = parts;
            let def = crate::init::TypeDef { backing: lowered_backing, constraint: lowered_constraint };
            let derived = crate::init::derive_type_init(&def);
            if !derived.derivable {
                let mut message = String::from_str("type `");
                message.append(name);
                message.append("` has no derivable init value and no declared `= value`");
                push_at(&mut out, DiagCode::TYPL_115, Severity::Info, name_range, message);
            }
            let crate::init::TypeDef { backing: lowered_backing, constraint: lowered_constraint } = def;
            let scalar = NumericScalar {
                parts: ScalarParts { constraint: lowered_constraint, min, max },
                step,
                width,
                storage,
            };
            (LoweredTypeDef { backing: lowered_backing, scalar, declared_init: None, init: derived }, out)
        },
    }
}

// ==========================================================================
// Enum sets
// ==========================================================================

/// The backing enum of a derived enum set, as the checker resolved it.
#[derive(Debug, PartialEq, Eq)]
pub enum EnumSetBacking {
    /// The path names an enum: its canonical reference, and its values
    /// (name and assigned literal) in declaration order.
    Enum { canonical: String, values: Vec<(Option<String>, Option<LitKind>)> },
    /// The path names another kind of declaration.
    Other { canonical: String, name: String, kind: SymbolKind, range: TextRange },
    /// The path does not resolve; as written.
    Unresolved(String),
}

/// One bit of a standalone enum set: its name, its position literal, and
/// where the two stand.
#[derive(Debug, PartialEq, Eq)]
pub struct EnumSetBit {
    pub name: Option<String>,
    pub name_range: TextRange,
    pub value: Option<LitKind>,
    pub value_range: Option<TextRange>,
}

/// A lowered enum set: its backing enum (for the derived form), its bits,
/// the highest in-domain bit position, and the storage width it gives
/// ([`enumset_width_rule`]).
#[derive(Debug, PartialEq, Eq)]
pub struct EnumSetDef {
    pub backing_enum: Option<String>,
    pub bits: Vec<EnumValue>,
    pub highest_bit: u32,
    pub width: Width,
}

pub open spec fn backing_wf(b: Option<EnumSetBacking>) -> bool {
    b matches Some(EnumSetBacking::Enum { values, .. }) ==> forall|i: int|
        0 <= i < values@.len() ==> opt_lit_wf(#[trigger] values@[i].1)
}

pub open spec fn bits_wf(bits: Seq<EnumSetBit>) -> bool {
    forall|i: int| 0 <= i < bits.len() ==> opt_lit_wf(#[trigger] bits[i].value)
}

/// The bits a derived enum set copies from its enum: every named value with
/// an integer.
pub open spec fn copied_bits(values: Seq<(Option<String>, Option<LitKind>)>, n: int) -> Seq<(Seq<char>, i64)>
    decreases n,
{
    if n <= 0 {
        Seq::empty()
    } else {
        let v = values[n - 1];
        copied_bits(values, n - 1) + match (v.0, lit_i64(v.1)) {
            (Some(name), Some(x)) => seq![(name@, x)],
            _ => Seq::empty(),
        }
    }
}

pub open spec fn has_position(bits: Seq<(Seq<char>, i64)>, x: i64) -> bool {
    exists|j: int| 0 <= j < bits.len() && bits[j].1 == x
}

/// The standalone bits: every named bit with an integer position, in order;
/// a position taken by an earlier bit draws TYPL-207 at the position.
pub open spec fn standalone_bits(bits: Seq<EnumSetBit>, n: int) -> (Seq<(Seq<char>, i64)>, Seq<SDiag>)
    decreases n,
{
    if n <= 0 {
        (Seq::empty(), Seq::empty())
    } else {
        let (acc, ds) = standalone_bits(bits, n - 1);
        let b = bits[n - 1];
        match (b.name, lit_i64(b.value)) {
            (Some(name), Some(x)) => {
                let range = match b.value_range {
                    Some(r) => r,
                    None => b.name_range,
                };
                (
                    acc.push((name@, x)),
                    if has_position(acc, x) {
                        ds.push((DiagCode::TYPL_207, Severity::Error, DETACHED, range))
                    } else {
                        ds
                    },
                )
            },
            _ => (acc, ds),
        }
    }
}

/// TYPL-111 at the declaration's name for every bit position outside
/// `0..=63`, and the highest position inside it, over the first `n` bits.
pub open spec fn bit_domain(bits: Seq<(Seq<char>, i64)>, n: int, name_range: TextRange) -> (nat, Seq<SDiag>)
    decreases n,
{
    if n <= 0 {
        (0, Seq::empty())
    } else {
        let (high, ds) = bit_domain(bits, n - 1, name_range);
        let x = bits[n - 1].1;
        if x < 0 || x > 63 {
            (high, ds.push((DiagCode::TYPL_111, Severity::Error, DETACHED, name_range)))
        } else {
            (if x > high {
                x as nat
            } else {
                high
            }, ds)
        }
    }
}

/// The bits and diagnostics of an enum set before the domain check, and
/// its backing reference.
pub open spec fn enumset_rule(backing: Option<EnumSetBacking>, bits: Seq<EnumSetBit>) -> (
    Option<Seq<char>>,
    Seq<(Seq<char>, i64)>,
    Seq<SDiag>,
) {
    match backing {
        Some(EnumSetBacking::Enum { canonical, values }) => (
            Some(canonical@),
            copied_bits(values@, values@.len() as int),
            Seq::empty(),
        ),
        Some(EnumSetBacking::Other { canonical, range, .. }) => (
            Some(canonical@),
            Seq::empty(),
            seq![(DiagCode::NONE, Severity::Error, DETACHED, range)],
        ),
        Some(EnumSetBacking::Unresolved(w)) => (Some(w@), Seq::empty(), Seq::empty()),
        None => {
            let (b, d) = standalone_bits(bits, bits.len() as int);
            (None, b, d)
        },
    }
}

/// The messages of [`standalone_bits`]' diagnostics: each names the
/// position taken twice.
pub open spec fn standalone_messages(bits: Seq<EnumSetBit>, n: int) -> Seq<Seq<char>>
    decreases n,
{
    if n <= 0 {
        Seq::empty()
    } else {
        let ms = standalone_messages(bits, n - 1);
        let b = bits[n - 1];
        match (b.name, lit_i64(b.value)) {
            (Some(_), Some(x)) => if has_position(standalone_bits(bits, n - 1).0, x) {
                ms.push("duplicate enumset bit position "@ + crate::exact::int_decimal(x as int))
            } else {
                ms
            },
            _ => ms,
        }
    }
}

/// The messages of [`bit_domain`]'s diagnostics: each names the position.
pub open spec fn bit_domain_messages(bits: Seq<(Seq<char>, i64)>, n: int) -> Seq<Seq<char>>
    decreases n,
{
    if n <= 0 {
        Seq::empty()
    } else {
        let x = bits[n - 1].1;
        bit_domain_messages(bits, n - 1) + if x < 0 || x > 63 {
            seq![
                "enumset bit position "@ + crate::exact::int_decimal(x as int)
                    + " is outside the int64 domain (bits 0..63)"@,
            ]
        } else {
            Seq::empty()
        }
    }
}

/// The messages of [`enumset_rule`]'s diagnostics: a backing that names no
/// enum names what it does name.
pub open spec fn enumset_messages(backing: Option<EnumSetBacking>, bits: Seq<EnumSetBit>) -> Seq<Seq<char>> {
    match backing {
        Some(EnumSetBacking::Other { name, kind, .. }) => seq![
            "expected an enum, but `"@ + name@ + "` names "@ + (if kind == SymbolKind::Enum || kind
                == SymbolKind::EnumSet || kind == SymbolKind::Interface {
                "an"@
            } else {
                "a"@
            }) + " "@ + crate::check::symbol_noun(kind),
        ],
        Some(_) => Seq::empty(),
        None => standalone_messages(bits, bits.len() as int),
    }
}

/// Lowers an enum set: the derived form copies its backing enum's values
/// (a backing that names no enum is an error at the reference), the
/// standalone form takes its own bits ([`standalone_bits`]); then every bit
/// position outside `0..=63` is TYPL-111 ([`bit_domain`]).
pub fn lower_enum_set(backing: &Option<EnumSetBacking>, bits: &[EnumSetBit], name_range: TextRange) -> (r: (
    EnumSetDef,
    Vec<Diagnostic>,
))
    requires
        backing_wf(*backing),
        bits_wf(bits@),
    ensures
        ({
            let (reference, lowered, ds) = enumset_rule(*backing, bits@);
            let (high, dd) = bit_domain(lowered, lowered.len() as int, name_range);
            &&& match r.0.backing_enum {
                Some(b) => reference == Some(b@),
                None => reference is None,
            }
            &&& enum_values_view(r.0.bits@) == lowered
            &&& r.0.highest_bit as nat == high
            &&& r.0.width == enumset_width_rule(high)
            &&& diags_view(r.1@) == ds + dd
            &&& diag_messages(r.1@) == enumset_messages(*backing, bits@) + bit_domain_messages(
                lowered,
                lowered.len() as int,
            )
        }),
{
    let mut out: Vec<Diagnostic> = Vec::new();
    let mut lowered: Vec<EnumValue> = Vec::new();
    let mut backing_enum: Option<String> = None;
    assert(diags_view(out@) =~= Seq::empty());
    assert(diag_messages(out@) =~= Seq::empty());
    assert(enum_values_view(lowered@) =~= Seq::empty());
    match backing {
        Some(EnumSetBacking::Enum { canonical, values }) => {
            backing_enum = Some(canonical.clone());
            assert(forall|q: int| 0 <= q < values@.len() ==> opt_lit_wf(#[trigger] values@[q].1));
            let mut i: usize = 0;
            while i < values.len()
                invariant
                    i <= values.len(),
                    forall|q: int| 0 <= q < values@.len() ==> opt_lit_wf(#[trigger] values@[q].1),
                    enum_values_view(lowered@) == copied_bits(values@, i as int),
                decreases values.len() - i,
            {
                assert(opt_lit_wf(values@[i as int].1));
                let ghost before = enum_values_view(lowered@);
                if let Some(name) = &values[i].0 {
                    if let Some(x) = literal_i64(&values[i].1) {
                        lowered.push(EnumValue { name: name.clone(), value: x });
                        assert(enum_values_view(lowered@) =~= before.push((name@, x)));
                    }
                }
                assert(enum_values_view(lowered@) =~= copied_bits(values@, i + 1));
                i = i + 1;
            }
        },
        Some(EnumSetBacking::Other { canonical, name, kind, range }) => {
            let mut message = String::from_str("expected an enum, but `");
            message.append(name.as_str());
            message.append("` names ");
            message.append(crate::check::kind_article(*kind));
            message.append(" ");
            message.append(crate::check::kind_noun(*kind));
            push_at(&mut out, DiagCode::NONE, Severity::Error, *range, message);
            backing_enum = Some(canonical.clone());
        },
        Some(EnumSetBacking::Unresolved(written)) => {
            backing_enum = Some(written.clone());
        },
        None => {
            let mut i: usize = 0;
            while i < bits.len()
                invariant
                    i <= bits.len(),
                    bits_wf(bits@),
                    enum_values_view(lowered@) == standalone_bits(bits@, i as int).0,
                    diags_view(out@) == standalone_bits(bits@, i as int).1,
                    diag_messages(out@) == standalone_messages(bits@, i as int),
                decreases bits.len() - i,
            {
                let bit = &bits[i];
                assert(opt_lit_wf(bits@[i as int].value));
                let ghost before = enum_values_view(lowered@);
                if let Some(name) = &bit.name {
                    if let Some(x) = literal_i64(&bit.value) {
                        let range = match bit.value_range {
                            Some(r) => r,
                            None => bit.name_range,
                        };
                        let mut taken = false;
                        let mut k: usize = 0;
                        while k < lowered.len()
                            invariant
                                k <= lowered.len(),
                                before == enum_values_view(lowered@),
                                taken <==> exists|j: int| 0 <= j < k && before[j].1 == x,
                            decreases lowered.len() - k,
                        {
                            if lowered[k].value == x {
                                assert(before[k as int].1 == x);
                                taken = true;
                            }
                            k = k + 1;
                        }
                        if taken {
                            let mut message = String::from_str("duplicate enumset bit position ");
                            message.append(i64_text(x).as_str());
                            push_at(&mut out, DiagCode::TYPL_207, Severity::Error, range, message);
                        }
                        lowered.push(EnumValue { name: name.clone(), value: x });
                        assert(enum_values_view(lowered@) =~= before.push((name@, x)));
                    }
                }
                i = i + 1;
            }
        },
    }
    let ghost rule = enumset_rule(*backing, bits@);
    assert(enum_values_view(lowered@) == rule.1);
    assert(diags_view(out@) == rule.2) by {
        if backing is None {
        } else {
            assert(diags_view(out@) =~= rule.2);
        }
    }
    assert(diag_messages(out@) == enumset_messages(*backing, bits@)) by {
        if backing is None {
        } else {
            assert(diag_messages(out@) =~= enumset_messages(*backing, bits@));
        }
    }
    let ghost start = diags_view(out@);
    let ghost start_messages = diag_messages(out@);
    let ghost bv = enum_values_view(lowered@);
    let mut highest: u32 = 0;
    let mut j: usize = 0;
    assert(start + Seq::<SDiag>::empty() =~= start);
    while j < lowered.len()
        invariant
            j <= lowered.len(),
            bv == enum_values_view(lowered@),
            highest as nat == bit_domain(bv, j as int, name_range).0,
            highest <= 63,
            diags_view(out@) == start + bit_domain(bv, j as int, name_range).1,
            diag_messages(out@) == start_messages + bit_domain_messages(bv, j as int),
        decreases lowered.len() - j,
    {
        let x = lowered[j].value;
        assert(bv[j as int].1 == x);
        if x < 0 || x > 63 {
            let mut message = String::from_str("enumset bit position ");
            message.append(i64_text(x).as_str());
            message.append(" is outside the int64 domain (bits 0..63)");
            push_at(&mut out, DiagCode::TYPL_111, Severity::Error, name_range, message);
        } else if x as u32 > highest {
            highest = x as u32;
        }
        j = j + 1;
    }
    let width = if highest <= 7 {
        Width::U8
    } else if highest <= 15 {
        Width::U16
    } else if highest <= 31 {
        Width::U32
    } else {
        Width::U64
    };
    (EnumSetDef { backing_enum, bits: lowered, highest_bit: highest, width }, out)
}

// ==========================================================================
// Enum defaults
// ==========================================================================

/// The integer values among the first `n` assigned literals.
pub open spec fn assigned_values(values: Seq<Option<LitKind>>, n: int) -> Seq<i64>
    decreases n,
{
    if n <= 0 {
        Seq::empty()
    } else {
        assigned_values(values, n - 1) + match lit_i64(values[n - 1]) {
            Some(v) => seq![v],
            None => Seq::empty(),
        }
    }
}

/// The derived init of an enum-typed field: `0` when the enum declares the
/// value 0, else its lowest value; not derivable when it declares no
/// integer value at all.
pub open spec fn enum_init_rule(values: Seq<Option<LitKind>>) -> crate::init::SInit {
    let assigned = assigned_values(values, values.len() as int);
    if assigned.len() == 0 {
        (false, None)
    } else if assigned.contains(0) {
        (true, Some("0"@))
    } else {
        let lowest = choose|m: i64| assigned.contains(m) && forall|k: int| 0 <= k < assigned.len() ==> m <= #[trigger] assigned[k];
        (true, Some(crate::exact::int_decimal(lowest as int)))
    }
}

/// The derived init of an enum type from the literals its values are
/// assigned, in declaration order ([`enum_init_rule`]).
pub fn enum_default_init(values: &[Option<LitKind>]) -> (r: crate::init::InitValue)
    requires
        forall|i: int| 0 <= i < values.len() ==> opt_lit_wf(#[trigger] values@[i]),
    ensures
        crate::init::init_view(r) == enum_init_rule(values@),
{
    let mut assigned: Vec<i64> = Vec::new();
    let mut i: usize = 0;
    while i < values.len()
        invariant
            i <= values.len(),
            forall|q: int| 0 <= q < values.len() ==> opt_lit_wf(#[trigger] values@[q]),
            assigned@ == assigned_values(values@, i as int),
        decreases values.len() - i,
    {
        assert(opt_lit_wf(values@[i as int]));
        let ghost before = assigned@;
        if let Some(v) = literal_i64(&values[i]) {
            assigned.push(v);
            assert(assigned@ =~= before + seq![v]);
        } else {
            assert(assigned@ =~= before + Seq::<i64>::empty());
        }
        i = i + 1;
    }
    if assigned.len() == 0 {
        return crate::init::InitValue { derivable: false, value: None };
    }
    if contains_i64(&assigned, 0) {
        proof {
            reveal_strlit("0");
        }
        return crate::init::InitValue { derivable: true, value: Some(String::from_str("0")) };
    }
    let mut lowest = assigned[0];
    let mut k: usize = 1;
    while k < assigned.len()
        invariant
            1 <= k <= assigned.len(),
            assigned@.contains(lowest),
            forall|q: int| 0 <= q < k ==> lowest <= #[trigger] assigned@[q],
        decreases assigned.len() - k,
    {
        if assigned[k] < lowest {
            lowest = assigned[k];
        }
        k = k + 1;
    }
    proof {
        let chosen = choose|m: i64| assigned@.contains(m) && forall|q: int| 0 <= q < assigned@.len() ==> m <= #[trigger] assigned@[q];
        assert(assigned@.contains(lowest) && forall|q: int| 0 <= q < assigned@.len() ==> lowest <= #[trigger] assigned@[q]);
        let a = choose|a: int| 0 <= a < assigned@.len() && assigned@[a] == chosen;
        let b = choose|b: int| 0 <= b < assigned@.len() && assigned@[b] == lowest;
        assert(chosen <= assigned@[b]);
        assert(lowest <= assigned@[a]);
    }
    crate::init::InitValue { derivable: true, value: Some(i64_text(lowest)) }
}

} // verus!
