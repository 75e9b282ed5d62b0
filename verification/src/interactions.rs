//! The structural rules of an interaction body (an `interface`, or a
//! service's inline shape): ordinal slots, retired names (RIDL-401) and
//! duplicate names (RIDL-402); and the placement rules of timing
//! annotations (RIDL-106), streams (RIDL-201, FORM-102, TYPL-301), the
//! `error` modifier (TYPL-212) and service names.

use vstd::prelude::*;

use crate::chars::str_eq;
use crate::check::{
    declared_init_rule, is_lowercase_name_segment, literal_wf, lower_declared_init, lowercase_segment, InitLiteral,
    MemberKind, ScalarParts,
};
use crate::init::{init_view, named_decl_wf, named_init_rule, named_type_init, scalar_init, InitValue, NamedDecl, SInit};
use crate::diag::{diag_messages, diags_view, DiagCode, Diagnostic, Severity, DETACHED};
use crate::resolve::SDiag;
use crate::syntax::TextRange;

verus! {

// ==========================================================================
// Interaction bodies
// ==========================================================================

/// One member of an interaction body as written: a `reserved` tombstone or
/// an interaction, each with its name (if the parser recovered one) and
/// the range of the name.
#[derive(Debug, PartialEq, Eq)]
pub enum BodyMember {
    Reserved { name: Option<String>, range: TextRange },
    Interaction { name: Option<String>, range: TextRange },
}

/// A member that lowers, with the ordinal slot it takes.
#[derive(Debug, Clone, Copy, PartialEq, Eq, Structural)]
pub struct Slot {
    pub member: usize,
    pub ordinal: u32,
}

/// A diagnostic with one secondary label: the declaration the reader has to
/// look at to understand it.
#[derive(Debug, PartialEq, Eq)]
pub struct LabelledDiagnostic {
    pub diagnostic: Diagnostic,
    pub label: TextRange,
    pub label_message: String,
}

/// What the contracts say of a labelled diagnostic: its code, its range,
/// its label's range, its message and its label's message.
pub open spec fn labelled_view(d: LabelledDiagnostic) -> SLabelled {
    (d.diagnostic.code, d.diagnostic.range, d.label, d.diagnostic.message@, d.label_message@)
}

pub type SLabelled = (DiagCode, TextRange, TextRange, Seq<char>, Seq<char>);

/// RIDL-401 at `range`, labelled at the tombstone `t` retiring `name`.
pub open spec fn retired_view(name: Seq<char>, range: TextRange, t: TextRange) -> SLabelled {
    (
        DiagCode::RIDL_401,
        range,
        t,
        "`"@ + name
            + "` is retired: this body reserves the name, and a retired name keeps its wire identity for ever, so a consumer still holding the old contract would read this interaction as the retired one. Give it a different name (ridl §11)"@,
        "`"@ + name + "` is retired here"@,
    )
}

/// RIDL-402 at `range`, labelled at the first declaration of `name`.
pub open spec fn duplicate_view(name: Seq<char>, range: TextRange, first: TextRange) -> SLabelled {
    (
        DiagCode::RIDL_402,
        range,
        first,
        "`"@ + name
            + "` is already declared in this body — a name identifies one interaction, so this second declaration is dropped and takes no slot of its own. Rename it, or fold the two into one declaration (ridl §14.1)"@,
        "`"@ + name + "` is declared here, and this is the one that is kept"@,
    )
}

pub open spec fn labelled_views(ds: Seq<LabelledDiagnostic>) -> Seq<SLabelled> {
    ds.map_values(|d: LabelledDiagnostic| labelled_view(d))
}

/// The range of the first tombstone among the first `n` members that
/// retires `name`.
pub open spec fn first_tombstone(members: Seq<BodyMember>, name: Seq<char>, n: int) -> Option<TextRange>
    decreases n,
{
    if n <= 0 {
        None
    } else {
        match first_tombstone(members, name, n - 1) {
            Some(t) => Some(t),
            None => match members[n - 1] {
                BodyMember::Reserved { name: Some(r), range } => if r@ == name {
                    Some(range)
                } else {
                    None
                },
                _ => None,
            },
        }
    }
}

/// Where `name` was first declared among the surviving interactions.
pub open spec fn first_declared(seen: Seq<(Seq<char>, TextRange)>, name: Seq<char>) -> Option<TextRange>
    decreases seen.len(),
{
    if seen.len() == 0 {
        None
    } else {
        match first_declared(seen.drop_last(), name) {
            Some(t) => Some(t),
            None => if seen.last().0 == name {
                Some(seen.last().1)
            } else {
                None
            },
        }
    }
}

/// The state of the body walk: the last ordinal taken, the surviving
/// interactions' names and ranges, the slots taken, and the diagnostics.
pub struct SBody {
    pub ordinal: nat,
    pub seen: Seq<(Seq<char>, TextRange)>,
    pub slots: Seq<(int, int)>,
    pub diags: Seq<SLabelled>,
}

/// One member of the body walk. A tombstone takes the next slot. An
/// interaction without a name takes a slot and does not lower. A named
/// interaction draws RIDL-401 (labelled at the first tombstone of the
/// name) when its name is retired anywhere in the body; a name already
/// declared draws RIDL-402 (labelled at the first declaration), and the
/// declaration is dropped without a slot; otherwise it takes the next slot.
pub open spec fn body_step(acc: SBody, members: Seq<BodyMember>, i: int) -> SBody {
    let next = acc.ordinal + 1;
    match members[i] {
        BodyMember::Reserved { .. } => SBody { ordinal: next, slots: acc.slots.push((i, next as int)), ..acc },
        BodyMember::Interaction { name: None, .. } => SBody { ordinal: next, ..acc },
        BodyMember::Interaction { name: Some(n), range } => {
            let retired = match first_tombstone(members, n@, members.len() as int) {
                Some(t) => seq![retired_view(n@, range, t)],
                None => Seq::empty(),
            };
            match first_declared(acc.seen, n@) {
                Some(first) => SBody { diags: acc.diags + retired + seq![duplicate_view(n@, range, first)], ..acc },
                None => SBody {
                    ordinal: next,
                    seen: acc.seen.push((n@, range)),
                    slots: acc.slots.push((i, next as int)),
                    diags: acc.diags + retired,
                },
            }
        },
    }
}

pub open spec fn body_rule(members: Seq<BodyMember>, n: int) -> SBody
    decreases n,
{
    if n <= 0 {
        SBody { ordinal: 0, seen: Seq::empty(), slots: Seq::empty(), diags: Seq::empty() }
    } else {
        body_step(body_rule(members, n - 1), members, n - 1)
    }
}

pub open spec fn slots_view(s: Seq<Slot>) -> Seq<(int, int)> {
    s.map_values(|x: Slot| (x.member as int, x.ordinal as int))
}

pub open spec fn seen_view(s: Seq<(String, TextRange)>) -> Seq<(Seq<char>, TextRange)> {
    s.map_values(|x: (String, TextRange)| (x.0@, x.1))
}

proof fn lemma_ordinal_bound(members: Seq<BodyMember>, n: int)
    requires
        0 <= n <= members.len(),
    ensures
        body_rule(members, n).ordinal <= n,
    decreases n,
{
    if n > 0 {
        lemma_ordinal_bound(members, n - 1);
    }
}

/// The first entry of `table` named `name`.
fn lookup_first(table: &Vec<(String, TextRange)>, name: &str) -> (r: Option<TextRange>)
    ensures
        r == first_declared(seen_view(table@), name@),
{
    let mut found: Option<TextRange> = None;
    let mut i: usize = 0;
    while i < table.len()
        invariant
            i <= table.len(),
            found == first_declared(seen_view(table@.take(i as int)), name@),
        decreases table.len() - i,
    {
        assert(seen_view(table@.take(i + 1)).drop_last() =~= seen_view(table@.take(i as int)));
        if found.is_none() && str_eq(table[i].0.as_str(), name) {
            found = Some(table[i].1);
        }
        i = i + 1;
    }
    assert(table@.take(table.len() as int) =~= table@);
    found
}

/// The tombstones of the body, first of each name kept.
fn tombstones(members: &[BodyMember]) -> (r: Vec<(String, TextRange)>)
    ensures
        forall|name: Seq<char>|
            #[trigger] first_declared(seen_view(r@), name) == first_tombstone(members@, name, members.len() as int),
{
    let mut table: Vec<(String, TextRange)> = Vec::new();
    let mut i: usize = 0;
    while i < members.len()
        invariant
            i <= members.len(),
            forall|name: Seq<char>|
                #[trigger] first_declared(seen_view(table@), name) == first_tombstone(members@, name, i as int),
        decreases members.len() - i,
    {
        if let BodyMember::Reserved { name: Some(n), range } = &members[i] {
            let ghost before = table@;
            table.push((n.clone(), *range));
            proof {
                assert forall|name: Seq<char>|
                    #[trigger] first_declared(seen_view(table@), name) == first_tombstone(
                        members@,
                        name,
                        i + 1,
                    ) by {
                    assert(seen_view(table@).drop_last() =~= seen_view(before));
                    assert(first_declared(seen_view(before), name) == first_tombstone(members@, name, i as int));
                    assert(seen_view(table@).last() == (n@, *range));
                }
            }
        }
        i = i + 1;
    }
    table
}

fn retired_diagnostic(name: &str, range: TextRange, tombstone: TextRange) -> (r: LabelledDiagnostic)
    ensures
        labelled_view(r) == retired_view(name@, range, tombstone),
        r.diagnostic.severity == Severity::Error,
        r.diagnostic.file == DETACHED,
{
    let mut message = String::from_str("`");
    message.append(name);
    message.append(
        "` is retired: this body reserves the name, and a retired name keeps its wire identity for ever, so a consumer still holding the old contract would read this interaction as the retired one. Give it a different name (ridl §11)",
    );
    let mut label_message = String::from_str("`");
    label_message.append(name);
    label_message.append("` is retired here");
    LabelledDiagnostic {
        diagnostic: Diagnostic { code: DiagCode::RIDL_401, severity: Severity::Error, message, file: DETACHED, range },
        label: tombstone,
        label_message,
    }
}

fn duplicate_diagnostic(name: &str, range: TextRange, first: TextRange) -> (r: LabelledDiagnostic)
    ensures
        labelled_view(r) == duplicate_view(name@, range, first),
        r.diagnostic.severity == Severity::Error,
        r.diagnostic.file == DETACHED,
{
    let mut message = String::from_str("`");
    message.append(name);
    message.append(
        "` is already declared in this body — a name identifies one interaction, so this second declaration is dropped and takes no slot of its own. Rename it, or fold the two into one declaration (ridl §14.1)",
    );
    let mut label_message = String::from_str("`");
    label_message.append(name);
    label_message.append("` is declared here, and this is the one that is kept");
    LabelledDiagnostic {
        diagnostic: Diagnostic { code: DiagCode::RIDL_402, severity: Severity::Error, message, file: DETACHED, range },
        label: first,
        label_message,
    }
}

/// Walks an interaction body ([`body_rule`]): the slots of the members
/// that lower, in order, and the RIDL-401 and RIDL-402 diagnostics, each
/// labelled at the declaration it is about. Every diagnostic is an error.
pub fn interface_body(members: &[BodyMember]) -> (r: (Vec<Slot>, Vec<LabelledDiagnostic>))
    requires
        members.len() < u32::MAX,
    ensures
        slots_view(r.0@) == body_rule(members@, members.len() as int).slots,
        labelled_views(r.1@) == body_rule(members@, members.len() as int).diags,
        forall|i: int| 0 <= i < r.1@.len() ==> (#[trigger] r.1@[i]).diagnostic.severity == Severity::Error,
{
    let retired = tombstones(members);
    let mut seen: Vec<(String, TextRange)> = Vec::new();
    let mut slots: Vec<Slot> = Vec::new();
    let mut out: Vec<LabelledDiagnostic> = Vec::new();
    let mut ordinal: u32 = 0;
    let mut i: usize = 0;
    assert(slots_view(slots@) =~= Seq::empty());
    assert(labelled_views(out@) =~= Seq::empty());
    assert(seen_view(seen@) =~= Seq::empty());
    while i < members.len()
        invariant
            i <= members.len(),
            members.len() < u32::MAX,
            forall|name: Seq<char>|
                #[trigger] first_declared(seen_view(retired@), name) == first_tombstone(
                    members@,
                    name,
                    members.len() as int,
                ),
            ordinal as nat == body_rule(members@, i as int).ordinal,
            seen_view(seen@) == body_rule(members@, i as int).seen,
            slots_view(slots@) == body_rule(members@, i as int).slots,
            labelled_views(out@) == body_rule(members@, i as int).diags,
            forall|k: int| 0 <= k < out@.len() ==> (#[trigger] out@[k]).diagnostic.severity == Severity::Error,
        decreases members.len() - i,
    {
        proof {
            lemma_ordinal_bound(members@, i as int);
        }
        let ghost acc = body_rule(members@, i as int);
        let ghost before_slots = slots_view(slots@);
        let ghost before_out = labelled_views(out@);
        let ghost before_seen = seen_view(seen@);
        match &members[i] {
            BodyMember::Reserved { .. } => {
                ordinal = ordinal + 1;
                slots.push(Slot { member: i, ordinal });
                assert(slots_view(slots@) =~= before_slots.push((i as int, ordinal as int)));
            },
            BodyMember::Interaction { name: None, .. } => {
                ordinal = ordinal + 1;
            },
            BodyMember::Interaction { name: Some(n), range } => {
                let tomb = lookup_first(&retired, n.as_str());
                if let Some(t) = tomb {
                    out.push(retired_diagnostic(n.as_str(), *range, t));
                }
                let ghost after_retired = labelled_views(out@);
                assert(after_retired =~= before_out + match first_tombstone(
                    members@,
                    n@,
                    members.len() as int,
                ) {
                    Some(t) => seq![retired_view(n@, *range, t)],
                    None => Seq::empty(),
                });
                match lookup_first(&seen, n.as_str()) {
                    Some(first) => {
                        out.push(duplicate_diagnostic(n.as_str(), *range, first));
                        assert(labelled_views(out@) =~= after_retired.push(duplicate_view(n@, *range, first)));
                    },
                    None => {
                        ordinal = ordinal + 1;
                        seen.push((n.clone(), *range));
                        slots.push(Slot { member: i, ordinal });
                        assert(slots_view(slots@) =~= before_slots.push((i as int, ordinal as int)));
                        assert(seen_view(seen@) =~= before_seen.push((n@, *range)));
                    },
                }
            },
        }
        i = i + 1;
    }
    (slots, out)
}

// ==========================================================================
// Laws of the body walk
// ==========================================================================

/// The ordinals of the slots are strictly increasing, every one at most the
/// ordinal reached, and the members taking them come in body order.
pub proof fn law_slots_increase(members: Seq<BodyMember>, n: int)
    requires
        0 <= n <= members.len(),
    ensures
        forall|a: int, b: int|
            0 <= a < b < body_rule(members, n).slots.len() ==> body_rule(members, n).slots[a].1 < body_rule(
                members,
                n,
            ).slots[b].1 && body_rule(members, n).slots[a].0 < body_rule(members, n).slots[b].0,
        forall|a: int|
            0 <= a < body_rule(members, n).slots.len() ==> 1 <= (#[trigger] body_rule(members, n).slots[a]).1
                <= body_rule(members, n).ordinal && 0 <= body_rule(members, n).slots[a].0 < n,
    decreases n,
{
    if n > 0 {
        law_slots_increase(members, n - 1);
        let prev = body_rule(members, n - 1);
        let cur = body_rule(members, n);
        assert(cur == body_step(prev, members, n - 1));
        if cur.slots.len() == prev.slots.len() + 1 {
            assert(cur.slots.drop_last() =~= prev.slots);
            assert(cur.slots.last() == (n - 1, (prev.ordinal + 1) as int));
            assert(cur.ordinal == prev.ordinal + 1);
            assert forall|a: int| 0 <= a < cur.slots.len() - 1 implies #[trigger] cur.slots[a] == prev.slots[a] by {}
        } else {
            assert(cur.slots == prev.slots);
            assert(cur.ordinal >= prev.ordinal);
        }
    }
}

proof fn lemma_first_declared_some(seen: Seq<(Seq<char>, TextRange)>, k: int)
    requires
        0 <= k < seen.len(),
    ensures
        first_declared(seen, seen[k].0) is Some,
    decreases seen.len(),
{
    if k < seen.len() - 1 {
        lemma_first_declared_some(seen.drop_last(), k);
    }
}

/// First wins: the names of the surviving interactions are distinct.
pub proof fn law_surviving_names_are_distinct(members: Seq<BodyMember>, n: int)
    requires
        0 <= n <= members.len(),
    ensures
        forall|a: int, b: int|
            0 <= a < b < body_rule(members, n).seen.len() ==> body_rule(members, n).seen[a].0 != body_rule(
                members,
                n,
            ).seen[b].0,
    decreases n,
{
    if n > 0 {
        law_surviving_names_are_distinct(members, n - 1);
        let prev = body_rule(members, n - 1).seen;
        let cur = body_rule(members, n).seen;
        assert forall|a: int, b: int| 0 <= a < b < cur.len() implies cur[a].0 != cur[b].0 by {
            if b == cur.len() - 1 && cur.len() == prev.len() + 1 {
                assert(cur.drop_last() =~= prev);
                if cur[a].0 == cur[b].0 {
                    lemma_first_declared_some(prev, a);
                }
            }
        }
    }
}

// ==========================================================================
// Placement rules
// ==========================================================================

/// TYPL-212 at the name of an `interface` declared with the `error`
/// modifier, which is failure vocabulary for composites only.
pub fn interface_error_modifier(is_error: bool, name_range: TextRange) -> (r: Option<Diagnostic>)
    ensures
        r is Some <==> is_error,
        r matches Some(d) ==> d.code == DiagCode::TYPL_212 && d.severity == Severity::Error && d.range
            == name_range && d.file == DETACHED
            && d.message@ == "`error` is not valid on an `interface` declaration — only `struct`, `enum`, and `union`"@,
{
    if is_error {
        Some(
            Diagnostic {
                code: DiagCode::TYPL_212,
                severity: Severity::Error,
                message: String::from_str(
                    "`error` is not valid on an `interface` declaration — only `struct`, `enum`, and `union`",
                ),
                file: DETACHED,
                range: name_range,
            },
        )
    } else {
        None
    }
}

/// Why a kind carries no timing annotation, as RIDL-106 says it.
pub open spec fn timing_rejection_text(kind: MemberKind) -> Seq<char> {
    let (noun, because) = match kind {
        MemberKind::Command => (
            "command"@,
            "a command is invoked on demand, not published on a schedule, and its acknowledgement is not a publication"@,
        ),
        MemberKind::Query => (
            "query"@,
            "a query is answered on demand, not published on a schedule, and its reply is not a publication"@,
        ),
        _ => (
            crate::check::member_noun(kind),
            "a `final` is provisioned externally and never republished, so it has no rate floor and no staleness bound"@,
        ),
    };
    "a timing annotation is not valid on `"@ + noun + "` — "@ + because + ". Timing belongs to `signal` and `event` (ridl §9)"@
}

/// RIDL-106 at a timing annotation on a kind that carries none (a
/// `command`, a `query`, a `final`); the message says why that kind
/// carries none.
pub fn reject_timing(kind: MemberKind, range: TextRange) -> (r: Diagnostic)
    ensures
        r.code == DiagCode::RIDL_106,
        r.severity == Severity::Error,
        r.range == range,
        r.file == DETACHED,
        r.message@ == timing_rejection_text(kind),
{
    let (noun, because) = match kind {
        MemberKind::Command => (
            "command",
            "a command is invoked on demand, not published on a schedule, and its acknowledgement is not a publication",
        ),
        MemberKind::Query => (
            "query",
            "a query is answered on demand, not published on a schedule, and its reply is not a publication",
        ),
        MemberKind::Signal => (
            "signal",
            "a `final` is provisioned externally and never republished, so it has no rate floor and no staleness bound",
        ),
        MemberKind::Event => (
            "event",
            "a `final` is provisioned externally and never republished, so it has no rate floor and no staleness bound",
        ),
        MemberKind::Final => (
            "final",
            "a `final` is provisioned externally and never republished, so it has no rate floor and no staleness bound",
        ),
    };
    let mut message = String::from_str("a timing annotation is not valid on `");
    message.append(noun);
    message.append("` — ");
    message.append(because);
    message.append(". Timing belongs to `signal` and `event` (ridl §9)");
    Diagnostic { code: DiagCode::RIDL_106, severity: Severity::Error, message, file: DETACHED, range }
}

/// What a stream type `<T>` stands in.
#[derive(Debug, Clone, Copy, PartialEq, Eq, Structural)]
pub enum StreamParent {
    Param,
    ReturnType,
    Signal,
    Event,
    Final,
    /// A struct field, a collection element, or anything else.
    Other,
}

/// The diagnostic a stream draws where it stands: none on a parameter or a
/// return; RIDL-201 on a signal or an event payload; FORM-102 on a
/// `final`; TYPL-301 anywhere else.
pub open spec fn stream_rule(parent: StreamParent) -> Option<DiagCode> {
    match parent {
        StreamParent::Param | StreamParent::ReturnType => None,
        StreamParent::Signal | StreamParent::Event => Some(DiagCode::RIDL_201),
        StreamParent::Final => Some(DiagCode::FORM_102),
        StreamParent::Other => Some(DiagCode::TYPL_301),
    }
}

pub open spec fn streams_rule(streams: Seq<(StreamParent, TextRange)>, n: int) -> Seq<SDiag>
    decreases n,
{
    if n <= 0 {
        Seq::empty()
    } else {
        streams_rule(streams, n - 1) + match stream_rule(streams[n - 1].0) {
            Some(code) => seq![(code, Severity::Error, DETACHED, streams[n - 1].1)],
            None => Seq::empty(),
        }
    }
}

/// The message of [`stream_rule`]'s diagnostic for a stream standing in
/// `parent`.
pub open spec fn stream_text(parent: StreamParent) -> Seq<char> {
    match parent {
        StreamParent::Signal => "a stream `<T>` is not valid on a signal payload — a signal already is the stream for state, publishing its current value on the bounds it declares. A stream is for an RPC-scoped transfer with a beginning and an end, so it belongs on a `command` parameter or a `query` return (ridl §12.3)"@,
        StreamParent::Event => "a stream `<T>` is not valid on an event payload — an unbounded push of occurrences is what the event itself is. A stream is for an RPC-scoped transfer with a beginning and an end, so it belongs on a `command` parameter or a `query` return (ridl §12.3)"@,
        StreamParent::Final => "stream `<T>` not valid on final"@,
        _ => "stream type `<T>` not valid on a struct field or collection — interaction parameters and query returns only"@,
    }
}

/// The messages of [`streams_rule`]'s diagnostics.
pub open spec fn streams_messages(streams: Seq<(StreamParent, TextRange)>, n: int) -> Seq<Seq<char>>
    decreases n,
{
    if n <= 0 {
        Seq::empty()
    } else {
        streams_messages(streams, n - 1) + if stream_rule(streams[n - 1].0) is Some {
            seq![stream_text(streams[n - 1].0)]
        } else {
            Seq::empty()
        }
    }
}

fn stream_diagnostic(parent: StreamParent, range: TextRange) -> (r: Option<Diagnostic>)
    ensures
        match stream_rule(parent) {
            Some(code) => r matches Some(d) && d.code == code && d.severity == Severity::Error && d.range == range
                && d.file == DETACHED && d.message@ == stream_text(parent),
            None => r is None,
        },
{
    let (code, message) = match parent {
        StreamParent::Param | StreamParent::ReturnType => {
            return None;
        },
        StreamParent::Signal => (
            DiagCode::RIDL_201,
            "a stream `<T>` is not valid on a signal payload — a signal already is the stream for state, publishing its current value on the bounds it declares. A stream is for an RPC-scoped transfer with a beginning and an end, so it belongs on a `command` parameter or a `query` return (ridl §12.3)",
        ),
        StreamParent::Event => (
            DiagCode::RIDL_201,
            "a stream `<T>` is not valid on an event payload — an unbounded push of occurrences is what the event itself is. A stream is for an RPC-scoped transfer with a beginning and an end, so it belongs on a `command` parameter or a `query` return (ridl §12.3)",
        ),
        StreamParent::Final => (DiagCode::FORM_102, "stream `<T>` not valid on final"),
        StreamParent::Other => (
            DiagCode::TYPL_301,
            "stream type `<T>` not valid on a struct field or collection — interaction parameters and query returns only",
        ),
    };
    Some(Diagnostic { code, severity: Severity::Error, message: String::from_str(message), file: DETACHED, range })
}

/// Classifies every stream type of a file by where it stands
/// ([`streams_rule`]).
pub fn check_stream_positions(streams: &[(StreamParent, TextRange)]) -> (r: Vec<Diagnostic>)
    ensures
        diags_view(r@) == streams_rule(streams@, streams.len() as int),
        diag_messages(r@) == streams_messages(streams@, streams.len() as int),
{
    let mut out: Vec<Diagnostic> = Vec::new();
    let mut i: usize = 0;
    assert(diags_view(out@) =~= Seq::empty());
    assert(diag_messages(out@) =~= Seq::empty());
    while i < streams.len()
        invariant
            i <= streams.len(),
            diags_view(out@) == streams_rule(streams@, i as int),
            diag_messages(out@) == streams_messages(streams@, i as int),
        decreases streams.len() - i,
    {
        let ghost before = diags_view(out@);
        let (parent, range) = streams[i];
        if let Some(d) = stream_diagnostic(parent, range) {
            out.push(d);
        }
        assert(diags_view(out@) =~= streams_rule(streams@, i + 1));
        assert(diag_messages(out@) =~= streams_messages(streams@, i + 1));
        i = i + 1;
    }
    out
}

/// An uncoded error at every segment of a service's dotted name that is not
/// a lowercase name segment.
pub open spec fn service_name_rule(segments: Seq<(String, TextRange)>, n: int) -> Seq<SDiag>
    decreases n,
{
    if n <= 0 {
        Seq::empty()
    } else {
        service_name_rule(segments, n - 1) + if lowercase_segment(segments[n - 1].0@) {
            Seq::empty()
        } else {
            seq![(DiagCode::NONE, Severity::Error, DETACHED, segments[n - 1].1)]
        }
    }
}

/// The messages of [`service_name_rule`]'s diagnostics: each names the
/// segment.
pub open spec fn service_name_messages(segments: Seq<(String, TextRange)>, n: int) -> Seq<Seq<char>>
    decreases n,
{
    if n <= 0 {
        Seq::empty()
    } else {
        service_name_messages(segments, n - 1) + if lowercase_segment(segments[n - 1].0@) {
            Seq::empty()
        } else {
            seq![
                "service name segment `"@ + segments[n - 1].0@
                    + "` is not lowercase — a service has a dotted, reverse-domain global name"@,
            ]
        }
    }
}

/// Checks the segments of a service's dotted name ([`service_name_rule`]).
pub fn check_service_name(segments: &[(String, TextRange)]) -> (r: Vec<Diagnostic>)
    ensures
        diags_view(r@) == service_name_rule(segments@, segments.len() as int),
        diag_messages(r@) == service_name_messages(segments@, segments.len() as int),
{
    let mut out: Vec<Diagnostic> = Vec::new();
    let mut i: usize = 0;
    assert(diags_view(out@) =~= Seq::empty());
    assert(diag_messages(out@) =~= Seq::empty());
    while i < segments.len()
        invariant
            i <= segments.len(),
            diags_view(out@) == service_name_rule(segments@, i as int),
            diag_messages(out@) == service_name_messages(segments@, i as int),
        decreases segments.len() - i,
    {
        let ghost before = diags_view(out@);
        let text = segments[i].0.as_str();
        if !is_lowercase_name_segment(text) {
            let mut message = String::from_str("service name segment `");
            message.append(text);
            message.append("` is not lowercase — a service has a dotted, reverse-domain global name");
            out.push(
                Diagnostic { code: DiagCode::NONE, severity: Severity::Error, message, file: DETACHED, range: segments[i].1 },
            );
        }
        assert(diags_view(out@) =~= service_name_rule(segments@, i + 1));
        assert(diag_messages(out@) =~= service_name_messages(segments@, i + 1));
        i = i + 1;
    }
    out
}

// ==========================================================================
// Signal payloads
// ==========================================================================

/// The declaration a signal's payload resolves to: its canonical reference,
/// its name, what init derivation reads of it, and — for a scalar `type` —
/// its bounds and constraint, which an `= value` override is checked
/// against (empty for any other kind).
#[derive(Debug, PartialEq, Eq)]
pub struct PayloadTarget {
    pub canonical: String,
    pub name: String,
    pub decl: NamedDecl,
    pub parts: ScalarParts,
}

/// A signal's payload as written.
#[derive(Debug, PartialEq, Eq)]
pub enum SignalPayload {
    /// A named type: where it stands, and the declaration it resolves to,
    /// or the text as written when it does not resolve.
    Named { range: TextRange, target: Result<PayloadTarget, String> },
    /// Another field type, where it stands.
    Other(TextRange),
    /// A stream, or nothing the parser recovered.
    Missing,
}

pub open spec fn payload_wf(p: SignalPayload) -> bool {
    p matches SignalPayload::Named { target: Ok(t), .. } ==> named_decl_wf(t.decl) && t.parts.wf()
}

/// A signal's `= value` override as written: absent, a literal (as the
/// checker reads it) with where it stands, or an `=` the parser recovered
/// without a literal.
#[derive(Debug, PartialEq, Eq)]
pub enum InitOverride {
    Absent,
    Literal(InitLiteral, TextRange),
    Unreadable,
}

/// A lowered signal payload: the payload's canonical reference (the text as
/// written when unresolved; empty when there is none), the declared `= value`
/// override, and the init.
#[derive(Debug, PartialEq, Eq)]
pub struct LoweredPayload {
    pub payload: String,
    pub declared_init: Option<String>,
    pub init: Option<InitValue>,
}

/// The lowering of a signal's payload and init override: a resolved payload
/// with an override checks it against the payload's constraints (RIDL-110)
/// and carries it as the init; without one, the payload type's derived init
/// rides along, and RIDL-109 at the payload reports it when it does not
/// derive; an unreadable override gives neither. An unresolved payload
/// carries the text as written and no init; another field type draws
/// FORM-102.
pub open spec fn payload_rule(p: SignalPayload, init: InitOverride) -> (
    Seq<char>,
    Option<Seq<char>>,
    Option<SInit>,
    Seq<SDiag>,
) {
    match p {
        SignalPayload::Named { range, target: Ok(t) } => match init {
            InitOverride::Literal(literal, at) => {
                let d = declared_init_rule(literal, t.parts, at, DiagCode::RIDL_110);
                (t.canonical@, Some(d.0), Some(scalar_init(d.0)), d.1)
            },
            InitOverride::Unreadable => (t.canonical@, None, None, Seq::empty()),
            InitOverride::Absent => {
                let derived = named_init_rule(t.decl);
                (
                    t.canonical@,
                    None,
                    Some(derived),
                    if derived.0 {
                        Seq::empty()
                    } else {
                        seq![(DiagCode::RIDL_109, Severity::Error, DETACHED, range)]
                    },
                )
            },
        },
        SignalPayload::Named { target: Err(written), .. } => (written@, None, None, Seq::empty()),
        SignalPayload::Other(range) => (
            Seq::empty(),
            None,
            None,
            seq![(DiagCode::FORM_102, Severity::Error, DETACHED, range)],
        ),
        SignalPayload::Missing => (Seq::empty(), None, None, Seq::empty()),
    }
}

/// Lowers a signal's payload and its `= value` override ([`payload_rule`]).
pub fn lower_signal_payload(payload: &SignalPayload, init: &InitOverride) -> (r: (
    LoweredPayload,
    Vec<Diagnostic>,
))
    requires
        payload_wf(*payload),
        *init matches InitOverride::Literal(l, _) ==> literal_wf(l),
    ensures
        ({
            let rule = payload_rule(*payload, *init);
            &&& r.0.payload@ == rule.0
            &&& match r.0.declared_init {
                Some(t) => rule.1 == Some(t@),
                None => rule.1 is None,
            }
            &&& match r.0.init {
                Some(i) => rule.2 == Some(init_view(i)),
                None => rule.2 is None,
            }
            &&& diags_view(r.1@) == rule.3
        }),
{
    match payload {
        SignalPayload::Named { range, target: Ok(t) } => match init {
            InitOverride::Literal(literal, at) => {
                let (text, diags) = lower_declared_init(literal, &t.parts, *at, DiagCode::RIDL_110);
                let value = InitValue { derivable: true, value: Some(text.clone()) };
                (LoweredPayload { payload: t.canonical.clone(), declared_init: Some(text), init: Some(value) }, diags)
            },
            InitOverride::Unreadable => {
                let out: Vec<Diagnostic> = Vec::new();
                assert(diags_view(out@) =~= Seq::empty());
                (LoweredPayload { payload: t.canonical.clone(), declared_init: None, init: None }, out)
            },
            InitOverride::Absent => {
                let derived = named_type_init(&t.decl);
                let mut out: Vec<Diagnostic> = Vec::new();
                if !derived.derivable {
                    let mut message = String::from_str("signal payload type `");
                    message.append(t.name.as_str());
                    message.append("` has no derivable init value and no `= value` override");
                    out.push(Diagnostic { code: DiagCode::RIDL_109, severity: Severity::Error, message, file: DETACHED, range: *range });
                }
                assert(diags_view(out@) =~= payload_rule(*payload, *init).3);
                (LoweredPayload { payload: t.canonical.clone(), declared_init: None, init: Some(derived) }, out)
            },
        },
        SignalPayload::Named { target: Err(written), .. } => {
            let out: Vec<Diagnostic> = Vec::new();
            assert(diags_view(out@) =~= Seq::empty());
            (LoweredPayload { payload: written.clone(), declared_init: None, init: None }, out)
        },
        SignalPayload::Other(range) => {
            let mut out: Vec<Diagnostic> = Vec::new();
            out.push(
                Diagnostic {
                    code: DiagCode::FORM_102,
                    severity: Severity::Error,
                    message: String::from_str("signal payload must be a named type"),
                    file: DETACHED,
                    range: *range,
                },
            );
            assert(diags_view(out@) =~= payload_rule(*payload, *init).3);
            (LoweredPayload { payload: String::new(), declared_init: None, init: None }, out)
        },
        SignalPayload::Missing => {
            let out: Vec<Diagnostic> = Vec::new();
            assert(diags_view(out@) =~= Seq::empty());
            (LoweredPayload { payload: String::new(), declared_init: None, init: None }, out)
        },
    }
}

} // verus!
