//! The ridl lint rules: advisory diagnostics over a package's interaction
//! declarations.
//!
//! | Code     | Rule                                                 | Severity |
//! | -------- | ---------------------------------------------------- | -------- |
//! | RIDL-404 | query named like a mutation                          | warning  |
//! | RIDL-405 | one error type shared across unrelated domains       | info     |
//! | RIDL-406 | payload re-declaring envelope metadata               | info     |

use vstd::prelude::*;

use crate::chars::{str_eq, str_to_chars};
use crate::diag::{diag_messages, diags_view, DiagCode, Diagnostic, Severity, DETACHED};
use crate::expr::strs_view;
use crate::syntax::TextRange;

verus! {

/// The number of distinct interfaces an error type must serve before
/// RIDL-405 calls it shared across unrelated failure domains: two interfaces
/// are a deliberate pairing; three start to look like one catch-all error
/// type standing in for several failure domains.
pub const SHARED_ERROR_INTERFACE_THRESHOLD: usize = 3;

// ==========================================================================
// RIDL-404 — a query named like a mutation
// ==========================================================================

/// Whether `c` is upper-case (Unicode `Uppercase`).
pub uninterp spec fn char_uppercase(c: char) -> bool;

/// `char::is_uppercase`: Unicode's `Uppercase` property, which holds of the
/// ASCII capitals and of no ASCII lower-case letter; the rest of the table
/// is named [`char_uppercase`].
#[verifier::external_body]
fn is_uppercase(c: char) -> (r: bool)
    ensures
        r == char_uppercase(c),
        'A' <= c <= 'Z' ==> r,
        'a' <= c <= 'z' ==> !r,
{
    c.is_uppercase()
}

/// Whether `c` is upper-case: the ASCII capitals are, the ASCII lower-case
/// letters are not, and any other character is by Unicode's `Uppercase`
/// property ([`char_uppercase`]).
pub open spec fn upper_case(c: char) -> bool {
    if 'A' <= c <= 'Z' {
        true
    } else if 'a' <= c <= 'z' {
        false
    } else {
        char_uppercase(c)
    }
}

/// The verbs that name a mutation, in the order they are tried.
pub open spec fn mutation_verbs() -> Seq<Seq<char>> {
    seq![
        seq!['s', 'e', 't'],
        seq!['r', 'e', 's', 'e', 't'],
        seq!['c', 'l', 'e', 'a', 'r'],
        seq!['a', 'p', 'p', 'l', 'y'],
        seq!['w', 'r', 'i', 't', 'e'],
        seq!['u', 'p', 'd', 'a', 't', 'e'],
    ]
}

/// `name` starts with `verb` and the next character is upper-case.
pub open spec fn verb_fits(name: Seq<char>, verb: Seq<char>) -> bool {
    &&& verb.len() < name.len()
    &&& name.take(verb.len() as int) == verb
    &&& upper_case(name[verb.len() as int])
}

/// The first mutation verb (by index) that `name` starts with, followed by an
/// upper-case letter.
pub open spec fn first_verb(name: Seq<char>, i: int) -> Option<int>
    decreases 6 - i,
{
    if i < 0 || i >= 6 {
        None
    } else if verb_fits(name, mutation_verbs()[i]) {
        Some(i)
    } else {
        first_verb(name, i + 1)
    }
}

fn verb_text(i: usize) -> (r: (&'static str, Vec<char>))
    requires
        i < 6,
    ensures
        r.1@ == mutation_verbs()[i as int],
        r.0@ == mutation_verbs()[i as int],
{
    proof {
        reveal_strlit("set");
        reveal_strlit("reset");
        reveal_strlit("clear");
        reveal_strlit("apply");
        reveal_strlit("write");
        reveal_strlit("update");
    }
    if i == 0 {
        let v = vec!['s', 'e', 't'];
        assert(v@ =~= mutation_verbs()[0]);
        assert("set"@ =~= mutation_verbs()[0]);
        ("set", v)
    } else if i == 1 {
        let v = vec!['r', 'e', 's', 'e', 't'];
        assert(v@ =~= mutation_verbs()[1]);
        assert("reset"@ =~= mutation_verbs()[1]);
        ("reset", v)
    } else if i == 2 {
        let v = vec!['c', 'l', 'e', 'a', 'r'];
        assert(v@ =~= mutation_verbs()[2]);
        assert("clear"@ =~= mutation_verbs()[2]);
        ("clear", v)
    } else if i == 3 {
        let v = vec!['a', 'p', 'p', 'l', 'y'];
        assert(v@ =~= mutation_verbs()[3]);
        assert("apply"@ =~= mutation_verbs()[3]);
        ("apply", v)
    } else if i == 4 {
        let v = vec!['w', 'r', 'i', 't', 'e'];
        assert(v@ =~= mutation_verbs()[4]);
        assert("write"@ =~= mutation_verbs()[4]);
        ("write", v)
    } else {
        let v = vec!['u', 'p', 'd', 'a', 't', 'e'];
        assert(v@ =~= mutation_verbs()[5]);
        assert("update"@ =~= mutation_verbs()[5]);
        ("update", v)
    }
}

fn fits(name: &Vec<char>, verb: &Vec<char>) -> (r: bool)
    ensures
        r == verb_fits(name@, verb@),
{
    if verb.len() >= name.len() {
        return false;
    }
    let mut i: usize = 0;
    while i < verb.len()
        invariant
            i <= verb.len() < name.len(),
            forall|j: int| 0 <= j < i ==> name@[j] == verb@[j],
        decreases verb.len() - i,
    {
        if name[i] != verb[i] {
            assert(name@.take(verb.len() as int)[i as int] != verb@[i as int]);
            return false;
        }
        i = i + 1;
    }
    assert(name@.take(verb.len() as int) =~= verb@);
    is_uppercase(name[verb.len()])
}

/// The mutating verb `name` starts with, when the next character is
/// upper-case ([`first_verb`]).
pub fn mutation_verb(name: &str) -> (r: Option<&'static str>)
    ensures
        match first_verb(name@, 0) {
            Some(i) => r matches Some(v) && v@ == mutation_verbs()[i],
            None => r is None,
        },
{
    let cs = str_to_chars(name);
    let mut i: usize = 0;
    while i < 6
        invariant
            i <= 6,
            cs@ == name@,
            first_verb(name@, 0) == first_verb(name@, i as int),
        decreases 6 - i,
    {
        let (text, verb) = verb_text(i);
        if fits(&cs, &verb) {
            return Some(text);
        }
        i = i + 1;
    }
    None
}

/// The message of RIDL-404 for the query `name` starting with `verb`.
pub open spec fn query_name_text(name: Seq<char>, verb: Seq<char>) -> Seq<char> {
    "query `"@ + name + "` is named like a mutation (`"@ + verb
        + "…`) — queries should be read-only or idempotent, so if it mutates state it belongs to `command` (ridl §7.2). If the name is a domain noun rather than a verb (`setPoint`, `resetReason`), ignore this."@
}

/// RIDL-404 for a query named like a mutation: a warning at the name when
/// [`mutation_verb`] finds a verb.
pub fn lint_query_name(name: &str, range: TextRange) -> (r: Option<Diagnostic>)
    ensures
        r is Some <==> first_verb(name@, 0) is Some,
        r matches Some(d) ==> d.code == DiagCode::RIDL_404 && d.severity == Severity::Warning
            && d.range == range && d.file == DETACHED
            && d.message@ == query_name_text(name@, mutation_verbs()[first_verb(name@, 0)->0]),
{
    let verb = match mutation_verb(name) {
        Some(verb) => verb,
        None => {
            return None;
        },
    };
    let mut message = String::from_str("query `");
    message.append(name);
    message.append("` is named like a mutation (`");
    message.append(verb);
    message.append(
        "…`) — queries should be read-only or idempotent, so if it mutates state it belongs to `command` (ridl §7.2). If the name is a domain noun rather than a verb (`setPoint`, `resetReason`), ignore this.",
    );
    Some(
        Diagnostic {
            code: DiagCode::RIDL_404,
            severity: Severity::Warning,
            message,
            file: DETACHED,
            range,
        },
    )
}

// ==========================================================================
// RIDL-406 — a payload re-declaring the envelope
// ==========================================================================

/// The payload field names that duplicate envelope metadata: the envelope
/// already carries a publication timestamp and a sequence number.
pub open spec fn envelope_names() -> Seq<Seq<char>> {
    seq![
        "timestamp"@,
        "time"@,
        "seq"@,
        "seqNo"@,
        "sequence"@,
        "sequenceNumber"@,
        "frameCounter"@,
        "frameNo"@,
    ]
}

/// Whether `name` is one of the envelope field names.
pub fn is_envelope_field(name: &str) -> (r: bool)
    ensures
        r == envelope_names().contains(name@),
{
    let words: [&str; 8] = [
        "timestamp",
        "time",
        "seq",
        "seqNo",
        "sequence",
        "sequenceNumber",
        "frameCounter",
        "frameNo",
    ];
    assert(words@.map_values(|w: &str| w@) =~= envelope_names());
    let mut i: usize = 0;
    while i < 8
        invariant
            i <= 8,
            words@.map_values(|w: &str| w@) == envelope_names(),
            forall|j: int| 0 <= j < i ==> envelope_names()[j] != name@,
        decreases 8 - i,
    {
        if str_eq(words[i], name) {
            assert(envelope_names()[i as int] == words@[i as int]@);
            return true;
        }
        i = i + 1;
    }
    false
}

/// The envelope-duplicating names among `fields`, in declaration order.
pub open spec fn envelope_subset(fields: Seq<Seq<char>>) -> Seq<Seq<char>> {
    fields.filter(|f: Seq<char>| envelope_names().contains(f))
}

/// The envelope-duplicating names among the payload struct's field names,
/// in declaration order.
pub fn envelope_fields(fields: &[String]) -> (r: Vec<String>)
    ensures
        strs_view(r@) == envelope_subset(strs_view(fields@)),
{
    let mut out: Vec<String> = Vec::new();
    let mut i: usize = 0;
    assert(strs_view(fields@).take(0).filter(|f: Seq<char>| envelope_names().contains(f)) =~= Seq::<
        Seq<char>,
    >::empty());
    while i < fields.len()
        invariant
            i <= fields.len(),
            strs_view(out@) == strs_view(fields@).take(i as int).filter(
                |f: Seq<char>| envelope_names().contains(f),
            ),
        decreases fields.len() - i,
    {
        let ghost prefix = strs_view(fields@).take(i as int);
        assert(strs_view(fields@).take(i + 1) =~= prefix.push(fields@[i as int]@));
        proof {
            prefix.lemma_filter_push(fields@[i as int]@, |f: Seq<char>| envelope_names().contains(f));
        }
        if is_envelope_field(fields[i].as_str()) {
            let ghost before = strs_view(out@);
            out.push(fields[i].clone());
            assert(strs_view(out@) =~= before.push(fields@[i as int]@));
        }
        i = i + 1;
    }
    assert(strs_view(fields@).take(fields.len() as int) =~= strs_view(fields@));
    out
}

/// The message of RIDL-406 for the `keyword` payload `payload` declaring
/// the envelope field `field`.
pub open spec fn envelope_text(keyword: Seq<char>, payload: Seq<char>, field: Seq<char>) -> Seq<char> {
    keyword + " payload `"@ + payload + "` declares `"@ + field
        + "`, which the envelope already carries — every publication is delivered with a timestamp and a sequence number, so the payload need not re-declare them (ridl §3.1). Domain metadata distinct from transport metadata is legitimate: keep the field if it records when the fact occurred rather than when it was published, or if it counts the fact itself rather than the publication carrying it."@
}

/// RIDL-406: one info at the payload reference for every field of the
/// payload struct that duplicates envelope metadata. `keyword` is `signal`
/// or `event`.
pub fn lint_envelope_payload(keyword: &str, payload: &str, fields: &[String], range: TextRange) -> (r:
    Vec<Diagnostic>)
    ensures
        diags_view(r@) == Seq::new(
            envelope_subset(strs_view(fields@)).len(),
            |i: int| (DiagCode::RIDL_406, Severity::Info, DETACHED, range),
        ),
        diag_messages(r@) == envelope_subset(strs_view(fields@)).map_values(
            |f: Seq<char>| envelope_text(keyword@, payload@, f),
        ),
{
    let found = envelope_fields(fields);
    let mut out: Vec<Diagnostic> = Vec::new();
    let mut i: usize = 0;
    while i < found.len()
        invariant
            i <= found.len(),
            strs_view(found@) == envelope_subset(strs_view(fields@)),
            diags_view(out@) == Seq::new(
                i as nat,
                |j: int| (DiagCode::RIDL_406, Severity::Info, DETACHED, range),
            ),
            diag_messages(out@) == strs_view(found@).take(i as int).map_values(
                |f: Seq<char>| envelope_text(keyword@, payload@, f),
            ),
        decreases found.len() - i,
    {
        let mut message = String::from_str(keyword);
        message.append(" payload `");
        message.append(payload);
        message.append("` declares `");
        message.append(found[i].as_str());
        message.append(
            "`, which the envelope already carries — every publication is delivered with a timestamp and a sequence number, so the payload need not re-declare them (ridl §3.1). Domain metadata distinct from transport metadata is legitimate: keep the field if it records when the fact occurred rather than when it was published, or if it counts the fact itself rather than the publication carrying it.",
        );
        let ghost before = diags_view(out@);
        let ghost before_messages = diag_messages(out@);
        let ghost text = message@;
        out.push(
            Diagnostic {
                code: DiagCode::RIDL_406,
                severity: Severity::Info,
                message,
                file: DETACHED,
                range,
            },
        );
        assert(diags_view(out@) =~= before.push((DiagCode::RIDL_406, Severity::Info, DETACHED, range)));
        assert(diags_view(out@) =~= Seq::new(
            (i + 1) as nat,
            |j: int| (DiagCode::RIDL_406, Severity::Info, DETACHED, range),
        ));
        assert(diag_messages(out@) =~= before_messages.push(text));
        assert(strs_view(found@)[i as int] == found@[i as int]@);
        assert(strs_view(found@).take(i + 1).map_values(|f: Seq<char>| envelope_text(keyword@, payload@, f))
            =~= strs_view(found@).take(i as int).map_values(|f: Seq<char>| envelope_text(keyword@, payload@, f)).push(
            envelope_text(keyword@, payload@, found@[i as int]@),
        ));
        i = i + 1;
    }
    assert(strs_view(found@).take(found.len() as int) =~= strs_view(found@));
    out
}

// ==========================================================================
// RIDL-405 — one error type shared across failure domains
// ==========================================================================

/// The distinct interfaces whose queries name `error` as their failure arm,
/// among `(error, interface)` uses.
pub open spec fn domains_of(uses: Seq<(String, String)>, error: Seq<char>) -> Set<Seq<char>> {
    Set::new(|iface: Seq<char>| exists|i: int| 0 <= i < uses.len() && uses[i].0@ == error && uses[i].1@ == iface)
}

/// The distinct interfaces using `error`, each once, in first-use order.
pub fn error_domains(uses: &[(String, String)], error: &str) -> (r: Vec<String>)
    ensures
        strs_view(r@).to_set() == domains_of(uses@, error@),
        strs_view(r@).no_duplicates(),
{
    let mut out: Vec<String> = Vec::new();
    let mut i: usize = 0;
    while i < uses.len()
        invariant
            i <= uses.len(),
            strs_view(out@).no_duplicates(),
            forall|x: Seq<char>|
                strs_view(out@).contains(x) <==> exists|j: int|
                    0 <= j < i && uses@[j].0@ == error@ && uses@[j].1@ == x,
        decreases uses.len() - i,
    {
        if str_eq(uses[i].0.as_str(), error) {
            let iface = uses[i].1.as_str();
            let mut seen = false;
            let mut k: usize = 0;
            while k < out.len()
                invariant
                    k <= out.len(),
                    seen <==> exists|q: int| 0 <= q < k && strs_view(out@)[q] == iface@,
                decreases out.len() - k,
            {
                if str_eq(out[k].as_str(), iface) {
                    assert(strs_view(out@)[k as int] == iface@);
                    seen = true;
                }
                k = k + 1;
            }
            if !seen {
                let ghost before = strs_view(out@);
                out.push(uses[i].1.clone());
                assert(strs_view(out@) =~= before.push(iface@));
                proof {
                    assert forall|x: Seq<char>|
                        strs_view(out@).contains(x) <==> exists|j: int|
                            0 <= j < i + 1 && uses@[j].0@ == error@ && uses@[j].1@ == x by {
                        if strs_view(out@).contains(x) && x != iface@ {
                            let q = choose|q: int| 0 <= q < strs_view(out@).len() && strs_view(out@)[q] == x;
                            assert(before[q] == x);
                            assert(before.contains(x));
                        }
                        if exists|j: int| 0 <= j < i && uses@[j].0@ == error@ && uses@[j].1@ == x {
                            assert(before.contains(x));
                            let q = choose|q: int| 0 <= q < before.len() && before[q] == x;
                            assert(strs_view(out@)[q] == x);
                        }
                        if x == iface@ {
                            assert(strs_view(out@)[before.len() as int] == x);
                        }
                    }
                }
            } else {
                proof {
                    assert forall|x: Seq<char>|
                        strs_view(out@).contains(x) <==> exists|j: int|
                            0 <= j < i + 1 && uses@[j].0@ == error@ && uses@[j].1@ == x by {
                        if x == iface@ {
                            let q = choose|q: int| 0 <= q < out.len() && strs_view(out@)[q] == iface@;
                            assert(strs_view(out@).contains(x));
                        }
                    }
                }
            }
        } else {
            proof {
                assert forall|x: Seq<char>|
                    strs_view(out@).contains(x) <==> exists|j: int|
                        0 <= j < i + 1 && uses@[j].0@ == error@ && uses@[j].1@ == x by {
                    if exists|j: int| 0 <= j < i + 1 && uses@[j].0@ == error@ && uses@[j].1@ == x {
                        let j = choose|j: int| 0 <= j < i + 1 && uses@[j].0@ == error@ && uses@[j].1@ == x;
                        assert(j < i);
                    }
                }
            }
        }
        i = i + 1;
    }
    proof {
        assert(strs_view(out@).to_set() =~= domains_of(uses@, error@)) by {
            assert forall|x: Seq<char>| strs_view(out@).to_set().contains(x) <==> domains_of(uses@, error@).contains(x) by {}
        }
    }
    out
}

/// RIDL-405: an info at a query's return when its failure arm `error` is the
/// failure arm of queries in at least [`SHARED_ERROR_INTERFACE_THRESHOLD`]
/// distinct interfaces. `uses` pairs every fallible query's error type with
/// the interface declaring it, across the package.
pub fn lint_shared_error(error: &str, uses: &[(String, String)], range: TextRange) -> (r: Option<
    Diagnostic,
>)
    ensures
        r is Some <==> domains_of(uses@, error@).len() >= SHARED_ERROR_INTERFACE_THRESHOLD,
        r matches Some(d) ==> d.code == DiagCode::RIDL_405 && d.severity == Severity::Info
            && d.range == range && d.file == DETACHED,
{
    let domains = error_domains(uses, error);
    proof {
        strs_view(domains@).unique_seq_to_set();
    }
    if domains.len() < SHARED_ERROR_INTERFACE_THRESHOLD {
        return None;
    }
    let sorted = sort_names(domains);
    let mut list = String::new();
    let mut i: usize = 0;
    while i < sorted.len()
        invariant
            i <= sorted.len(),
        decreases sorted.len() - i,
    {
        if i > 0 {
            list.append(", ");
        }
        list.append(sorted[i].as_str());
        i = i + 1;
    }
    let mut message = String::from_str("error type `");
    message.append(error);
    message.append("` is the failure arm of queries in ");
    message.append(crate::text::u64_text(sorted.len() as u64).as_str());
    message.append(" interaction scopes (");
    message.append(list.as_str());
    message.append(
        ") — one error type spanning unrelated failure domains makes each caller handle failures it cannot cause (ridl §10.1)",
    );
    Some(
        Diagnostic {
            code: DiagCode::RIDL_405,
            severity: Severity::Info,
            message,
            file: DETACHED,
            range,
        },
    )
}

/// Whether `a` sorts strictly before `b`, character by character.
pub open spec fn name_lt(a: Seq<char>, b: Seq<char>) -> bool
    decreases a.len(),
{
    if a.len() == 0 {
        b.len() > 0
    } else if b.len() == 0 {
        false
    } else if a[0] != b[0] {
        a[0] < b[0]
    } else {
        name_lt(a.drop_first(), b.drop_first())
    }
}

fn less(a: &str, b: &str) -> (r: bool)
    ensures
        r == name_lt(a@, b@),
{
    let x = str_to_chars(a);
    let y = str_to_chars(b);
    let mut i: usize = 0;
    assert(x@.skip(0) =~= x@ && y@.skip(0) =~= y@);
    while i < x.len() && i < y.len() && x[i] == y[i]
        invariant
            i <= x.len(),
            i <= y.len(),
            x@ == a@,
            y@ == b@,
            name_lt(a@, b@) == name_lt(x@.skip(i as int), y@.skip(i as int)),
        decreases x.len() - i,
    {
        assert(x@.skip(i as int).drop_first() =~= x@.skip(i + 1));
        assert(y@.skip(i as int).drop_first() =~= y@.skip(i + 1));
        i = i + 1;
    }
    if i == x.len() {
        i < y.len()
    } else if i == y.len() {
        false
    } else {
        x[i] < y[i]
    }
}

proof fn lemma_name_lt_asymmetric(a: Seq<char>, b: Seq<char>)
    ensures
        name_lt(a, b) ==> !name_lt(b, a),
    decreases a.len(),
{
    if a.len() > 0 && b.len() > 0 && a[0] == b[0] {
        lemma_name_lt_asymmetric(a.drop_first(), b.drop_first());
    }
}

proof fn lemma_name_lt_transitive(a: Seq<char>, b: Seq<char>, c: Seq<char>)
    ensures
        name_lt(a, b) && name_lt(b, c) ==> name_lt(a, c),
    decreases a.len(),
{
    if a.len() > 0 && b.len() > 0 && c.len() > 0 && a[0] == b[0] && b[0] == c[0] {
        lemma_name_lt_transitive(a.drop_first(), b.drop_first(), c.drop_first());
    }
}

proof fn lemma_name_lt_total(a: Seq<char>, b: Seq<char>)
    ensures
        !name_lt(a, b) && !name_lt(b, a) ==> a == b,
    decreases a.len(),
{
    if a.len() > 0 && b.len() > 0 && a[0] == b[0] {
        lemma_name_lt_total(a.drop_first(), b.drop_first());
        if !name_lt(a, b) && !name_lt(b, a) {
            assert(a =~= seq![a[0]] + a.drop_first());
            assert(b =~= seq![b[0]] + b.drop_first());
        }
    } else if a.len() == 0 && b.len() == 0 {
        assert(a =~= b);
    }
}

/// Not sorting before is transitive.
proof fn lemma_name_le_transitive(a: Seq<char>, b: Seq<char>, c: Seq<char>)
    requires
        !name_lt(b, a),
        !name_lt(c, b),
    ensures
        !name_lt(c, a),
{
    lemma_name_lt_total(a, b);
    lemma_name_lt_total(b, c);
    lemma_name_lt_transitive(a, b, c);
    lemma_name_lt_asymmetric(c, a);
    lemma_name_lt_asymmetric(a, c);
}

/// Names in ascending order: none sorts before an earlier one.
pub open spec fn names_ascending(s: Seq<Seq<char>>) -> bool {
    forall|i: int, j: int| 0 <= i < j < s.len() ==> !name_lt(#[trigger] s[j], #[trigger] s[i])
}

/// The names in ascending order: a permutation of the input in which no
/// name sorts before an earlier one.
fn sort_names(names: Vec<String>) -> (r: Vec<String>)
    ensures
        strs_view(r@).to_multiset() == strs_view(names@).to_multiset(),
        names_ascending(strs_view(r@)),
{
    broadcast use vstd::seq_lib::group_to_multiset_ensures;

    let ghost all = strs_view(names@).to_multiset();
    let mut sorted: Vec<String> = Vec::new();
    let mut rest = names;
    assert(strs_view(sorted@) =~= Seq::<Seq<char>>::empty());
    assert(strs_view(sorted@).to_multiset() =~= vstd::multiset::Multiset::empty());
    assert(strs_view(sorted@).to_multiset().add(strs_view(rest@).to_multiset()) =~= all);
    while rest.len() > 0
        invariant
            strs_view(sorted@).to_multiset().add(strs_view(rest@).to_multiset()) == all,
            names_ascending(strs_view(sorted@)),
        decreases rest.len(),
    {
        let ghost old_rest = strs_view(rest@);
        let ghost old_sorted = strs_view(sorted@);
        let name = rest.pop().unwrap();
        assert(old_rest =~= strs_view(rest@).push(name@));
        proof {
            vstd::seq_lib::to_multiset_build(strs_view(rest@), name@);
        }
        let mut at: usize = 0;
        while at < sorted.len() && less(sorted[at].as_str(), name.as_str())
            invariant
                at <= sorted.len(),
                strs_view(sorted@) == old_sorted,
                forall|k: int| 0 <= k < at ==> name_lt(#[trigger] old_sorted[k], name@),
            decreases sorted.len() - at,
        {
            at = at + 1;
        }
        let ghost view_name = name@;
        sorted.insert(at, name);
        let ghost new_sorted = strs_view(sorted@);
        assert(new_sorted =~= old_sorted.insert(at as int, view_name));
        proof {
            vstd::seq_lib::to_multiset_insert(old_sorted, at as int, view_name);
        }
        assert(new_sorted.to_multiset().add(strs_view(rest@).to_multiset()) =~= all);
        assert forall|i: int, j: int| 0 <= i < j < new_sorted.len() implies !name_lt(
            #[trigger] new_sorted[j],
            #[trigger] new_sorted[i],
        ) by {
            if j < at {
                assert(new_sorted[i] == old_sorted[i] && new_sorted[j] == old_sorted[j]);
            } else if j == at {
                assert(new_sorted[i] == old_sorted[i]);
                lemma_name_lt_asymmetric(old_sorted[i], view_name);
            } else if i > at {
                assert(new_sorted[i] == old_sorted[i - 1] && new_sorted[j] == old_sorted[j - 1]);
            } else if i == at {
                assert(new_sorted[j] == old_sorted[j - 1]);
                assert(!name_lt(old_sorted[at as int], view_name));
                if j - 1 > at {
                    assert(!name_lt(old_sorted[j - 1], old_sorted[at as int]));
                    lemma_name_le_transitive(view_name, old_sorted[at as int], old_sorted[j - 1]);
                }
            } else {
                assert(new_sorted[i] == old_sorted[i] && new_sorted[j] == old_sorted[j - 1]);
            }
        }
    }
    assert(strs_view(rest@) =~= Seq::<Seq<char>>::empty());
    assert(strs_view(sorted@).to_multiset() =~= all);
    sorted
}

// ==========================================================================
// RIDL-308 — a named result union in return position
// ==========================================================================

/// A query return that names a result union: the path as written and where
/// it stands, and the canonical references of the union's success and
/// error arms.
#[derive(Debug, PartialEq, Eq)]
pub struct NamedResult {
    pub written: String,
    pub range: TextRange,
    pub ok: String,
    pub error: String,
}

/// RIDL-308: a named result union in return position, where the inline
/// `T | E` spelling is canonical.
pub fn lint_named_result(named: &NamedResult) -> (r: Diagnostic)
    ensures
        r.code == DiagCode::RIDL_308,
        r.severity == Severity::Warning,
        r.range == named.range,
        r.file == DETACHED,
        r.message@ == "query returns the named result union `"@ + named.written@
            + "` — in return position the inline spelling is canonical: write `"@ + named.ok@ + " | "@
            + named.error@ + "` (general form §6.1)"@,
{
    let mut message = String::from_str("query returns the named result union `");
    message.append(named.written.as_str());
    message.append("` — in return position the inline spelling is canonical: write `");
    message.append(named.ok.as_str());
    message.append(" | ");
    message.append(named.error.as_str());
    message.append("` (general form §6.1)");
    Diagnostic {
        code: DiagCode::RIDL_308,
        severity: Severity::Warning,
        message,
        file: DETACHED,
        range: named.range,
    }
}

// ==========================================================================
// The lint pass
// ==========================================================================

/// A query's return position as the lints read it: where it stands, the
/// named result union it names (if it does), and the failure arm of a
/// fallible return by canonical reference (either spelling).
#[derive(Debug, PartialEq, Eq)]
pub struct QueryReturn {
    pub range: TextRange,
    pub named_result: Option<NamedResult>,
    pub error_arm: Option<String>,
}

/// A `signal` or `event` payload reference: the payload's name, where the
/// reference stands, and the field names of the payload struct (none for a
/// payload that is not a struct).
#[derive(Debug, PartialEq, Eq)]
pub struct Payload {
    pub name: String,
    pub range: TextRange,
    pub fields: Vec<String>,
}

/// One interaction of a lintable scope.
#[derive(Debug, PartialEq, Eq)]
pub enum LintMember {
    Query { name: Option<String>, name_range: TextRange, ret: Option<QueryReturn> },
    Signal { payload: Option<Payload> },
    Event { payload: Option<Payload> },
    Other,
}

/// One lintable interaction scope — a declared interface (only the winner of
/// a duplicated name) or a service's inline shape — with the file it stands
/// in and the name RIDL-405 counts.
#[derive(Debug, PartialEq, Eq)]
pub struct LintScope {
    pub file: usize,
    pub name: String,
    pub members: Vec<LintMember>,
}

/// The `(error type, interface)` uses of the first `n` members of `scope`.
pub open spec fn member_uses(scope: LintScope, n: int) -> Seq<(Seq<char>, Seq<char>)>
    decreases n,
{
    if n <= 0 {
        Seq::empty()
    } else {
        member_uses(scope, n - 1) + match scope.members@[n - 1] {
            LintMember::Query { ret: Some(QueryReturn { error_arm: Some(e), .. }), .. } => seq![
                (e@, scope.name@),
            ],
            _ => Seq::empty(),
        }
    }
}

/// Every fallible query's failure arm paired with its scope's name, across
/// the first `n` scopes.
pub open spec fn error_uses(scopes: Seq<LintScope>, n: int) -> Seq<(Seq<char>, Seq<char>)>
    decreases n,
{
    if n <= 0 {
        Seq::empty()
    } else {
        error_uses(scopes, n - 1) + member_uses(scopes[n - 1], scopes[n - 1].members@.len() as int)
    }
}

pub open spec fn pairs_view(u: Seq<(String, String)>) -> Seq<(Seq<char>, Seq<char>)> {
    u.map_values(|p: (String, String)| (p.0@, p.1@))
}

pub open spec fn domains_in(uses: Seq<(Seq<char>, Seq<char>)>, error: Seq<char>) -> Set<Seq<char>> {
    Set::new(|iface: Seq<char>| exists|i: int| 0 <= i < uses.len() && uses[i].0 == error && uses[i].1 == iface)
}

proof fn lemma_domains_view(uses: Seq<(String, String)>, error: Seq<char>)
    ensures
        domains_of(uses, error) == domains_in(pairs_view(uses), error),
{
    assert forall|x: Seq<char>| domains_of(uses, error).contains(x) <==> domains_in(pairs_view(uses), error).contains(x) by {
        if domains_of(uses, error).contains(x) {
            let i = choose|i: int| 0 <= i < uses.len() && uses[i].0@ == error && uses[i].1@ == x;
            assert(pairs_view(uses)[i] == (uses[i].0@, uses[i].1@));
        }
        if domains_in(pairs_view(uses), error).contains(x) {
            let i = choose|i: int| 0 <= i < pairs_view(uses).len() && pairs_view(uses)[i].0 == error && pairs_view(uses)[i].1 == x;
            assert(pairs_view(uses)[i] == (uses[i].0@, uses[i].1@));
        }
    }
    assert(domains_of(uses, error) =~= domains_in(pairs_view(uses), error));
}

pub open spec fn stamped(ds: Seq<(DiagCode, Severity, usize, TextRange)>, file: usize) -> Seq<(DiagCode, Severity, usize, TextRange)> {
    ds.map_values(|d: (DiagCode, Severity, usize, TextRange)| (d.0, d.1, file, d.3))
}

/// The lints of one member, stamped with `file`: RIDL-404 at a query's name,
/// RIDL-308 at a named result union it returns, RIDL-405 at its return when
/// its failure arm serves enough interfaces; RIDL-406 at a signal's or an
/// event's payload, once per envelope field.
pub open spec fn member_lints(m: LintMember, uses: Seq<(Seq<char>, Seq<char>)>, file: usize) -> Seq<(DiagCode, Severity, usize, TextRange)> {
    match m {
        LintMember::Query { name, name_range, ret } => (match name {
            Some(n) => if first_verb(n@, 0) is Some {
                seq![(DiagCode::RIDL_404, Severity::Warning, file, name_range)]
            } else {
                Seq::empty()
            },
            None => Seq::empty(),
        }) + match ret {
            Some(r) => (match r.named_result {
                Some(nr) => seq![(DiagCode::RIDL_308, Severity::Warning, file, nr.range)],
                None => Seq::empty(),
            }) + match r.error_arm {
                Some(e) => if domains_in(uses, e@).len() >= SHARED_ERROR_INTERFACE_THRESHOLD {
                    seq![(DiagCode::RIDL_405, Severity::Info, file, r.range)]
                } else {
                    Seq::empty()
                },
                None => Seq::empty(),
            },
            None => Seq::empty(),
        },
        LintMember::Signal { payload: Some(p) } | LintMember::Event { payload: Some(p) } => Seq::new(
            envelope_subset(strs_view(p.fields@)).len(),
            |i: int| (DiagCode::RIDL_406, Severity::Info, file, p.range),
        ),
        _ => Seq::empty(),
    }
}

pub open spec fn scope_lints(scope: LintScope, n: int, uses: Seq<(Seq<char>, Seq<char>)>) -> Seq<(DiagCode, Severity, usize, TextRange)>
    decreases n,
{
    if n <= 0 {
        Seq::empty()
    } else {
        scope_lints(scope, n - 1, uses) + member_lints(scope.members@[n - 1], uses, scope.file)
    }
}

pub open spec fn package_lints(scopes: Seq<LintScope>, n: int, uses: Seq<(Seq<char>, Seq<char>)>) -> Seq<(DiagCode, Severity, usize, TextRange)>
    decreases n,
{
    if n <= 0 {
        Seq::empty()
    } else {
        package_lints(scopes, n - 1, uses) + scope_lints(scopes[n - 1], scopes[n - 1].members@.len() as int, uses)
    }
}

fn stamp_into(out: &mut Vec<Diagnostic>, ds: Vec<Diagnostic>, file: usize)
    ensures
        diags_view(final(out)@) == diags_view(old(out)@) + stamped(diags_view(ds@), file),
{
    let ghost start = diags_view(out@);
    let mut i: usize = 0;
    while i < ds.len()
        invariant
            i <= ds.len(),
            diags_view(out@) == start + stamped(diags_view(ds@).take(i as int), file),
        decreases ds.len() - i,
    {
        let d = &ds[i];
        let ghost before = diags_view(out@);
        out.push(Diagnostic { code: d.code, severity: d.severity, message: d.message.clone(), file, range: d.range });
        assert(diags_view(out@) =~= before.push((d.code, d.severity, file, d.range)));
        assert(diags_view(ds@)[i as int] == (d.code, d.severity, d.file, d.range));
        assert(diags_view(ds@).take(i + 1) =~= diags_view(ds@).take(i as int).push(diags_view(ds@)[i as int]));
        assert(stamped(diags_view(ds@).take(i + 1), file) =~= stamped(diags_view(ds@).take(i as int), file).push(
            (d.code, d.severity, file, d.range),
        ));
        assert(diags_view(out@) =~= start + stamped(diags_view(ds@).take(i + 1), file));
        i = i + 1;
    }
    assert(diags_view(ds@).take(ds.len() as int) =~= diags_view(ds@));
}

fn push_one(out: &mut Vec<Diagnostic>, d: Diagnostic, file: usize)
    ensures
        diags_view(final(out)@) == diags_view(old(out)@).push((d.code, d.severity, file, d.range)),
{
    let ghost before = diags_view(out@);
    let (code, severity, range) = (d.code, d.severity, d.range);
    out.push(Diagnostic { code, severity, message: d.message, file, range });
    assert(diags_view(out@) =~= before.push((code, severity, file, range)));
}

fn collect_uses(scopes: &[LintScope]) -> (r: Vec<(String, String)>)
    ensures
        pairs_view(r@) == error_uses(scopes@, scopes.len() as int),
{
    let mut uses: Vec<(String, String)> = Vec::new();
    let mut s: usize = 0;
    assert(pairs_view(uses@) =~= Seq::empty());
    while s < scopes.len()
        invariant
            s <= scopes.len(),
            pairs_view(uses@) == error_uses(scopes@, s as int),
        decreases scopes.len() - s,
    {
        let scope = &scopes[s];
        let ghost base = pairs_view(uses@);
        let mut m: usize = 0;
        assert(base + member_uses(*scope, 0) =~= base);
        while m < scope.members.len()
            invariant
                m <= scope.members.len(),
                scope == &scopes@[s as int],
                pairs_view(uses@) == base + member_uses(*scope, m as int),
            decreases scope.members.len() - m,
        {
            let ghost before = pairs_view(uses@);
            if let LintMember::Query { ret: Some(QueryReturn { error_arm: Some(e), .. }), .. } = &scope.members[m] {
                uses.push((e.clone(), scope.name.clone()));
                assert(pairs_view(uses@) =~= before.push((e@, scope.name@)));
            }
            assert(pairs_view(uses@) =~= base + member_uses(*scope, m + 1));
            m = m + 1;
        }
        s = s + 1;
    }
    uses
}

/// Runs the lints over the package's interaction scopes ([`package_lints`]):
/// the error-type uses are tallied across the whole package first
/// ([`error_uses`]), then every member is linted, its diagnostics stamped
/// with its scope's file.
pub fn lint_package(scopes: &[LintScope]) -> (r: Vec<Diagnostic>)
    ensures
        diags_view(r@) == package_lints(
            scopes@,
            scopes.len() as int,
            error_uses(scopes@, scopes.len() as int),
        ),
{
    let uses = collect_uses(scopes);
    let ghost uv = error_uses(scopes@, scopes.len() as int);
    let mut out: Vec<Diagnostic> = Vec::new();
    let mut s: usize = 0;
    assert(diags_view(out@) =~= Seq::empty());
    while s < scopes.len()
        invariant
            s <= scopes.len(),
            pairs_view(uses@) == uv,
            diags_view(out@) == package_lints(scopes@, s as int, uv),
        decreases scopes.len() - s,
    {
        let scope = &scopes[s];
        let file = scope.file;
        let ghost base = diags_view(out@);
        let mut m: usize = 0;
        assert(base + scope_lints(*scope, 0, uv) =~= base);
        while m < scope.members.len()
            invariant
                m <= scope.members.len(),
                scope == &scopes@[s as int],
                file == scope.file,
                pairs_view(uses@) == uv,
                diags_view(out@) == base + scope_lints(*scope, m as int, uv),
            decreases scope.members.len() - m,
        {
            let ghost before = diags_view(out@);
            match &scope.members[m] {
                LintMember::Query { name, name_range, ret } => {
                    if let Some(n) = name {
                        if let Some(d) = lint_query_name(n.as_str(), *name_range) {
                            push_one(&mut out, d, file);
                        }
                    }
                    let ghost after_name = diags_view(out@);
                    if let Some(r) = ret {
                        if let Some(nr) = &r.named_result {
                            push_one(&mut out, lint_named_result(nr), file);
                        }
                        if let Some(e) = &r.error_arm {
                            proof {
                                lemma_domains_view(uses@, e@);
                            }
                            if let Some(d) = lint_shared_error(e.as_str(), uses.as_slice(), r.range) {
                                push_one(&mut out, d, file);
                            }
                        }
                    }
                    assert(diags_view(out@) =~= before + member_lints(scope.members@[m as int], uv, file));
                },
                LintMember::Signal { payload } => {
                    if let Some(p) = payload {
                        let ds = lint_envelope_payload("signal", p.name.as_str(), p.fields.as_slice(), p.range);
                        stamp_into(&mut out, ds, file);
                    }
                    assert(diags_view(out@) =~= before + member_lints(scope.members@[m as int], uv, file));
                },
                LintMember::Event { payload } => {
                    if let Some(p) = payload {
                        let ds = lint_envelope_payload("event", p.name.as_str(), p.fields.as_slice(), p.range);
                        stamp_into(&mut out, ds, file);
                    }
                    assert(diags_view(out@) =~= before + member_lints(scope.members@[m as int], uv, file));
                },
                LintMember::Other => {
                    assert(diags_view(out@) =~= before + member_lints(scope.members@[m as int], uv, file));
                },
            }
            assert(diags_view(out@) =~= base + scope_lints(*scope, m + 1, uv));
            m = m + 1;
        }
        s = s + 1;
    }
    out
}

} // verus!
