//! Doc-comment tag scanning.
//!
//! A definition's doc comments are the comment tokens sitting before it. This
//! module strips the comment markers, separates the prose body from the
//! `@see` / `@labels` / `@deprecated` tags, and records whether `@deprecated`
//! carried a reason string. `@see` is an unvalidated pass-through, and
//! `@labels` identifiers are carried through unchecked.

use vstd::prelude::*;

use crate::chars::{chars_to_string, str_to_chars};
use crate::diag::{diag_messages, diags_view, DiagCode, Diagnostic, Severity, DETACHED};
use crate::exact::slice_chars_pub;
use crate::syntax::TextRange;
use crate::expr::strs_view;
use crate::text::{
    char_is_ws, chars_view, is_ws, join_chars, join_lines, lines_chars, lines_of, split_chars,
    split_on, trim, trim_chars, trim_start,
};

verus! {

/// The parsed content of a definition's doc comments.
#[derive(Debug, PartialEq, Eq)]
pub struct DocInfo {
    /// The prose body: every non-tag line with its comment markers stripped,
    /// joined by newlines and trimmed. Empty when the comment is only tags.
    pub doc: String,
    /// The `@labels` classification identifiers, in source order.
    pub labels: Vec<String>,
    /// The `@deprecated` reason, when the tag is present. `Some("")` records a
    /// `@deprecated` with no reason string.
    pub deprecated: Option<String>,
}

impl Default for DocInfo {
    fn default() -> (r: DocInfo)
        ensures
            r.doc@.len() == 0,
            r.labels@.len() == 0,
            r.deprecated is None,
    {
        DocInfo { doc: String::new(), labels: Vec::new(), deprecated: None }
    }
}

impl DocInfo {
    /// Whether a `@deprecated` tag was present but carried no reason string.
    pub fn deprecated_missing_reason(&self) -> (r: bool)
        ensures
            r == (self.deprecated matches Some(reason) && reason@.len() == 0),
    {
        match &self.deprecated {
            Some(reason) => reason.as_str().is_empty(),
            None => false,
        }
    }
}

// ==========================================================================
// The model
// ==========================================================================

/// The trimmed remainder of `line` after `tag` as a whole word at its start:
/// the tag must be followed by the end of the line or by whitespace, so
/// `@see` matches `@see Foo` but not `@seealso`.
pub open spec fn tag_rest(line: Seq<char>, tag: Seq<char>) -> Option<Seq<char>> {
    if tag.len() <= line.len() && line.take(tag.len() as int) == tag {
        let rest = line.skip(tag.len() as int);
        if rest.len() == 0 || is_ws(rest[0]) {
            Some(trim_start(rest))
        } else {
            None
        }
    } else {
        None
    }
}

/// The reason of a `@deprecated` tag: the inner text of a quoted
/// `"reason"`, else the trimmed value as written (empty when there is none).
pub open spec fn reason_text(rest: Seq<char>) -> Seq<char> {
    let r = trim(rest);
    if r.len() >= 2 && r[0] == '"' && r.last() == '"' {
        r.subrange(1, r.len() - 1)
    } else {
        r
    }
}

/// The non-empty trimmed pieces, in order.
pub open spec fn kept_labels(pieces: Seq<Seq<char>>) -> Seq<Seq<char>>
    decreases pieces.len(),
{
    if pieces.len() == 0 {
        Seq::empty()
    } else {
        let kept = kept_labels(pieces.drop_last());
        let label = trim(pieces.last());
        if label.len() > 0 {
            kept.push(label)
        } else {
            kept
        }
    }
}

/// What scanning has gathered so far: the body lines, the labels, and the
/// `@deprecated` reason.
pub struct SDoc {
    pub body: Seq<Seq<char>>,
    pub labels: Seq<Seq<char>>,
    pub deprecated: Option<Seq<char>>,
}

pub open spec fn see_tag() -> Seq<char> {
    seq!['@', 's', 'e', 'e']
}

pub open spec fn labels_tag() -> Seq<char> {
    seq!['@', 'l', 'a', 'b', 'e', 'l', 's']
}

pub open spec fn deprecated_tag() -> Seq<char> {
    seq!['@', 'd', 'e', 'p', 'r', 'e', 'c', 'a', 't', 'e', 'd']
}

/// One comment line read into the gathered state: `@see` is dropped,
/// `@labels` adds its comma-separated labels, `@deprecated` sets the reason
/// (a later one wins), and any other line joins the body.
pub open spec fn scan_step(acc: SDoc, raw: Seq<char>) -> SDoc {
    let line = trim(raw);
    if tag_rest(line, see_tag()) is Some {
        acc
    } else if tag_rest(line, labels_tag()) is Some {
        SDoc {
            labels: acc.labels + kept_labels(split_on(tag_rest(line, labels_tag())->0, ',')),
            ..acc
        }
    } else if tag_rest(line, deprecated_tag()) is Some {
        SDoc { deprecated: Some(reason_text(tag_rest(line, deprecated_tag())->0)), ..acc }
    } else {
        SDoc { body: acc.body.push(line), ..acc }
    }
}

/// All the lines read in order.
pub open spec fn scan_lines(lines: Seq<Seq<char>>) -> SDoc
    decreases lines.len(),
{
    if lines.len() == 0 {
        SDoc { body: Seq::empty(), labels: Seq::empty(), deprecated: None }
    } else {
        scan_step(scan_lines(lines.drop_last()), lines.last())
    }
}

pub open spec fn slashes() -> Seq<char> {
    seq!['/', '/', '/']
}

pub open spec fn block_open() -> Seq<char> {
    seq!['/', '*', '*']
}

/// `s` without the `*` characters it starts with.
pub open spec fn strip_stars(s: Seq<char>) -> Seq<char>
    decreases s.len(),
{
    if s.len() > 0 && s[0] == '*' {
        strip_stars(s.drop_first())
    } else {
        s
    }
}

/// The marker-stripped lines of one doc-comment token: a `///` line comment
/// is one line; a `/** ... */` block is one line per source line, each with
/// a leading `*` gutter removed; any other text is itself, trimmed.
pub open spec fn comment_lines(text: Seq<char>) -> Seq<Seq<char>> {
    if text.len() >= 3 && text.take(3) == slashes() {
        seq![trim(text.skip(3))]
    } else if text.len() >= 5 && text.take(3) == block_open() && text[text.len() - 2] == '*'
        && text.last() == '/' {
        lines_of(text.subrange(3, text.len() - 2)).map_values(
            |l: Seq<char>| trim(strip_stars(trim(l))),
        )
    } else {
        seq![trim(text)]
    }
}

/// The lines of all the tokens, in order.
pub open spec fn token_lines(tokens: Seq<Seq<char>>) -> Seq<Seq<char>>
    decreases tokens.len(),
{
    if tokens.len() == 0 {
        Seq::empty()
    } else {
        token_lines(tokens.drop_last()) + comment_lines(tokens.last())
    }
}

// ==========================================================================
// Scanning
// ==========================================================================

/// `cs[from..from + word.len()]` equals `word`.
fn has_at(cs: &Vec<char>, from: usize, word: &Vec<char>) -> (r: bool)
    requires
        from <= cs.len(),
    ensures
        r == (from + word.len() <= cs.len() && cs@.subrange(from as int, from + word.len())
            == word@),
{
    if word.len() > cs.len() - from {
        return false;
    }
    let mut i: usize = 0;
    while i < word.len()
        invariant
            i <= word.len(),
            from + word.len() <= cs.len(),
            forall|j: int| 0 <= j < i ==> cs@[from + j] == word@[j],
        decreases word.len() - i,
    {
        if cs[from + i] != word[i] {
            assert(cs@.subrange(from as int, from + word.len())[i as int] != word@[i as int]);
            return false;
        }
        i = i + 1;
    }
    assert(cs@.subrange(from as int, from + word.len()) =~= word@);
    true
}

/// [`tag_rest`] over `line`.
fn match_tag(line: &Vec<char>, tag: &Vec<char>) -> (r: Option<Vec<char>>)
    ensures
        match r {
            Some(rest) => tag_rest(line@, tag@) == Some(rest@),
            None => tag_rest(line@, tag@) is None,
        },
{
    if !has_at(line, 0, tag) {
        assert(tag@.len() <= line@.len() ==> line@.subrange(0, tag@.len() as int) == line@.take(
            tag@.len() as int,
        ));
        return None;
    }
    assert(line@.subrange(0, tag@.len() as int) =~= line@.take(tag@.len() as int));
    let n = tag.len();
    assert(line@.skip(n as int) =~= line@.subrange(n as int, line@.len() as int));
    if n < line.len() && !char_is_ws(line[n]) {
        return None;
    }
    let mut s = n;
    while s < line.len() && char_is_ws(line[s])
        invariant
            n <= s <= line.len(),
            forall|j: int| n <= j < s ==> is_ws(#[trigger] line@[j]),
        decreases line.len() - s,
    {
        s = s + 1;
    }
    let ghost rest = line@.skip(n as int);
    proof {
        assert forall|j: int| 0 <= j < s - n implies is_ws(#[trigger] rest[j]) by {
            assert(rest[j] == line@[n + j]);
        }
        if s < line.len() {
            assert(rest[s - n] == line@[s as int]);
        }
        crate::text::lemma_ws_prefix(rest, s - n);
        assert(trim_start(rest) =~= line@.subrange(s as int, line@.len() as int));
    }
    Some(slice_chars_pub(line, s, line.len()))
}

/// [`reason_text`] of `rest`.
fn deprecated_reason(rest: &Vec<char>) -> (r: Vec<char>)
    ensures
        r@ == reason_text(rest@),
{
    let r = trim_chars(rest, 0, rest.len());
    assert(rest@.subrange(0, rest@.len() as int) =~= rest@);
    if r.len() >= 2 && r[0] == '"' && r[r.len() - 1] == '"' {
        slice_chars_pub(&r, 1, r.len() - 1)
    } else {
        r
    }
}

/// [`strip_stars`] of `cs[from..to]`, as a start index.
fn star_end(cs: &Vec<char>, from: usize, to: usize) -> (r: usize)
    requires
        from <= to <= cs.len(),
    ensures
        from <= r <= to,
        strip_stars(cs@.subrange(from as int, to as int)) == cs@.subrange(r as int, to as int),
    decreases to - from,
{
    if from < to && cs[from] == '*' {
        assert(cs@.subrange(from as int, to as int).drop_first() =~= cs@.subrange(
            from + 1,
            to as int,
        ));
        star_end(cs, from + 1, to)
    } else {
        from
    }
}

/// [`comment_lines`] of one token's text.
fn comment_lines_of(text: &str) -> (r: Vec<Vec<char>>)
    ensures
        chars_view(r@) == comment_lines(text@),
{
    let cs = str_to_chars(text);
    let n = cs.len();
    let slashes_v: Vec<char> = vec!['/', '/', '/'];
    let open_v: Vec<char> = vec!['/', '*', '*'];
    assert(slashes_v@ =~= slashes());
    assert(open_v@ =~= block_open());
    if has_at(&cs, 0, &slashes_v) {
        assert(cs@.subrange(0, 3) =~= cs@.take(3));
        assert(cs@.skip(3) =~= cs@.subrange(3, n as int));
        let line = trim_chars(&cs, 3, n);
        let mut out: Vec<Vec<char>> = Vec::new();
        out.push(line);
        assert(chars_view(out@) =~= seq![trim(cs@.skip(3))]);
        return out;
    }
    assert(n >= 3 ==> cs@.subrange(0, 3) == cs@.take(3));
    if n >= 5 && has_at(&cs, 0, &open_v) && cs[n - 2] == '*' && cs[n - 1] == '/' {
        assert(cs@.subrange(0, 3) =~= cs@.take(3));
        let lines = lines_chars(&cs, 3, n - 2);
        let mut out: Vec<Vec<char>> = Vec::new();
        let mut i: usize = 0;
        let ghost mapped = lines_of(cs@.subrange(3, n - 2)).map_values(
            |l: Seq<char>| trim(strip_stars(trim(l))),
        );
        while i < lines.len()
            invariant
                i <= lines.len(),
                chars_view(lines@) == lines_of(cs@.subrange(3, n - 2)),
                mapped == lines_of(cs@.subrange(3, n - 2)).map_values(
                    |l: Seq<char>| trim(strip_stars(trim(l))),
                ),
                chars_view(out@) == mapped.take(i as int),
            decreases lines.len() - i,
        {
            let inner = trim_chars(&lines[i], 0, lines[i].len());
            assert(lines[i as int]@.subrange(0, lines[i as int]@.len() as int) =~= lines[i as int]@);
            let k = star_end(&inner, 0, inner.len());
            assert(inner@.subrange(0, inner@.len() as int) =~= inner@);
            let line = trim_chars(&inner, k, inner.len());
            let ghost before = chars_view(out@);
            out.push(line);
            assert(chars_view(out@) =~= before.push(line@));
            assert(chars_view(lines@)[i as int] == lines[i as int]@);
            assert(mapped.take(i + 1) =~= mapped.take(i as int).push(mapped[i as int]));
            i = i + 1;
        }
        assert(mapped.take(lines.len() as int) =~= mapped);
        return out;
    }
    let line = trim_chars(&cs, 0, n);
    assert(cs@.subrange(0, n as int) =~= cs@);
    let mut out: Vec<Vec<char>> = Vec::new();
    out.push(line);
    assert(chars_view(out@) =~= seq![trim(cs@)]);
    out
}

/// The labels of one `@labels` remainder: its comma-separated pieces,
/// trimmed, the empty ones dropped.
fn labels_of(rest: &Vec<char>) -> (r: Vec<String>)
    ensures
        strs_view(r@) == kept_labels(split_on(rest@, ',')),
{
    let pieces = split_chars(rest, 0, rest.len(), ',');
    assert(rest@.subrange(0, rest@.len() as int) =~= rest@);
    let mut out: Vec<String> = Vec::new();
    let mut i: usize = 0;
    assert(chars_view(pieces@).take(0) =~= Seq::<Seq<char>>::empty());
    assert(strs_view(out@) =~= Seq::<Seq<char>>::empty());
    while i < pieces.len()
        invariant
            i <= pieces.len(),
            chars_view(pieces@) == split_on(rest@, ','),
            strs_view(out@) == kept_labels(chars_view(pieces@).take(i as int)),
        decreases pieces.len() - i,
    {
        let ghost prefix = chars_view(pieces@).take(i + 1);
        assert(prefix.drop_last() =~= chars_view(pieces@).take(i as int));
        assert(prefix.last() == pieces[i as int]@);
        let label = trim_chars(&pieces[i], 0, pieces[i].len());
        assert(pieces[i as int]@.subrange(0, pieces[i as int]@.len() as int) =~= pieces[i as int]@);
        if label.len() > 0 {
            let ghost before = strs_view(out@);
            out.push(chars_to_string(label));
            assert(strs_view(out@) =~= before.push(label@));
        }
        i = i + 1;
    }
    assert(chars_view(pieces@).take(pieces.len() as int) =~= chars_view(pieces@));
    out
}

/// The model of the state a scan has gathered.
pub open spec fn sdoc_of(body: Seq<Vec<char>>, labels: Seq<String>, deprecated: Option<Vec<char>>) -> SDoc {
    SDoc {
        body: chars_view(body),
        labels: strs_view(labels),
        deprecated: match deprecated {
            Some(d) => Some(d@),
            None => None,
        },
    }
}

/// Reads one raw line into the gathered state ([`scan_step`]).
fn read_line(
    raw: &Vec<char>,
    body: &mut Vec<Vec<char>>,
    labels: &mut Vec<String>,
    deprecated: &mut Option<Vec<char>>,
)
    ensures
        sdoc_of(final(body)@, final(labels)@, *final(deprecated)) == scan_step(
            sdoc_of(old(body)@, old(labels)@, *old(deprecated)),
            raw@,
        ),
{
    let line = trim_chars(raw, 0, raw.len());
    assert(raw@.subrange(0, raw@.len() as int) =~= raw@);
    let see_v: Vec<char> = vec!['@', 's', 'e', 'e'];
    let labels_v: Vec<char> = vec!['@', 'l', 'a', 'b', 'e', 'l', 's'];
    let deprecated_v: Vec<char> = vec!['@', 'd', 'e', 'p', 'r', 'e', 'c', 'a', 't', 'e', 'd'];
    assert(see_v@ =~= see_tag());
    assert(labels_v@ =~= labels_tag());
    assert(deprecated_v@ =~= deprecated_tag());
    if match_tag(&line, &see_v).is_some() {
        return;
    }
    if let Some(rest) = match_tag(&line, &labels_v) {
        let mut found = labels_of(&rest);
        let ghost before = strs_view(labels@);
        let ghost added = strs_view(found@);
        labels.append(&mut found);
        assert(strs_view(labels@) =~= before + added);
        return;
    }
    if let Some(rest) = match_tag(&line, &deprecated_v) {
        *deprecated = Some(deprecated_reason(&rest));
        return;
    }
    let ghost before = chars_view(body@);
    body.push(line);
    assert(chars_view(body@) =~= before.push(trim(raw@)));
}

/// Scans the texts of the doc-comment tokens preceding a definition, in
/// source order, into a [`DocInfo`]: `///` line comments and `/** ... */`
/// block comments are both accepted ([`comment_lines`], [`scan_lines`]).
pub fn scan(tokens: &[String]) -> (r: DocInfo)
    ensures
        r.doc@ == trim(join_lines(scan_lines(token_lines(strs_view(tokens@))).body)),
        strs_view(r.labels@) == scan_lines(token_lines(strs_view(tokens@))).labels,
        match r.deprecated {
            Some(d) => scan_lines(token_lines(strs_view(tokens@))).deprecated == Some(d@),
            None => scan_lines(token_lines(strs_view(tokens@))).deprecated is None,
        },
{
    let mut body: Vec<Vec<char>> = Vec::new();
    let mut labels: Vec<String> = Vec::new();
    let mut deprecated: Option<Vec<char>> = None;
    let mut t: usize = 0;
    assert(strs_view(tokens@).take(0) =~= Seq::<Seq<char>>::empty());
    assert(sdoc_of(body@, labels@, deprecated) == scan_lines(Seq::empty())) by {
        assert(chars_view(body@) =~= Seq::<Seq<char>>::empty());
        assert(strs_view(labels@) =~= Seq::<Seq<char>>::empty());
    }
    while t < tokens.len()
        invariant
            t <= tokens.len(),
            sdoc_of(body@, labels@, deprecated) == scan_lines(
                token_lines(strs_view(tokens@).take(t as int)),
            ),
        decreases tokens.len() - t,
    {
        let lines = comment_lines_of(tokens[t].as_str());
        let ghost done = token_lines(strs_view(tokens@).take(t as int));
        let mut j: usize = 0;
        assert(done + chars_view(lines@).take(0) =~= done);
        while j < lines.len()
            invariant
                j <= lines.len(),
                sdoc_of(body@, labels@, deprecated) == scan_lines(
                    done + chars_view(lines@).take(j as int),
                ),
            decreases lines.len() - j,
        {
            read_line(&lines[j], &mut body, &mut labels, &mut deprecated);
            let ghost next = done + chars_view(lines@).take(j + 1);
            assert(next.drop_last() =~= done + chars_view(lines@).take(j as int));
            assert(next.last() == lines[j as int]@);
            j = j + 1;
        }
        let ghost prefix = strs_view(tokens@).take(t + 1);
        assert(prefix.drop_last() =~= strs_view(tokens@).take(t as int));
        assert(prefix.last() == tokens@[t as int]@);
        assert(done + chars_view(lines@).take(lines.len() as int) =~= token_lines(prefix));
        t = t + 1;
    }
    assert(strs_view(tokens@).take(tokens.len() as int) =~= strs_view(tokens@));
    let joined = join_chars(&body);
    let doc = trim_chars(&joined, 0, joined.len());
    assert(joined@.subrange(0, joined@.len() as int) =~= joined@);
    DocInfo {
        doc: chars_to_string(doc),
        labels,
        deprecated: match deprecated {
            Some(d) => Some(chars_to_string(d)),
            None => None,
        },
    }
}

// ==========================================================================
// The envelope of a definition
// ==========================================================================

/// The number of newlines in `s`.
pub open spec fn newline_count(s: Seq<char>) -> nat
    decreases s.len(),
{
    if s.len() == 0 {
        0
    } else {
        newline_count(s.drop_last()) + if s.last() == '\n' {
            1nat
        } else {
            0nat
        }
    }
}

/// Whether a blank line separates a definition from its doc comment: it has
/// doc comments, and the token directly before it is whitespace (`gap`)
/// holding two or more newlines.
pub open spec fn blank_line_rule(docs: Seq<Seq<char>>, gap: Option<Seq<char>>) -> bool {
    docs.len() > 0 && (gap matches Some(g) && newline_count(g) >= 2)
}

/// Whether a blank line separates a definition from its doc comments
/// ([`blank_line_rule`]); `gap` is the whitespace token directly before the
/// definition, when that token is whitespace.
pub fn blank_line_before_definition(docs: &[String], gap: &Option<String>) -> (r: bool)
    ensures
        r == blank_line_rule(strs_view(docs@), match gap {
            Some(g) => Some(g@),
            None => None,
        }),
{
    if docs.len() == 0 {
        return false;
    }
    match gap {
        None => false,
        Some(g) => {
            let cs = str_to_chars(g.as_str());
            let mut count: usize = 0;
            let mut i: usize = 0;
            while i < cs.len()
                invariant
                    i <= cs.len(),
                    cs@ == g@,
                    count == newline_count(cs@.take(i as int)),
                    count <= i,
                decreases cs.len() - i,
            {
                assert(cs@.take(i + 1).drop_last() =~= cs@.take(i as int));
                if cs[i] == '\n' {
                    count = count + 1;
                }
                i = i + 1;
            }
            assert(cs@.take(cs.len() as int) =~= cs@);
            count >= 2
        },
    }
}

/// The kind of a top-level typl definition.
#[derive(Debug, Clone, Copy, PartialEq, Eq, Structural)]
pub enum DefinitionKind {
    Type,
    Const,
    Struct,
    Enum,
    EnumSet,
    Union,
}

/// The envelope diagnostics of a definition named at `name_range`, in order:
/// TYPL-212 for the `error` modifier on a `type` or a `const` (failure
/// vocabulary is for composites); TYPL-405 for an `@deprecated` tag without
/// a reason; TYPL-404 for a blank line between the doc comments and the
/// definition.
pub open spec fn envelope_rule(
    kind: DefinitionKind,
    is_error: bool,
    name_range: TextRange,
    docs: Seq<Seq<char>>,
    gap: Option<Seq<char>>,
) -> Seq<(DiagCode, Severity, usize, TextRange)> {
    (if is_error && (kind == DefinitionKind::Type || kind == DefinitionKind::Const) {
        seq![(DiagCode::TYPL_212, Severity::Error, DETACHED, name_range)]
    } else {
        Seq::empty()
    }) + (if scan_lines(token_lines(docs)).deprecated == Some(Seq::<char>::empty()) {
        seq![(DiagCode::TYPL_405, Severity::Warning, DETACHED, name_range)]
    } else {
        Seq::empty()
    }) + (if blank_line_rule(docs, gap) {
        seq![(DiagCode::TYPL_404, Severity::Warning, DETACHED, name_range)]
    } else {
        Seq::empty()
    })
}

/// The messages of [`envelope_rule`]'s diagnostics, naming the definition
/// `name` or its kind.
pub open spec fn envelope_messages(
    kind: DefinitionKind,
    is_error: bool,
    name: Seq<char>,
    docs: Seq<Seq<char>>,
    gap: Option<Seq<char>>,
) -> Seq<Seq<char>> {
    (if is_error && (kind == DefinitionKind::Type || kind == DefinitionKind::Const) {
        seq![
            "`error` is not valid on a `"@ + (if kind == DefinitionKind::Type {
                "type"@
            } else {
                "const"@
            }) + "` declaration — only `struct`, `enum`, and `union`"@,
        ]
    } else {
        Seq::empty()
    }) + (if scan_lines(token_lines(docs)).deprecated == Some(Seq::<char>::empty()) {
        seq!["`@deprecated` on `"@ + name + "` has no reason string"@]
    } else {
        Seq::empty()
    }) + (if blank_line_rule(docs, gap) {
        seq!["blank line between the doc comment and `"@ + name + "`"@]
    } else {
        Seq::empty()
    })
}

/// Reads a definition's doc comments ([`scan`]) and checks its envelope
/// ([`envelope_rule`]).
pub fn check_definition_envelope(
    kind: DefinitionKind,
    is_error: bool,
    name: &str,
    name_range: TextRange,
    docs: &[String],
    gap: &Option<String>,
) -> (r: (DocInfo, Vec<Diagnostic>))
    ensures
        r.0.doc@ == trim(join_lines(scan_lines(token_lines(strs_view(docs@))).body)),
        strs_view(r.0.labels@) == scan_lines(token_lines(strs_view(docs@))).labels,
        match r.0.deprecated {
            Some(d) => scan_lines(token_lines(strs_view(docs@))).deprecated == Some(d@),
            None => scan_lines(token_lines(strs_view(docs@))).deprecated is None,
        },
        diags_view(r.1@) == envelope_rule(kind, is_error, name_range, strs_view(docs@), match gap {
            Some(g) => Some(g@),
            None => None,
        }),
        diag_messages(r.1@) == envelope_messages(kind, is_error, name@, strs_view(docs@), match gap {
            Some(g) => Some(g@),
            None => None,
        }),
{
    let mut out: Vec<Diagnostic> = Vec::new();
    if is_error && (kind == DefinitionKind::Type || kind == DefinitionKind::Const) {
        let what = if kind == DefinitionKind::Type {
            "type"
        } else {
            "const"
        };
        let mut message = String::from_str("`error` is not valid on a `");
        message.append(what);
        message.append("` declaration — only `struct`, `enum`, and `union`");
        out.push(Diagnostic { code: DiagCode::TYPL_212, severity: Severity::Error, message, file: DETACHED, range: name_range });
    }
    let ghost first = diags_view(out@);
    let info = scan(docs);
    if info.deprecated_missing_reason() {
        let mut message = String::from_str("`@deprecated` on `");
        message.append(name);
        message.append("` has no reason string");
        out.push(Diagnostic { code: DiagCode::TYPL_405, severity: Severity::Warning, message, file: DETACHED, range: name_range });
    }
    proof {
        if info.deprecated is Some && info.deprecated->0@.len() == 0 {
            assert(info.deprecated->0@ =~= Seq::<char>::empty());
        }
    }
    let ghost second = diags_view(out@);
    if blank_line_before_definition(docs, gap) {
        let mut message = String::from_str("blank line between the doc comment and `");
        message.append(name);
        message.append("`");
        out.push(Diagnostic { code: DiagCode::TYPL_404, severity: Severity::Warning, message, file: DETACHED, range: name_range });
    }
    assert(diags_view(out@) =~= envelope_rule(kind, is_error, name_range, strs_view(docs@), match gap {
        Some(g) => Some(g@),
        None => None,
    }));
    assert(diag_messages(out@) =~= envelope_messages(kind, is_error, name@, strs_view(docs@), match gap {
        Some(g) => Some(g@),
        None => None,
    }));
    (info, out)
}

/// The `error` modifier is failure vocabulary for composites: a definition's
/// envelope raises TYPL-212 exactly when it carries `error` and is a `type`
/// or a `const` — never on an `error struct`, `error enum` or `error union`,
/// nor without the modifier — and then once, at the definition's name.
pub proof fn law_error_modifier_only_on_composites(
    kind: DefinitionKind,
    is_error: bool,
    name_range: TextRange,
    docs: Seq<Seq<char>>,
    gap: Option<Seq<char>>,
)
    ensures
        (exists|i: int|
            0 <= i < envelope_rule(kind, is_error, name_range, docs, gap).len() && (#[trigger] envelope_rule(
                kind,
                is_error,
                name_range,
                docs,
                gap,
            )[i]).0 == DiagCode::TYPL_212) <==> (is_error && (kind == DefinitionKind::Type || kind
            == DefinitionKind::Const)),
        forall|i: int|
            0 <= i < envelope_rule(kind, is_error, name_range, docs, gap).len() && (#[trigger] envelope_rule(
                kind,
                is_error,
                name_range,
                docs,
                gap,
            )[i]).0 == DiagCode::TYPL_212 ==> i == 0 && envelope_rule(kind, is_error, name_range, docs, gap)[i]
                == (DiagCode::TYPL_212, Severity::Error, DETACHED, name_range),
        (kind == DefinitionKind::Struct || kind == DefinitionKind::Enum || kind == DefinitionKind::Union
            || kind == DefinitionKind::EnumSet || !is_error) ==> forall|i: int|
            0 <= i < envelope_rule(kind, is_error, name_range, docs, gap).len() ==> (#[trigger] envelope_rule(
                kind,
                is_error,
                name_range,
                docs,
                gap,
            )[i]).0 != DiagCode::TYPL_212,
{
    let all = envelope_rule(kind, is_error, name_range, docs, gap);
    let head = if is_error && (kind == DefinitionKind::Type || kind == DefinitionKind::Const) {
        seq![(DiagCode::TYPL_212, Severity::Error, DETACHED, name_range)]
    } else {
        Seq::<(DiagCode, Severity, usize, TextRange)>::empty()
    };
    let tail = all.skip(head.len() as int);
    assert(all =~= head + tail);
    assert forall|i: int| 0 <= i < tail.len() implies (#[trigger] tail[i]).0 != DiagCode::TYPL_212 by {
        let d405 = if scan_lines(token_lines(docs)).deprecated == Some(Seq::<char>::empty()) {
            seq![(DiagCode::TYPL_405, Severity::Warning, DETACHED, name_range)]
        } else {
            Seq::<(DiagCode, Severity, usize, TextRange)>::empty()
        };
        let d404 = if blank_line_rule(docs, gap) {
            seq![(DiagCode::TYPL_404, Severity::Warning, DETACHED, name_range)]
        } else {
            Seq::<(DiagCode, Severity, usize, TextRange)>::empty()
        };
        assert(tail =~= d405 + d404);
        if i < d405.len() {
            assert(tail[i] == d405[i]);
        } else {
            assert(tail[i] == d404[i - d405.len()]);
        }
    }
    if is_error && (kind == DefinitionKind::Type || kind == DefinitionKind::Const) {
        assert(all[0] == head[0]);
        assert forall|i: int| 0 <= i < all.len() && (#[trigger] all[i]).0 == DiagCode::TYPL_212 implies i == 0
            && all[i] == (DiagCode::TYPL_212, Severity::Error, DETACHED, name_range) by {
            if i > 0 {
                assert(all[i] == tail[i - 1]);
            }
        }
    } else {
        assert forall|i: int| 0 <= i < all.len() implies (#[trigger] all[i]).0 != DiagCode::TYPL_212 by {
            assert(all[i] == tail[i]);
        }
    }
}

} // verus!
