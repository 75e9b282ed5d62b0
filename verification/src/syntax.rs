//! The contract-expression syntax: tokens, the expression tree, and the
//! parser for one `require`/`ensure` clause.
//!
//! The tree keeps the shape a lenient parser leaves behind a syntax error: a
//! node whose operand or operator is missing holds `None` there, and every
//! consumer refuses such a node rather than assuming it away.

use vstd::prelude::*;

verus! {

/// A character range `[start, end)` of the clause text.
#[derive(Debug, Clone, Copy, PartialEq, Eq, Structural)]
pub struct TextRange {
    pub start: usize,
    pub end: usize,
}

/// The kinds of token a contract expression is made of.
#[derive(Debug, Clone, Copy, PartialEq, Eq, Structural)]
pub enum TokenKind {
    IntNumber,
    FloatNumber,
    Duration,
    String,
    Regex,
    TrueKw,
    FalseKw,
    Ident,
    Bang,
    Minus,
    Plus,
    Star,
    Slash,
    Percent,
    EqEq,
    Neq,
    Lt,
    Le,
    Gt,
    Ge,
    AmpAmp,
    PipePipe,
    LParen,
    RParen,
    Dot,
    Error,
}

/// One token: its kind, its text, and where it stands.
#[derive(Debug, Clone, PartialEq, Eq)]
pub struct Token {
    pub kind: TokenKind,
    pub text: String,
    pub range: TextRange,
}

/// A contract expression.
#[derive(Debug, PartialEq, Eq)]
pub enum Expr {
    /// A literal token: a number, a duration, `true`/`false`, a string.
    Literal { token: Option<Token>, range: TextRange },
    /// A written parenthesis.
    Paren { inner: Option<Box<Expr>>, range: TextRange },
    /// A bare name.
    Path { name: Option<Token>, range: TextRange },
    /// `!` or unary `-`.
    Prefix { op: Option<Token>, operand: Option<Box<Expr>>, range: TextRange },
    /// `base.member`.
    Member { base: Option<Box<Expr>>, member: Option<Token>, range: TextRange },
    /// A binary operator.
    Binary {
        lhs: Option<Box<Expr>>,
        op: Option<Token>,
        rhs: Option<Box<Expr>>,
        range: TextRange,
    },
}

impl Expr {
    /// The source range of the node.
    pub open spec fn spec_range(&self) -> TextRange {
        match self {
            Expr::Literal { range, .. } => *range,
            Expr::Paren { range, .. } => *range,
            Expr::Path { range, .. } => *range,
            Expr::Prefix { range, .. } => *range,
            Expr::Member { range, .. } => *range,
            Expr::Binary { range, .. } => *range,
        }
    }

    /// The source range of the node.
    pub fn range(&self) -> (r: TextRange)
        ensures
            r == self.spec_range(),
    {
        match self {
            Expr::Literal { range, .. } => *range,
            Expr::Paren { range, .. } => *range,
            Expr::Path { range, .. } => *range,
            Expr::Prefix { range, .. } => *range,
            Expr::Member { range, .. } => *range,
            Expr::Binary { range, .. } => *range,
        }
    }
}

impl Token {
    /// A copy of the token.
    pub fn copy(&self) -> (r: Token)
        ensures
            r == *self,
    {
        Token { kind: self.kind, text: self.text.clone(), range: self.range }
    }
}

// ==========================================================================
// Lexing
// ==========================================================================

pub open spec fn is_ascii_digit(c: char) -> bool {
    '0' <= c <= '9'
}

pub open spec fn is_ascii_letter(c: char) -> bool {
    ('a' <= c <= 'z') || ('A' <= c <= 'Z')
}

pub open spec fn is_ident_start(c: char) -> bool {
    is_ascii_letter(c) || c == '_'
}

pub open spec fn is_ident_continue(c: char) -> bool {
    is_ident_start(c) || is_ascii_digit(c)
}

/// Every token has a non-empty range inside the text, holds exactly the
/// characters of that range, and the tokens follow one another in order.
pub open spec fn tokens_cover(cs: Seq<char>, toks: Seq<Token>) -> bool {
    &&& forall|i: int|
        0 <= i < toks.len() ==> {
            let t = #[trigger] toks[i];
            &&& t.range.start < t.range.end <= cs.len()
            &&& t.text@ == cs.subrange(t.range.start as int, t.range.end as int)
        }
    &&& forall|i: int, j: int|
        0 <= i < j < toks.len() ==> #[trigger] toks[i].range.end <= #[trigger] toks[j].range.start
}

fn char_is_digit(c: char) -> (r: bool)
    ensures
        r == is_ascii_digit(c),
{
    '0' <= c && c <= '9'
}

fn char_is_ident_start(c: char) -> (r: bool)
    ensures
        r == is_ident_start(c),
{
    ('a' <= c && c <= 'z') || ('A' <= c && c <= 'Z') || c == '_'
}

fn char_is_ident_continue(c: char) -> (r: bool)
    ensures
        r == is_ident_continue(c),
{
    char_is_ident_start(c) || char_is_digit(c)
}

/// Whether `cs[from..to]` spells `word`.
pub fn chars_equal(cs: &Vec<char>, from: usize, to: usize, word: &str) -> (r: bool)
    requires
        from <= to <= cs.len(),
    ensures
        r == (cs@.subrange(from as int, to as int) == word@),
{
    let w = crate::chars::str_to_chars(word);
    if to - from != w.len() {
        return false;
    }
    let mut i: usize = 0;
    while i < w.len()
        invariant
            i <= w.len(),
            to - from == w.len(),
            from <= to <= cs.len(),
            w@ == word@,
            forall|j: int| 0 <= j < i ==> cs@[from + j] == w@[j],
        decreases w.len() - i,
    {
        if cs[from + i] != w[i] {
            assert(cs@.subrange(from as int, to as int)[i as int] != word@[i as int]);
            return false;
        }
        i = i + 1;
    }
    assert(cs@.subrange(from as int, to as int) =~= word@);
    true
}

/// The duration units: `ns`, `us`, `ms`, `s`, `min`, `h`.
pub open spec fn duration_unit(t: Seq<char>) -> bool {
    ||| t == "ns"@
    ||| t == "us"@
    ||| t == "ms"@
    ||| t == "s"@
    ||| t == "min"@
    ||| t == "h"@
}

/// Whether `cs[from..to]` is a duration unit.
fn is_duration_unit(cs: &Vec<char>, from: usize, to: usize) -> (r: bool)
    requires
        from <= to <= cs.len(),
    ensures
        r == duration_unit(cs@.subrange(from as int, to as int)),
{
    chars_equal(cs, from, to, "ns") || chars_equal(cs, from, to, "us") || chars_equal(
        cs,
        from,
        to,
        "ms",
    ) || chars_equal(cs, from, to, "s") || chars_equal(cs, from, to, "min") || chars_equal(
        cs,
        from,
        to,
        "h",
    )
}

/// The end of the run of digits starting at `i`.
pub open spec fn digit_run(cs: Seq<char>, i: int) -> int
    decreases cs.len() - i,
{
    if i < 0 || i >= cs.len() || !is_ascii_digit(cs[i]) {
        i
    } else {
        digit_run(cs, i + 1)
    }
}

/// The end of the run of lower-case ASCII letters starting at `i`.
pub open spec fn lower_run(cs: Seq<char>, i: int) -> int
    decreases cs.len() - i,
{
    if i < 0 || i >= cs.len() || !('a' <= cs[i] <= 'z') {
        i
    } else {
        lower_run(cs, i + 1)
    }
}

/// The end of the run of identifier characters starting at `i`.
pub open spec fn ident_run(cs: Seq<char>, i: int) -> int
    decreases cs.len() - i,
{
    if i < 0 || i >= cs.len() || !is_ident_continue(cs[i]) {
        i
    } else {
        ident_run(cs, i + 1)
    }
}

/// The position of the first `"` at or after `i`, or the end.
pub open spec fn quote_run(cs: Seq<char>, i: int) -> int
    decreases cs.len() - i,
{
    if i < 0 || i >= cs.len() || cs[i] == '"' {
        i
    } else {
        quote_run(cs, i + 1)
    }
}

/// A number starting at `pos`: its digits, then a `.` and digits when a
/// digit follows the `.`; a duration when lower-case letters spelling a
/// duration unit follow.
pub open spec fn number_token(cs: Seq<char>, pos: int) -> (TokenKind, int) {
    let n = cs.len() as int;
    let int_end = digit_run(cs, pos + 1);
    let (kind, end) = if int_end < n - 1 && cs[int_end] == '.' && is_ascii_digit(cs[int_end + 1]) {
        (TokenKind::FloatNumber, digit_run(cs, int_end + 2))
    } else {
        (TokenKind::IntNumber, int_end)
    };
    let suffix = lower_run(cs, end);
    if suffix > end && duration_unit(cs.subrange(end, suffix)) {
        (TokenKind::Duration, suffix)
    } else {
        (kind, end)
    }
}

/// The operator or punctuation token starting at `pos`: the two-character
/// operators first, then the one-character ones; anything else is one
/// error character.
pub open spec fn operator_token(cs: Seq<char>, pos: int) -> (TokenKind, int) {
    let c = cs[pos];
    let next = if pos + 1 < cs.len() {
        cs[pos + 1]
    } else {
        ' '
    };
    if c == '|' && next == '|' {
        (TokenKind::PipePipe, pos + 2)
    } else if c == '&' && next == '&' {
        (TokenKind::AmpAmp, pos + 2)
    } else if c == '=' && next == '=' {
        (TokenKind::EqEq, pos + 2)
    } else if c == '!' && next == '=' {
        (TokenKind::Neq, pos + 2)
    } else if c == '<' && next == '=' {
        (TokenKind::Le, pos + 2)
    } else if c == '>' && next == '=' {
        (TokenKind::Ge, pos + 2)
    } else {
        (
            if c == '!' {
                TokenKind::Bang
            } else if c == '<' {
                TokenKind::Lt
            } else if c == '>' {
                TokenKind::Gt
            } else if c == '+' {
                TokenKind::Plus
            } else if c == '-' {
                TokenKind::Minus
            } else if c == '*' {
                TokenKind::Star
            } else if c == '/' {
                TokenKind::Slash
            } else if c == '%' {
                TokenKind::Percent
            } else if c == '(' {
                TokenKind::LParen
            } else if c == ')' {
                TokenKind::RParen
            } else if c == '.' {
                TokenKind::Dot
            } else {
                TokenKind::Error
            },
            pos + 1,
        )
    }
}

/// The token starting at `pos` (not whitespace), by longest match: a
/// number or duration; an identifier, `true` or `false`; a string up to its
/// closing `"` (an error to the end when unclosed); an operator.
pub open spec fn token_at(cs: Seq<char>, pos: int) -> (TokenKind, int) {
    let c = cs[pos];
    if is_ascii_digit(c) {
        number_token(cs, pos)
    } else if is_ident_start(c) {
        let end = ident_run(cs, pos + 1);
        if cs.subrange(pos, end) == "true"@ {
            (TokenKind::TrueKw, end)
        } else if cs.subrange(pos, end) == "false"@ {
            (TokenKind::FalseKw, end)
        } else {
            (TokenKind::Ident, end)
        }
    } else if c == '"' {
        let end = quote_run(cs, pos + 1);
        if end < cs.len() {
            (TokenKind::String, end + 1)
        } else {
            (TokenKind::Error, end)
        }
    } else {
        operator_token(cs, pos)
    }
}

pub open spec fn is_space(c: char) -> bool {
    c == ' ' || c == '\t' || c == '\n' || c == '\r'
}

pub proof fn lemma_runs(cs: Seq<char>, i: int)
    requires
        0 <= i <= cs.len(),
    ensures
        i <= digit_run(cs, i) <= cs.len(),
        i <= lower_run(cs, i) <= cs.len(),
        i <= ident_run(cs, i) <= cs.len(),
        i <= quote_run(cs, i) <= cs.len(),
    decreases cs.len() - i,
{
    if i < cs.len() {
        lemma_runs(cs, i + 1);
    }
}

pub proof fn lemma_token_advances(cs: Seq<char>, pos: int)
    requires
        0 <= pos < cs.len(),
    ensures
        pos < token_at(cs, pos).1 <= cs.len(),
{
    lemma_runs(cs, pos + 1);
    let int_end = digit_run(cs, pos + 1);
    if int_end < cs.len() - 1 {
        lemma_runs(cs, int_end + 2);
    }
    lemma_runs(cs, int_end);
    if int_end < cs.len() - 1 && cs[int_end] == '.' && is_ascii_digit(cs[int_end + 1]) {
        lemma_runs(cs, digit_run(cs, int_end + 2));
    }
}

/// The tokens of `cs` from `pos` on, by kind and range: whitespace
/// separates tokens and is dropped; each token is [`token_at`] where it
/// starts.
pub open spec fn tokens_from(cs: Seq<char>, pos: int) -> Seq<(TokenKind, int, int)>
    decreases cs.len() - pos,
{
    if pos < 0 || pos >= cs.len() {
        Seq::empty()
    } else if is_space(cs[pos]) {
        tokens_from(cs, pos + 1)
    } else {
        let (kind, end) = token_at(cs, pos);
        proof {
            lemma_token_advances(cs, pos);
        }
        seq![(kind, pos, end)] + tokens_from(cs, end)
    }
}

/// A token by its kind and range.
pub open spec fn token_view(t: Token) -> (TokenKind, int, int) {
    (t.kind, t.range.start as int, t.range.end as int)
}

pub open spec fn tokens_view(toks: Seq<Token>) -> Seq<(TokenKind, int, int)> {
    toks.map_values(|t: Token| token_view(t))
}

/// The token that starts at `pos` (which is not whitespace): its kind and
/// end ([`token_at`]).
fn scan_token(cs: &Vec<char>, pos: usize) -> (r: (TokenKind, usize))
    requires
        pos < cs.len(),
    ensures
        pos < r.1 <= cs.len(),
        (r.0, r.1 as int) == token_at(cs@, pos as int),
{
    proof {
        lemma_token_advances(cs@, pos as int);
    }
    let c = cs[pos];
    let n = cs.len();
    if char_is_digit(c) {
        let mut end = pos + 1;
        while end < n && char_is_digit(cs[end])
            invariant
                pos < end <= n,
                n == cs.len(),
                digit_run(cs@, end as int) == digit_run(cs@, pos + 1),
            decreases n - end,
        {
            end = end + 1;
        }
        let ghost int_end = end as int;
        let mut kind = TokenKind::IntNumber;
        if end < n - 1 && cs[end] == '.' && char_is_digit(cs[end + 1]) {
            end = end + 2;
            while end < n && char_is_digit(cs[end])
                invariant
                    pos < end <= n,
                    n == cs.len(),
                    digit_run(cs@, end as int) == digit_run(cs@, int_end + 2),
                decreases n - end,
            {
                end = end + 1;
            }
            kind = TokenKind::FloatNumber;
        }
        let mut suffix = end;
        while suffix < n && ('a' <= cs[suffix] && cs[suffix] <= 'z')
            invariant
                pos < end <= suffix <= n,
                n == cs.len(),
                lower_run(cs@, suffix as int) == lower_run(cs@, end as int),
            decreases n - suffix,
        {
            suffix = suffix + 1;
        }
        if suffix > end && is_duration_unit(cs, end, suffix) {
            return (TokenKind::Duration, suffix);
        }
        return (kind, end);
    }
    if char_is_ident_start(c) {
        let mut end = pos + 1;
        while end < n && char_is_ident_continue(cs[end])
            invariant
                pos < end <= n,
                n == cs.len(),
                ident_run(cs@, end as int) == ident_run(cs@, pos + 1),
            decreases n - end,
        {
            end = end + 1;
        }
        if chars_equal(cs, pos, end, "true") {
            return (TokenKind::TrueKw, end);
        }
        if chars_equal(cs, pos, end, "false") {
            return (TokenKind::FalseKw, end);
        }
        return (TokenKind::Ident, end);
    }
    if c == '"' {
        let mut end = pos + 1;
        while end < n && cs[end] != '"'
            invariant
                pos < end <= n,
                n == cs.len(),
                quote_run(cs@, end as int) == quote_run(cs@, pos + 1),
            decreases n - end,
        {
            end = end + 1;
        }
        if end < n {
            return (TokenKind::String, end + 1);
        }
        return (TokenKind::Error, end);
    }
    let next = if pos + 1 < n {
        cs[pos + 1]
    } else {
        ' '
    };
    if c == '|' && next == '|' {
        return (TokenKind::PipePipe, pos + 2);
    }
    if c == '&' && next == '&' {
        return (TokenKind::AmpAmp, pos + 2);
    }
    if c == '=' && next == '=' {
        return (TokenKind::EqEq, pos + 2);
    }
    if c == '!' && next == '=' {
        return (TokenKind::Neq, pos + 2);
    }
    if c == '<' && next == '=' {
        return (TokenKind::Le, pos + 2);
    }
    if c == '>' && next == '=' {
        return (TokenKind::Ge, pos + 2);
    }
    let kind = if c == '!' {
        TokenKind::Bang
    } else if c == '<' {
        TokenKind::Lt
    } else if c == '>' {
        TokenKind::Gt
    } else if c == '+' {
        TokenKind::Plus
    } else if c == '-' {
        TokenKind::Minus
    } else if c == '*' {
        TokenKind::Star
    } else if c == '/' {
        TokenKind::Slash
    } else if c == '%' {
        TokenKind::Percent
    } else if c == '(' {
        TokenKind::LParen
    } else if c == ')' {
        TokenKind::RParen
    } else if c == '.' {
        TokenKind::Dot
    } else {
        TokenKind::Error
    };
    (kind, pos + 1)
}

/// The tokens of a clause, whitespace dropped ([`tokens_from`]): each
/// holds the characters of its range.
pub fn lex(cs: &Vec<char>) -> (toks: Vec<Token>)
    ensures
        tokens_cover(cs@, toks@),
        tokens_view(toks@) == tokens_from(cs@, 0),
{
    let mut toks: Vec<Token> = Vec::new();
    let mut pos: usize = 0;
    assert(tokens_view(toks@) + tokens_from(cs@, 0) =~= tokens_from(cs@, 0));
    while pos < cs.len()
        invariant
            pos <= cs.len(),
            tokens_cover(cs@, toks@),
            forall|i: int| 0 <= i < toks.len() ==> #[trigger] toks@[i].range.end <= pos,
            tokens_view(toks@) + tokens_from(cs@, pos as int) == tokens_from(cs@, 0),
        decreases cs.len() - pos,
    {
        let c = cs[pos];
        if c == ' ' || c == '\t' || c == '\n' || c == '\r' {
            pos = pos + 1;
            continue ;
        }
        let (kind, end) = scan_token(cs, pos);
        let slice = crate::exact::slice_chars_pub(cs, pos, end);
        let text = crate::chars::chars_to_string(slice);
        let ghost before = tokens_view(toks@);
        let t = Token { kind, text, range: TextRange { start: pos, end } };
        toks.push(t);
        assert(tokens_view(toks@) =~= before.push((kind, pos as int, end as int)));
        assert(tokens_from(cs@, pos as int) == seq![(kind, pos as int, end as int)] + tokens_from(cs@, end as int));
        assert(tokens_view(toks@) + tokens_from(cs@, end as int) =~= before + tokens_from(cs@, pos as int));
        pos = end;
    }
    assert(tokens_view(toks@) + tokens_from(cs@, pos as int) =~= tokens_view(toks@));
    toks
}

// ==========================================================================
// Parsing
// ==========================================================================

/// Binding power of a binary operator, loosest to tightest;
/// zero for a token that is not one.
pub open spec fn binary_power(kind: TokenKind) -> u8 {
    match kind {
        TokenKind::PipePipe => 1,
        TokenKind::AmpAmp => 2,
        TokenKind::EqEq | TokenKind::Neq | TokenKind::Lt | TokenKind::Le | TokenKind::Gt
        | TokenKind::Ge => 3,
        TokenKind::Plus | TokenKind::Minus => 4,
        TokenKind::Star | TokenKind::Slash | TokenKind::Percent => 5,
        _ => 0,
    }
}

pub fn binary_power_of(kind: TokenKind) -> (r: u8)
    ensures
        r == binary_power(kind),
{
    match kind {
        TokenKind::PipePipe => 1,
        TokenKind::AmpAmp => 2,
        TokenKind::EqEq | TokenKind::Neq | TokenKind::Lt | TokenKind::Le | TokenKind::Gt
        | TokenKind::Ge => 3,
        TokenKind::Plus | TokenKind::Minus => 4,
        TokenKind::Star | TokenKind::Slash | TokenKind::Percent => 5,
        _ => 0,
    }
}

/// Every node's range, and every token's range, is ordered and ends within
/// `n` characters.
pub open spec fn within(e: Expr, n: nat) -> bool
    decreases e,
{
    let r = e.spec_range();
    &&& r.start <= r.end <= n
    &&& match e {
        Expr::Literal { token, .. } => token matches Some(t) ==> t.range.end <= n,
        Expr::Path { name, .. } => name matches Some(t) ==> t.range.end <= n,
        Expr::Paren { inner, .. } => inner matches Some(b) ==> within(*b, n),
        Expr::Prefix { op, operand, .. } => {
            &&& op matches Some(t) ==> t.range.end <= n
            &&& operand matches Some(b) ==> within(*b, n)
        },
        Expr::Member { base, member, .. } => {
            &&& base matches Some(b) ==> within(*b, n)
            &&& member matches Some(t) ==> t.range.end <= n
        },
        Expr::Binary { lhs, op, rhs, .. } => {
            &&& lhs matches Some(b) ==> within(*b, n)
            &&& op matches Some(t) ==> t.range.end <= n
            &&& rhs matches Some(b) ==> within(*b, n)
        },
    }
}

pub open spec fn tokens_within(toks: Seq<Token>, n: nat) -> bool {
    &&& forall|i: int|
        #![trigger toks[i]]
        0 <= i < toks.len() ==> toks[i].range.start < toks[i].range.end <= n
    &&& forall|i: int, j: int|
        0 <= i < j < toks.len() ==> #[trigger] toks[i].range.end <= #[trigger] toks[j].range.start
}

/// Where an optional node ends: its own end, or `fallback` when it is
/// missing.
pub open spec fn opt_end(e: Option<Box<Expr>>, fallback: usize) -> usize {
    match e {
        Some(b) => b.spec_range().end,
        None => fallback,
    }
}

/// Whether a token starts a literal.
pub open spec fn is_literal_kind(k: TokenKind) -> bool {
    ||| k == TokenKind::IntNumber
    ||| k == TokenKind::FloatNumber
    ||| k == TokenKind::Duration
    ||| k == TokenKind::String
    ||| k == TokenKind::Regex
    ||| k == TokenKind::TrueKw
    ||| k == TokenKind::FalseKw
}

/// The member accesses following `base` from token `p` on: `.name` wraps
/// the expression in a member access; a `.` without a name after it wraps
/// it in one without a member.
pub open spec fn member_chain(toks: Seq<Token>, base: Box<Expr>, p: int) -> (Option<Box<Expr>>, int)
    decreases toks.len() - p,
{
    if 0 <= p < toks.len() && toks[p].kind == TokenKind::Dot {
        let start = base.spec_range().start;
        if p + 1 < toks.len() && toks[p + 1].kind == TokenKind::Ident {
            let member = toks[p + 1];
            member_chain(
                toks,
                Box::new(
                    Expr::Member { base: Some(base), member: Some(member), range: TextRange { start, end: member.range.end } },
                ),
                p + 2,
            )
        } else {
            member_chain(
                toks,
                Box::new(
                    Expr::Member { base: Some(base), member: None, range: TextRange { start, end: toks[p].range.end } },
                ),
                p + 1,
            )
        }
    } else {
        (Some(base), p)
    }
}

/// The expression starting at token `pos` whose binary operators bind at
/// least `min`, and the token after it: a prefix expression, then — left
/// associative — each following operator of enough binding power with its
/// right operand, which binds one more ([`binary_rest`]).
pub open spec fn parse_binary_spec(toks: Seq<Token>, pos: int, min: u8) -> (Option<Box<Expr>>, int)
    decreases toks.len() - pos, 4nat,
{
    if !(0 <= pos <= toks.len()) {
        (None, pos)
    } else {
        let (first, p) = parse_prefix_spec(toks, pos);
        match first {
            None => (None, p),
            Some(l) => if pos < p <= toks.len() {
                binary_rest(toks, l, p, min)
            } else {
                (Some(l), p)
            },
        }
    }
}

/// The binary operators following `lhs` from token `p` on.
pub open spec fn binary_rest(toks: Seq<Token>, lhs: Box<Expr>, p: int, min: u8) -> (Option<Box<Expr>>, int)
    decreases toks.len() - p, 5nat,
{
    if !(0 <= p < toks.len()) {
        (Some(lhs), p)
    } else {
        let power = binary_power(toks[p].kind);
        if power == 0 || power < min || min < 1 || min > 6 {
            (Some(lhs), p)
        } else {
            let op = toks[p];
            let (rhs, q) = parse_binary_spec(toks, p + 1, (power + 1) as u8);
            let joined = Box::new(
                Expr::Binary {
                    lhs: Some(lhs),
                    op: Some(op),
                    rhs,
                    range: TextRange { start: lhs.spec_range().start, end: opt_end(rhs, op.range.end) },
                },
            );
            if p < q <= toks.len() {
                binary_rest(toks, joined, q, min)
            } else {
                (Some(joined), q)
            }
        }
    }
}

/// A prefix expression starting at token `pos`: `!` or `-` before a
/// prefix expression, or a postfix expression.
pub open spec fn parse_prefix_spec(toks: Seq<Token>, pos: int) -> (Option<Box<Expr>>, int)
    decreases toks.len() - pos, 3nat,
{
    if 0 <= pos < toks.len() && (toks[pos].kind == TokenKind::Bang || toks[pos].kind == TokenKind::Minus) {
        let op = toks[pos];
        let (operand, q) = parse_prefix_spec(toks, pos + 1);
        (
            Some(
                Box::new(
                    Expr::Prefix {
                        op: Some(op),
                        operand,
                        range: TextRange { start: op.range.start, end: opt_end(operand, op.range.end) },
                    },
                ),
            ),
            q,
        )
    } else {
        parse_postfix_spec(toks, pos)
    }
}

/// A primary expression starting at token `pos` and its member accesses.
pub open spec fn parse_postfix_spec(toks: Seq<Token>, pos: int) -> (Option<Box<Expr>>, int)
    decreases toks.len() - pos, 2nat,
{
    let (first, p) = parse_primary_spec(toks, pos);
    match first {
        None => (None, p),
        Some(b) => member_chain(toks, b, p),
    }
}

/// A primary expression at token `pos`: a literal, a name, or a
/// parenthesised expression (its closing `)` optional); nothing at any
/// other token.
pub open spec fn parse_primary_spec(toks: Seq<Token>, pos: int) -> (Option<Box<Expr>>, int)
    decreases toks.len() - pos, 1nat,
{
    if !(0 <= pos < toks.len()) {
        (None, pos)
    } else {
        let t = toks[pos];
        if is_literal_kind(t.kind) {
            (Some(Box::new(Expr::Literal { token: Some(t), range: t.range })), pos + 1)
        } else if t.kind == TokenKind::Ident {
            (Some(Box::new(Expr::Path { name: Some(t), range: t.range })), pos + 1)
        } else if t.kind == TokenKind::LParen {
            let (inner, q) = parse_binary_spec(toks, pos + 1, 1);
            let closed = 0 <= q < toks.len() && toks[q].kind == TokenKind::RParen;
            let end = if closed {
                toks[q].range.end
            } else {
                opt_end(inner, t.range.end)
            };
            (
                Some(Box::new(Expr::Paren { inner, range: TextRange { start: t.range.start, end } })),
                if closed {
                    q + 1
                } else {
                    q
                },
            )
        } else {
            (None, pos)
        }
    }
}

fn end_of(e: &Option<Box<Expr>>, fallback: usize) -> (r: usize)
    ensures
        e matches Some(b) ==> r == b.spec_range().end,
        e is None ==> r == fallback,
{
    match e {
        Some(b) => b.range().end,
        None => fallback,
    }
}

fn parse_binary(toks: &Vec<Token>, pos: usize, min: u8, Ghost(n): Ghost<nat>) -> (r: (
    Option<Box<Expr>>,
    usize,
))
    requires
        pos <= toks.len(),
        1 <= min <= 6,
        tokens_within(toks@, n),
    ensures
        pos <= r.1 <= toks.len(),
        r.0 matches Some(e) ==> within(*e, n) && pos < toks.len() && e.spec_range().start
            == toks@[pos as int].range.start,
        r.0 == parse_binary_spec(toks@, pos as int, min).0,
        r.1 as int == parse_binary_spec(toks@, pos as int, min).1,
    decreases toks.len() - pos, 3nat,
{
    let (first, mut p) = parse_prefix(toks, pos, Ghost(n));
    let mut lhs = match first {
        Some(e) => e,
        None => {
            return (None, p);
        },
    };
    loop
        invariant
            pos <= p <= toks.len(),
            1 <= min <= 6,
            tokens_within(toks@, n),
            within(*lhs, n),
            pos < toks.len(),
            lhs.spec_range().start == toks@[pos as int].range.start,
            binary_rest(toks@, lhs, p as int, min) == parse_binary_spec(toks@, pos as int, min),
        ensures
            binary_rest(toks@, lhs, p as int, min).0 == Some(lhs),
            binary_rest(toks@, lhs, p as int, min).1 == p as int,
        decreases toks.len() - p,
    {
        if p >= toks.len() {
            break ;
        }
        let power = binary_power_of(toks[p].kind);
        if power == 0 || power < min {
            break ;
        }
        let op = toks[p].copy();
        assert(toks@[p as int].range.start < toks@[p as int].range.end <= n);
        let (rhs, q) = parse_binary(toks, p + 1, power + 1, Ghost(n));
        let start = lhs.range().start;
        let end = end_of(&rhs, op.range.end);
        assert(start <= end) by {
            assert(toks@[p as int].range.start < toks@[p as int].range.end);
            if pos < p {
                assert(toks@[pos as int].range.end <= toks@[p as int].range.start);
            }
            if p + 1 < toks.len() {
                assert(toks@[p as int].range.end <= toks@[p + 1].range.start);
            }
        }
        lhs = Box::new(
            Expr::Binary { lhs: Some(lhs), op: Some(op), rhs, range: TextRange { start, end } },
        );
        p = q;
    }
    (Some(lhs), p)
}

fn parse_prefix(toks: &Vec<Token>, pos: usize, Ghost(n): Ghost<nat>) -> (r: (
    Option<Box<Expr>>,
    usize,
))
    requires
        pos <= toks.len(),
        tokens_within(toks@, n),
    ensures
        pos <= r.1 <= toks.len(),
        r.0 matches Some(e) ==> within(*e, n) && pos < toks.len() && e.spec_range().start
            == toks@[pos as int].range.start,
        r.0 == parse_prefix_spec(toks@, pos as int).0,
        r.1 as int == parse_prefix_spec(toks@, pos as int).1,
        r.0 is Some ==> r.1 > pos,
    decreases toks.len() - pos, 2nat,
{
    if pos < toks.len() && (toks[pos].kind == TokenKind::Bang || toks[pos].kind == TokenKind::Minus) {
        let op = toks[pos].copy();
        assert(toks@[pos as int].range.start < toks@[pos as int].range.end <= n);
        let (operand, q) = parse_prefix(toks, pos + 1, Ghost(n));
        let start = op.range.start;
        let end = end_of(&operand, op.range.end);
        assert(start <= end) by {
            if pos + 1 < toks.len() {
                assert(toks@[pos as int].range.end <= toks@[pos + 1].range.start);
            }
        }
        return (
            Some(Box::new(Expr::Prefix { op: Some(op), operand, range: TextRange { start, end } })),
            q,
        );
    }
    parse_postfix(toks, pos, Ghost(n))
}

fn parse_postfix(toks: &Vec<Token>, pos: usize, Ghost(n): Ghost<nat>) -> (r: (
    Option<Box<Expr>>,
    usize,
))
    requires
        pos <= toks.len(),
        tokens_within(toks@, n),
    ensures
        pos <= r.1 <= toks.len(),
        r.0 matches Some(e) ==> within(*e, n) && pos < toks.len() && e.spec_range().start
            == toks@[pos as int].range.start,
        r.0 == parse_postfix_spec(toks@, pos as int).0,
        r.1 as int == parse_postfix_spec(toks@, pos as int).1,
        r.0 is Some ==> r.1 > pos,
    decreases toks.len() - pos, 1nat,
{
    let (first, mut p) = parse_primary(toks, pos, Ghost(n));
    let mut base = match first {
        Some(e) => e,
        None => {
            return (None, p);
        },
    };
    while p < toks.len() && toks[p].kind == TokenKind::Dot
        invariant
            pos <= p <= toks.len(),
            tokens_within(toks@, n),
            within(*base, n),
            pos < toks.len(),
            base.spec_range().start == toks@[pos as int].range.start,
            pos < p,
            member_chain(toks@, base, p as int) == parse_postfix_spec(toks@, pos as int),
        decreases toks.len() - p,
    {
        let start = base.range().start;
        let dot_end = toks[p].range.end;
        assert(toks@[p as int].range.start < toks@[p as int].range.end <= n);
        if p + 1 < toks.len() {
            assert(toks@[p + 1].range.start < toks@[p + 1].range.end <= n);
        }
        if p + 1 < toks.len() && toks[p + 1].kind == TokenKind::Ident {
            let member = toks[p + 1].copy();
            let end = member.range.end;
            assert(start <= end) by {
                assert(toks@[pos as int].range.end <= toks@[p + 1].range.start);
            }
            base = Box::new(
                Expr::Member { base: Some(base), member: Some(member), range: TextRange { start, end } },
            );
            p = p + 2;
        } else {
            assert(start <= dot_end) by {
                if pos < p {
                    assert(toks@[pos as int].range.end <= toks@[p as int].range.start);
                }
            }
            base = Box::new(
                Expr::Member { base: Some(base), member: None, range: TextRange { start, end: dot_end } },
            );
            p = p + 1;
        }
    }
    (Some(base), p)
}

fn parse_primary(toks: &Vec<Token>, pos: usize, Ghost(n): Ghost<nat>) -> (r: (
    Option<Box<Expr>>,
    usize,
))
    requires
        pos <= toks.len(),
        tokens_within(toks@, n),
    ensures
        pos <= r.1 <= toks.len(),
        r.0 matches Some(e) ==> within(*e, n) && pos < toks.len() && e.spec_range().start
            == toks@[pos as int].range.start,
        r.0 == parse_primary_spec(toks@, pos as int).0,
        r.1 as int == parse_primary_spec(toks@, pos as int).1,
        r.0 is Some ==> r.1 > pos,
    decreases toks.len() - pos, 0nat,
{
    if pos >= toks.len() {
        return (None, pos);
    }
    let kind = toks[pos].kind;
    let range = toks[pos].range;
    assert(toks@[pos as int].range.start < toks@[pos as int].range.end <= n);
    match kind {
        TokenKind::IntNumber | TokenKind::FloatNumber | TokenKind::Duration | TokenKind::String
        | TokenKind::Regex | TokenKind::TrueKw | TokenKind::FalseKw => {
            let token = toks[pos].copy();
            (Some(Box::new(Expr::Literal { token: Some(token), range })), pos + 1)
        },
        TokenKind::Ident => {
            let token = toks[pos].copy();
            (Some(Box::new(Expr::Path { name: Some(token), range })), pos + 1)
        },
        TokenKind::LParen => {
            let (inner, q) = parse_binary(toks, pos + 1, 1, Ghost(n));
            let mut end = end_of(&inner, range.end);
            let mut p = q;
            if p < toks.len() && toks[p].kind == TokenKind::RParen {
                end = toks[p].range.end;
                p = p + 1;
            }
            assert(range.start <= end) by {
                if pos + 1 < toks.len() {
                    assert(toks@[pos as int].range.end <= toks@[pos + 1].range.start);
                }
                if p > pos + 1 {
                    assert(toks@[pos as int].range.end <= toks@[p - 1].range.start);
                }
            }
            (Some(Box::new(Expr::Paren { inner, range: TextRange { start: range.start, end } })), p)
        },
        _ => (None, pos),
    }
}

/// The tokens of a clause as [`lex`] gives them: they are
/// [`tokens_from`] its start, each holding the characters of its range.
pub open spec fn lexed(cs: Seq<char>, toks: Seq<Token>) -> bool {
    &&& tokens_cover(cs, toks)
    &&& tokens_view(toks) == tokens_from(cs, 0)
}

/// The expression of one contract clause (`require`/`ensure`), parsed from
/// its one-line source: the expression its tokens start with
/// ([`parse_binary_spec`] from the first token, every operator admitted);
/// `None` when they start none. Every node of the tree lies inside the
/// text.
pub fn parse_contract_expr(source: &str) -> (r: Option<Expr>)
    ensures
        r matches Some(e) ==> within(e, source@.len()),
        exists|toks: Seq<Token>|
            #[trigger] lexed(source@, toks) && r == match parse_binary_spec(toks, 0, 1).0 {
                Some(b) => Some(*b),
                None => None::<Expr>,
            },
{
    let cs = crate::chars::str_to_chars(source);
    let toks = lex(&cs);
    assert(tokens_within(toks@, cs@.len()));
    let (e, _) = parse_binary(&toks, 0, 1, Ghost(cs@.len()));
    assert(lexed(source@, toks@));
    match e {
        Some(b) => Some(*b),
        None => None,
    }
}

} // verus!
