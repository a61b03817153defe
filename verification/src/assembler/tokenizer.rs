//! Splitting assembly text into tokens.
use vstd::prelude::*;

use crate::error::{error_views, CompilerError, CompilerErrorView, CompilerResult};
use crate::span::Span;
use crate::text::{
    byte_len, char_is_alphabetic, char_is_alphanumeric, char_is_ascii_digit, char_is_whitespace,
    alphabetic, alphanumeric, char_utf8_len, chars_of, is_ascii_digit, is_whitespace,
    lemma_byte_len_mono, lemma_byte_len_prefix, lemma_byte_len_take, push_char, str_byte_len, string_from_chars,
    sub_chars, utf8_width,
};

verus! {

/// The kinds of token.
#[derive(Copy, Clone, Debug, PartialEq, Eq, Structural)]
pub enum TokenType {
    SemiColon,
    Percent,
    LBracket,
    RBracket,
    LSquare,
    RSquare,
    LCurly,
    RCurly,
    At,
    Hash,
    Comma,
    Colon,
    Equal,
    LineEnd,
    Ident,
    Literal,
}

/// The punctuation character that stands for a token type, if there is one.
pub open spec fn punctuation_type(c: char) -> Option<TokenType> {
    if c == ';' { Some(TokenType::SemiColon) }
    else if c == '%' { Some(TokenType::Percent) }
    else if c == '(' { Some(TokenType::LBracket) }
    else if c == ')' { Some(TokenType::RBracket) }
    else if c == '[' { Some(TokenType::LSquare) }
    else if c == ']' { Some(TokenType::RSquare) }
    else if c == '{' { Some(TokenType::LCurly) }
    else if c == '}' { Some(TokenType::RCurly) }
    else if c == '@' { Some(TokenType::At) }
    else if c == '#' { Some(TokenType::Hash) }
    else if c == ',' { Some(TokenType::Comma) }
    else if c == ':' { Some(TokenType::Colon) }
    else if c == '=' { Some(TokenType::Equal) }
    else { None }
}

impl TokenType {
    pub fn try_from_char(c: char) -> (r: Option<Self>)
        ensures
            r == punctuation_type(c),
    {
        match c {
            ';' => Some(Self::SemiColon),
            '%' => Some(Self::Percent),
            '(' => Some(Self::LBracket),
            ')' => Some(Self::RBracket),
            '[' => Some(Self::LSquare),
            ']' => Some(Self::RSquare),
            '{' => Some(Self::LCurly),
            '}' => Some(Self::RCurly),
            '@' => Some(Self::At),
            '#' => Some(Self::Hash),
            ',' => Some(Self::Comma),
            ':' => Some(Self::Colon),
            '=' => Some(Self::Equal),
            _ => None,
        }
    }

    /// How the token type is named in messages.
    pub fn as_str(&self) -> (r: &'static str)
        ensures
            r@ == self.spec_name(),
    {
        match self {
            Self::SemiColon => ";",
            Self::Percent => "%",
            Self::LBracket => "(",
            Self::RBracket => ")",
            Self::LSquare => "[",
            Self::RSquare => "]",
            Self::LCurly => "{",
            Self::RCurly => "}",
            Self::At => "@",
            Self::Hash => "#",
            Self::Comma => ",",
            Self::Colon => ":",
            Self::Equal => "=",
            Self::LineEnd => "end of line",
            Self::Ident => "identifier",
            Self::Literal => "literal",
        }
    }

    pub open spec fn spec_name(&self) -> Seq<char> {
        match self {
            Self::SemiColon => ";"@,
            Self::Percent => "%"@,
            Self::LBracket => "("@,
            Self::RBracket => ")"@,
            Self::LSquare => "["@,
            Self::RSquare => "]"@,
            Self::LCurly => "{"@,
            Self::RCurly => "}"@,
            Self::At => "@"@,
            Self::Hash => "#"@,
            Self::Comma => ","@,
            Self::Colon => ":"@,
            Self::Equal => "="@,
            Self::LineEnd => "end of line"@,
            Self::Ident => "identifier"@,
            Self::Literal => "literal"@,
        }
    }
}

/// A token: its type, its text and where it stands.
#[derive(Debug)]
pub struct Token {
    pub type_: TokenType,
    pub source: String,
    pub span: Span,
}

/// A token as a mathematical value.
#[verifier::ext_equal]
pub struct TokenView {
    pub type_: TokenType,
    pub source: Seq<char>,
    pub span: Span,
}

impl View for Token {
    type V = TokenView;

    open spec fn view(&self) -> TokenView {
        TokenView { type_: self.type_, source: self.source@, span: self.span }
    }
}

impl Token {
    pub fn new(type_: TokenType, source: String, span: Span) -> (r: Self)
        ensures
            r@ == (TokenView { type_, source: source@, span }),
    {
        Token { type_, source, span }
    }

    /// A copy of the token.
    pub fn clone(&self) -> (r: Self)
        ensures
            r@ == self@,
    {
        Token { type_: self.type_, source: self.source.clone(), span: self.span }
    }
}

/// The views of a list of tokens.
pub open spec fn token_views(ts: Seq<Token>) -> Seq<TokenView> {
    ts.map_values(|t: Token| t@)
}

/// A copy of a list of tokens.
pub fn clone_tokens(ts: &[Token]) -> (r: Vec<Token>)
    ensures
        token_views(r@) == token_views(ts@),
{
    let mut r: Vec<Token> = Vec::new();
    let mut i: usize = 0;
    while i < ts.len()
        invariant
            i <= ts@.len(),
            r@.len() == i,
            forall|k: int| 0 <= k < i ==> (#[trigger] r@[k])@ == ts@[k]@,
        decreases ts@.len() - i,
    {
        r.push(ts[i].clone());
        i += 1;
    }
    assert(token_views(r@) =~= token_views(ts@));
    r
}

/// Characters that make a token of their own (`;` starts a comment instead).
pub open spec fn is_punctuation(c: char) -> bool {
    punctuation_type(c) is Some && c != ';'
}

/// Characters that can begin an identifier.
pub open spec fn ident_start(c: char) -> bool {
    alphabetic(c) || c == '_'
}

/// The runs of characters that the tokenizer consumes at once.
#[derive(Copy, Clone, PartialEq, Eq, Structural)]
pub enum Run {
    /// The rest of an identifier.
    IdentRest,
    /// The rest of a literal.
    Digits,
    /// The rest of a comment, up to the end of the line.
    Comment,
}

pub open spec fn in_run(kind: Run, c: char) -> bool {
    match kind {
        Run::IdentRest => alphanumeric(c) || c == ':' || c == '_',
        Run::Digits => is_ascii_digit(c),
        Run::Comment => c != '\n',
    }
}

/// Number of characters from `i` on that belong to a run of `kind`.
pub open spec fn run_len(cs: Seq<char>, i: int, kind: Run) -> nat
    decreases cs.len() - i,
{
    if 0 <= i < cs.len() && in_run(kind, cs[i]) {
        1 + run_len(cs, i + 1, kind)
    } else {
        0
    }
}

pub proof fn lemma_run_len_bound(cs: Seq<char>, i: int, kind: Run)
    requires
        0 <= i <= cs.len(),
    ensures
        i + run_len(cs, i, kind) <= cs.len(),
        forall|k: int| i <= k < i + run_len(cs, i, kind) ==> in_run(kind, #[trigger] cs[k]),
        i + run_len(cs, i, kind) < cs.len() ==> !in_run(kind, cs[i + run_len(cs, i, kind)]),
    decreases cs.len() - i,
{
    if i < cs.len() && in_run(kind, cs[i]) {
        lemma_run_len_bound(cs, i + 1, kind);
    }
}

/// What the tokenizer produces from a stretch of text: tokens, errors, and
/// whether a token boundary would fall inside a multi-byte character (text
/// that the tokenizer does not accept).
#[verifier::ext_equal]
pub struct LexOut {
    pub tokens: Seq<TokenView>,
    pub errors: Seq<CompilerErrorView>,
    pub panics: bool,
}

pub open spec fn lex_empty() -> LexOut {
    LexOut { tokens: Seq::empty(), errors: Seq::empty(), panics: false }
}

pub open spec fn lex_join(a: LexOut, b: LexOut) -> LexOut {
    LexOut { tokens: a.tokens + b.tokens, errors: a.errors + b.errors, panics: a.panics || b.panics }
}

pub open spec fn lex_token(t: TokenView, panics: bool) -> LexOut {
    LexOut { tokens: seq![t], errors: Seq::empty(), panics }
}

pub open spec fn lex_error(e: CompilerErrorView, panics: bool) -> LexOut {
    LexOut { tokens: Seq::empty(), errors: seq![e], panics }
}

/// The span of columns `start..end` on `line`, the columns counted in bytes
/// from `line_start`.
pub open spec fn line_span(start: int, end: int, line: int, line_start: int) -> Span {
    Span { start: (start - line_start) as usize, end: (end - line_start) as usize, line: line as usize }
}

/// The lexeme at character `i` (in line `line`, which starts at byte
/// `line_start`): what it produces, where the next lexeme starts, and the
/// line and line start there.  Columns are byte offsets within the line.
pub open spec fn lex_next(cs: Seq<char>, i: int, line: int, line_start: int) -> (LexOut, int, int, int) {
    let c = cs[i];
    let p = byte_len(cs.take(i)) as int;
    if c == '\n' {
        (
            lex_token(TokenView { type_: TokenType::LineEnd, source: seq![c], span: line_span(p, p + 1, line, line_start) }, false),
            i + 1,
            line + 1,
            p + 1,
        )
    } else if c == ';' {
        (lex_empty(), i + 1 + run_len(cs, i + 1, Run::Comment), line, line_start)
    } else if is_punctuation(c) {
        (
            lex_token(TokenView { type_: punctuation_type(c)->0, source: seq![c], span: line_span(p, p + 1, line, line_start) }, false),
            i + 1,
            line,
            line_start,
        )
    } else if ident_start(c) {
        let n = run_len(cs, i + 1, Run::IdentRest) as int;
        let q = byte_len(cs.take(i + n)) as int;
        (
            lex_token(
                TokenView { type_: TokenType::Ident, source: cs.subrange(i, i + n + 1), span: line_span(p, q + 1, line, line_start) },
                utf8_width(cs[i + n]) != 1,
            ),
            i + n + 1,
            line,
            line_start,
        )
    } else if is_ascii_digit(c) {
        let n = run_len(cs, i + 1, Run::Digits) as int;
        let q = byte_len(cs.take(i + n)) as int;
        (
            lex_token(
                TokenView { type_: TokenType::Literal, source: cs.subrange(i, i + n + 1), span: line_span(p, q + 1, line, line_start) },
                false,
            ),
            i + n + 1,
            line,
            line_start,
        )
    } else if is_whitespace(c) {
        (lex_empty(), i + 1, line, line_start)
    } else {
        (
            lex_error(CompilerErrorView::InvalidCharacter(seq![c], line_span(p, p + 1, line, line_start)), utf8_width(c) != 1),
            i + 1,
            line,
            line_start,
        )
    }
}

pub proof fn lemma_lex_next_advances(cs: Seq<char>, i: int, line: int, line_start: int)
    requires
        0 <= i < cs.len(),
    ensures
        i < lex_next(cs, i, line, line_start).1 <= cs.len(),
{
    lemma_run_len_bound(cs, i + 1, Run::Comment);
    lemma_run_len_bound(cs, i + 1, Run::IdentRest);
    lemma_run_len_bound(cs, i + 1, Run::Digits);
}

/// Tokenizing `cs` from character `i` on: the lexemes one after another.
pub open spec fn lex(cs: Seq<char>, i: int, line: int, line_start: int) -> LexOut
    decreases cs.len() - i,
{
    if i < 0 || i >= cs.len() {
        lex_empty()
    } else {
        let (out, j, line2, line_start2) = lex_next(cs, i, line, line_start);
        proof {
            lemma_lex_next_advances(cs, i, line, line_start);
        }
        lex_join(out, lex(cs, j, line2, line_start2))
    }
}

/// The tokenizer's outcome on the whole text `s`.
pub open spec fn lex_text(s: Seq<char>) -> LexOut {
    lex(s, 0, 0, 0)
}

proof fn lemma_lex_join_assoc(a: LexOut, b: LexOut, c: LexOut)
    ensures
        lex_join(lex_join(a, b), c) == lex_join(a, lex_join(b, c)),
{
    assert(lex_join(lex_join(a, b), c) =~= lex_join(a, lex_join(b, c)));
}

proof fn lemma_lex_join_empty(a: LexOut)
    ensures
        lex_join(a, lex_empty()) == a,
{
    assert(lex_join(a, lex_empty()) =~= a);
}

/// Consumes the run of `kind` that starts at `from`: its end and the byte
/// offset of that end.
fn scan_run(cs: &[char], from: usize, from_pos: usize, kind: Run) -> (r: (usize, usize))
    requires
        from <= cs@.len(),
        from_pos == byte_len(cs@.take(from as int)),
        byte_len(cs@) <= usize::MAX,
    ensures
        r.0 == from + run_len(cs@, from as int, kind),
        r.0 <= cs@.len(),
        r.1 == byte_len(cs@.take(r.0 as int)),
{
    let mut k: usize = from;
    let mut pos: usize = from_pos;
    while k < cs.len() && run_char(cs[k], kind)
        invariant
            from <= k <= cs@.len(),
            pos == byte_len(cs@.take(k as int)),
            byte_len(cs@) <= usize::MAX,
            run_len(cs@, from as int, kind) == (k - from) + run_len(cs@, k as int, kind),
        decreases cs@.len() - k,
    {
        proof {
            lemma_byte_len_take(cs@, k as int);
            lemma_byte_len_prefix(cs@, k + 1);
        }
        pos = pos + char_utf8_len(cs[k]);
        k = k + 1;
    }
    (k, pos)
}

fn run_char(c: char, kind: Run) -> (r: bool)
    ensures
        r == in_run(kind, c),
{
    match kind {
        Run::IdentRest => char_is_alphanumeric(c) || c == ':' || c == '_',
        Run::Digits => char_is_ascii_digit(c),
        Run::Comment => c != '\n',
    }
}

/// A one-character string.
fn char_string(c: char) -> (r: String)
    ensures
        r@ == seq![c],
{
    let mut r = String::new();
    push_char(&mut r, c);
    r
}

/// What one lexeme yields.
struct Lexeme {
    token: Option<Token>,
    error: Option<CompilerError>,
    panics: bool,
    next: usize,
    next_pos: usize,
    line: usize,
    line_start: usize,
}

spec fn lexeme_out(l: Lexeme) -> LexOut {
    LexOut {
        tokens: match l.token {
            Some(t) => seq![t@],
            None => Seq::empty(),
        },
        errors: match l.error {
            Some(e) => seq![e@],
            None => Seq::empty(),
        },
        panics: l.panics,
    }
}

/// Reads the lexeme at character `i`, which starts at byte `pos`.
fn lex_one(cs: &[char], i: usize, pos: usize, line: usize, line_start: usize) -> (r: Lexeme)
    requires
        i < cs@.len(),
        pos == byte_len(cs@.take(i as int)),
        byte_len(cs@) <= usize::MAX,
        line_start <= pos,
        line <= i,
    ensures
        ({
            let (out, j, line2, line_start2) = lex_next(cs@, i as int, line as int, line_start as int);
            &&& lexeme_out(r) == out
            &&& r.next == j
            &&& r.line == line2
            &&& r.line_start == line_start2
        }),
        r.next <= cs@.len(),
        r.next_pos == byte_len(cs@.take(r.next as int)),
        r.line_start <= r.next_pos,
        r.line <= r.next,
{
    let c = cs[i];
    proof {
        lemma_byte_len_take(cs@, i as int);
        lemma_byte_len_prefix(cs@, i + 1);
        lemma_lex_next_advances(cs@, i as int, line as int, line_start as int);
    }
    let width = char_utf8_len(c);
    if c == '\n' {
        let t = Token { type_: TokenType::LineEnd, source: char_string(c), span: Span::new(pos - line_start, pos - line_start + 1, line) };
        Lexeme { token: Some(t), error: None, panics: false, next: i + 1, next_pos: pos + 1, line: line + 1, line_start: pos + 1 }
    } else if c == ';' {
        let (k, kpos) = scan_run(cs, i + 1, pos + 1, Run::Comment);
        proof {
            lemma_byte_len_mono(cs@, i as int, k as int);
        }
        Lexeme { token: None, error: None, panics: false, next: k, next_pos: kpos, line, line_start }
    } else if TokenType::try_from_char(c).is_some() {
        let ty = match TokenType::try_from_char(c) {
            Some(ty) => ty,
            None => TokenType::Percent,
        };
        let t = Token { type_: ty, source: char_string(c), span: Span::new(pos - line_start, pos - line_start + 1, line) };
        Lexeme { token: Some(t), error: None, panics: false, next: i + 1, next_pos: pos + 1, line, line_start }
    } else if char_is_alphabetic(c) || c == '_' {
        let (k, kpos) = scan_run(cs, i + 1, pos + width, Run::IdentRest);
        let last = cs[k - 1];
        proof {
            lemma_byte_len_take(cs@, k - 1);
            lemma_byte_len_prefix(cs@, k as int);
            lemma_byte_len_mono(cs@, i as int, k - 1);
            lemma_run_len_bound(cs@, i + 1, Run::IdentRest);
        }
        let last_pos = kpos - char_utf8_len(last);
        let src = sub_chars(cs, i, k);
        let t = Token { type_: TokenType::Ident, source: string_from_chars(src.as_slice()), span: Span::new(pos - line_start, last_pos - line_start + 1, line) };
        let bad = char_utf8_len(last) != 1;
        Lexeme { token: Some(t), error: None, panics: bad, next: k, next_pos: kpos, line, line_start }
    } else if char_is_ascii_digit(c) {
        let (k, kpos) = scan_run(cs, i + 1, pos + width, Run::Digits);
        let last = cs[k - 1];
        proof {
            lemma_byte_len_take(cs@, k - 1);
            lemma_byte_len_prefix(cs@, k as int);
            lemma_byte_len_mono(cs@, i as int, k - 1);
            lemma_run_len_bound(cs@, i + 1, Run::Digits);
        }
        let last_pos = kpos - char_utf8_len(last);
        let src = sub_chars(cs, i, k);
        let t = Token { type_: TokenType::Literal, source: string_from_chars(src.as_slice()), span: Span::new(pos - line_start, last_pos - line_start + 1, line) };
        Lexeme { token: Some(t), error: None, panics: false, next: k, next_pos: kpos, line, line_start }
    } else if char_is_whitespace(c) {
        Lexeme { token: None, error: None, panics: false, next: i + 1, next_pos: pos + width, line, line_start }
    } else {
        let e = CompilerError::InvalidCharacter(char_string(c), Span::new(pos - line_start, pos - line_start + 1, line));
        Lexeme { token: None, error: Some(e), panics: width != 1, next: i + 1, next_pos: pos + width, line, line_start }
    }
}

/// Tokenizes `source`: the tokens, the errors, and whether a token boundary
/// falls inside a multi-byte character.
pub fn lex_lmc_asm(source: &str) -> (r: (Vec<Token>, Vec<CompilerError>, bool))
    ensures
        token_views(r.0@) == lex_text(source@).tokens,
        error_views(r.1@) == lex_text(source@).errors,
        r.2 == lex_text(source@).panics,
{
    let total = str_byte_len(source);
    let chars = chars_of(source);
    let cs = chars.as_slice();
    let mut tokens: Vec<Token> = Vec::new();
    let mut errors: Vec<CompilerError> = Vec::new();
    let mut panics = false;
    let mut i: usize = 0;
    let mut pos: usize = 0;
    let mut line: usize = 0;
    let mut line_start: usize = 0;
    assert(cs@.take(0) =~= Seq::<char>::empty());
    assert(lex_join(LexOut { tokens: token_views(tokens@), errors: error_views(errors@), panics }, lex(cs@, 0, 0, 0)) =~= lex(cs@, 0, 0, 0));
    while i < cs.len()
        invariant
            cs@ == source@,
            byte_len(cs@) == total,
            i <= cs@.len(),
            pos == byte_len(cs@.take(i as int)),
            line_start <= pos,
            line <= i,
            lex_text(source@) == lex_join(
                LexOut { tokens: token_views(tokens@), errors: error_views(errors@), panics },
                lex(cs@, i as int, line as int, line_start as int),
            ),
        decreases cs@.len() - i,
    {
        let ghost acc = LexOut { tokens: token_views(tokens@), errors: error_views(errors@), panics };
        let l = lex_one(cs, i, pos, line, line_start);
        let ghost out = lexeme_out(l);
        proof {
            lemma_lex_join_assoc(acc, out, lex(cs@, l.next as int, l.line as int, l.line_start as int));
        }
        let Lexeme { token, error, panics: bad, next, next_pos, line: next_line, line_start: next_line_start } = l;
        match token {
            Some(t) => {
                proof {
                    assert(token_views(tokens@.push(t)) =~= token_views(tokens@).push(t@));
                }
                tokens.push(t);
            },
            None => {},
        }
        match error {
            Some(e) => {
                proof {
                    assert(error_views(errors@.push(e)) =~= error_views(errors@).push(e@));
                }
                errors.push(e);
            },
            None => {},
        }
        panics = panics || bad;
        proof {
            assert(LexOut { tokens: token_views(tokens@), errors: error_views(errors@), panics } =~= lex_join(acc, out));
        }
        i = next;
        pos = next_pos;
        line = next_line;
        line_start = next_line_start;
    }
    proof {
        lemma_lex_join_empty(LexOut { tokens: token_views(tokens@), errors: error_views(errors@), panics });
    }
    (tokens, errors, panics)
}

/// Whether tokenizing `source` would cut a multi-byte character in two;
/// `tokenize_lmc_asm` does not accept such text.
pub fn tokenize_panics(source: &str) -> (r: bool)
    ensures
        r == lex_text(source@).panics,
{
    let (_, _, panics) = lex_lmc_asm(source);
    panics
}

/// Tokenizes `source`: every token, or every invalid character found.
pub fn tokenize_lmc_asm(source: &str) -> (r: CompilerResult<Vec<Token>>)
    requires
        !lex_text(source@).panics,
    ensures
        lex_text(source@).errors.len() > 0 ==> (r matches Err(es) && error_views(es@) == lex_text(source@).errors),
        lex_text(source@).errors.len() == 0 ==> (r matches Ok(ts) && token_views(ts@) == lex_text(source@).tokens),
{
    let (tokens, errors, _) = lex_lmc_asm(source);
    if errors.len() > 0 {
        Err(errors)
    } else {
        Ok(tokens)
    }
}

/// A run in `s + rest` from `k` is the run in `s`, where the run in `s`
/// stops inside `s`, or the first character of `rest` ends it anyway.
proof fn lemma_run_len_prefix(s: Seq<char>, rest: Seq<char>, k: int, kind: Run)
    requires
        0 <= k <= s.len(),
        k + run_len(s, k, kind) < s.len() || (rest.len() > 0 && !in_run(kind, rest[0])),
    ensures
        run_len(s + rest, k, kind) == run_len(s, k, kind),
    decreases s.len() - k,
{
    let t = s + rest;
    if k < s.len() {
        assert(t[k] == s[k]);
        if in_run(kind, s[k]) {
            lemma_run_len_prefix(s, rest, k + 1, kind);
        }
    } else {
        assert(t[k] == rest[0]);
    }
}

/// A comment runs to the end of text that holds no line break.
proof fn lemma_comment_to_end(t: Seq<char>, k: int)
    requires
        0 <= k <= t.len(),
        forall|j: int| k <= j < t.len() ==> t[j] != '\n',
    ensures
        run_len(t, k, Run::Comment) == t.len() - k,
    decreases t.len() - k,
{
    if k < t.len() {
        lemma_comment_to_end(t, k + 1);
    }
}

/// Tokenizing `s` followed by a comment, from character `i` of `s` on,
/// gives what tokenizing `s` alone gives.
proof fn lemma_lex_comment_tail(s: Seq<char>, c: Seq<char>, i: int, line: int, line_start: int)
    requires
        0 <= i <= s.len(),
        forall|j: int| 0 <= j < c.len() ==> c[j] != '\n',
    ensures
        lex(s + seq![';'] + c, i, line, line_start) == lex(s, i, line, line_start),
    decreases s.len() - i,
{
    let rest = seq![';'] + c;
    let t = s + rest;
    assert(t =~= s + seq![';'] + c);
    assert(t.len() == s.len() + 1 + c.len());
    assert(forall|j: int| s.len() < j < t.len() ==> t[j] == c[j - s.len() - 1]);
    if i == s.len() {
        assert(t[i] == ';');
        lemma_comment_to_end(t, i + 1);
        lemma_lex_join_empty(lex_empty());
        assert(lex_next(t, i, line, line_start) == (lex_empty(), t.len() as int, line, line_start));
        assert(lex(t, t.len() as int, line, line_start) == lex_empty());
        assert(lex(s, i, line, line_start) == lex_empty());
    } else {
        assert(t[i] == s[i]);
        assert(t.take(i) =~= s.take(i));
        assert(rest[0] == ';');
        assert(!in_run(Run::IdentRest, ';') && !in_run(Run::Digits, ';'));
        let ch = s[i];
        lemma_lex_next_advances(s, i, line, line_start);
        lemma_run_len_bound(s, i + 1, Run::IdentRest);
        lemma_run_len_bound(s, i + 1, Run::Digits);
        lemma_run_len_bound(s, i + 1, Run::Comment);
        if ch == ';' {
            if i + 1 + run_len(s, i + 1, Run::Comment) < s.len() {
                lemma_run_len_prefix(s, rest, i + 1, Run::Comment);
                let j = lex_next(s, i, line, line_start).1;
                assert(lex_next(t, i, line, line_start) == lex_next(s, i, line, line_start));
                lemma_lex_comment_tail(s, c, j, line, line_start);
            } else {
                // The comment in `s` runs to its end; in `t` it runs on over
                // the trailing comment to the end of `t`.
                assert forall|j: int| i + 1 <= j < t.len() implies t[j] != '\n' by {
                    if j < s.len() {
                        assert(t[j] == s[j]);
                        assert(in_run(Run::Comment, s[j]));
                    }
                }
                lemma_comment_to_end(t, i + 1);
                lemma_lex_join_empty(lex_empty());
                assert(lex_next(t, i, line, line_start) == (lex_empty(), t.len() as int, line, line_start));
                assert(lex_next(s, i, line, line_start) == (lex_empty(), s.len() as int, line, line_start));
                assert(lex(t, t.len() as int, line, line_start) == lex_empty());
                assert(lex(s, s.len() as int, line, line_start) == lex_empty());
            }
        } else {
            if ident_start(ch) && !(ch == '\n' || is_punctuation(ch)) {
                lemma_run_len_prefix(s, rest, i + 1, Run::IdentRest);
                let n = run_len(s, i + 1, Run::IdentRest) as int;
                assert(t.take(i + n) =~= s.take(i + n));
                assert(t.subrange(i, i + n + 1) =~= s.subrange(i, i + n + 1));
                assert(t[i + n] == s[i + n]);
            }
            if is_ascii_digit(ch) {
                lemma_run_len_prefix(s, rest, i + 1, Run::Digits);
                let n = run_len(s, i + 1, Run::Digits) as int;
                assert(t.take(i + n) =~= s.take(i + n));
                assert(t.subrange(i, i + n + 1) =~= s.subrange(i, i + n + 1));
            }
            assert(lex_next(t, i, line, line_start) == lex_next(s, i, line, line_start));
            let (_, j, line2, line_start2) = lex_next(s, i, line, line_start);
            lemma_lex_comment_tail(s, c, j, line2, line_start2);
        }
    }
}

/// A comment at the end of a text, `;` followed by anything but a line
/// break, adds no token and no error: tokenizing the text with it gives what
/// tokenizing the text without it gives.
pub proof fn law_trailing_comment(s: Seq<char>, c: Seq<char>)
    requires
        forall|j: int| 0 <= j < c.len() ==> c[j] != '\n',
    ensures
        lex_text(s + seq![';'] + c) == lex_text(s),
{
    lemma_lex_comment_tail(s, c, 0, 0, 0);
}

} // verus!
