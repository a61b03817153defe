//! A simpler assembler: each line is split at white space into at most a
//! label, an opcode and an operand, and the first error stops it.  It knows
//! no comments, punctuation or macros.
use vstd::prelude::*;

use crate::assembler::labels::{process_labels, resolve_all};
use crate::assembler::parser::{find_symbol, lemma_find_symbol, raw_views, SymbolTable, SymbolView, Symbol};
use crate::assembler::tokenizer::{Token as AsmToken, TokenType, TokenView};
use crate::error::{error_views, CompilerError, CompilerErrorView};
use crate::instruction::{mnemonic, operand_of, Inst, OpCode, Operand, OperandValueView, RawInst, RawInstView};
use crate::span::{lemma_byte_len_ge_len, Span};
use crate::text::{
    byte_len, char_is_whitespace, char_utf8_len, chars_of, is_whitespace, lemma_byte_len_concat,
    lemma_byte_len_mono, lemma_byte_len_prefix, lemma_byte_len_take, str_byte_len, string_from_chars, sub_chars,
    trim, trim_chars,
};

verus! {

// ---------------------------------------------------------------------------
// Lines
// ---------------------------------------------------------------------------

/// A line without the carriage return that ended it.
pub open spec fn strip_cr(l: Seq<char>) -> Seq<char> {
    if l.len() > 0 && l.last() == '\r' {
        l.drop_last()
    } else {
        l
    }
}

/// The finished lines of `s` and the line still being read: a line ends at
/// `\n`, and a `\r` just before the `\n` is not part of it.
pub open spec fn line_split(s: Seq<char>) -> (Seq<Seq<char>>, Seq<char>)
    decreases s.len(),
{
    if s.len() == 0 {
        (seq![], seq![])
    } else {
        let (done, cur) = line_split(s.drop_last());
        if s.last() == '\n' {
            (done.push(strip_cr(cur)), seq![])
        } else {
            (done, cur.push(s.last()))
        }
    }
}

/// The lines of `s`, as `str::lines` gives them: the last line needs no
/// line break, and a line break at the very end starts no new line.
pub open spec fn lines_of(s: Seq<char>) -> Seq<Seq<char>> {
    let (done, cur) = line_split(s);
    if cur.len() > 0 {
        done.push(cur)
    } else {
        done
    }
}

proof fn lemma_line_split_bytes(s: Seq<char>)
    ensures
        byte_len(line_split(s).1) <= byte_len(s),
        forall|j: int| 0 <= j < line_split(s).0.len() ==> byte_len(#[trigger] line_split(s).0[j]) <= byte_len(s),
    decreases s.len(),
{
    if s.len() > 0 {
        let p = s.drop_last();
        lemma_line_split_bytes(p);
        let (done, cur) = line_split(p);
        assert(s =~= p.push(s.last()));
        lemma_byte_len_concat(p, seq![s.last()]);
        assert(p + seq![s.last()] =~= s);
        if s.last() == '\n' {
            if cur.len() > 0 && cur.last() == '\r' {
                assert(cur =~= cur.drop_last() + seq![cur.last()]);
                lemma_byte_len_concat(cur.drop_last(), seq![cur.last()]);
            }
        } else {
            assert(cur.push(s.last()) =~= cur + seq![s.last()]);
            lemma_byte_len_concat(cur, seq![s.last()]);
        }
    }
}

/// No line holds more bytes than the text.
proof fn lemma_lines_bytes(s: Seq<char>)
    ensures
        forall|j: int| 0 <= j < lines_of(s).len() ==> byte_len(#[trigger] lines_of(s)[j]) <= byte_len(s),
{
    lemma_line_split_bytes(s);
}

/// Splits text into lines.
fn text_lines(s: &[char]) -> (r: Vec<Vec<char>>)
    ensures
        r@.map_values(|l: Vec<char>| l@) == lines_of(s@),
{
    let ghost t = s@;
    let mut done: Vec<Vec<char>> = Vec::new();
    let mut cur: Vec<char> = Vec::new();
    let mut k: usize = 0;
    assert(t.take(0) =~= Seq::<char>::empty());
    assert(done@.map_values(|l: Vec<char>| l@) =~= Seq::<Seq<char>>::empty());
    while k < s.len()
        invariant
            t == s@,
            k <= t.len(),
            done@.map_values(|l: Vec<char>| l@) == line_split(t.take(k as int)).0,
            cur@ == line_split(t.take(k as int)).1,
        decreases t.len() - k,
    {
        assert(t.take(k as int + 1).drop_last() =~= t.take(k as int));
        let c = s[k];
        if c == '\n' {
            let mut line = cur;
            if line.len() > 0 && line[line.len() - 1] == '\r' {
                line.pop();
            }
            let ghost d0 = done@;
            done.push(line);
            assert(done@.map_values(|l: Vec<char>| l@) =~= d0.map_values(|l: Vec<char>| l@).push(done@.last()@));
            cur = Vec::new();
        } else {
            cur.push(c);
        }
        k = k + 1;
    }
    assert(t.take(t.len() as int) =~= t);
    if cur.len() > 0 {
        let ghost d0 = done@;
        done.push(cur);
        assert(done@.map_values(|l: Vec<char>| l@) =~= d0.map_values(|l: Vec<char>| l@).push(done@.last()@));
    }
    done
}

// ---------------------------------------------------------------------------
// Tokens
// ---------------------------------------------------------------------------

/// A piece of a line between white space.
#[derive(Debug)]
pub struct Token {
    pub source: String,
    pub span: Span,
}

pub struct TokenLView {
    pub source: Seq<char>,
    pub span: Span,
}

impl View for Token {
    type V = TokenLView;

    open spec fn view(&self) -> TokenLView {
        TokenLView { source: self.source@, span: self.span }
    }
}

pub open spec fn ltoken_views(ts: Seq<Token>) -> Seq<TokenLView> {
    ts.map_values(|t: Token| t@)
}

/// Reading the characters of a line: the runs cut off by white space (as
/// character ranges), where the current run starts, and whether the last
/// character was white space.
pub open spec fn scan_line(l: Seq<char>) -> (Seq<(int, int)>, int, bool)
    decreases l.len(),
{
    if l.len() == 0 {
        (seq![], 0, false)
    } else {
        let (runs, start, last_ws) = scan_line(l.drop_last());
        let k = l.len() - 1;
        let start2 = if last_ws { k } else { start };
        if is_whitespace(l[k]) {
            (if start2 != k { runs.push((start2, k)) } else { runs }, start2, true)
        } else {
            (runs, start2, false)
        }
    }
}

pub open spec fn byte_at(l: Seq<char>, k: int) -> usize {
    byte_len(l.take(k)) as usize
}

/// The tokens of line `line` whose characters are `l`: each run cut off by
/// white space, and the run at the end of the line unless the line ends in
/// white space.  Columns count bytes.
pub open spec fn line_tokens(l: Seq<char>, line: usize) -> Seq<TokenLView> {
    let (runs, start, last_ws) = scan_line(l);
    let body = runs.map_values(
        |p: (int, int)| TokenLView { source: l.subrange(p.0, p.1), span: Span { start: byte_at(l, p.0), end: byte_at(l, p.1), line } },
    );
    let last = trim(l.skip(start));
    if last.len() > 0 && !last_ws {
        body.push(TokenLView { source: last, span: Span { start: byte_at(l, start), end: byte_len(l) as usize, line } })
    } else {
        body
    }
}

proof fn lemma_scan_line(l: Seq<char>)
    ensures
        0 <= scan_line(l).1 <= l.len(),
        forall|j: int|
            0 <= j < scan_line(l).0.len() ==> 0 <= (#[trigger] scan_line(l).0[j]).0 < scan_line(l).0[j].1 <= l.len(),
    decreases l.len(),
{
    if l.len() > 0 {
        lemma_scan_line(l.drop_last());
    }
}

/// Every token of a line lies on it, and within its bytes.
proof fn lemma_line_tokens(l: Seq<char>, line: usize)
    ensures
        forall|j: int|
            0 <= j < line_tokens(l, line).len() ==> (#[trigger] line_tokens(l, line)[j]).span.line == line
                && line_tokens(l, line)[j].span.end <= byte_len(l),
{
    lemma_scan_line(l);
    let (runs, start, last_ws) = scan_line(l);
    assert forall|j: int| 0 <= j < runs.len() implies byte_len(l.take(#[trigger] runs[j].1)) <= byte_len(l) by {
        lemma_byte_len_prefix(l, runs[j].1);
    }
}

/// Splits one line, numbered `line`, into tokens.
fn tokenize_line(l: &[char], line: usize) -> (r: Vec<Token>)
    requires
        byte_len(l@) <= usize::MAX,
    ensures
        ltoken_views(r@) == line_tokens(l@, line),
{
    let ghost t = l@;
    let mut runs: Vec<Token> = Vec::new();
    let mut start: usize = 0;
    let mut start_byte: usize = 0;
    let mut last_ws = false;
    let mut k: usize = 0;
    let mut pos: usize = 0;
    assert(t.take(0) =~= Seq::<char>::empty());
    while k < l.len()
        invariant
            t == l@,
            byte_len(t) <= usize::MAX,
            k <= t.len(),
            pos == byte_len(t.take(k as int)),
            ({
                let (rs, st, lw) = scan_line(t.take(k as int));
                &&& ltoken_views(runs@) == rs.map_values(
                    |p: (int, int)| TokenLView { source: t.subrange(p.0, p.1), span: Span { start: byte_at(t, p.0), end: byte_at(t, p.1), line } },
                )
                &&& start == st
                &&& last_ws == lw
            }),
            start <= k,
            start_byte == byte_len(t.take(start as int)),
        decreases t.len() - k,
    {
        let ghost pre = t.take(k as int);
        assert(t.take(k as int + 1).drop_last() =~= pre);
        proof {
            lemma_byte_len_take(t, k as int);
            lemma_byte_len_prefix(t, k as int + 1);
            lemma_scan_line(pre);
        }
        let ghost (rs0, st0, lw0) = scan_line(pre);
        if last_ws {
            start = k;
            start_byte = pos;
        }
        last_ws = false;
        let c = l[k];
        if char_is_whitespace(c) {
            if start != k {
                let part = sub_chars(l, start, k);
                let source = string_from_chars(part.as_slice());
                let ghost r0 = runs@;
                runs.push(Token { source, span: Span::new(start_byte, pos, line) });
                proof {
                    assert(t.take(start as int) =~= t.take(start as int));
                    assert forall|j: int| 0 <= j < rs0.len() implies #[trigger] rs0[j].1 <= k by {}
                }
                assert(ltoken_views(runs@) =~= ltoken_views(r0).push(
                    TokenLView { source: t.subrange(start as int, k as int), span: Span { start: byte_at(t, start as int), end: byte_at(t, k as int), line } },
                ));
                let ghost rs1 = rs0.push((start as int, k as int));
                assert(rs1.map_values(
                    |p: (int, int)| TokenLView { source: t.subrange(p.0, p.1), span: Span { start: byte_at(t, p.0), end: byte_at(t, p.1), line } },
                ) =~= rs0.map_values(
                    |p: (int, int)| TokenLView { source: t.subrange(p.0, p.1), span: Span { start: byte_at(t, p.0), end: byte_at(t, p.1), line } },
                ).push(
                    TokenLView { source: t.subrange(start as int, k as int), span: Span { start: byte_at(t, start as int), end: byte_at(t, k as int), line } },
                ));
            }
            last_ws = true;
        }
        pos = pos + char_utf8_len(c);
        k = k + 1;
    }
    assert(t.take(t.len() as int) =~= t);
    let rest = sub_chars(l, start, l.len());
    let last = trim_chars(rest.as_slice());
    assert(rest@ =~= t.skip(start as int));
    if last.len() > 0 && !last_ws {
        let source = string_from_chars(last.as_slice());
        let ghost r0 = runs@;
        proof {
            lemma_byte_len_prefix(t, t.len() as int);
        }
        runs.push(Token { source, span: Span::new(start_byte, pos, line) });
        assert(ltoken_views(runs@) =~= ltoken_views(r0).push(runs@.last()@));
    }
    runs
}

/// The tokens of each line that holds any, numbered among all lines.
pub open spec fn tokens_by_line(lines: Seq<Seq<char>>) -> Seq<Seq<TokenLView>>
    decreases lines.len(),
{
    if lines.len() == 0 {
        seq![]
    } else {
        let before = tokens_by_line(lines.drop_last());
        let ts = line_tokens(lines.last(), (lines.len() - 1) as usize);
        if ts.len() > 0 {
            before.push(ts)
        } else {
            before
        }
    }
}

/// The tokens of the text `s`, line by line, leaving out lines without any.
pub open spec fn text_tokens(s: Seq<char>) -> Seq<Seq<TokenLView>> {
    tokens_by_line(lines_of(s))
}

pub open spec fn lines_tview(v: Seq<Vec<Token>>) -> Seq<Seq<TokenLView>> {
    v.map_values(|l: Vec<Token>| ltoken_views(l@))
}

/// The lines of tokens hold tokens, all on their line and within `bound`
/// bytes.
pub open spec fn lines_well_formed(lines: Seq<Seq<TokenLView>>, bound: int) -> bool {
    forall|i: int|
        0 <= i < lines.len() ==> (#[trigger] lines[i]).len() > 0 && forall|j: int|
            0 <= j < lines[i].len() ==> (#[trigger] lines[i][j]).span.line == lines[i][0].span.line
                && lines[i][j].span.end <= bound
}

proof fn lemma_tokens_by_line(lines: Seq<Seq<char>>, bound: int)
    requires
        forall|j: int| 0 <= j < lines.len() ==> byte_len(#[trigger] lines[j]) <= bound,
    ensures
        lines_well_formed(tokens_by_line(lines), bound),
    decreases lines.len(),
{
    if lines.len() > 0 {
        lemma_tokens_by_line(lines.drop_last(), bound);
        let n = (lines.len() - 1) as usize;
        lemma_line_tokens(lines.last(), n);
        assert(byte_len(lines[lines.len() - 1]) <= bound);
    }
}

/// Splits text into lines of tokens.
fn tokenize(s: &str) -> (r: Vec<Vec<Token>>)
    ensures
        lines_tview(r@) == text_tokens(s@),
        lines_well_formed(text_tokens(s@), byte_len(s@) as int),
{
    let cs = chars_of(s);
    let n_bytes = str_byte_len(s);
    let lines = text_lines(cs.as_slice());
    let ghost ls = lines_of(s@);
    proof {
        lemma_lines_bytes(s@);
        lemma_tokens_by_line(ls, byte_len(s@) as int);
    }
    let mut out: Vec<Vec<Token>> = Vec::new();
    let mut i: usize = 0;
    assert(ls.take(0) =~= Seq::<Seq<char>>::empty());
    assert(lines_tview(out@) =~= Seq::<Seq<TokenLView>>::empty());
    while i < lines.len()
        invariant
            ls == lines_of(s@),
            lines@.map_values(|l: Vec<char>| l@) == ls,
            i <= ls.len(),
            forall|j: int| 0 <= j < ls.len() ==> byte_len(#[trigger] ls[j]) <= byte_len(s@),
            byte_len(s@) == n_bytes,
            lines_tview(out@) == tokens_by_line(ls.take(i as int)),
        decreases ls.len() - i,
    {
        assert(ls.take(i as int + 1).drop_last() =~= ls.take(i as int));
        assert(lines@[i as int]@ == ls[i as int]);
        let ts = tokenize_line(lines[i].as_slice(), i);
        if ts.len() > 0 {
            let ghost o0 = out@;
            out.push(ts);
            assert(lines_tview(out@) =~= lines_tview(o0).push(ltoken_views(out@.last()@)));
        }
        i = i + 1;
    }
    assert(ls.take(ls.len() as int) =~= ls);
    out
}

// ---------------------------------------------------------------------------
// Parsing
// ---------------------------------------------------------------------------

/// What has been read of a line: its label, opcode and operand so far.
pub struct LineParts {
    pub label: Option<TokenLView>,
    pub opcode: Option<(Span, OpCode)>,
    pub operand: Option<(Span, Operand<OperandValueView>)>,
}

/// Reading one more token: an opcode (a second one is an error), a label
/// before the opcode, or an operand after it.
pub open spec fn parts_step(st: LineParts, t: TokenLView) -> Result<LineParts, CompilerErrorView> {
    match mnemonic(t.source) {
        Ok(op) => if st.opcode is Some {
            Err(CompilerErrorView::InvalidLabel(t.source, t.span))
        } else {
            Ok(LineParts { opcode: Some((t.span, op)), ..st })
        },
        Err(_) => if st.opcode is None {
            Ok(LineParts { label: Some(t), ..st })
        } else {
            match operand_of(t.source) {
                Ok(o) => Ok(LineParts { operand: Some((t.span, o)), ..st }),
                Err(e) => Err(CompilerErrorView::OperandParseError(t.span, e)),
            }
        },
    }
}

/// Reading the first `k` tokens of a line.
pub open spec fn line_parts(line: Seq<TokenLView>, k: nat) -> Result<LineParts, CompilerErrorView>
    decreases k,
{
    if k == 0 {
        Ok(LineParts { label: None, opcode: None, operand: None })
    } else {
        match line_parts(line, (k - 1) as nat) {
            Err(e) => Err(e),
            Ok(st) => parts_step(st, line[k - 1]),
        }
    }
}

/// A label read as an identifier token.
pub open spec fn label_token(t: TokenLView) -> TokenView {
    TokenView { type_: TokenType::Ident, source: t.source, span: t.span }
}

/// The instruction on line `line` (numbered among lines that hold tokens),
/// with the symbols after it; a label may be defined once.
pub open spec fn parse_line(line: Seq<TokenLView>, i: usize, syms: Seq<SymbolView>) -> Result<
    (RawInstView, Seq<SymbolView>),
    CompilerErrorView,
> {
    if line.len() > 3 {
        Err(CompilerErrorView::UnexpectedTokens(line[3].span.spec_union(line.last().span)))
    } else {
        match line_parts(line, line.len()) {
            Err(e) => Err(e),
            Ok(st) => match st.opcode {
                None => Err(CompilerErrorView::ExpectedOpCode(Span {
                    start: (line.last().span.end + 1) as usize,
                    end: (line.last().span.end + 5) as usize,
                    line: line.last().span.line,
                })),
                Some(opc) => match st.label {
                    Some(l) => match find_symbol(syms, l.source) {
                        Some(other) => Err(CompilerErrorView::DuplicateLabel(l.source, other.token.span, l.span)),
                        None => Ok((
                            RawInstView { label: Some(label_token(l)), opcode: opc, operand: st.operand },
                            syms.push(SymbolView { token: label_token(l), addr: i }),
                        )),
                    },
                    None => Ok((RawInstView { label: None, opcode: opc, operand: st.operand }, syms)),
                },
            },
        }
    }
}

/// Parsing the lines in order, stopping at the first error.
pub open spec fn parse_all(lines: Seq<Seq<TokenLView>>) -> Result<(Seq<RawInstView>, Seq<SymbolView>), CompilerErrorView>
    decreases lines.len(),
{
    if lines.len() == 0 {
        Ok((seq![], seq![]))
    } else {
        match parse_all(lines.drop_last()) {
            Err(e) => Err(e),
            Ok((insts, syms)) => match parse_line(lines.last(), (lines.len() - 1) as usize, syms) {
                Err(e) => Err(e),
                Ok((inst, syms2)) => Ok((insts.push(inst), syms2)),
            },
        }
    }
}

/// The labels that parsing collects are all different.
pub proof fn law_parse_all_labels_distinct(lines: Seq<Seq<TokenLView>>)
    ensures
        parse_all(lines) matches Ok((_, syms)) ==> crate::assembler::parser::names_distinct(syms),
    decreases lines.len(),
{
    if lines.len() > 0 {
        law_parse_all_labels_distinct(lines.drop_last());
        match parse_all(lines.drop_last()) {
            Ok((_, syms)) => match line_parts(lines.last(), lines.last().len()) {
                Ok(st) => match st.label {
                    Some(l) => {
                        lemma_find_symbol(syms, l.source);
                    },
                    None => {},
                },
                Err(_) => {},
            },
            Err(_) => {},
        }
    }
}

/// An error while reading a line's tokens is the error of the whole line.
proof fn lemma_line_parts_err(line: Seq<TokenLView>, k: nat, n: nat)
    requires
        k <= n,
        line_parts(line, k) is Err,
    ensures
        line_parts(line, n) == line_parts(line, k),
    decreases n - k,
{
    if k < n {
        lemma_line_parts_err(line, k, (n - 1) as nat);
    }
}

/// The first error of the lines stops parsing.
proof fn lemma_parse_all_err(lines: Seq<Seq<TokenLView>>, k: int)
    requires
        0 <= k <= lines.len(),
        parse_all(lines.take(k)) is Err,
    ensures
        parse_all(lines) == parse_all(lines.take(k)),
    decreases lines.len() - k,
{
    if k < lines.len() {
        assert(lines.take(k + 1).drop_last() =~= lines.take(k));
        lemma_parse_all_err(lines, k + 1);
    } else {
        assert(lines.take(k) =~= lines);
    }
}

fn to_label_token(t: &Token) -> (r: AsmToken)
    ensures
        r@ == label_token(t@),
{
    AsmToken { type_: TokenType::Ident, source: t.source.clone(), span: t.span }
}

fn read_parts(line: &Vec<Token>) -> (r: Result<(Option<usize>, Option<(Span, OpCode)>, Option<(Span, Operand<crate::instruction::OperandValue>)>), CompilerError>)
    ensures
        match line_parts(ltoken_views(line@), line@.len()) {
            Ok(st) => r matches Ok((l, o, p)) && st.opcode == o && (match st.operand {
                Some((s, v)) => p matches Some((s2, v2)) && s2 == s && v2@ == v,
                None => p is None,
            }) && (match st.label {
                Some(t) => l matches Some(k) && k < line@.len() && line@[k as int]@ == t,
                None => l is None,
            }),
            Err(e) => r matches Err(x) && x@ == e,
        },
{
    let ghost v = ltoken_views(line@);
    let mut label: Option<usize> = None;
    let mut opcode: Option<(Span, OpCode)> = None;
    let mut operand: Option<(Span, Operand<crate::instruction::OperandValue>)> = None;
    let mut k: usize = 0;
    while k < line.len()
        invariant
            v == ltoken_views(line@),
            k <= line@.len(),
            match line_parts(v, k as nat) {
                Ok(st) => st.opcode == opcode && (match st.operand {
                    Some((s, o)) => operand matches Some((s2, o2)) && s2 == s && o2@ == o,
                    None => operand is None,
                }) && (match st.label {
                    Some(t) => label matches Some(j) && j < line@.len() && line@[j as int]@ == t,
                    None => label is None,
                }),
                Err(_) => false,
            },
        decreases line@.len() - k,
    {
        let t = &line[k];
        assert(v[k as int] == t@);
        match OpCode::from_str(t.source.as_str()) {
            Ok(op) => {
                if opcode.is_some() {
                    proof {
                        lemma_line_parts_err(v, (k + 1) as nat, line@.len());
                    }
                    return Err(CompilerError::InvalidLabel(t.source.clone(), t.span));
                }
                opcode = Some((t.span, op));
            },
            Err(_) => {
                if opcode.is_none() {
                    label = Some(k);
                } else {
                    match Operand::<crate::instruction::OperandValue>::lifetime_from_str(t.source.as_str()) {
                        Ok(o) => {
                            operand = Some((t.span, o));
                        },
                        Err(e) => {
                            proof {
                                lemma_line_parts_err(v, (k + 1) as nat, line@.len());
                            }
                            return Err(CompilerError::OperandParseError(t.span, e));
                        },
                    }
                }
            },
        }
        k = k + 1;
    }
    Ok((label, opcode, operand))
}

/// Parses lines of tokens into instructions and their labels, stopping at
/// the first error.
fn parse(lines: Vec<Vec<Token>>, bound: Ghost<int>) -> (r: Result<(Vec<RawInst>, SymbolTable), CompilerError>)
    requires
        lines_well_formed(lines_tview(lines@), bound@),
        bound@ + 5 <= usize::MAX,
    ensures
        match parse_all(lines_tview(lines@)) {
            Ok((insts, syms)) => r matches Ok((v, t)) && raw_views(v@) == insts && t@ == syms && t.wf(),
            Err(e) => r matches Err(x) && x@ == e,
        },
{
    let ghost lv = lines_tview(lines@);
    let mut table = SymbolTable::new();
    let mut insts: Vec<RawInst> = Vec::new();
    let mut i: usize = 0;
    assert(lv.take(0) =~= Seq::<Seq<TokenLView>>::empty());
    while i < lines.len()
        invariant
            lv == lines_tview(lines@),
            lines_well_formed(lv, bound@),
            bound@ + 5 <= usize::MAX,
            i <= lv.len(),
            table.wf(),
            parse_all(lv.take(i as int)) matches Ok((is, ss)) && raw_views(insts@) == is && table@ == ss,
        decreases lv.len() - i,
    {
        assert(lv.take(i as int + 1).drop_last() =~= lv.take(i as int));
        let line = &lines[i];
        assert(lv[i as int] == ltoken_views(line@));
        let ghost lt = ltoken_views(line@);
        assert(lt.len() > 0);
        if line.len() > 3 {
            let last = line.len() - 1;
            assert(lt[3] == line@[3]@ && lt.last() == line@[last as int]@);
            assert(lt[3].span.line == lt[0].span.line && lt.last().span.line == lt[0].span.line);
            proof {
                lemma_parse_all_err(lv, i as int + 1);
            }
            return Err(CompilerError::UnexpectedTokens(line[3].span.union(line[last].span)));
        }
        let (label, opcode, operand) = match read_parts(line) {
            Ok(p) => p,
            Err(e) => {
                proof {
                    lemma_parse_all_err(lv, i as int + 1);
                }
                return Err(e);
            },
        };
        let opcode = match opcode {
            Some(o) => o,
            None => {
                let last = &line[line.len() - 1];
                assert(lt.last() == last@);
                let mut span = last.span;
                let mut position = span.end;
                position = position + 1;
                span.start = position;
                position = position + 4;
                span.end = position;
                proof {
                    lemma_parse_all_err(lv, i as int + 1);
                }
                return Err(CompilerError::ExpectedOpCode(span));
            },
        };
        let ghost prev_syms = table@;
        match label {
            Some(k) => {
                let t = &line[k];
                let found = match table.get(t.source.as_str()) {
                    Some(other) => Some(other.token.span),
                    None => None,
                };
                match found {
                    Some(first) => {
                        proof {
                            lemma_parse_all_err(lv, i as int + 1);
                        }
                        return Err(CompilerError::DuplicateLabel(t.source.clone(), first, t.span));
                    },
                    None => {
                        table.insert(Symbol { token: to_label_token(t), addr: i });
                        let ghost i0 = insts@;
                        insts.push(RawInst { label: Some(to_label_token(t)), opcode, operand });
                        assert(raw_views(insts@) =~= raw_views(i0).push(insts@.last()@));
                    },
                }
            },
            None => {
                let ghost i0 = insts@;
                insts.push(RawInst { label: None, opcode, operand });
                assert(raw_views(insts@) =~= raw_views(i0).push(insts@.last()@));
            },
        }
        i = i + 1;
    }
    assert(lv.take(lv.len() as int) =~= lv);
    Ok((insts, table))
}

// ---------------------------------------------------------------------------
// The whole assembler
// ---------------------------------------------------------------------------

/// What assembling `s` gives: the first error met, or the instructions.
pub open spec fn compile_outcome(s: Seq<char>) -> Result<Seq<Inst>, CompilerErrorView> {
    match parse_all(text_tokens(s)) {
        Err(e) => Err(e),
        Ok((insts, syms)) => {
            let (done, errors) = resolve_all(insts, syms);
            if errors.len() > 0 {
                Err(errors[0])
            } else {
                Ok(done)
            }
        },
    }
}

/// Assembles `source` line by line, stopping at the first error.  The text
/// must leave room for a column five bytes past its end.
pub fn compile_lmc_asm(source: &str) -> (r: Result<Vec<Inst>, CompilerError>)
    requires
        byte_len(source@) + 5 <= usize::MAX,
    ensures
        match compile_outcome(source@) {
            Ok(insts) => r matches Ok(v) && v@ == insts,
            Err(e) => r matches Err(x) && x@ == e,
        },
{
    let tokens = tokenize(source);
    let (raw_insts, symbol_table) = parse(tokens, Ghost(byte_len(source@) as int))?;
    match process_labels(raw_insts, symbol_table) {
        Ok(v) => Ok(v),
        Err(mut es) => {
            let ghost ev = error_views(es@);
            if es.len() > 0 {
                assert(ev[0] == es@[0]@);
                Err(es.swap_remove(0))
            } else {
                Ok(Vec::new())
            }
        },
    }
}

} // verus!
