//! Parsing lines of tokens into instructions, and collecting the labels they
//! define.
use vstd::prelude::*;

use crate::assembler::tokenizer::{clone_tokens, token_views, Token, TokenType, TokenView};
use crate::error::{error_views, one_error, CompilerError, CompilerErrorView, CompilerResult, Expected};
use crate::instruction::{
    mnemonic, operand_of, operand_value_of, OpCode, Operand, OperandValue, OperandValueView, RawInst,
    RawInstView,
};
use crate::span::Span;
use crate::text::str_eq;

verus! {

// ---------------------------------------------------------------------------
// One instruction
// ---------------------------------------------------------------------------

pub open spec fn is_prefix_type(t: TokenType) -> bool {
    t == TokenType::At || t == TokenType::Hash
}

pub open spec fn is_value_type(t: TokenType) -> bool {
    t == TokenType::Literal || t == TokenType::Ident
}

/// The span from token `k` of `rest` to its last token.
pub open spec fn trailing_span(rest: Seq<TokenView>, k: int) -> Span {
    rest[k].span.spec_union(rest.last().span)
}

/// What follows the opcode: nothing, a value, or `@`/`#` and a value.
pub open spec fn operand_part(
    label: Option<TokenView>,
    opcode: (Span, OpCode),
    rest: Seq<TokenView>,
    line: usize,
) -> Result<RawInstView, CompilerErrorView> {
    if rest.len() == 0 {
        Ok(RawInstView { label, opcode, operand: None })
    } else if mnemonic(rest[0].source) is Ok {
        Err(CompilerErrorView::InvalidLabel(rest[0].source, rest[0].span))
    } else if is_prefix_type(rest[0].type_) {
        if rest.len() < 2 {
            Err(CompilerErrorView::ExpectedToken(
                Span { start: rest[0].span.end, end: (rest[0].span.end + 5) as usize, line },
                seq![Expected::Literal, Expected::Label],
            ))
        } else if !is_value_type(rest[1].type_) {
            Err(CompilerErrorView::InvalidToken {
                token: rest[1].source,
                span: rest[1].span,
                expected: seq![Expected::Literal, Expected::Label],
            })
        } else {
            match operand_value_of(rest[1].source) {
                Err(e) => Err(CompilerErrorView::OperandParseError(rest[1].span, e)),
                Ok(v) => if rest.len() > 2 {
                    Err(CompilerErrorView::UnexpectedTokens(trailing_span(rest, 2)))
                } else {
                    let operand = if rest[0].type_ == TokenType::At {
                        Operand::Indirect(v)
                    } else {
                        Operand::Immediate(v)
                    };
                    Ok(RawInstView { label, opcode, operand: Some((rest[1].span, operand)) })
                },
            }
        }
    } else if is_value_type(rest[0].type_) {
        if rest.len() > 1 {
            Err(CompilerErrorView::UnexpectedTokens(trailing_span(rest, 1)))
        } else {
            match operand_of(rest[0].source) {
                Err(e) => Err(CompilerErrorView::OperandParseError(rest[0].span, e)),
                Ok(o) => Ok(RawInstView { label, opcode, operand: Some((rest[0].span, o)) }),
            }
        }
    } else {
        Err(CompilerErrorView::InvalidToken {
            token: rest[0].source,
            span: rest[0].span,
            expected: seq![Expected::At, Expected::Hash, Expected::Literal, Expected::Label],
        })
    }
}

/// Where reading the operand would overflow a column or join tokens of
/// different lines.
pub open spec fn operand_part_panics(rest: Seq<TokenView>, line: usize) -> bool {
    &&& rest.len() > 0
    &&& !(mnemonic(rest[0].source) is Ok)
    &&& if is_prefix_type(rest[0].type_) {
        if rest.len() < 2 {
            rest[0].span.end + 5 > usize::MAX
        } else {
            &&& is_value_type(rest[1].type_)
            &&& operand_value_of(rest[1].source) is Ok
            &&& rest.len() > 2
            &&& rest[2].span.line != rest.last().span.line
        }
    } else if is_value_type(rest[0].type_) {
        rest.len() > 1 && rest[1].span.line != rest.last().span.line
    } else {
        false
    }
}

/// The instruction that the tokens `ts` of line `line` make: an optional
/// label, an opcode, and an optional operand.
pub open spec fn instruction_of(ts: Seq<TokenView>, line: usize) -> Result<RawInstView, CompilerErrorView> {
    if ts.len() == 0 {
        Err(CompilerErrorView::ExpectedOpCode(Span { start: 0, end: 3, line }))
    } else if ts[0].type_ != TokenType::Ident {
        Err(CompilerErrorView::InvalidToken {
            token: ts[0].source,
            span: ts[0].span,
            expected: seq![Expected::Label, Expected::Opcode],
        })
    } else {
        match mnemonic(ts[0].source) {
            Ok(op) => operand_part(None, (ts[0].span, op), ts.skip(1), line),
            Err(_) => if ts.len() < 2 {
                Err(CompilerErrorView::ExpectedOpCode(Span {
                    start: (ts[0].span.end + 1) as usize,
                    end: (ts[0].span.end + 4) as usize,
                    line: ts[0].span.line,
                }))
            } else {
                match mnemonic(ts[1].source) {
                    Err(_) => Err(CompilerErrorView::ExpectedOpCode(ts[1].span)),
                    Ok(op) => operand_part(Some(ts[0]), (ts[1].span, op), ts.skip(2), line),
                }
            },
        }
    }
}

/// The inputs on which reading an instruction overflows a column or joins
/// tokens of different lines.
pub open spec fn instruction_panics(ts: Seq<TokenView>, line: usize) -> bool {
    &&& ts.len() > 0
    &&& ts[0].type_ == TokenType::Ident
    &&& match mnemonic(ts[0].source) {
        Ok(_) => operand_part_panics(ts.skip(1), line),
        Err(_) => if ts.len() < 2 {
            ts[0].span.end + 4 > usize::MAX
        } else {
            mnemonic(ts[1].source) is Ok && operand_part_panics(ts.skip(2), line)
        },
    }
}

pub open spec fn label_view(label: Option<Token>) -> Option<TokenView> {
    match label {
        Some(t) => Some(t@),
        None => None,
    }
}

pub open spec fn parsed_as(r: CompilerResult<RawInst>, o: Result<RawInstView, CompilerErrorView>) -> bool {
    match o {
        Ok(i) => r matches Ok(v) && v@ == i,
        Err(e) => r matches Err(es) && error_views(es@) == seq![e],
    }
}

fn clone_label(label: &Option<Token>) -> (r: Option<Token>)
    ensures
        r.is_some() == label.is_some(),
        r.is_some() ==> r.unwrap()@ == label.unwrap()@,
{
    match label {
        Some(t) => Some(t.clone()),
        None => None,
    }
}

fn trailing_tokens_span(rest: &[Token], k: usize) -> (r: Span)
    requires
        k < rest@.len(),
        rest@[k as int].span.line == rest@.last().span.line,
    ensures
        r == trailing_span(token_views(rest@), k as int),
{
    let last = rest.len() - 1;
    rest[k].span.union(rest[last].span)
}

fn parse_operand_part(label: Option<Token>, opcode: (Span, OpCode), rest: &[Token], line: usize) -> (r:
    CompilerResult<RawInst>)
    requires
        !operand_part_panics(token_views(rest@), line),
    ensures
        parsed_as(
            r,
            operand_part(
                label_view(label),
                opcode,
                token_views(rest@),
                line,
            ),
        ),
{
    let ghost ts = token_views(rest@);
    if rest.len() == 0 {
        return Ok(RawInst { label, opcode, operand: None });
    }
    let token = &rest[0];
    assert(ts[0] == token@);
    if OpCode::from_str(token.source.as_str()).is_ok() {
        return Err(one_error(CompilerError::InvalidLabel(token.source.clone(), token.span)));
    }
    if token.type_ == TokenType::At || token.type_ == TokenType::Hash {
        if rest.len() < 2 {
            let expected = vec![Expected::Literal, Expected::Label];
            assert(expected@ =~= seq![Expected::Literal, Expected::Label]);
            return Err(one_error(CompilerError::ExpectedToken(
                Span::new(token.span.end, token.span.end + 5, line),
                expected,
            )));
        }
        let value = &rest[1];
        assert(ts[1] == value@);
        if !(value.type_ == TokenType::Literal || value.type_ == TokenType::Ident) {
            let expected = vec![Expected::Literal, Expected::Label];
            assert(expected@ =~= seq![Expected::Literal, Expected::Label]);
            return Err(one_error(CompilerError::InvalidToken {
                token: value.source.clone(),
                span: value.span,
                expected,
            }));
        }
        let v = match OperandValue::lifetime_from_str(value.source.as_str()) {
            Ok(v) => v,
            Err(e) => {
                return Err(one_error(CompilerError::OperandParseError(value.span, e)));
            },
        };
        if rest.len() > 2 {
            assert(ts[2] == rest@[2]@ && ts.last() == rest@.last()@);
            return Err(one_error(CompilerError::UnexpectedTokens(trailing_tokens_span(rest, 2))));
        }
        let operand = if token.type_ == TokenType::At {
            Operand::Indirect(v)
        } else {
            Operand::Immediate(v)
        };
        Ok(RawInst { label, opcode, operand: Some((value.span, operand)) })
    } else if token.type_ == TokenType::Literal || token.type_ == TokenType::Ident {
        if rest.len() > 1 {
            assert(ts[1] == rest@[1]@ && ts.last() == rest@.last()@);
            return Err(one_error(CompilerError::UnexpectedTokens(trailing_tokens_span(rest, 1))));
        }
        match Operand::<OperandValue>::lifetime_from_str(token.source.as_str()) {
            Ok(o) => Ok(RawInst { label, opcode, operand: Some((token.span, o)) }),
            Err(e) => Err(one_error(CompilerError::OperandParseError(token.span, e))),
        }
    } else {
        let expected = vec![Expected::At, Expected::Hash, Expected::Literal, Expected::Label];
        assert(expected@ =~= seq![Expected::At, Expected::Hash, Expected::Literal, Expected::Label]);
        Err(one_error(CompilerError::InvalidToken { token: token.source.clone(), span: token.span, expected }))
    }
}

/// Parses the tokens of line `line` into an instruction.
pub fn parse_lmc_instruction(tokens: Vec<Token>, line: usize) -> (r: CompilerResult<RawInst>)
    requires
        !instruction_panics(token_views(tokens@), line),
    ensures
        parsed_as(r, instruction_of(token_views(tokens@), line)),
{
    let ghost ts = token_views(tokens@);
    if tokens.len() == 0 {
        return Err(one_error(CompilerError::ExpectedOpCode(Span::new(0, 3, line))));
    }
    let token = &tokens[0];
    assert(ts[0] == token@);
    if token.type_ != TokenType::Ident {
        let expected = vec![Expected::Label, Expected::Opcode];
        assert(expected@ =~= seq![Expected::Label, Expected::Opcode]);
        return Err(one_error(CompilerError::InvalidToken { token: token.source.clone(), span: token.span, expected }));
    }
    match OpCode::from_str(token.source.as_str()) {
        Ok(op) => {
            assert(token_views(tokens@.subrange(1, tokens@.len() as int)) =~= ts.skip(1));
            parse_operand_part(None, (token.span, op), &tokens.as_slice()[1..tokens.len()], line)
        },
        Err(_) => {
            if tokens.len() < 2 {
                return Err(one_error(CompilerError::ExpectedOpCode(
                    Span::new(token.span.end + 1, token.span.end + 4, token.span.line),
                )));
            }
            let next = &tokens[1];
            assert(ts[1] == next@);
            match OpCode::from_str(next.source.as_str()) {
                Ok(op) => {
                    assert(token_views(tokens@.subrange(2, tokens@.len() as int)) =~= ts.skip(2));
                    parse_operand_part(
                        Some(token.clone()),
                        (next.span, op),
                        &tokens.as_slice()[2..tokens.len()],
                        line,
                    )
                },
                Err(_) => Err(one_error(CompilerError::ExpectedOpCode(next.span))),
            }
        },
    }
}

fn operand_part_would_panic(rest: &[Token], line: usize) -> (r: bool)
    ensures
        r == operand_part_panics(token_views(rest@), line),
{
    let ghost ts = token_views(rest@);
    if rest.len() == 0 {
        return false;
    }
    let token = &rest[0];
    assert(ts[0] == token@);
    if OpCode::from_str(token.source.as_str()).is_ok() {
        return false;
    }
    let last = rest.len() - 1;
    assert(ts.last() == rest@[last as int]@);
    if token.type_ == TokenType::At || token.type_ == TokenType::Hash {
        if rest.len() < 2 {
            return token.span.end > usize::MAX - 5;
        }
        let value = &rest[1];
        assert(ts[1] == value@);
        if !(value.type_ == TokenType::Literal || value.type_ == TokenType::Ident) {
            return false;
        }
        if OperandValue::lifetime_from_str(value.source.as_str()).is_err() {
            return false;
        }
        if rest.len() > 2 {
            assert(ts[2] == rest@[2]@);
        }
        rest.len() > 2 && rest[2].span.line != rest[last].span.line
    } else if token.type_ == TokenType::Literal || token.type_ == TokenType::Ident {
        if rest.len() > 1 {
            assert(ts[1] == rest@[1]@);
        }
        rest.len() > 1 && rest[1].span.line != rest[last].span.line
    } else {
        false
    }
}

/// Whether reading the instruction `tokens` of line `line` would overflow a
/// column or join tokens of different lines; `parse_lmc_instruction` does
/// not accept such input.
pub fn instruction_would_panic(tokens: &[Token], line: usize) -> (r: bool)
    ensures
        r == instruction_panics(token_views(tokens@), line),
{
    let ghost ts = token_views(tokens@);
    if tokens.len() == 0 {
        return false;
    }
    let token = &tokens[0];
    assert(ts[0] == token@);
    if token.type_ != TokenType::Ident {
        return false;
    }
    if OpCode::from_str(token.source.as_str()).is_ok() {
        assert(token_views(tokens@.subrange(1, tokens@.len() as int)) =~= ts.skip(1));
        operand_part_would_panic(&tokens[1..tokens.len()], line)
    } else if tokens.len() < 2 {
        token.span.end > usize::MAX - 4
    } else {
        assert(ts[1] == tokens@[1]@);
        assert(token_views(tokens@.subrange(2, tokens@.len() as int)) =~= ts.skip(2));
        OpCode::from_str(tokens[1].source.as_str()).is_ok() && operand_part_would_panic(&tokens[2..tokens.len()], line)
    }
}

// ---------------------------------------------------------------------------
// Labels
// ---------------------------------------------------------------------------

/// A label and the address of the instruction that it names.
#[derive(Debug)]
pub struct Symbol {
    pub token: Token,
    pub addr: usize,
}

pub struct SymbolView {
    pub token: TokenView,
    pub addr: usize,
}

impl View for Symbol {
    type V = SymbolView;

    open spec fn view(&self) -> SymbolView {
        SymbolView { token: self.token@, addr: self.addr }
    }
}

/// The first symbol of `syms` named `name`.
pub open spec fn find_symbol(syms: Seq<SymbolView>, name: Seq<char>) -> Option<SymbolView>
    decreases syms.len(),
{
    if syms.len() == 0 {
        None
    } else if syms[0].token.source == name {
        Some(syms[0])
    } else {
        find_symbol(syms.drop_first(), name)
    }
}

/// No two symbols share a name.
pub open spec fn names_distinct(syms: Seq<SymbolView>) -> bool {
    forall|a: int, b: int|
        0 <= a < b < syms.len() ==> (#[trigger] syms[a]).token.source != (#[trigger] syms[b]).token.source
}

/// `find_symbol` finds a symbol of `syms` with the name, if any has it.
pub proof fn lemma_find_symbol(syms: Seq<SymbolView>, name: Seq<char>)
    ensures
        find_symbol(syms, name) is None <==> (forall|k: int| 0 <= k < syms.len() ==> (#[trigger] syms[k]).token.source != name),
        find_symbol(syms, name) matches Some(s) ==> (exists|k: int| 0 <= k < syms.len() && syms[k] == s),
        find_symbol(syms, name) matches Some(s) ==> s.token.source == name,
    decreases syms.len(),
{
    if syms.len() > 0 {
        lemma_find_symbol(syms.drop_first(), name);
        if syms[0].token.source != name {
            assert forall|k: int| 0 < k < syms.len() implies #[trigger] syms[k] == syms.drop_first()[k - 1] by {}
            if find_symbol(syms, name) is None {
                assert forall|k: int| 0 <= k < syms.len() implies (#[trigger] syms[k]).token.source != name by {
                    if k > 0 {
                        assert(syms.drop_first()[k - 1] == syms[k]);
                    }
                }
            } else {
                let s = find_symbol(syms, name)->Some_0;
                let j = choose|j: int| 0 <= j < syms.drop_first().len() && syms.drop_first()[j] == s;
                assert(syms[j + 1] == s);
            }
        }
    }
}

/// The labels of a program, each with the address that it names; no name
/// occurs twice.  The symbols are kept in a `Vec` that is searched by name:
/// keyed by `String`, a `HashMap` has no specification from which a lookup's
/// answer could be proved, while here every lookup is stated through
/// [`find_symbol`] and the names are kept distinct by [`names_distinct`].
pub struct SymbolTable {
    symbols: Vec<Symbol>,
}

impl View for SymbolTable {
    type V = Seq<SymbolView>;

    closed spec fn view(&self) -> Seq<SymbolView> {
        self.symbols@.map_values(|s: Symbol| s@)
    }
}

impl SymbolTable {
    pub open spec fn wf(&self) -> bool {
        names_distinct(self@)
    }

    pub fn new() -> (r: Self)
        ensures
            r@ == Seq::<SymbolView>::empty(),
            r.wf(),
    {
        let r = SymbolTable { symbols: Vec::new() };
        assert(r@ =~= Seq::<SymbolView>::empty());
        r
    }

    pub fn len(&self) -> (r: usize)
        ensures
            r == self@.len(),
    {
        self.symbols.len()
    }

    /// The symbol named `name`.
    pub fn get(&self, name: &str) -> (r: Option<&Symbol>)
        ensures
            match find_symbol(self@, name@) {
                Some(s) => r matches Some(x) && x@ == s,
                None => r is None,
            },
    {
        let ghost v = self@;
        assert(v.skip(0) =~= v);
        let mut i: usize = 0;
        while i < self.symbols.len()
            invariant
                v == self@,
                v.len() == self.symbols@.len(),
                i <= v.len(),
                find_symbol(v, name@) == find_symbol(v.skip(i as int), name@),
            decreases self.symbols@.len() - i,
        {
            let s = &self.symbols[i];
            assert(v[i as int] == s@);
            assert(v.skip(i as int).drop_first() =~= v.skip(i as int + 1));
            if str_eq(s.token.source.as_str(), name) {
                return Some(s);
            }
            i = i + 1;
        }
        None
    }

    /// Adds a symbol whose name is not yet in the table.
    pub fn insert(&mut self, symbol: Symbol)
        requires
            old(self).wf(),
            find_symbol(old(self)@, symbol.token.source@) is None,
        ensures
            final(self)@ == old(self)@.push(symbol@),
            final(self).wf(),
    {
        proof {
            lemma_find_symbol(old(self)@, symbol.token.source@);
        }
        let ghost s = symbol@;
        self.symbols.push(symbol);
        assert(self@ =~= old(self)@.push(s));
    }
}

// ---------------------------------------------------------------------------
// A whole program
// ---------------------------------------------------------------------------

/// What parsing has gathered so far.
pub struct ParseState {
    pub insts: Seq<RawInstView>,
    pub symbols: Seq<SymbolView>,
    pub errors: Seq<CompilerErrorView>,
}

/// Parsing the line `tokens`, numbered `line`, after the state `st`.  A
/// label that is already defined is an error, and its instruction is dropped.
pub open spec fn parse_step(st: ParseState, line: usize, tokens: Seq<TokenView>) -> ParseState {
    match instruction_of(tokens, line) {
        Err(e) => ParseState { errors: st.errors.push(e), ..st },
        Ok(inst) => match inst.label {
            Some(l) => match find_symbol(st.symbols, l.source) {
                Some(other) => ParseState {
                    errors: st.errors.push(CompilerErrorView::DuplicateLabel(l.source, other.token.span, l.span)),
                    ..st
                },
                None => ParseState {
                    insts: st.insts.push(inst),
                    symbols: st.symbols.push(SymbolView { token: l, addr: line }),
                    errors: st.errors,
                },
            },
            None => ParseState { insts: st.insts.push(inst), ..st },
        },
    }
}

/// The state after parsing every line of `lines`.
pub open spec fn parse_lines(lines: Seq<(usize, Seq<TokenView>)>) -> ParseState
    decreases lines.len(),
{
    if lines.len() == 0 {
        ParseState { insts: seq![], symbols: seq![], errors: seq![] }
    } else {
        parse_step(parse_lines(lines.drop_last()), lines.last().0, lines.last().1)
    }
}

pub open spec fn lines_view(lines: Seq<(usize, Vec<Token>)>) -> Seq<(usize, Seq<TokenView>)> {
    lines.map_values(|p: (usize, Vec<Token>)| (p.0, token_views(p.1@)))
}

pub open spec fn raw_views(insts: Seq<RawInst>) -> Seq<RawInstView> {
    insts.map_values(|i: RawInst| i@)
}

/// Some line of `lines` would overflow a column or join tokens of different
/// lines.
pub open spec fn lines_panic(lines: Seq<(usize, Seq<TokenView>)>) -> bool {
    exists|k: int| 0 <= k < lines.len() && instruction_panics(#[trigger] lines[k].1, lines[k].0)
}

/// Whether some line of `lines` would overflow a column or join tokens of
/// different lines; `parse_lmc_asm` does not accept such input.
pub fn parse_would_panic(lines: &Vec<(usize, Vec<Token>)>) -> (r: bool)
    ensures
        r == lines_panic(lines_view(lines@)),
{
    let ghost lv = lines_view(lines@);
    let mut k: usize = 0;
    while k < lines.len()
        invariant
            lv == lines_view(lines@),
            k <= lines@.len(),
            forall|j: int| 0 <= j < k ==> !instruction_panics(#[trigger] lv[j].1, lv[j].0),
        decreases lines@.len() - k,
    {
        assert(lv[k as int] == (lines@[k as int].0, token_views(lines@[k as int].1@)));
        if instruction_would_panic(lines[k].1.as_slice(), lines[k].0) {
            assert(instruction_panics(lv[k as int].1, lv[k as int].0));
            return true;
        }
        k = k + 1;
    }
    false
}

/// Parses numbered lines of tokens into instructions and the table of their
/// labels; a label names the number of its line.  Every error of every line
/// is reported.
pub fn parse_lmc_asm(tokens: Vec<(usize, Vec<Token>)>) -> (r: CompilerResult<(Vec<RawInst>, SymbolTable)>)
    requires
        !lines_panic(lines_view(tokens@)),
    ensures
        ({
            let st = parse_lines(lines_view(tokens@));
            if st.errors.len() > 0 {
                r matches Err(es) && error_views(es@) == st.errors
            } else {
                r matches Ok((insts, table)) && raw_views(insts@) == st.insts && table@ == st.symbols
                    && table.wf()
            }
        }),
{
    let ghost lv = lines_view(tokens@);
    let mut table = SymbolTable::new();
    let mut insts: Vec<RawInst> = Vec::new();
    let mut errors: Vec<CompilerError> = Vec::new();
    let mut k: usize = 0;
    while k < tokens.len()
        invariant
            lv == lines_view(tokens@),
            !lines_panic(lv),
            k <= tokens@.len(),
            table.wf(),
            ({
                let st = parse_lines(lv.take(k as int));
                &&& raw_views(insts@) == st.insts
                &&& table@ == st.symbols
                &&& error_views(errors@) == st.errors
            }),
        decreases tokens@.len() - k,
    {
        let ghost prev = parse_lines(lv.take(k as int));
        assert(lv.take(k as int + 1).drop_last() =~= lv.take(k as int));
        let line_no = tokens[k].0;
        let line = clone_tokens(tokens[k].1.as_slice());
        assert(lv[k as int] == (line_no, token_views(line@)));
        assert(!instruction_panics(lv[k as int].1, lv[k as int].0));
        let ghost next = parse_step(prev, line_no, token_views(line@));
        match parse_lmc_instruction(line, line_no) {
            Err(mut e) => {
                let ghost e0 = errors@;
                let ghost e1 = e@;
                errors.append(&mut e);
                assert(error_views(errors@) =~= error_views(e0) + error_views(e1));
            },
            Ok(inst) => {
                let label = clone_label(&inst.label);
                match label {
                    Some(l) => {
                        let prev_span = match table.get(l.source.as_str()) {
                            Some(other) => Some(other.token.span),
                            None => None,
                        };
                        match prev_span {
                            Some(first) => {
                                let ghost e0 = errors@;
                                errors.push(CompilerError::DuplicateLabel(l.source.clone(), first, l.span));
                                assert(error_views(errors@) =~= error_views(e0).push(errors@.last()@));
                            },
                            None => {
                                table.insert(Symbol { token: l, addr: line_no });
                                let ghost i0 = insts@;
                                insts.push(inst);
                                assert(raw_views(insts@) =~= raw_views(i0).push(insts@.last()@));
                            },
                        }
                    },
                    None => {
                        let ghost i0 = insts@;
                        insts.push(inst);
                        assert(raw_views(insts@) =~= raw_views(i0).push(insts@.last()@));
                    },
                }
            },
        }
        assert(parse_lines(lv.take(k as int + 1)) == next);
        k = k + 1;
    }
    assert(lv.take(tokens@.len() as int) =~= lv);
    if errors.len() > 0 {
        Err(errors)
    } else {
        Ok((insts, table))
    }
}

/// Errors are never taken back, and every line adds an instruction or an
/// error.
proof fn lemma_parse_counts(lines: Seq<(usize, Seq<TokenView>)>)
    ensures
        parse_lines(lines).insts.len() + parse_lines(lines).errors.len() == lines.len(),
    decreases lines.len(),
{
    if lines.len() > 0 {
        lemma_parse_counts(lines.drop_last());
    }
}

/// Where parsing finds no error, every line becomes exactly one
/// instruction.
pub proof fn law_parse_one_instruction_per_line(lines: Seq<(usize, Seq<TokenView>)>)
    requires
        parse_lines(lines).errors.len() == 0,
    ensures
        parse_lines(lines).insts.len() == lines.len(),
{
    lemma_parse_counts(lines);
}

/// The labels collected while parsing are all different.
pub proof fn law_parse_labels_distinct(lines: Seq<(usize, Seq<TokenView>)>)
    ensures
        names_distinct(parse_lines(lines).symbols),
    decreases lines.len(),
{
    if lines.len() > 0 {
        let prev = parse_lines(lines.drop_last());
        law_parse_labels_distinct(lines.drop_last());
        match instruction_of(lines.last().1, lines.last().0) {
            Ok(inst) => match inst.label {
                Some(l) => {
                    lemma_find_symbol(prev.symbols, l.source);
                },
                None => {},
            },
            Err(_) => {},
        }
    }
}

} // verus!
