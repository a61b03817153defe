//! The assembler: text to tokens, macro expansion, parsing, optimisation and
//! label resolution.
use vstd::prelude::*;
use std::collections::HashMap;

use crate::assembler::labels::{process_labels, resolve_all};
use crate::assembler::macros::{expand_outcome, try_expand_lmc_macros, PassOutcome};
use crate::assembler::optimizer::{optimize_lmc_asm, optimized};
use crate::assembler::parser::{
    lines_panic, lines_view, parse_lines, parse_lmc_asm, parse_would_panic, raw_views, SymbolTable, SymbolView,
};
use crate::assembler::tokenizer::{lex_text, token_views, tokenize_lmc_asm, tokenize_panics, Token, TokenType, TokenView};
use crate::error::{error_views, CompilerErrorView, CompilerResult};
use crate::instruction::{Inst, RawInst, RawInstView};
use crate::span::Span;

pub mod labels;
pub mod macros;
pub mod optimizer;
pub mod parser;
pub mod tokenizer;

verus! {

// ---------------------------------------------------------------------------
// Lines
// ---------------------------------------------------------------------------

/// The finished lines of `ts` and the line still being read; a line ends at
/// a `LineEnd` token, which belongs to no line.
pub open spec fn group_lines(ts: Seq<TokenView>) -> (Seq<Seq<TokenView>>, Seq<TokenView>)
    decreases ts.len(),
{
    if ts.len() == 0 {
        (seq![], seq![])
    } else {
        let (done, current) = group_lines(ts.drop_last());
        if ts.last().type_ == TokenType::LineEnd {
            (done.push(current), seq![])
        } else {
            (done, current.push(ts.last()))
        }
    }
}

/// The lines that hold tokens, numbered from 0 in order.
pub open spec fn number_lines(lines: Seq<Seq<TokenView>>) -> Seq<(usize, Seq<TokenView>)>
    decreases lines.len(),
{
    if lines.len() == 0 {
        seq![]
    } else {
        let before = number_lines(lines.drop_last());
        if lines.last().len() > 0 {
            before.push((before.len() as usize, lines.last()))
        } else {
            before
        }
    }
}

/// The numbered, non-empty lines of `ts`.
pub open spec fn numbered_lines(ts: Seq<TokenView>) -> Seq<(usize, Seq<TokenView>)> {
    let (done, current) = group_lines(ts);
    number_lines(done.push(current))
}

proof fn lemma_number_lines_len(lines: Seq<Seq<TokenView>>)
    ensures
        number_lines(lines).len() <= lines.len(),
    decreases lines.len(),
{
    if lines.len() > 0 {
        lemma_number_lines_len(lines.drop_last());
    }
}

proof fn lemma_group_lines_len(ts: Seq<TokenView>)
    ensures
        group_lines(ts).0.len() <= ts.len(),
    decreases ts.len(),
{
    if ts.len() > 0 {
        lemma_group_lines_len(ts.drop_last());
    }
}

/// Splits tokens into numbered lines, leaving out the empty ones.
fn split_lines(tokens: &Vec<Token>) -> (r: Vec<(usize, Vec<Token>)>)
    ensures
        lines_view(r@) == numbered_lines(token_views(tokens@)),
{
    let ghost ts = token_views(tokens@);
    let mut out: Vec<(usize, Vec<Token>)> = Vec::new();
    let mut current: Vec<Token> = Vec::new();
    let mut i: usize = 0;
    assert(lines_view(out@) =~= number_lines(seq![]));
    assert(token_views(current@) =~= seq![]);
    while i < tokens.len()
        invariant
            ts == token_views(tokens@),
            i <= tokens@.len(),
            lines_view(out@) == number_lines(group_lines(ts.take(i as int)).0),
            token_views(current@) == group_lines(ts.take(i as int)).1,
            out@.len() <= i,
        decreases tokens@.len() - i,
    {
        assert(ts.take(i as int + 1).drop_last() =~= ts.take(i as int));
        let ghost g = group_lines(ts.take(i as int));
        proof {
            lemma_number_lines_len(g.0);
            lemma_group_lines_len(ts.take(i as int));
        }
        let token = &tokens[i];
        assert(ts[i as int] == token@);
        if token.type_ == TokenType::LineEnd {
            assert(g.0.push(g.1).drop_last() =~= g.0);
            if current.len() > 0 {
                let n = out.len();
                let ghost o0 = out@;
                out.push((n, current));
                assert(lines_view(out@) =~= lines_view(o0).push((n, g.1)));
            }
            current = Vec::new();
            assert(token_views(current@) =~= seq![]);
        } else {
            let ghost c0 = current@;
            current.push(token.clone());
            assert(token_views(current@) =~= token_views(c0).push(token@));
        }
        i = i + 1;
    }
    assert(ts.take(tokens@.len() as int) =~= ts);
    let ghost g = group_lines(ts);
    assert(g.0.push(g.1).drop_last() =~= g.0);
    proof {
        lemma_number_lines_len(g.0);
        lemma_group_lines_len(ts);
    }
    if current.len() > 0 {
        let n = out.len();
        let ghost o0 = out@;
        out.push((n, current));
        assert(lines_view(out@) =~= lines_view(o0).push((n, g.1)));
    }
    out
}

// ---------------------------------------------------------------------------
// From text to instructions
// ---------------------------------------------------------------------------

/// What reading a program gives: its instructions and labels, its errors,
/// or an input that the assembler does not accept.
pub enum FrontOutcome {
    Parsed(Seq<RawInstView>, Seq<SymbolView>),
    Failed(Seq<CompilerErrorView>),
    Panics,
}

/// Reading the program `source`: tokens, then (if `macros`) macro
/// expansion, then lines, parsing and folding of `ADD #0`.
pub open spec fn front_outcome(source: Seq<char>, macros: bool) -> FrontOutcome {
    let lx = lex_text(source);
    if lx.panics {
        FrontOutcome::Panics
    } else if lx.errors.len() > 0 {
        FrontOutcome::Failed(lx.errors)
    } else {
        let expanded = if macros {
            expand_outcome(lx.tokens)
        } else {
            PassOutcome::Done(lx.tokens)
        };
        match expanded {
            PassOutcome::Panics => FrontOutcome::Panics,
            PassOutcome::Error(e) => FrontOutcome::Failed(seq![e]),
            PassOutcome::Done(ts) => {
                let lines = numbered_lines(ts);
                if lines_panic(lines) {
                    FrontOutcome::Panics
                } else {
                    let st = parse_lines(lines);
                    if st.errors.len() > 0 {
                        FrontOutcome::Failed(st.errors)
                    } else {
                        FrontOutcome::Parsed(optimized(st.insts), st.symbols)
                    }
                }
            },
        }
    }
}

pub open spec fn front_result(r: CompilerResult<(Vec<RawInst>, SymbolTable)>, o: FrontOutcome) -> bool {
    match o {
        FrontOutcome::Parsed(insts, syms) => r matches Ok((v, t)) && raw_views(v@) == insts && t@ == syms
            && t.wf(),
        FrontOutcome::Failed(es) => r matches Err(v) && error_views(v@) == es,
        FrontOutcome::Panics => true,
    }
}

/// Reads the program `source`; `None` where it is input that the assembler
/// does not accept (a token boundary inside a multi-byte character, a macro
/// that cannot be expanded, or an instruction whose tokens lie on different
/// lines or overflow a column).
pub fn try_tokenize_and_parse_lmc_asm(source: &str, macros: bool) -> (r: Option<
    CompilerResult<(Vec<RawInst>, SymbolTable)>,
>)
    ensures
        r is None <==> front_outcome(source@, macros) is Panics,
        r matches Some(res) ==> front_result(res, front_outcome(source@, macros)),
{
    if tokenize_panics(source) {
        return None;
    }
    let tokens = match tokenize_lmc_asm(source) {
        Ok(t) => t,
        Err(e) => {
            return Some(Err(e));
        },
    };
    let tokens = if macros {
        match try_expand_lmc_macros(tokens) {
            None => {
                return None;
            },
            Some(Ok(t)) => t,
            Some(Err(e)) => {
                return Some(Err(e));
            },
        }
    } else {
        tokens
    };
    let lines = split_lines(&tokens);
    if parse_would_panic(&lines) {
        return None;
    }
    let (raw_insts, symbol_table) = match parse_lmc_asm(lines) {
        Ok(p) => p,
        Err(e) => {
            return Some(Err(e));
        },
    };
    Some(optimize_lmc_asm(raw_insts, symbol_table))
}

/// Reads the program `source`: tokenizes it, expands its macros if `macros`
/// holds, splits it into lines, parses them and folds each `ADD #0` that
/// defines a label into the next instruction.
pub fn tokenize_and_parse_lmc_asm(source: &str, macros: bool) -> (r: CompilerResult<(Vec<RawInst>, SymbolTable)>)
    requires
        !(front_outcome(source@, macros) is Panics),
    ensures
        front_result(r, front_outcome(source@, macros)),
{
    match try_tokenize_and_parse_lmc_asm(source, macros) {
        Some(r) => r,
        None => Err(Vec::new()),
    }
}

// ---------------------------------------------------------------------------
// Source map and assembly
// ---------------------------------------------------------------------------

/// For each instruction's address, the span of the source it came from.
pub type SourceMap = HashMap<usize, Span>;

/// The span of an instruction: its label, opcode and operand together.
pub open spec fn inst_span(inst: RawInstView) -> Span {
    let s = inst.opcode.0;
    let s = match inst.label {
        Some(l) => l.span.spec_union(s),
        None => s,
    };
    match inst.operand {
        Some((os, _)) => os.spec_union(s),
        None => s,
    }
}

/// The parts of an instruction lie on different lines, so that no one span
/// covers them.
pub open spec fn inst_span_panics(inst: RawInstView) -> bool {
    ||| (inst.label matches Some(l) && l.span.line != inst.opcode.0.line)
    ||| (inst.operand matches Some((os, _)) && os.line != inst.opcode.0.line)
}

pub open spec fn source_map_panics(insts: Seq<RawInstView>) -> bool {
    exists|k: int| 0 <= k < insts.len() && inst_span_panics(#[trigger] insts[k])
}

/// The source map of `insts`: address `k` maps to the span of instruction `k`.
pub open spec fn source_map_of(insts: Seq<RawInstView>) -> Map<usize, Span> {
    Map::new(|k: usize| k < insts.len(), |k: usize| inst_span(insts[k as int]))
}

fn raw_inst_span(inst: &RawInst) -> (r: Span)
    requires
        !inst_span_panics(inst@),
    ensures
        r == inst_span(inst@),
{
    let mut span = inst.opcode.0;
    match &inst.label {
        Some(l) => {
            span = l.span.union(span);
        },
        None => {},
    }
    match &inst.operand {
        Some((os, _)) => {
            span = os.union(span);
        },
        None => {},
    }
    span
}

/// Whether some instruction's parts lie on different lines;
/// `generate_source_map` and `assemble_lmc_asm` do not accept such input.
pub fn source_map_would_panic(insts: &[RawInst]) -> (r: bool)
    ensures
        r == source_map_panics(raw_views(insts@)),
{
    let ghost v = raw_views(insts@);
    let mut k: usize = 0;
    while k < insts.len()
        invariant
            v == raw_views(insts@),
            k <= insts@.len(),
            forall|j: int| 0 <= j < k ==> !inst_span_panics(#[trigger] v[j]),
        decreases insts@.len() - k,
    {
        let inst = &insts[k];
        assert(v[k as int] == inst@);
        let bad = match &inst.label {
            Some(l) => l.span.line != inst.opcode.0.line,
            None => false,
        } || match &inst.operand {
            Some((os, _)) => os.line != inst.opcode.0.line,
            None => false,
        };
        if bad {
            assert(inst_span_panics(v[k as int]));
            return true;
        }
        k = k + 1;
    }
    false
}

/// Maps each instruction's address to the span of its source.
pub fn generate_source_map(insts: &[RawInst]) -> (r: SourceMap)
    requires
        !source_map_panics(raw_views(insts@)),
    ensures
        r@ == source_map_of(raw_views(insts@)),
{
    broadcast use vstd::std_specs::hash::group_hash_axioms;

    let ghost v = raw_views(insts@);
    let mut map: SourceMap = HashMap::new();
    let mut k: usize = 0;
    while k < insts.len()
        invariant
            v == raw_views(insts@),
            !source_map_panics(v),
            k <= insts@.len(),
            map@ == Map::new(|j: usize| j < k, |j: usize| inst_span(v[j as int])),
        decreases insts@.len() - k,
    {
        let inst = &insts[k];
        assert(v[k as int] == inst@);
        assert(!inst_span_panics(v[k as int]));
        let span = raw_inst_span(inst);
        map.insert(k, span);
        assert(map@ =~= Map::new(|j: usize| j < k + 1, |j: usize| inst_span(v[j as int])));
        k = k + 1;
    }
    assert(map@ =~= source_map_of(v));
    map
}

/// Resolves the labels of a parsed program and maps each instruction's
/// address to its source.
pub fn assemble_lmc_asm(raw_insts: Vec<RawInst>, symbol_table: SymbolTable) -> (r: CompilerResult<
    (Vec<Inst>, SourceMap),
>)
    requires
        !source_map_panics(raw_views(raw_insts@)),
    ensures
        ({
            let (done, errors) = resolve_all(raw_views(raw_insts@), symbol_table@);
            if errors.len() > 0 {
                r matches Err(es) && error_views(es@) == errors
            } else {
                r matches Ok((v, m)) && v@ == done && m@ == source_map_of(raw_views(raw_insts@))
            }
        }),
{
    let source_map = generate_source_map(raw_insts.as_slice());
    match process_labels(raw_insts, symbol_table) {
        Ok(insts) => Ok((insts, source_map)),
        Err(e) => Err(e),
    }
}

} // verus!
