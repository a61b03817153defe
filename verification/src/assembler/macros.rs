//! Expansion of the assembler's macros (`%init`, `%_start`, `%push`, `%pop`,
//! `%bsub`, `%ret` and `%label:`) into plain instructions.
use vstd::prelude::*;
use vstd::std_specs::hash::DefaultHasherAdditionalSpecFns;
use std::collections::hash_map::DefaultHasher;
use std::hash::Hasher;

use crate::assembler::tokenizer::{clone_tokens, token_views, Token, TokenType, TokenView};
use crate::error::{error_views, CompilerError, CompilerErrorView, CompilerResult, Expected};
use crate::instruction::OpCode;
use crate::span::Span;
use crate::text::IntErrorKind;
use crate::text::{
    chars_of, decimal, utf8_width, hexadecimal, parse_usize, parse_usize_spec, push_char, push_str, string_of,
    u64_to_hex, usize_to_decimal,
};

verus! {

// ---------------------------------------------------------------------------
// Tokens that the expansions are made of
// ---------------------------------------------------------------------------

pub open spec fn tv(type_: TokenType, source: Seq<char>, span: Span) -> TokenView {
    TokenView { type_, source, span }
}

pub open spec fn line_end_tok(span: Span) -> TokenView {
    tv(TokenType::LineEnd, seq!['\n'], span)
}

pub open spec fn name_tok(name: Seq<char>, span: Span) -> TokenView {
    tv(TokenType::Ident, name, span)
}

pub open spec fn op_tok(op: OpCode, span: Span) -> TokenView {
    tv(TokenType::Ident, op.name(), span)
}

pub open spec fn hash_tok(span: Span) -> TokenView {
    tv(TokenType::Hash, seq!['#'], span)
}

pub open spec fn at_tok(span: Span) -> TokenView {
    tv(TokenType::At, seq!['@'], span)
}

pub open spec fn literal_tok(text: Seq<char>, span: Span) -> TokenView {
    tv(TokenType::Literal, text, span)
}

/// A label private to one expansion: `_`, the expansion's hash, then `suffix`.
pub open spec fn hashed(hash: Seq<char>, suffix: Seq<char>) -> Seq<char> {
    seq!['_'] + hash + suffix
}

pub open spec fn stack_ptr_label() -> Seq<char> {
    "STACK_PTR"@
}

pub open spec fn stack_label() -> Seq<char> {
    "STACK"@
}

pub open spec fn call_stack_ptr_label() -> Seq<char> {
    "CALL_STACK_PTR"@
}

pub open spec fn call_stack_label() -> Seq<char> {
    "CALL_STACK"@
}

pub open spec fn ret_label() -> Seq<char> {
    "_ret"@
}

fn line_end(span: Span) -> (r: Token)
    ensures
        r@ == line_end_tok(span),
{
    let mut s = String::new();
    push_char(&mut s, '\n');
    Token { type_: TokenType::LineEnd, source: s, span }
}

fn name(text: &str, span: Span) -> (r: Token)
    ensures
        r@ == name_tok(text@, span),
{
    Token { type_: TokenType::Ident, source: string_of(text), span }
}

fn owned_name(text: String, span: Span) -> (r: Token)
    ensures
        r@ == name_tok(text@, span),
{
    Token { type_: TokenType::Ident, source: text, span }
}

fn op(opcode: OpCode, span: Span) -> (r: Token)
    ensures
        r@ == op_tok(opcode, span),
{
    Token { type_: TokenType::Ident, source: string_of(opcode.as_str()), span }
}

fn hash_sign(span: Span) -> (r: Token)
    ensures
        r@ == hash_tok(span),
{
    let mut s = String::new();
    push_char(&mut s, '#');
    Token { type_: TokenType::Hash, source: s, span }
}

fn at_sign(span: Span) -> (r: Token)
    ensures
        r@ == at_tok(span),
{
    let mut s = String::new();
    push_char(&mut s, '@');
    Token { type_: TokenType::At, source: s, span }
}

fn literal(text: &str, span: Span) -> (r: Token)
    ensures
        r@ == literal_tok(text@, span),
{
    Token { type_: TokenType::Literal, source: string_of(text), span }
}

/// Appends a token to a list of tokens.
fn push_tok(v: &mut Vec<Token>, t: Token)
    ensures
        token_views(final(v)@) == token_views(old(v)@).push(t@),
{
    let ghost before = v@;
    v.push(t);
    assert(token_views(v@) =~= token_views(before).push(t@));
}

fn hashed_name(hash: &str, suffix: &str) -> (r: String)
    ensures
        r@ == hashed(hash@, suffix@),
{
    let mut s = String::new();
    push_char(&mut s, '_');
    push_str(&mut s, hash);
    push_str(&mut s, suffix);
    assert(s@ =~= hashed(hash@, suffix@));
    s
}

/// The bytes of `n` in little-endian order, as many as a `usize` has.
pub open spec fn usize_le_bytes(n: usize) -> Seq<u8> {
    if usize::BITS == 32 {
        vstd::bytes::spec_u32_to_le_bytes(n as u32)
    } else {
        vstd::bytes::spec_u64_to_le_bytes(n as u64)
    }
}

fn usize_bytes(n: usize) -> (r: Vec<u8>)
    ensures
        r@ == usize_le_bytes(n),
{
    if usize::BITS == 32 {
        vstd::bytes::u32_to_le_bytes(n as u32)
    } else {
        vstd::bytes::u64_to_le_bytes(n as u64)
    }
}

/// The text that names the expansions of the macro at `span`: the
/// `DefaultHasher` hash of the span's three fields, each written as the
/// bytes of a `usize` in little-endian order (what hashing the `Span` value
/// writes on a little-endian target; on a big-endian target the names
/// differ), in lowercase hexadecimal.
pub open spec fn span_hash(span: Span) -> Seq<char> {
    hexadecimal(
        DefaultHasher::spec_finish(
            seq![usize_le_bytes(span.start), usize_le_bytes(span.end), usize_le_bytes(span.line)],
        ) as nat,
    )
}

/// Hashes `span` as [`span_hash`] says.
pub fn hash_span(span: Span) -> (r: String)
    ensures
        r@ == span_hash(span),
{
    let mut hasher = DefaultHasher::new();
    let b = usize_bytes(span.start);
    hasher.write(b.as_slice());
    let b = usize_bytes(span.end);
    hasher.write(b.as_slice());
    let b = usize_bytes(span.line);
    hasher.write(b.as_slice());
    assert(hasher@ =~= seq![usize_le_bytes(span.start), usize_le_bytes(span.end), usize_le_bytes(span.line)]);
    u64_to_hex(hasher.finish())
}

// ---------------------------------------------------------------------------
// The macros
// ---------------------------------------------------------------------------

/// `Ok` when `result` holds, otherwise an unreachable-condition error at `span`.
pub fn macro_assert(span: Span, result: bool) -> (r: CompilerResult<()>)
    ensures
        result ==> r is Ok,
        !result ==> (r matches Err(es) && error_views(es@) == seq![CompilerErrorView::UnreachableCondition(span)]),
{
    if !result {
        let es = vec![CompilerError::UnreachableCondition(span)];
        assert(error_views(es@) =~= seq![CompilerErrorView::UnreachableCondition(span)]);
        return Err(es);
    }
    Ok(())
}

/// A single error as the error list of a result.
pub open spec fn fails_with(r: CompilerResult<Vec<Token>>, e: CompilerErrorView) -> bool {
    r matches Err(es) && error_views(es@) == seq![e]
}

/// A successful expansion into the tokens `ts`.
pub open spec fn expands_to(r: CompilerResult<Vec<Token>>, ts: Seq<TokenView>) -> bool {
    r matches Ok(v) && token_views(v@) == ts
}

fn fail(e: CompilerError) -> (r: CompilerResult<Vec<Token>>)
    ensures
        fails_with(r, e@),
{
    let es = vec![e];
    assert(error_views(es@) =~= seq![e@]);
    Err(es)
}

/// What `%_start` expands to: a jump to `_start`.
pub open spec fn start_tokens(ps: Span) -> Seq<TokenView> {
    seq![line_end_tok(ps), op_tok(OpCode::Bra, ps), name_tok("_start"@, ps), line_end_tok(ps)]
}

pub fn expand_start_macro(tokens: &[Token], percent_span: Span) -> (r: CompilerResult<Vec<Token>>)
    ensures
        tokens@.len() > 0 ==> fails_with(r, CompilerErrorView::UnexpectedTokens(tokens@[0].span)),
        tokens@.len() == 0 ==> expands_to(r, start_tokens(percent_span)),
{
    if tokens.len() > 0 {
        fail(CompilerError::UnexpectedTokens(tokens[0].span))
    } else {
        let mut v: Vec<Token> = Vec::new();
        assert(token_views(v@) =~= Seq::<TokenView>::empty());
        push_tok(&mut v, line_end(percent_span));
        push_tok(&mut v, op(OpCode::Bra, percent_span));
        push_tok(&mut v, name("_start", percent_span));
        push_tok(&mut v, line_end(percent_span));
        assert(token_views(v@) =~= start_tokens(percent_span));
        Ok(v)
    }
}

/// What `%name:` expands to: the label `name` on an instruction that does
/// nothing (`ADD #0`).
pub open spec fn label_tokens(label: TokenView, ps: Span) -> Seq<TokenView> {
    seq![
        line_end_tok(ps),
        name_tok(label.source.drop_last(), Span { start: label.span.start, end: (label.span.end - 1) as usize, line: label.span.line }),
        op_tok(OpCode::Add, ps),
        hash_tok(ps),
        literal_tok(seq!['0'], ps),
        line_end_tok(ps),
    ]
}

pub fn expand_label_macro(label: &Token, tokens: &[Token], percent_span: Span) -> (r: CompilerResult<Vec<Token>>)
    requires
        tokens@.len() == 0 ==> label@.source.len() > 0 && utf8_width(label@.source.last()) == 1 && label.span.end >= 1,
    ensures
        tokens@.len() > 0 ==> fails_with(r, CompilerErrorView::UnexpectedTokens(tokens@[0].span)),
        tokens@.len() == 0 ==> expands_to(r, label_tokens(label@, percent_span)),
{
    if tokens.len() > 0 {
        fail(CompilerError::UnexpectedTokens(tokens[0].span))
    } else {
        let cs = chars_of(label.source.as_str());
        let mut stripped = String::new();
        let mut i: usize = 0;
        while i < cs.len() - 1
            invariant
                cs@ == label@.source,
                cs@.len() >= 1,
                i + 1 <= cs@.len(),
                stripped@ == cs@.take(i as int),
            decreases cs@.len() - i,
        {
            push_char(&mut stripped, cs[i]);
            i += 1;
            assert(stripped@ =~= cs@.take(i as int));
        }
        assert(stripped@ =~= label@.source.drop_last());
        let mut v: Vec<Token> = Vec::new();
        assert(token_views(v@) =~= Seq::<TokenView>::empty());
        push_tok(&mut v, line_end(percent_span));
        push_tok(&mut v, owned_name(stripped, Span::new(label.span.start, label.span.end - 1, label.span.line)));
        push_tok(&mut v, op(OpCode::Add, percent_span));
        push_tok(&mut v, hash_sign(percent_span));
        push_tok(&mut v, literal("0", percent_span));
        push_tok(&mut v, line_end(percent_span));
        proof {
            reveal_strlit("0");
        assert("0"@ =~= seq!['0']);
        }
        assert(token_views(v@) =~= label_tokens(label@, percent_span));
        Ok(v)
    }
}

/// What `%ret` expands to: a jump to `_ret`.
pub open spec fn ret_tokens(ps: Span) -> Seq<TokenView> {
    seq![line_end_tok(ps), op_tok(OpCode::Bra, ps), name_tok(ret_label(), ps), line_end_tok(ps)]
}

pub fn expand_ret_macro(hash: &str, tokens: &[Token], percent_span: Span) -> (r: CompilerResult<Vec<Token>>)
    ensures
        tokens@.len() > 0 ==> fails_with(r, CompilerErrorView::UnexpectedTokens(tokens@[0].span)),
        tokens@.len() == 0 ==> expands_to(r, ret_tokens(percent_span)),
{
    if tokens.len() > 0 {
        fail(CompilerError::UnexpectedTokens(tokens[0].span))
    } else {
        let mut v: Vec<Token> = Vec::new();
        assert(token_views(v@) =~= Seq::<TokenView>::empty());
        push_tok(&mut v, line_end(percent_span));
        push_tok(&mut v, op(OpCode::Bra, percent_span));
        push_tok(&mut v, name("_ret", percent_span));
        push_tok(&mut v, line_end(percent_span));
        assert(token_views(v@) =~= ret_tokens(percent_span));
        Ok(v)
    }
}

/// The stack pointer that `%push` and `%pop` work on: the label in brackets
/// after the macro, or `STACK_PTR` when nothing follows.
pub open spec fn stack_arg(ts: Seq<TokenView>, ps: Span) -> Result<TokenView, CompilerErrorView> {
    if ts.len() == 0 {
        Ok(name_tok(stack_ptr_label(), ps))
    } else if ts[0].type_ != TokenType::LBracket || ts.len() <= 1 {
        Err(CompilerErrorView::UnreachableCondition(ts[0].span))
    } else if ts[1].type_ != TokenType::Ident {
        Err(CompilerErrorView::InvalidToken { token: ts[1].source, span: ts[1].span, expected: seq![Expected::Label] })
    } else if ts.len() <= 2 {
        Err(CompilerErrorView::UnreachableCondition(ts[0].span))
    } else if ts[2].type_ != TokenType::RBracket {
        Err(CompilerErrorView::InvalidToken { token: ts[2].source, span: ts[2].span, expected: seq![Expected::RBracket] })
    } else {
        Ok(ts[1])
    }
}

/// Reads the bracketed label `(label)` at the front of `tokens`.
fn bracketed_label(tokens: &[Token]) -> (r: Result<Token, CompilerError>)
    requires
        tokens@.len() > 0,
    ensures
        r matches Ok(t) ==> stack_arg(token_views(tokens@), Span { start: 0, end: 0, line: 0 }) == Ok::<TokenView, CompilerErrorView>(t@),
        r matches Err(e) ==> stack_arg(token_views(tokens@), Span { start: 0, end: 0, line: 0 }) == Err::<TokenView, CompilerErrorView>(e@),
{
    let open = &tokens[0];
    if open.type_ != TokenType::LBracket || tokens.len() <= 1 {
        return Err(CompilerError::UnreachableCondition(open.span));
    }
    let token = &tokens[1];
    if token.type_ != TokenType::Ident {
        let expected = vec![Expected::Label];
        assert(expected@ =~= seq![Expected::Label]);
        return Err(CompilerError::InvalidToken { token: token.source.clone(), span: token.span, expected });
    }
    if tokens.len() <= 2 {
        return Err(CompilerError::UnreachableCondition(open.span));
    }
    let close = &tokens[2];
    if close.type_ != TokenType::RBracket {
        let expected = vec![Expected::RBracket];
        assert(expected@ =~= seq![Expected::RBracket]);
        return Err(CompilerError::InvalidToken { token: close.source.clone(), span: close.span, expected });
    }
    Ok(token.clone())
}

/// What `%push` expands to: the accumulator is stored where the stack
/// pointer `label` points, and the pointer moves up.
pub open spec fn push_tokens(hash: Seq<char>, label: TokenView, ps: Span) -> Seq<TokenView> {
    let tmp = name_tok(hashed(hash, "_tmp"@), ps);
    let end = name_tok(hashed(hash, "_end"@), ps);
    seq![
        line_end_tok(ps), op_tok(OpCode::Sta, ps), tmp, line_end_tok(ps),
        op_tok(OpCode::Sta, ps), at_tok(ps), label, line_end_tok(ps),
        op_tok(OpCode::Lda, ps), label, line_end_tok(ps),
        op_tok(OpCode::Add, ps), hash_tok(ps), literal_tok(seq!['1'], ps), line_end_tok(ps),
        op_tok(OpCode::Sta, ps), label, line_end_tok(ps),
        op_tok(OpCode::Bra, ps), end, line_end_tok(ps),
        tmp, op_tok(OpCode::Dat, ps), line_end_tok(ps),
        end, op_tok(OpCode::Lda, ps), tmp, line_end_tok(ps),
    ]
}

pub fn push_macro(hash: &str, label: &Token, percent_span: Span) -> (r: Vec<Token>)
    ensures
        token_views(r@) == push_tokens(hash@, label@, percent_span),
{
    let ps = percent_span;
    let mut v: Vec<Token> = Vec::new();
    assert(token_views(v@) =~= Seq::<TokenView>::empty());
    push_tok(&mut v, line_end(ps));
    push_tok(&mut v, op(OpCode::Sta, ps));
    push_tok(&mut v, owned_name(hashed_name(hash, "_tmp"), ps));
    push_tok(&mut v, line_end(ps));
    push_tok(&mut v, op(OpCode::Sta, ps));
    push_tok(&mut v, at_sign(ps));
    push_tok(&mut v, label.clone());
    push_tok(&mut v, line_end(ps));
    push_tok(&mut v, op(OpCode::Lda, ps));
    push_tok(&mut v, label.clone());
    push_tok(&mut v, line_end(ps));
    push_tok(&mut v, op(OpCode::Add, ps));
    push_tok(&mut v, hash_sign(ps));
    push_tok(&mut v, literal("1", ps));
    push_tok(&mut v, line_end(ps));
    push_tok(&mut v, op(OpCode::Sta, ps));
    push_tok(&mut v, label.clone());
    push_tok(&mut v, line_end(ps));
    push_tok(&mut v, op(OpCode::Bra, ps));
    push_tok(&mut v, owned_name(hashed_name(hash, "_end"), ps));
    push_tok(&mut v, line_end(ps));
    push_tok(&mut v, owned_name(hashed_name(hash, "_tmp"), ps));
    push_tok(&mut v, op(OpCode::Dat, ps));
    push_tok(&mut v, line_end(ps));
    push_tok(&mut v, owned_name(hashed_name(hash, "_end"), ps));
    push_tok(&mut v, op(OpCode::Lda, ps));
    push_tok(&mut v, owned_name(hashed_name(hash, "_tmp"), ps));
    push_tok(&mut v, line_end(ps));
    proof {
        reveal_strlit("1");
        assert("1"@ =~= seq!['1']);
    }
    assert(token_views(v@) =~= push_tokens(hash@, label@, percent_span));
    v
}

pub fn expand_push_macro(hash: &str, tokens: &[Token], percent_span: Span) -> (r: CompilerResult<Vec<Token>>)
    ensures
        ({
            match stack_arg(token_views(tokens@), percent_span) {
                Ok(label) => expands_to(r, push_tokens(hash@, label, percent_span)),
                Err(e) => fails_with(r, e),
            }
        }),
{
    let label = if tokens.len() > 0 {
        match bracketed_label(tokens) {
            Ok(t) => t,
            Err(e) => return fail(e),
        }
    } else {
        name("STACK_PTR", percent_span)
    };
    Ok(push_macro(hash, &label, percent_span))
}

/// What `%pop` expands to: the stack pointer `label` moves down and the
/// accumulator is loaded from where it points.
pub open spec fn pop_tokens(label: TokenView, ps: Span) -> Seq<TokenView> {
    seq![
        line_end_tok(ps), op_tok(OpCode::Lda, ps), label, line_end_tok(ps),
        op_tok(OpCode::Sub, ps), hash_tok(ps), literal_tok(seq!['1'], ps), line_end_tok(ps),
        op_tok(OpCode::Sta, ps), label, line_end_tok(ps),
        op_tok(OpCode::Lda, ps), at_tok(ps), label, line_end_tok(ps),
    ]
}

pub fn pop_macro(label: &Token, percent_span: Span) -> (r: Vec<Token>)
    ensures
        token_views(r@) == pop_tokens(label@, percent_span),
{
    let ps = percent_span;
    let mut v: Vec<Token> = Vec::new();
    assert(token_views(v@) =~= Seq::<TokenView>::empty());
    push_tok(&mut v, line_end(ps));
    push_tok(&mut v, op(OpCode::Lda, ps));
    push_tok(&mut v, label.clone());
    push_tok(&mut v, line_end(ps));
    push_tok(&mut v, op(OpCode::Sub, ps));
    push_tok(&mut v, hash_sign(ps));
    push_tok(&mut v, literal("1", ps));
    push_tok(&mut v, line_end(ps));
    push_tok(&mut v, op(OpCode::Sta, ps));
    push_tok(&mut v, label.clone());
    push_tok(&mut v, line_end(ps));
    push_tok(&mut v, op(OpCode::Lda, ps));
    push_tok(&mut v, at_sign(ps));
    push_tok(&mut v, label.clone());
    push_tok(&mut v, line_end(ps));
    proof {
        reveal_strlit("1");
        assert("1"@ =~= seq!['1']);
    }
    assert(token_views(v@) =~= pop_tokens(label@, percent_span));
    v
}

pub fn expand_pop_macro(tokens: &[Token], percent_span: Span) -> (r: CompilerResult<Vec<Token>>)
    ensures
        ({
            match stack_arg(token_views(tokens@), percent_span) {
                Ok(label) => expands_to(r, pop_tokens(label, percent_span)),
                Err(e) => fails_with(r, e),
            }
        }),
{
    let label = if tokens.len() > 0 {
        match bracketed_label(tokens) {
            Ok(t) => t,
            Err(e) => return fail(e),
        }
    } else {
        name("STACK_PTR", percent_span)
    };
    Ok(pop_macro(&label, percent_span))
}

/// The subroutine that `%bsub` calls: the label in brackets after it.
pub open spec fn bsub_arg(ts: Seq<TokenView>, label_span: Span) -> Result<TokenView, CompilerErrorView> {
    if ts.len() == 0 {
        Err(CompilerErrorView::ExpectedToken(
            Span { start: (label_span.end + 2) as usize, end: (label_span.end + 3) as usize, line: label_span.line },
            seq![Expected::LBracket],
        ))
    } else {
        stack_arg(ts, label_span)
    }
}

/// What `%bsub` expands to: the return address is pushed on the call stack
/// and control goes to `label`; the subroutine comes back to the
/// instruction after the expansion.
pub open spec fn bsub_tokens(hash: Seq<char>, label: TokenView, ps: Span) -> Seq<TokenView> {
    let end = name_tok(hashed(hash, "_end"@), ps);
    let csp = name_tok(call_stack_ptr_label(), ps);
    seq![
        line_end_tok(ps), op_tok(OpCode::Lda, ps), hash_tok(ps), end, line_end_tok(ps),
        op_tok(OpCode::Sta, ps), at_tok(ps), csp, line_end_tok(ps),
        op_tok(OpCode::Lda, ps), csp, line_end_tok(ps),
        op_tok(OpCode::Add, ps), hash_tok(ps), literal_tok(seq!['1'], ps), line_end_tok(ps),
        op_tok(OpCode::Sta, ps), csp, line_end_tok(ps),
        op_tok(OpCode::Bra, ps), label, line_end_tok(ps),
        end, op_tok(OpCode::Add, ps), hash_tok(ps), literal_tok(seq!['0'], ps), line_end_tok(ps),
    ]
}

pub fn expand_bsub_macro(hash: &str, label_span: Span, tokens: &[Token], percent_span: Span) -> (r: CompilerResult<Vec<Token>>)
    requires
        tokens@.len() == 0 ==> label_span.end + 3 <= usize::MAX,
    ensures
        ({
            match bsub_arg(token_views(tokens@), label_span) {
                Ok(label) => expands_to(r, bsub_tokens(hash@, label, percent_span)),
                Err(e) => fails_with(r, e),
            }
        }),
{
    if tokens.len() == 0 {
        let expected = vec![Expected::LBracket];
        assert(expected@ =~= seq![Expected::LBracket]);
        return fail(CompilerError::ExpectedToken(Span::new(label_span.end + 2, label_span.end + 3, label_span.line), expected));
    }
    let label = match bracketed_label(tokens) {
        Ok(t) => t,
        Err(e) => return fail(e),
    };
    let ps = percent_span;
    let mut v: Vec<Token> = Vec::new();
    assert(token_views(v@) =~= Seq::<TokenView>::empty());
    push_tok(&mut v, line_end(ps));
    push_tok(&mut v, op(OpCode::Lda, ps));
    push_tok(&mut v, hash_sign(ps));
    push_tok(&mut v, owned_name(hashed_name(hash, "_end"), ps));
    push_tok(&mut v, line_end(ps));
    push_tok(&mut v, op(OpCode::Sta, ps));
    push_tok(&mut v, at_sign(ps));
    push_tok(&mut v, name("CALL_STACK_PTR", ps));
    push_tok(&mut v, line_end(ps));
    push_tok(&mut v, op(OpCode::Lda, ps));
    push_tok(&mut v, name("CALL_STACK_PTR", ps));
    push_tok(&mut v, line_end(ps));
    push_tok(&mut v, op(OpCode::Add, ps));
    push_tok(&mut v, hash_sign(ps));
    push_tok(&mut v, literal("1", ps));
    push_tok(&mut v, line_end(ps));
    push_tok(&mut v, op(OpCode::Sta, ps));
    push_tok(&mut v, name("CALL_STACK_PTR", ps));
    push_tok(&mut v, line_end(ps));
    push_tok(&mut v, op(OpCode::Bra, ps));
    push_tok(&mut v, label);
    push_tok(&mut v, line_end(ps));
    push_tok(&mut v, owned_name(hashed_name(hash, "_end"), ps));
    push_tok(&mut v, op(OpCode::Add, ps));
    push_tok(&mut v, hash_sign(ps));
    push_tok(&mut v, literal("0", ps));
    push_tok(&mut v, line_end(ps));
    proof {
        reveal_strlit("1");
        assert("1"@ =~= seq!['1']);
        reveal_strlit("0");
        assert("0"@ =~= seq!['0']);
    }
    assert(token_views(v@) =~= bsub_tokens(hash@, label@, percent_span));
    Ok(v)
}

/// The sizes that `%init(...)` asks for, or why its options do not read.
pub enum InitOptions {
    Sizes(usize, usize),
    Error(CompilerErrorView),
    /// An option that is not known, a size that is not a `usize`, or a
    /// column past `usize::MAX`: options that are not accepted.
    Panics,
}

/// Reading the options of `%init` from token `i` on.  `key` is the name of
/// the option being read, once one has begun; the sizes read so far are
/// `stack` and `call`.
pub open spec fn init_scan(ts: Seq<TokenView>, i: int, key: Option<Seq<char>>, stack: usize, call: usize) -> InitOptions
    decreases ts.len() - i,
{
    if i < 0 || i >= ts.len() {
        InitOptions::Sizes(stack, call)
    } else {
        let t = ts[i];
        match key {
            None => if t.type_ == TokenType::RBracket {
                InitOptions::Sizes(stack, call)
            } else if t.type_ == TokenType::LineEnd {
                init_scan(ts, i + 1, None, stack, call)
            } else if t.type_ == TokenType::Ident {
                init_scan(ts, i + 1, Some(t.source), stack, call)
            } else {
                InitOptions::Error(CompilerErrorView::InvalidToken {
                    token: t.source,
                    span: t.span,
                    expected: seq![Expected::Identifier, Expected::RBracket],
                })
            },
            Some(k) => if t.type_ == TokenType::Equal {
                if i + 1 >= ts.len() {
                    if t.span.end + 3 > usize::MAX {
                        InitOptions::Panics
                    } else {
                        InitOptions::Error(CompilerErrorView::ExpectedToken(
                            Span { start: (t.span.end + 2) as usize, end: (t.span.end + 3) as usize, line: t.span.line },
                            seq![Expected::Literal],
                        ))
                    }
                } else {
                    let lit = ts[i + 1];
                    if i + 2 >= ts.len() {
                        if lit.span.end + 3 > usize::MAX {
                            InitOptions::Panics
                        } else {
                            InitOptions::Error(CompilerErrorView::ExpectedToken(
                                Span { start: (lit.span.end + 2) as usize, end: (lit.span.end + 3) as usize, line: lit.span.line },
                                seq![Expected::Comma, Expected::RBracket],
                            ))
                        }
                    } else {
                        let c = ts[i + 2];
                        if c.type_ != TokenType::RBracket && c.type_ != TokenType::Comma {
                            InitOptions::Error(CompilerErrorView::InvalidToken {
                                token: c.source,
                                span: c.span,
                                expected: seq![Expected::Comma, Expected::RBracket],
                            })
                        } else {
                            let next = if c.type_ == TokenType::Comma { i + 3 } else { i + 2 };
                            if k == "stack size"@ {
                                match parse_usize_spec(lit.source) {
                                    Ok(v) => init_scan(ts, next, None, v as usize, call),
                                    Err(_) => InitOptions::Panics,
                                }
                            } else if k == "call stack size"@ {
                                match parse_usize_spec(lit.source) {
                                    Ok(v) => init_scan(ts, next, None, stack, v as usize),
                                    Err(_) => InitOptions::Panics,
                                }
                            } else {
                                InitOptions::Panics
                            }
                        }
                    }
                }
            } else if t.type_ == TokenType::Ident {
                init_scan(ts, i + 1, Some(k + seq![' '] + t.source), stack, call)
            } else if t.type_ == TokenType::LineEnd {
                init_scan(ts, i + 1, Some(k), stack, call)
            } else {
                InitOptions::Error(CompilerErrorView::InvalidToken {
                    token: t.source,
                    span: t.span,
                    expected: seq![Expected::Identifier, Expected::Equal],
                })
            },
        }
    }
}

/// The options of `%init`: nothing, or `(name = size, ...)` with the names
/// `stack size` and `call stack size`; both sizes are 16 unless given.
pub open spec fn init_options(ts: Seq<TokenView>) -> InitOptions {
    if ts.len() == 0 {
        InitOptions::Sizes(16, 16)
    } else if ts[0].type_ != TokenType::LBracket {
        InitOptions::Error(CompilerErrorView::UnreachableCondition(ts[0].span))
    } else {
        init_scan(ts, 1, None, 16, 16)
    }
}

/// `n` data cells named `_<hash><kind><i>` for `i` from 1 to `n`.
pub open spec fn stack_cells(hash: Seq<char>, kind: Seq<char>, n: nat, ps: Span) -> Seq<TokenView>
    decreases n,
{
    if n == 0 {
        Seq::empty()
    } else {
        stack_cells(hash, kind, (n - 1) as nat, ps) + seq![
            name_tok(hashed(hash, kind + decimal(n)), ps),
            op_tok(OpCode::Dat, ps),
            line_end_tok(ps),
        ]
    }
}

/// The start of the `%init` expansion: both stack pointers are set and
/// control jumps over the data.
pub open spec fn init_head(hash: Seq<char>, ps: Span) -> Seq<TokenView> {
    seq![
        line_end_tok(ps), op_tok(OpCode::Lda, ps), hash_tok(ps), name_tok(stack_label(), ps), line_end_tok(ps),
        op_tok(OpCode::Sta, ps), name_tok(stack_ptr_label(), ps), line_end_tok(ps),
        op_tok(OpCode::Lda, ps), hash_tok(ps), name_tok(call_stack_label(), ps), line_end_tok(ps),
        op_tok(OpCode::Sta, ps), name_tok(call_stack_ptr_label(), ps), line_end_tok(ps),
        op_tok(OpCode::Bra, ps), name_tok(hashed(hash, "_init_end"@), ps), line_end_tok(ps),
        name_tok(stack_ptr_label(), ps), op_tok(OpCode::Dat, ps), literal_tok(stack_label(), ps), line_end_tok(ps),
        name_tok(call_stack_ptr_label(), ps), op_tok(OpCode::Dat, ps), literal_tok(call_stack_label(), ps), line_end_tok(ps),
    ]
}

/// The `_ret` routine of the `%init` expansion: it pops the return address
/// off the call stack and jumps there, keeping the accumulator.
pub open spec fn init_ret(hash: Seq<char>, ps: Span) -> Seq<TokenView> {
    let tmp = name_tok(hashed(hash, "_tmp"@), ps);
    let ptr = name_tok(hashed(hash, "_ptr"@), ps);
    let csp = name_tok(call_stack_ptr_label(), ps);
    seq![
        line_end_tok(ps), name_tok(ret_label(), ps), op_tok(OpCode::Sta, ps), tmp, line_end_tok(ps),
        op_tok(OpCode::Lda, ps), csp, line_end_tok(ps),
        op_tok(OpCode::Sub, ps), hash_tok(ps), literal_tok(seq!['1'], ps), line_end_tok(ps),
        op_tok(OpCode::Sta, ps), csp, line_end_tok(ps),
        op_tok(OpCode::Lda, ps), at_tok(ps), csp, line_end_tok(ps),
        op_tok(OpCode::Sta, ps), ptr, line_end_tok(ps),
        op_tok(OpCode::Lda, ps), tmp, line_end_tok(ps),
        op_tok(OpCode::Bra, ps), at_tok(ps), ptr, line_end_tok(ps),
        tmp, op_tok(OpCode::Dat, ps), line_end_tok(ps),
        ptr, op_tok(OpCode::Dat, ps), line_end_tok(ps),
    ]
}

/// The whole `%init` expansion for the given stack sizes.
pub open spec fn init_tokens(hash: Seq<char>, stack: usize, call: usize, ps: Span) -> Seq<TokenView> {
    init_head(hash, ps)
        + seq![name_tok(stack_label(), ps), op_tok(OpCode::Dat, ps), line_end_tok(ps)]
        + stack_cells(hash, "_stack_"@, if stack > 0 { (stack - 1) as nat } else { 0 }, ps)
        + seq![name_tok(call_stack_label(), ps), op_tok(OpCode::Dat, ps), line_end_tok(ps)]
        + stack_cells(hash, "_call_stack_"@, if call > 0 { (call - 1) as nat } else { 0 }, ps)
        + init_ret(hash, ps)
        + seq![name_tok(hashed(hash, "_init_end"@), ps), op_tok(OpCode::Add, ps), hash_tok(ps), literal_tok(seq!['0'], ps), line_end_tok(ps)]
}

fn expected_list2(a: Expected, b: Expected) -> (r: Vec<Expected>)
    ensures
        r@ == seq![a, b],
{
    let v = vec![a, b];
    assert(v@ =~= seq![a, b]);
    v
}

fn expected_list1(a: Expected) -> (r: Vec<Expected>)
    ensures
        r@ == seq![a],
{
    let v = vec![a];
    assert(v@ =~= seq![a]);
    v
}

/// Reads the options of `%init`.  `Ok(None)` on options that are not
/// accepted.
fn read_init_options(tokens: &[Token]) -> (r: Result<Option<(usize, usize)>, CompilerError>)
    ensures
        ({
            match init_options(token_views(tokens@)) {
                InitOptions::Sizes(a, b) => r == Ok::<Option<(usize, usize)>, CompilerError>(Some((a, b))),
                InitOptions::Error(e) => r matches Err(x) && x@ == e,
                InitOptions::Panics => r == Ok::<Option<(usize, usize)>, CompilerError>(None),
            }
        }),
{
    let ghost ts = token_views(tokens@);
    let mut stack_size: usize = 16;
    let mut call_stack_size: usize = 16;
    if tokens.len() == 0 {
        return Ok(Some((stack_size, call_stack_size)));
    }
    if tokens[0].type_ != TokenType::LBracket {
        return Err(CompilerError::UnreachableCondition(tokens[0].span));
    }
    let mut i: usize = 1;
    let mut key: Option<String> = None;
    while i < tokens.len()
        invariant
            1 <= i <= tokens@.len(),
            ts == token_views(tokens@),
            init_options(ts) == init_scan(ts, i as int, match key { Some(k) => Some(k@), None => None }, stack_size, call_stack_size),
        decreases tokens@.len() - i,
    {
        let t = &tokens[i];
        assert(ts[i as int] == t@);
        match key {
            None => {
                if t.type_ == TokenType::RBracket {
                    return Ok(Some((stack_size, call_stack_size)));
                } else if t.type_ == TokenType::LineEnd {
                    i = i + 1;
                } else if t.type_ == TokenType::Ident {
                    key = Some(t.source.clone());
                    i = i + 1;
                } else {
                    return Err(CompilerError::InvalidToken {
                        token: t.source.clone(),
                        span: t.span,
                        expected: expected_list2(Expected::Identifier, Expected::RBracket),
                    });
                }
            },
            Some(k) => {
                if t.type_ == TokenType::Equal {
                    if i + 1 >= tokens.len() {
                        if t.span.end > usize::MAX - 3 {
                            return Ok(None);
                        }
                        return Err(CompilerError::ExpectedToken(
                            Span::new(t.span.end + 2, t.span.end + 3, t.span.line),
                            expected_list1(Expected::Literal),
                        ));
                    }
                    let lit = &tokens[i + 1];
                    assert(ts[i + 1] == lit@);
                    if i + 2 >= tokens.len() {
                        if lit.span.end > usize::MAX - 3 {
                            return Ok(None);
                        }
                        return Err(CompilerError::ExpectedToken(
                            Span::new(lit.span.end + 2, lit.span.end + 3, lit.span.line),
                            expected_list2(Expected::Comma, Expected::RBracket),
                        ));
                    }
                    let c = &tokens[i + 2];
                    assert(ts[i + 2] == c@);
                    if c.type_ != TokenType::RBracket && c.type_ != TokenType::Comma {
                        return Err(CompilerError::InvalidToken {
                            token: c.source.clone(),
                            span: c.span,
                            expected: expected_list2(Expected::Comma, Expected::RBracket),
                        });
                    }
                    let next = if c.type_ == TokenType::Comma { i + 3 } else { i + 2 };
                    if k == string_of("stack size") {
                        match parse_usize(lit.source.as_str()) {
                            Ok(v) => { stack_size = v; },
                            Err(_) => { return Ok(None); },
                        }
                    } else if k == string_of("call stack size") {
                        match parse_usize(lit.source.as_str()) {
                            Ok(v) => { call_stack_size = v; },
                            Err(_) => { return Ok(None); },
                        }
                    } else {
                        return Ok(None);
                    }
                    key = None;
                    i = next;
                } else if t.type_ == TokenType::Ident {
                    let mut k2 = k;
                    push_char(&mut k2, ' ');
                    push_str(&mut k2, t.source.as_str());
                    assert(k2@ =~= k@ + seq![' '] + t@.source);
                    key = Some(k2);
                    i = i + 1;
                } else if t.type_ == TokenType::LineEnd {
                    key = Some(k);
                    i = i + 1;
                } else {
                    return Err(CompilerError::InvalidToken {
                        token: t.source.clone(),
                        span: t.span,
                        expected: expected_list2(Expected::Identifier, Expected::Equal),
                    });
                }
            },
        }
    }
    Ok(Some((stack_size, call_stack_size)))
}

/// Appends the data cells `_<hash><kind><i>` for `i` from 1 to `n`.
fn push_stack_cells(v: &mut Vec<Token>, hash: &str, kind: &str, n: usize, ps: Span)
    ensures
        token_views(final(v)@) == token_views(old(v)@) + stack_cells(hash@, kind@, n as nat, ps),
{
    let ghost start = token_views(v@);
    let mut i: usize = 0;
    assert(start + stack_cells(hash@, kind@, 0, ps) =~= start);
    while i < n
        invariant
            i <= n,
            token_views(v@) == start + stack_cells(hash@, kind@, i as nat, ps),
        decreases n - i,
    {
        i = i + 1;
        let mut label = string_of(kind);
        let number = usize_to_decimal(i);
        push_str(&mut label, number.as_str());
        let cell = hashed_name(hash, label.as_str());
        push_tok(v, owned_name(cell, ps));
        push_tok(v, op(OpCode::Dat, ps));
        push_tok(v, line_end(ps));
        assert(token_views(v@) =~= start + stack_cells(hash@, kind@, i as nat, ps));
    }
}

fn push_init_head(v: &mut Vec<Token>, hash: &str, ps: Span)
    ensures
        token_views(final(v)@) == token_views(old(v)@) + init_head(hash@, ps),
{
    let ghost start = token_views(v@);
    push_tok(v, line_end(ps));
    push_tok(v, op(OpCode::Lda, ps));
    push_tok(v, hash_sign(ps));
    push_tok(v, name("STACK", ps));
    push_tok(v, line_end(ps));
    push_tok(v, op(OpCode::Sta, ps));
    push_tok(v, name("STACK_PTR", ps));
    push_tok(v, line_end(ps));
    push_tok(v, op(OpCode::Lda, ps));
    push_tok(v, hash_sign(ps));
    push_tok(v, name("CALL_STACK", ps));
    push_tok(v, line_end(ps));
    push_tok(v, op(OpCode::Sta, ps));
    push_tok(v, name("CALL_STACK_PTR", ps));
    push_tok(v, line_end(ps));
    push_tok(v, op(OpCode::Bra, ps));
    push_tok(v, owned_name(hashed_name(hash, "_init_end"), ps));
    push_tok(v, line_end(ps));
    push_tok(v, name("STACK_PTR", ps));
    push_tok(v, op(OpCode::Dat, ps));
    push_tok(v, literal("STACK", ps));
    push_tok(v, line_end(ps));
    push_tok(v, name("CALL_STACK_PTR", ps));
    push_tok(v, op(OpCode::Dat, ps));
    push_tok(v, literal("CALL_STACK", ps));
    push_tok(v, line_end(ps));
    assert(token_views(v@) =~= start + init_head(hash@, ps));
}

fn push_init_ret(v: &mut Vec<Token>, hash: &str, ps: Span)
    ensures
        token_views(final(v)@) == token_views(old(v)@) + init_ret(hash@, ps),
{
    let ghost start = token_views(v@);
    push_tok(v, line_end(ps));
    push_tok(v, name("_ret", ps));
    push_tok(v, op(OpCode::Sta, ps));
    push_tok(v, owned_name(hashed_name(hash, "_tmp"), ps));
    push_tok(v, line_end(ps));
    push_tok(v, op(OpCode::Lda, ps));
    push_tok(v, name("CALL_STACK_PTR", ps));
    push_tok(v, line_end(ps));
    push_tok(v, op(OpCode::Sub, ps));
    push_tok(v, hash_sign(ps));
    push_tok(v, literal("1", ps));
    push_tok(v, line_end(ps));
    push_tok(v, op(OpCode::Sta, ps));
    push_tok(v, name("CALL_STACK_PTR", ps));
    push_tok(v, line_end(ps));
    push_tok(v, op(OpCode::Lda, ps));
    push_tok(v, at_sign(ps));
    push_tok(v, name("CALL_STACK_PTR", ps));
    push_tok(v, line_end(ps));
    push_tok(v, op(OpCode::Sta, ps));
    push_tok(v, owned_name(hashed_name(hash, "_ptr"), ps));
    push_tok(v, line_end(ps));
    push_tok(v, op(OpCode::Lda, ps));
    push_tok(v, owned_name(hashed_name(hash, "_tmp"), ps));
    push_tok(v, line_end(ps));
    push_tok(v, op(OpCode::Bra, ps));
    push_tok(v, at_sign(ps));
    push_tok(v, owned_name(hashed_name(hash, "_ptr"), ps));
    push_tok(v, line_end(ps));
    push_tok(v, owned_name(hashed_name(hash, "_tmp"), ps));
    push_tok(v, op(OpCode::Dat, ps));
    push_tok(v, line_end(ps));
    push_tok(v, owned_name(hashed_name(hash, "_ptr"), ps));
    push_tok(v, op(OpCode::Dat, ps));
    push_tok(v, line_end(ps));
    proof {
        reveal_strlit("1");
        assert("1"@ =~= seq!['1']);
    }
    assert(token_views(v@) =~= start + init_ret(hash@, ps));
}

fn push_data_cell(v: &mut Vec<Token>, label: &str, ps: Span)
    ensures
        token_views(final(v)@) == token_views(old(v)@) + seq![name_tok(label@, ps), op_tok(OpCode::Dat, ps), line_end_tok(ps)],
{
    let ghost start = token_views(v@);
    push_tok(v, name(label, ps));
    push_tok(v, op(OpCode::Dat, ps));
    push_tok(v, line_end(ps));
    assert(token_views(v@) =~= start + seq![name_tok(label@, ps), op_tok(OpCode::Dat, ps), line_end_tok(ps)]);
}

fn push_init_end(v: &mut Vec<Token>, hash: &str, ps: Span)
    ensures
        token_views(final(v)@) == token_views(old(v)@) + seq![name_tok(hashed(hash@, "_init_end"@), ps), op_tok(OpCode::Add, ps), hash_tok(ps), literal_tok(seq!['0'], ps), line_end_tok(ps)],
{
    let ghost start = token_views(v@);
    push_tok(v, owned_name(hashed_name(hash, "_init_end"), ps));
    push_tok(v, op(OpCode::Add, ps));
    push_tok(v, hash_sign(ps));
    push_tok(v, literal("0", ps));
    push_tok(v, line_end(ps));
    proof {
        reveal_strlit("0");
        assert("0"@ =~= seq!['0']);
    }
    assert(token_views(v@) =~= start + seq![name_tok(hashed(hash@, "_init_end"@), ps), op_tok(OpCode::Add, ps), hash_tok(ps), literal_tok(seq!['0'], ps), line_end_tok(ps)]);
}

pub fn expand_init_macro(hash: &str, tokens: &[Token], percent_span: Span) -> (r: CompilerResult<Vec<Token>>)
    requires
        !(init_options(token_views(tokens@)) is Panics),
    ensures
        ({
            match init_options(token_views(tokens@)) {
                InitOptions::Sizes(stack, call) => expands_to(r, init_tokens(hash@, stack, call, percent_span)),
                InitOptions::Error(e) => fails_with(r, e),
                InitOptions::Panics => true,
            }
        }),
{
    let (stack_size, call_stack_size) = match read_init_options(tokens) {
        Ok(Some(sizes)) => sizes,
        Ok(None) => {
            return fail(CompilerError::UnreachableCondition(percent_span));
        },
        Err(e) => {
            return fail(e);
        },
    };
    let ps = percent_span;
    let mut v: Vec<Token> = Vec::new();
    assert(token_views(v@) =~= Seq::<TokenView>::empty());
    push_init_head(&mut v, hash, ps);
    let ghost p1 = token_views(v@);
    push_data_cell(&mut v, "STACK", ps);
    let ghost p2 = token_views(v@);
    push_stack_cells(&mut v, hash, "_stack_", if stack_size > 0 { stack_size - 1 } else { 0 }, ps);
    let ghost p3 = token_views(v@);
    push_data_cell(&mut v, "CALL_STACK", ps);
    let ghost p4 = token_views(v@);
    push_stack_cells(&mut v, hash, "_call_stack_", if call_stack_size > 0 { call_stack_size - 1 } else { 0 }, ps);
    let ghost p5 = token_views(v@);
    push_init_ret(&mut v, hash, ps);
    let ghost p6 = token_views(v@);
    push_init_end(&mut v, hash, ps);
    assert(token_views(v@) =~= init_tokens(hash@, stack_size, call_stack_size, percent_span));
    Ok(v)
}

/// What a macro's tokens (`%`, the name, then its arguments) turn into.
pub enum MacroOutcome {
    Expanded(Seq<TokenView>),
    Error(CompilerErrorView),
    /// An `%init` option that cannot be handled, or a column past
    /// `usize::MAX`: not accepted.
    Panics,
}

/// The expansion of the macro `ts`, whose private labels are named after `hash`.
pub open spec fn macro_with_hash(ts: Seq<TokenView>, hash: Seq<char>) -> MacroOutcome
    recommends
        ts.len() >= 2,
{
    let p = ts[0];
    let id = ts[1];
    let ps = p.span;
    let rest = ts.skip(2);
    if id.source == "init"@ {
        match init_options(rest) {
            InitOptions::Sizes(a, b) => MacroOutcome::Expanded(init_tokens(hash, a, b, ps)),
            InitOptions::Error(e) => MacroOutcome::Error(e),
            InitOptions::Panics => MacroOutcome::Panics,
        }
    } else if id.source == "_start"@ {
        if rest.len() > 0 {
            MacroOutcome::Error(CompilerErrorView::UnexpectedTokens(rest[0].span))
        } else {
            MacroOutcome::Expanded(start_tokens(ps))
        }
    } else if id.source == "push"@ {
        match stack_arg(rest, ps) {
            Ok(l) => MacroOutcome::Expanded(push_tokens(hash, l, ps)),
            Err(e) => MacroOutcome::Error(e),
        }
    } else if id.source == "pop"@ {
        match stack_arg(rest, ps) {
            Ok(l) => MacroOutcome::Expanded(pop_tokens(l, ps)),
            Err(e) => MacroOutcome::Error(e),
        }
    } else if id.source == "bsub"@ {
        if rest.len() == 0 && id.span.end + 3 > usize::MAX {
            MacroOutcome::Panics
        } else {
            match bsub_arg(rest, id.span) {
                Ok(l) => MacroOutcome::Expanded(bsub_tokens(hash, l, ps)),
                Err(e) => MacroOutcome::Error(e),
            }
        }
    } else if id.source == "ret"@ {
        if rest.len() > 0 {
            MacroOutcome::Error(CompilerErrorView::UnexpectedTokens(rest[0].span))
        } else {
            MacroOutcome::Expanded(ret_tokens(ps))
        }
    } else if id.source.len() > 0 && id.source.last() == ':' {
        if rest.len() > 0 {
            MacroOutcome::Error(CompilerErrorView::UnexpectedTokens(rest[0].span))
        } else if id.span.end == 0 {
            MacroOutcome::Panics
        } else {
            MacroOutcome::Expanded(label_tokens(id, ps))
        }
    } else {
        MacroOutcome::Expanded(Seq::empty())
    }
}

/// What the macro `ts` expands to: after checking that it begins with `%`
/// and a name, the expansion named after the hash of the `%`'s span.
pub open spec fn macro_outcome(ts: Seq<TokenView>) -> MacroOutcome
    recommends
        ts.len() >= 1,
{
    let p = ts[0];
    if p.type_ != TokenType::Percent {
        MacroOutcome::Error(CompilerErrorView::UnreachableCondition(p.span))
    } else if ts.len() < 2 {
        if p.span.end + 2 > usize::MAX {
            MacroOutcome::Panics
        } else {
            MacroOutcome::Error(CompilerErrorView::ExpectedToken(
                Span { start: (p.span.end + 1) as usize, end: (p.span.end + 2) as usize, line: p.span.line },
                seq![Expected::Identifier],
            ))
        }
    } else if ts[1].type_ != TokenType::Ident {
        MacroOutcome::Error(CompilerErrorView::InvalidToken { token: ts[1].source, span: ts[1].span, expected: seq![Expected::Identifier] })
    } else {
        macro_with_hash(ts, span_hash(p.span))
    }
}

/// Whether a result carries the macro outcome `o` (for an outcome other
/// than `Panics`).
pub open spec fn has_outcome(r: CompilerResult<Vec<Token>>, o: MacroOutcome) -> bool {
    match o {
        MacroOutcome::Expanded(ts) => expands_to(r, ts),
        MacroOutcome::Error(e) => fails_with(r, e),
        MacroOutcome::Panics => true,
    }
}

fn str_is(s: &String, word: &str) -> (r: bool)
    ensures
        r == (s@ == word@),
{
    *s == string_of(word)
}

/// Expands the macro `tokens` with the private labels named after `hash`.
pub fn expand_macro_with_hash(tokens: &[Token], hash: &str) -> (r: CompilerResult<Vec<Token>>)
    requires
        tokens@.len() >= 2,
        !(macro_with_hash(token_views(tokens@), hash@) is Panics),
    ensures
        has_outcome(r, macro_with_hash(token_views(tokens@), hash@)),
{
    let ghost ts = token_views(tokens@);
    let percent = &tokens[0];
    let ident = &tokens[1];
    let rest = &tokens[2..tokens.len()];
    assert(ts[0] == percent@ && ts[1] == ident@);
    assert(token_views(rest@) =~= ts.skip(2));
    let src = &ident.source;
    if str_is(src, "init") {
        expand_init_macro(hash, rest, percent.span)
    } else if str_is(src, "_start") {
        expand_start_macro(rest, percent.span)
    } else if str_is(src, "push") {
        expand_push_macro(hash, rest, percent.span)
    } else if str_is(src, "pop") {
        expand_pop_macro(rest, percent.span)
    } else if str_is(src, "bsub") {
        expand_bsub_macro(hash, ident.span, rest, percent.span)
    } else if str_is(src, "ret") {
        expand_ret_macro(hash, rest, percent.span)
    } else if ends_with_colon(src) {
        expand_label_macro(ident, rest, percent.span)
    } else {
        let v: Vec<Token> = Vec::new();
        assert(token_views(v@) =~= Seq::<TokenView>::empty());
        Ok(v)
    }
}

fn ends_with_colon(s: &String) -> (r: bool)
    ensures
        r == (s@.len() > 0 && s@.last() == ':'),
{
    let cs = chars_of(s.as_str());
    cs.len() > 0 && cs[cs.len() - 1] == ':'
}

/// Expands one macro: `%`, its name, and its arguments.
pub fn expand_macro(tokens: &[Token]) -> (r: CompilerResult<Vec<Token>>)
    requires
        tokens@.len() >= 1,
        !(macro_outcome(token_views(tokens@)) is Panics),
    ensures
        has_outcome(r, macro_outcome(token_views(tokens@))),
{
    let ghost ts = token_views(tokens@);
    let percent = &tokens[0];
    assert(ts[0] == percent@);
    if percent.type_ != TokenType::Percent {
        return fail(CompilerError::UnreachableCondition(percent.span));
    }
    if tokens.len() < 2 {
        let expected = vec![Expected::Identifier];
        assert(expected@ =~= seq![Expected::Identifier]);
        return fail(CompilerError::ExpectedToken(
            Span::new(percent.span.end + 1, percent.span.end + 2, percent.span.line),
            expected,
        ));
    }
    let ident = &tokens[1];
    assert(ts[1] == ident@);
    if ident.type_ != TokenType::Ident {
        let expected = vec![Expected::Identifier];
        assert(expected@ =~= seq![Expected::Identifier]);
        return fail(CompilerError::InvalidToken { token: ident.source.clone(), span: ident.span, expected });
    }
    let hash = hash_span(percent.span);
    expand_macro_with_hash(tokens, hash.as_str())
}

// ---------------------------------------------------------------------------
// Expanding every macro of a program
// ---------------------------------------------------------------------------

/// Number of `%` tokens in `ts`.
pub open spec fn count_percent(ts: Seq<TokenView>) -> nat
    decreases ts.len(),
{
    if ts.len() == 0 {
        0
    } else {
        (if ts[0].type_ == TokenType::Percent { 1nat } else { 0nat }) + count_percent(ts.drop_first())
    }
}

pub open spec fn no_percent(ts: Seq<TokenView>) -> bool {
    forall|k: int| 0 <= k < ts.len() ==> (#[trigger] ts[k]).type_ != TokenType::Percent
}

pub proof fn lemma_count_percent_concat(a: Seq<TokenView>, b: Seq<TokenView>)
    ensures
        count_percent(a + b) == count_percent(a) + count_percent(b),
    decreases a.len(),
{
    if a.len() == 0 {
        assert(a + b =~= b);
    } else {
        assert((a + b).drop_first() =~= a.drop_first() + b);
        lemma_count_percent_concat(a.drop_first(), b);
    }
}

pub proof fn lemma_count_percent_none(a: Seq<TokenView>)
    requires
        no_percent(a),
    ensures
        count_percent(a) == 0,
    decreases a.len(),
{
    if a.len() > 0 {
        assert(no_percent(a.drop_first())) by {
            assert forall|k: int| 0 <= k < a.drop_first().len() implies (#[trigger] a.drop_first()[k]).type_ != TokenType::Percent by {
                assert(a.drop_first()[k] == a[k + 1]);
            }
        }
        lemma_count_percent_none(a.drop_first());
    }
}

/// `count_percent` of the suffixes of `ts`.
pub proof fn lemma_count_percent_skip(ts: Seq<TokenView>, i: int)
    requires
        0 <= i < ts.len(),
    ensures
        count_percent(ts.skip(i)) == (if ts[i].type_ == TokenType::Percent { 1nat } else { 0nat }) + count_percent(ts.skip(i + 1)),
{
    assert(ts.skip(i).drop_first() =~= ts.skip(i + 1));
}

/// The suffix of a list of tokens has no more `%` than the list.
pub proof fn lemma_count_percent_suffix(ts: Seq<TokenView>, k: int)
    requires
        0 <= k <= ts.len(),
    ensures
        count_percent(ts.skip(k)) <= count_percent(ts),
{
    assert(ts =~= ts.take(k) + ts.skip(k));
    lemma_count_percent_concat(ts.take(k), ts.skip(k));
}

pub proof fn lemma_stack_cells_no_percent(hash: Seq<char>, kind: Seq<char>, n: nat, ps: Span)
    ensures
        no_percent(stack_cells(hash, kind, n, ps)),
    decreases n,
{
    if n > 0 {
        lemma_stack_cells_no_percent(hash, kind, (n - 1) as nat, ps);
    }
}

/// Expansions hold no `%`.
pub proof fn lemma_macro_no_percent(ts: Seq<TokenView>, hash: Seq<char>)
    requires
        ts.len() >= 2,
    ensures
        macro_with_hash(ts, hash) matches MacroOutcome::Expanded(e) ==> no_percent(e),
{
    let ps = ts[0].span;
    let rest = ts.skip(2);
    match init_options(rest) {
        InitOptions::Sizes(a, b) => {
            lemma_stack_cells_no_percent(hash, "_stack_"@, if a > 0 { (a - 1) as nat } else { 0 }, ps);
            lemma_stack_cells_no_percent(hash, "_call_stack_"@, if b > 0 { (b - 1) as nat } else { 0 }, ps);
        },
        _ => {},
    }
}

/// What expanding every macro of `ts` gives.
pub enum PassOutcome {
    Done(Seq<TokenView>),
    Error(CompilerErrorView),
    Panics,
}

/// How the nesting depth and the macro's start change at token `i`, and
/// whether a macro ends there.
pub open spec fn pass_step(ts: Seq<TokenView>, i: int, start: int, depth: int) -> (int, int, bool) {
    let cur = ts[i];
    if cur.type_ == TokenType::Percent {
        (i, 1, false)
    } else if cur.type_ == TokenType::Ident {
        if depth == 1 {
            let d = if i + 1 < ts.len() && ts[i + 1].type_ == TokenType::LBracket { 1int } else { 0int };
            (start, d, d < 1)
        } else {
            (start, depth, false)
        }
    } else if cur.type_ == TokenType::LBracket {
        (start, if depth > 0 { depth + 1 } else { depth }, false)
    } else if cur.type_ == TokenType::RBracket {
        if depth > 0 {
            (start, depth - 1, depth - 1 <= 1)
        } else {
            (start, depth, false)
        }
    } else {
        (start, depth, false)
    }
}

/// Scanning `ts` for macros from token `i` on.  A macro is `%`, a name, and
/// optionally a bracketed argument list; once it ends, its tokens are
/// replaced by its expansion and the scan goes on at the position after the
/// macro's end, counted in the new list.
pub open spec fn macro_pass(ts: Seq<TokenView>, i: int, start: int, depth: int) -> PassOutcome
    decreases 2 * count_percent(ts.skip(i)) + (if depth > 0 { 1int } else { 0int }), ts.len() - i,
{
    if i < 0 || i >= ts.len() {
        PassOutcome::Done(ts)
    } else {
        let (start2, depth2, exit) = pass_step(ts, i, start, depth);
        proof {
            lemma_count_percent_skip(ts, i);
        }
        if exit && 0 <= start2 <= i {
            match macro_outcome(ts.subrange(start2, i + 1)) {
                MacroOutcome::Expanded(e) => {
                    let next = ts.take(start2) + e + ts.skip(i + 1);
                    if i + 1 >= next.len() {
                        PassOutcome::Done(next)
                    } else {
                        proof {
                            if ts.subrange(start2, i + 1).len() >= 2 {
                                lemma_macro_no_percent(ts.subrange(start2, i + 1), span_hash(ts.subrange(start2, i + 1)[0].span));
                            }
                            lemma_pass_measure(ts, i, start2, e);
                        }
                        macro_pass(next, i + 1, start2, 0)
                    }
                },
                MacroOutcome::Error(e) => PassOutcome::Error(e),
                MacroOutcome::Panics => PassOutcome::Panics,
            }
        } else {
            macro_pass(ts, i + 1, start2, depth2)
        }
    }
}

/// After a macro is replaced, the tokens from the scan position on hold no
/// more `%` than before.
pub proof fn lemma_pass_measure(ts: Seq<TokenView>, i: int, start: int, e: Seq<TokenView>)
    requires
        0 <= start <= i < ts.len(),
        i + 1 < start + e.len() + ts.len() - (i + 1),
        no_percent(e),
    ensures
        count_percent((ts.take(start) + e + ts.skip(i + 1)).skip(i + 1)) <= count_percent(ts.skip(i + 1)),
{
    let next = ts.take(start) + e + ts.skip(i + 1);
    let tail = e + ts.skip(i + 1);
    assert(next =~= ts.take(start) + tail);
    lemma_count_percent_none(e);
    lemma_count_percent_concat(e, ts.skip(i + 1));
    let k = i + 1 - start;
    assert(next.skip(i + 1) =~= tail.skip(k));
    lemma_count_percent_suffix(tail, k);
}

pub proof fn lemma_token_views_concat(a: Seq<Token>, b: Seq<Token>)
    ensures
        token_views(a + b) == token_views(a) + token_views(b),
{
    assert(token_views(a + b) =~= token_views(a) + token_views(b));
}

/// The outcome of expanding every macro of `tokens`.
pub open spec fn expand_outcome(ts: Seq<TokenView>) -> PassOutcome {
    macro_pass(ts, 0, 0, 0)
}

/// Replaces the macro that spans tokens `start..end` by its expansion.
fn splice_macro(tokens: &Vec<Token>, start: usize, end: usize) -> (r: CompilerResult<Vec<Token>>)
    requires
        start < end <= tokens@.len(),
        !(macro_outcome(token_views(tokens@).subrange(start as int, end as int)) is Panics),
    ensures
        ({
            let ts = token_views(tokens@);
            match macro_outcome(ts.subrange(start as int, end as int)) {
                MacroOutcome::Expanded(e) => r matches Ok(v)
                    && token_views(v@) == ts.take(start as int) + e + ts.skip(end as int),
                MacroOutcome::Error(e) => r matches Err(es) && error_views(es@) == seq![e],
                MacroOutcome::Panics => true,
            }
        }),
{
    let ghost ts = token_views(tokens@);
    assert(token_views(tokens@.subrange(start as int, end as int)) =~= ts.subrange(start as int, end as int));
    let mut expanded = match expand_macro(&tokens.as_slice()[start..end]) {
        Ok(v) => v,
        Err(es) => {
            return Err(es);
        },
    };
    let mut after = clone_tokens(&tokens.as_slice()[end..tokens.len()]);
    let mut before = clone_tokens(&tokens.as_slice()[0..start]);
    let ghost e = token_views(expanded@);
    assert(token_views(tokens@.subrange(end as int, tokens@.len() as int)) =~= ts.skip(end as int));
    assert(token_views(tokens@.subrange(0, start as int)) =~= ts.take(start as int));
    let ghost b0 = before@;
    before.append(&mut expanded);
    let ghost b1 = before@;
    before.append(&mut after);
    proof {
        lemma_token_views_concat(b0, expanded@);
        lemma_token_views_concat(b1, after@);
    }
    assert(token_views(before@) =~= ts.take(start as int) + e + ts.skip(end as int));
    Ok(before)
}

/// The names of the macros differ, and none ends with `:`.
proof fn lemma_macro_names()
    ensures
        "bsub"@ != "init"@ && "bsub"@ != "_start"@ && "bsub"@ != "push"@ && "bsub"@ != "pop"@,
        forall|s: Seq<char>| s.len() > 0 && s.last() == ':' ==> s != "init"@ && s != "_start"@ && s != "push"@
            && s != "pop"@ && s != "bsub"@ && s != "ret"@,
{
    reveal_strlit("init");
    reveal_strlit("_start");
    reveal_strlit("push");
    reveal_strlit("pop");
    reveal_strlit("bsub");
    reveal_strlit("ret");
    assert("bsub"@[0] != "init"@[0]);
    assert("bsub"@[0] != "_start"@[0]);
    assert("bsub"@[0] != "push"@[0]);
    assert("bsub"@[0] != "pop"@[0]);
}

/// Whether the macro `tokens` is one that is not accepted (see
/// `MacroOutcome::Panics`).
fn macro_panics(tokens: &[Token]) -> (r: bool)
    requires
        tokens@.len() >= 1,
    ensures
        r == (macro_outcome(token_views(tokens@)) is Panics),
{
    let ghost ts = token_views(tokens@);
    let percent = &tokens[0];
    assert(ts[0] == percent@);
    if percent.type_ != TokenType::Percent {
        return false;
    }
    if tokens.len() < 2 {
        return percent.span.end > usize::MAX - 2;
    }
    let ident = &tokens[1];
    assert(ts[1] == ident@);
    if ident.type_ != TokenType::Ident {
        return false;
    }
    let rest = &tokens[2..tokens.len()];
    assert(token_views(rest@) =~= ts.skip(2));
    let src = &ident.source;
    proof {
        lemma_macro_names();
    }
    let ghost h = span_hash(percent.span);
    assert(macro_outcome(ts) == macro_with_hash(ts, h));
    if str_is(src, "init") {
        match read_init_options(rest) {
            Ok(None) => true,
            _ => false,
        }
    } else if str_is(src, "bsub") {
        rest.len() == 0 && ident.span.end > usize::MAX - 3
    } else if str_is(src, "_start") || str_is(src, "push") || str_is(src, "pop") || str_is(src, "ret") {
        false
    } else if ends_with_colon(src) {
        rest.len() == 0 && ident.span.end == 0
    } else {
        false
    }
}

/// Expands every macro in `tokens`; `None` where a macro is one that is not
/// accepted.
pub fn try_expand_lmc_macros(input: Vec<Token>) -> (r: Option<CompilerResult<Vec<Token>>>)
    ensures
        r is None <==> expand_outcome(token_views(input@)) is Panics,
        ({
            match expand_outcome(token_views(input@)) {
                PassOutcome::Done(ts) => r matches Some(Ok(v)) && token_views(v@) == ts,
                PassOutcome::Error(e) => r matches Some(Err(es)) && error_views(es@) == seq![e],
                PassOutcome::Panics => true,
            }
        }),
{
    let ghost goal = expand_outcome(token_views(input@));
    let mut tokens = input;
    let mut i: usize = 0;
    let mut macro_start: usize = 0;
    let mut macro_depth: usize = 0;
    while i < tokens.len()
        invariant
            goal == expand_outcome(token_views(input@)),
            goal == macro_pass(token_views(tokens@), i as int, macro_start as int, macro_depth as int),
            macro_depth <= i,
            i <= tokens@.len(),
        decreases 2 * count_percent(token_views(tokens@).skip(i as int)) + (if macro_depth > 0 { 1int } else { 0int }), tokens@.len() - i,
    {
        let ghost ts = token_views(tokens@);
        proof {
            lemma_count_percent_skip(ts, i as int);
        }
        let ghost (s2, d2, ex) = pass_step(ts, i as int, macro_start as int, macro_depth as int);
        let mut exit_macro = false;
        let ty = tokens[i].type_;
        assert(ts[i as int].type_ == ty);
        if ty == TokenType::Percent {
            macro_start = i;
            macro_depth = 1;
        } else if ty == TokenType::Ident {
            if macro_depth == 1 {
                macro_depth = if i + 1 < tokens.len() && tokens[i + 1].type_ == TokenType::LBracket {
                    1
                } else {
                    0
                };
                exit_macro = macro_depth < 1;
            }
        } else if ty == TokenType::LBracket {
            if macro_depth > 0 {
                macro_depth = macro_depth + 1;
            }
        } else if ty == TokenType::RBracket {
            if macro_depth > 0 {
                macro_depth = macro_depth - 1;
                exit_macro = macro_depth <= 1;
            }
        }
        i = i + 1;
        assert(s2 == macro_start && d2 == macro_depth && ex == exit_macro);
        if exit_macro && macro_start < i {
            let ghost sub = ts.subrange(macro_start as int, i as int);
            assert(token_views(tokens@.subrange(macro_start as int, i as int)) =~= sub);
            if macro_panics(&tokens.as_slice()[macro_start..i]) {
                return None;
            }
            proof {
                if sub.len() >= 2 {
                    lemma_macro_no_percent(sub, span_hash(sub[0].span));
                }
            }
            let next = splice_macro(&tokens, macro_start, i);
            match next {
                Ok(v) => {
                    proof {
                        let e = macro_outcome(sub)->Expanded_0;
                        if i < token_views(v@).len() {
                            lemma_pass_measure(ts, i - 1, macro_start as int, e);
                        }
                    }
                    tokens = v;
                },
                Err(es) => {
                    return Some(Err(es));
                },
            }
            macro_depth = 0;
            if i >= tokens.len() {
                return Some(Ok(tokens));
            }
        }
    }
    Some(Ok(tokens))
}

/// Expands every macro in `tokens`.
pub fn expand_lmc_macros(input: Vec<Token>) -> (r: CompilerResult<Vec<Token>>)
    requires
        !(expand_outcome(token_views(input@)) is Panics),
    ensures
        ({
            match expand_outcome(token_views(input@)) {
                PassOutcome::Done(ts) => r matches Ok(v) && token_views(v@) == ts,
                PassOutcome::Error(e) => r matches Err(es) && error_views(es@) == seq![e],
                PassOutcome::Panics => true,
            }
        }),
{
    match try_expand_lmc_macros(input) {
        Some(r) => r,
        None => Ok(Vec::new()),
    }
}

/// Scanning tokens without `%` from position `i` on, outside any macro,
/// changes nothing.
proof fn lemma_pass_no_percent(ts: Seq<TokenView>, i: int, start: int)
    requires
        no_percent(ts),
        0 <= i,
    ensures
        macro_pass(ts, i, start, 0) == PassOutcome::Done(ts),
    decreases ts.len() - i,
{
    if i < ts.len() {
        lemma_count_percent_skip(ts, i);
        assert(ts[i].type_ != TokenType::Percent);
        lemma_pass_no_percent(ts, i + 1, start);
    }
}

/// Tokens without `%` hold no macro: expanding them gives them back.
pub proof fn law_expand_without_macros(ts: Seq<TokenView>)
    requires
        no_percent(ts),
    ensures
        expand_outcome(ts) == PassOutcome::Done(ts),
{
    lemma_pass_no_percent(ts, 0, 0);
}

/// `%init(stack size=n)` sets the stack to `n` cells and leaves the call
/// stack at its default of 16; `%init(call stack size=m)` sets the call
/// stack to `m` cells and leaves the stack at 16.
pub proof fn law_init_one_option(
    lb: TokenView,
    w1: TokenView,
    w2: TokenView,
    w3: TokenView,
    eq: TokenView,
    lit: TokenView,
    rb: TokenView,
    n: int,
)
    requires
        lb.type_ == TokenType::LBracket,
        w1.type_ == TokenType::Ident,
        w2.type_ == TokenType::Ident,
        w3.type_ == TokenType::Ident,
        eq.type_ == TokenType::Equal,
        rb.type_ == TokenType::RBracket,
        parse_usize_spec(lit.source) == Ok::<int, IntErrorKind>(n),
    ensures
        (w1.source == "stack"@ && w2.source == "size"@) ==> init_options(seq![lb, w1, w2, eq, lit, rb])
            == InitOptions::Sizes(n as usize, 16),
        (w1.source == "call"@ && w2.source == "stack"@ && w3.source == "size"@) ==> init_options(
            seq![lb, w1, w2, w3, eq, lit, rb],
        ) == InitOptions::Sizes(16, n as usize),
{
    reveal_strlit("stack");
    reveal_strlit("size");
    reveal_strlit("call");
    reveal_strlit("stack size");
    reveal_strlit("call stack size");
    reveal_with_fuel(init_scan, 8);
    assert("stack"@ + seq![' '] + "size"@ =~= "stack size"@);
    assert("call"@ + seq![' '] + "stack"@ + seq![' '] + "size"@ =~= "call stack size"@);
    assert("stack size"@ != "call stack size"@) by {
        assert("stack size"@.len() != "call stack size"@.len());
    }
    let a = seq![lb, w1, w2, eq, lit, rb];
    let b = seq![lb, w1, w2, w3, eq, lit, rb];
    if w1.source == "stack"@ && w2.source == "size"@ {
        assert(init_scan(a, 5, None, n as usize, 16) == InitOptions::Sizes(n as usize, 16));
        assert(init_scan(a, 3, Some("stack size"@), 16, 16) == InitOptions::Sizes(n as usize, 16));
        assert(init_scan(a, 2, Some("stack"@), 16, 16) == init_scan(a, 3, Some("stack"@ + seq![' '] + "size"@), 16, 16));
    }
    if w1.source == "call"@ && w2.source == "stack"@ && w3.source == "size"@ {
        assert(init_scan(b, 6, None, 16, n as usize) == InitOptions::Sizes(16, n as usize));
        assert(init_scan(b, 4, Some("call stack size"@), 16, 16) == InitOptions::Sizes(16, n as usize));
        assert(init_scan(b, 3, Some("call"@ + seq![' '] + "stack"@), 16, 16) == init_scan(
            b,
            4,
            Some("call"@ + seq![' '] + "stack"@ + seq![' '] + "size"@),
            16,
            16,
        ));
        assert(init_scan(b, 2, Some("call"@), 16, 16) == init_scan(b, 3, Some("call"@ + seq![' '] + "stack"@), 16, 16));
    }
}

} // verus!
