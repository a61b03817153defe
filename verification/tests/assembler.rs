use lmc::assembler::labels::process_labels;
use lmc::assembler::macros::{expand_lmc_macros, try_expand_lmc_macros};
use lmc::assembler::optimizer::optimize_lmc_asm;
use lmc::assembler::parser::{parse_lmc_asm, parse_lmc_instruction, SymbolTable};
use lmc::assembler::tokenizer::{clone_tokens, tokenize_lmc_asm, tokenize_panics, Token, TokenType};
use lmc::assembler::{assemble_lmc_asm, tokenize_and_parse_lmc_asm};
use lmc::error::{CompilerError, Expected};
use lmc::instruction::{Inst, OpCode, Operand, OperandParseError, OperandValue};
use lmc::program::{assemble_program, expand_program};
use lmc::span::Span;
use lmc::text::IntErrorKind;

fn tokens(source: &str) -> Vec<Token> {
    match tokenize_lmc_asm(source) {
        Ok(t) => t,
        Err(e) => panic!("tokenizing failed: {:?}", e),
    }
}

fn line(source: &str) -> Vec<Token> {
    tokens(source).into_iter().filter(|t| t.type_ != TokenType::LineEnd).collect()
}

fn build(source: &str) -> Vec<Inst> {
    match assemble_program(source, true) {
        Some(Ok((insts, _))) => insts,
        other => panic!("assembling failed: {:?}", other.map(|r| r.map(|(i, _)| i))),
    }
}

#[test]
fn tokens_of_a_line_with_a_comment() {
    let ts = tokens("LDA 5 ; comment\nHLT");
    let kinds: Vec<TokenType> = ts.iter().map(|t| t.type_).collect();
    assert_eq!(kinds, vec![TokenType::Ident, TokenType::Literal, TokenType::LineEnd, TokenType::Ident]);
    assert_eq!(ts[0].source, "LDA");
    assert_eq!(ts[0].span, Span::new(0, 3, 0));
    assert_eq!(ts[1].source, "5");
    assert_eq!(ts[1].span, Span::new(4, 5, 0));
    assert_eq!(ts[2].span, Span::new(15, 16, 0));
    assert_eq!(ts[3].source, "HLT");
    assert_eq!(ts[3].span, Span::new(0, 3, 1));
}

#[test]
fn tokens_of_punctuation_and_names() {
    let ts = tokens("%push(a_b:, #12) @x");
    let kinds: Vec<TokenType> = ts.iter().map(|t| t.type_).collect();
    assert_eq!(
        kinds,
        vec![
            TokenType::Percent,
            TokenType::Ident,
            TokenType::LBracket,
            TokenType::Ident,
            TokenType::Comma,
            TokenType::Hash,
            TokenType::Literal,
            TokenType::RBracket,
            TokenType::At,
            TokenType::Ident,
        ]
    );
    assert_eq!(ts[3].source, "a_b:");
    assert_eq!(ts[6].source, "12");
    assert_eq!(TokenType::try_from_char('%'), Some(TokenType::Percent));
    assert_eq!(TokenType::try_from_char('a'), None);
}

#[test]
fn invalid_characters_are_all_reported() {
    match tokenize_lmc_asm("LDA $\n~") {
        Err(es) => {
            assert_eq!(es.len(), 2);
            match &es[0] {
                CompilerError::InvalidCharacter(c, span) => {
                    assert_eq!(c, "$");
                    assert_eq!(*span, Span::new(4, 5, 0));
                },
                other => panic!("unexpected {:?}", other),
            }
            match &es[1] {
                CompilerError::InvalidCharacter(c, span) => {
                    assert_eq!(c, "~");
                    assert_eq!(*span, Span::new(0, 1, 1));
                },
                other => panic!("unexpected {:?}", other),
            }
        },
        Ok(t) => panic!("unexpected tokens {:?}", t),
    }
    assert!(!tokenize_panics("LDA 5"));
}

#[test]
fn parse_instruction_shapes() {
    match parse_lmc_instruction(line("loop LDA #5"), 0) {
        Ok(inst) => {
            assert_eq!(inst.label.as_ref().map(|l| l.source.clone()), Some("loop".to_string()));
            assert_eq!(inst.opcode.1, OpCode::Lda);
            match &inst.operand {
                Some((span, Operand::Immediate(OperandValue::Value(5)))) => assert_eq!(*span, Span::new(10, 11, 0)),
                other => panic!("unexpected {:?}", other),
            }
        },
        Err(e) => panic!("unexpected {:?}", e),
    }
    match parse_lmc_instruction(line("out"), 3) {
        Ok(inst) => {
            assert!(inst.label.is_none());
            assert_eq!(inst.opcode, (Span::new(0, 3, 0), OpCode::Out));
            assert!(inst.operand.is_none());
        },
        Err(e) => panic!("unexpected {:?}", e),
    }
    match parse_lmc_instruction(line("BRA @there"), 0) {
        Ok(inst) => match &inst.operand {
            Some((_, Operand::Indirect(OperandValue::Label(l)))) => assert_eq!(l, "there"),
            other => panic!("unexpected {:?}", other),
        },
        Err(e) => panic!("unexpected {:?}", e),
    }
}

#[test]
fn parse_instruction_errors() {
    match parse_lmc_instruction(Vec::new(), 7).unwrap_err().as_slice() {
        [CompilerError::ExpectedOpCode(span)] => assert_eq!(*span, Span::new(0, 3, 7)),
        other => panic!("unexpected {:?}", other),
    }
    match parse_lmc_instruction(line("5 LDA"), 0).unwrap_err().as_slice() {
        [CompilerError::InvalidToken { token, span, expected }] => {
            assert_eq!(token, "5");
            assert_eq!(*span, Span::new(0, 1, 0));
            assert_eq!(expected, &vec![Expected::Label, Expected::Opcode]);
        },
        other => panic!("unexpected {:?}", other),
    }
    match parse_lmc_instruction(line("loop"), 0).unwrap_err().as_slice() {
        [CompilerError::ExpectedOpCode(span)] => assert_eq!(*span, Span::new(5, 8, 0)),
        other => panic!("unexpected {:?}", other),
    }
    match parse_lmc_instruction(line("loop foo"), 0).unwrap_err().as_slice() {
        [CompilerError::ExpectedOpCode(span)] => assert_eq!(*span, Span::new(5, 8, 0)),
        other => panic!("unexpected {:?}", other),
    }
    match parse_lmc_instruction(line("LDA ADD"), 0).unwrap_err().as_slice() {
        [CompilerError::InvalidLabel(l, span)] => {
            assert_eq!(l, "ADD");
            assert_eq!(*span, Span::new(4, 7, 0));
        },
        other => panic!("unexpected {:?}", other),
    }
    match parse_lmc_instruction(line("LDA #"), 2).unwrap_err().as_slice() {
        [CompilerError::ExpectedToken(span, expected)] => {
            assert_eq!(*span, Span::new(5, 10, 2));
            assert_eq!(expected, &vec![Expected::Literal, Expected::Label]);
        },
        other => panic!("unexpected {:?}", other),
    }
    match parse_lmc_instruction(line("LDA # ,"), 0).unwrap_err().as_slice() {
        [CompilerError::InvalidToken { token, expected, .. }] => {
            assert_eq!(token, ",");
            assert_eq!(expected, &vec![Expected::Literal, Expected::Label]);
        },
        other => panic!("unexpected {:?}", other),
    }
    match parse_lmc_instruction(line("LDA 5 6 7"), 0).unwrap_err().as_slice() {
        [CompilerError::UnexpectedTokens(span)] => assert_eq!(*span, Span::new(6, 9, 0)),
        other => panic!("unexpected {:?}", other),
    }
    match parse_lmc_instruction(line("LDA #5 6"), 0).unwrap_err().as_slice() {
        [CompilerError::UnexpectedTokens(span)] => assert_eq!(*span, Span::new(7, 8, 0)),
        other => panic!("unexpected {:?}", other),
    }
    match parse_lmc_instruction(line("LDA ,"), 0).unwrap_err().as_slice() {
        [CompilerError::InvalidToken { token, expected, .. }] => {
            assert_eq!(token, ",");
            assert_eq!(expected, &vec![Expected::At, Expected::Hash, Expected::Literal, Expected::Label]);
        },
        other => panic!("unexpected {:?}", other),
    }
    match parse_lmc_instruction(line("LDA 99999999999999999999"), 0).unwrap_err().as_slice() {
        [CompilerError::OperandParseError(span, OperandParseError::InvalidIntegerLiteral(k))] => {
            assert_eq!(*span, Span::new(4, 24, 0));
            assert_eq!(*k, IntErrorKind::PosOverflow);
        },
        other => panic!("unexpected {:?}", other),
    }
}

#[test]
fn duplicate_labels_are_reported() {
    let lines = vec![(0usize, line("a LDA 1")), (1usize, line("a HLT"))];
    match parse_lmc_asm(lines) {
        Err(es) => match es.as_slice() {
            [CompilerError::DuplicateLabel(l, first, again)] => {
                assert_eq!(l, "a");
                assert_eq!(*first, Span::new(0, 1, 0));
                assert_eq!(*again, Span::new(0, 1, 0));
            },
            other => panic!("unexpected {:?}", other),
        },
        Ok(_) => panic!("duplicate accepted"),
    }
}

#[test]
fn every_line_error_is_reported() {
    let lines = vec![(0usize, line("5")), (1usize, line("LDA 1")), (2usize, line("x"))];
    match parse_lmc_asm(lines) {
        Err(es) => {
            assert_eq!(es.len(), 2);
            assert!(matches!(es[0], CompilerError::InvalidToken { .. }));
            assert!(matches!(es[1], CompilerError::ExpectedOpCode(_)));
        },
        Ok(_) => panic!("errors not reported"),
    }
}

#[test]
fn labels_name_their_line() {
    let lines = vec![(0usize, line("LDA one")), (1usize, line("HLT")), (2usize, line("one DAT 1"))];
    let (insts, table) = match parse_lmc_asm(lines) {
        Ok(p) => p,
        Err(e) => panic!("unexpected {:?}", e),
    };
    assert_eq!(insts.len(), 3);
    assert_eq!(table.len(), 1);
    assert_eq!(table.get("one").map(|s| s.addr), Some(2));
    assert!(table.get("two").is_none());
    match process_labels(insts, table) {
        Ok(v) => assert_eq!(
            v,
            vec![
                Inst::new(OpCode::Lda, Some(Operand::Addr(2))),
                Inst::new(OpCode::Hlt, None),
                Inst::new(OpCode::Dat, Some(Operand::Addr(1))),
            ]
        ),
        Err(e) => panic!("unexpected {:?}", e),
    }
}

#[test]
fn undefined_labels_are_reported() {
    let lines = vec![(0usize, line("LDA nowhere")), (1usize, line("ADD #else"))];
    let (insts, table) = parse_lmc_asm(lines).unwrap();
    match process_labels(insts, table) {
        Err(es) => {
            assert_eq!(es.len(), 2);
            match &es[1] {
                CompilerError::UndefinedLabel(l, span) => {
                    assert_eq!(l, "else");
                    assert_eq!(*span, Span::new(5, 9, 0));
                },
                other => panic!("unexpected {:?}", other),
            }
        },
        Ok(v) => panic!("unexpected {:?}", v),
    }
}

#[test]
fn add_zero_folds_into_the_next_instruction() {
    let lines = vec![(0usize, line("x ADD #0")), (1usize, line("LDA 3")), (2usize, line("y ADD #0")), (3usize, line("z OUT"))];
    let (insts, table) = parse_lmc_asm(lines).unwrap();
    let (insts, _table) = optimize_lmc_asm(insts, table).unwrap();
    assert_eq!(insts.len(), 3);
    assert_eq!(insts[0].label.as_ref().map(|l| l.source.clone()), Some("x".to_string()));
    assert_eq!(insts[0].opcode.1, OpCode::Lda);
    assert_eq!(insts[1].opcode.1, OpCode::Add);
    assert_eq!(insts[2].opcode.1, OpCode::Out);
}

#[test]
fn folding_leaves_label_addresses_alone() {
    let lines = vec![(0usize, line("x ADD #0")), (1usize, line("LDA 3")), (2usize, line("z OUT"))];
    let (insts, table) = parse_lmc_asm(lines).unwrap();
    let (insts, table) = optimize_lmc_asm(insts, table).unwrap();
    assert_eq!(insts.len(), 2);
    assert_eq!(table.get("x").map(|s| s.addr), Some(0));
    assert_eq!(table.get("z").map(|s| s.addr), Some(2));
    assert_eq!(SymbolTable::new().len(), 0);
}

#[test]
fn a_whole_program() {
    let insts = build("start LDA #5\n ADD one\n OUT\n HLT\none DAT 1\n");
    assert_eq!(
        insts,
        vec![
            Inst::new(OpCode::Lda, Some(Operand::Immediate(5))),
            Inst::new(OpCode::Add, Some(Operand::Addr(4))),
            Inst::new(OpCode::Out, None),
            Inst::new(OpCode::Hlt, None),
            Inst::new(OpCode::Dat, Some(Operand::Addr(1))),
        ]
    );
}

#[test]
fn source_map_points_at_each_instruction() {
    match assemble_program("start LDA #5\n\n  HLT", false) {
        Some(Ok((insts, map))) => {
            assert_eq!(insts.len(), 2);
            assert_eq!(map.get(&0), Some(&Span::new(0, 12, 0)));
            assert_eq!(map.get(&1), Some(&Span::new(2, 5, 2)));
            assert_eq!(map.len(), 2);
        },
        other => panic!("unexpected {:?}", other.map(|r| r.map(|(i, _)| i))),
    }
}

#[test]
fn start_macro_jumps_to_start() {
    let insts = build("%_start\nx DAT 3\n_start HLT");
    assert_eq!(
        insts,
        vec![
            Inst::new(OpCode::Bra, Some(Operand::Addr(2))),
            Inst::new(OpCode::Dat, Some(Operand::Addr(3))),
            Inst::new(OpCode::Hlt, None),
        ]
    );
}

#[test]
fn label_macro_names_the_instruction_after_it() {
    let insts = build("%loop: LDA 1\nBRA loop");
    assert_eq!(
        insts,
        vec![Inst::new(OpCode::Lda, Some(Operand::Addr(1))), Inst::new(OpCode::Bra, Some(Operand::Addr(0)))]
    );
}

#[test]
fn macros_can_be_switched_off() {
    match assemble_program("%_start\nHLT", false) {
        Some(Err(es)) => assert!(matches!(es[0], CompilerError::InvalidToken { .. })),
        other => panic!("unexpected {:?}", other.map(|r| r.map(|(i, _)| i))),
    }
}

#[test]
fn text_without_macros_is_unchanged_by_expansion() {
    let ts = tokens("LDA 1\nx OUT #2\n");
    let expanded = expand_lmc_macros(clone_tokens(&ts)).unwrap();
    assert_eq!(expanded.len(), ts.len());
    for (a, b) in expanded.iter().zip(ts.iter()) {
        assert_eq!(a.type_, b.type_);
        assert_eq!(a.source, b.source);
        assert_eq!(a.span, b.span);
    }
}

#[test]
fn unknown_macro_ret_with_arguments_is_an_error() {
    match try_expand_lmc_macros(tokens("%ret(x)")) {
        Some(Err(es)) => assert!(matches!(es[0], CompilerError::UnexpectedTokens(_))),
        other => panic!("unexpected {:?}", other.map(|r| r.map(|t| t.len()))),
    }
}

#[test]
fn listing_pads_labels() {
    match expand_program("start LDA 5\nHLT\nx ADD #k", false) {
        Some(Ok(lines)) => assert_eq!(lines, vec!["start  LDA  5", "       HLT", "x      ADD  #k"]),
        other => panic!("unexpected {:?}", other),
    }
    match expand_program("LDA 5", false) {
        Some(Ok(lines)) => assert_eq!(lines, vec!["LDA  5"]),
        other => panic!("unexpected {:?}", other),
    }
}

#[test]
fn pipeline_in_two_steps() {
    let (insts, table) = tokenize_and_parse_lmc_asm("a OUT\nBRA a", true).unwrap();
    let (code, map) = assemble_lmc_asm(insts, table).unwrap();
    assert_eq!(code, vec![Inst::new(OpCode::Out, None), Inst::new(OpCode::Bra, Some(Operand::Addr(0)))]);
    assert_eq!(map.len(), 2);
}

#[test]
fn a_trailing_comment_adds_nothing() {
    let with = tokens("LDA 5\nOUT ;note $~ 7 €");
    let without = tokens("LDA 5\nOUT ");
    assert_eq!(with.len(), without.len());
    for (a, b) in with.iter().zip(without.iter()) {
        assert_eq!(a.type_, b.type_);
        assert_eq!(a.source, b.source);
        assert_eq!(a.span, b.span);
    }
}
