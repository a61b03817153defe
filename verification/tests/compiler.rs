use lmc::compiler::compile_lmc_asm;
use lmc::error::CompilerError;
use lmc::instruction::{Inst, OpCode, Operand, OperandParseError};
use lmc::span::Span;

#[test]
fn compiles_a_simple_program() {
    assert_eq!(
        compile_lmc_asm("LDA 5\nHLT").unwrap(),
        vec![Inst::new(OpCode::Lda, Some(Operand::Addr(5))), Inst::new(OpCode::Hlt, None)]
    );
}

#[test]
fn labels_count_lines_that_hold_tokens() {
    assert_eq!(
        compile_lmc_asm("\n\nloop LDA one\n\t BRA loop\none DAT 1\n").unwrap(),
        vec![
            Inst::new(OpCode::Lda, Some(Operand::Addr(2))),
            Inst::new(OpCode::Bra, Some(Operand::Addr(0))),
            Inst::new(OpCode::Dat, Some(Operand::Addr(1))),
        ]
    );
}

#[test]
fn immediate_and_indirect_operands() {
    assert_eq!(
        compile_lmc_asm("ADD #3\r\nSTA @x\r\nx DAT").unwrap(),
        vec![
            Inst::new(OpCode::Add, Some(Operand::Immediate(3))),
            Inst::new(OpCode::Sta, Some(Operand::Indirect(2))),
            Inst::new(OpCode::Dat, None),
        ]
    );
}

#[test]
fn the_last_label_before_the_opcode_counts() {
    assert_eq!(
        compile_lmc_asm("a b HLT\nBRA b").unwrap(),
        vec![Inst::new(OpCode::Hlt, None), Inst::new(OpCode::Bra, Some(Operand::Addr(0)))]
    );
}

#[test]
fn too_many_tokens() {
    match compile_lmc_asm("HLT\nLDA 1 2 3") {
        Err(CompilerError::UnexpectedTokens(span)) => assert_eq!(span, Span::new(8, 9, 1)),
        other => panic!("unexpected {:?}", other),
    }
}

#[test]
fn missing_opcode() {
    match compile_lmc_asm("a b c") {
        Err(CompilerError::ExpectedOpCode(span)) => assert_eq!(span, Span::new(6, 10, 0)),
        other => panic!("unexpected {:?}", other),
    }
}

#[test]
fn second_opcode_is_an_invalid_label() {
    match compile_lmc_asm("LDA ADD") {
        Err(CompilerError::InvalidLabel(l, span)) => {
            assert_eq!(l, "ADD");
            assert_eq!(span, Span::new(4, 7, 0));
        },
        other => panic!("unexpected {:?}", other),
    }
}

#[test]
fn bad_operand() {
    match compile_lmc_asm("LDA #x!") {
        Err(CompilerError::OperandParseError(span, OperandParseError::InvalidLabel(l))) => {
            assert_eq!(span, Span::new(4, 7, 0));
            assert_eq!(l, "x!");
        },
        other => panic!("unexpected {:?}", other),
    }
}

#[test]
fn duplicate_label_stops_at_the_first() {
    match compile_lmc_asm("a HLT\na HLT\nb b") {
        Err(CompilerError::DuplicateLabel(l, first, again)) => {
            assert_eq!(l, "a");
            assert_eq!(first, Span::new(0, 1, 0));
            assert_eq!(again, Span::new(0, 1, 1));
        },
        other => panic!("unexpected {:?}", other),
    }
}

#[test]
fn first_undefined_label_is_reported() {
    match compile_lmc_asm("LDA x\nLDA y") {
        Err(CompilerError::UndefinedLabel(l, span)) => {
            assert_eq!(l, "x");
            assert_eq!(span, Span::new(4, 5, 0));
        },
        other => panic!("unexpected {:?}", other),
    }
}

#[test]
fn trailing_white_space_ends_no_token() {
    assert_eq!(compile_lmc_asm("OUT   \n   HLT").unwrap(), vec![Inst::new(OpCode::Out, None), Inst::new(OpCode::Hlt, None)]);
}
