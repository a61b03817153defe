use std::collections::hash_map::DefaultHasher;
use std::hash::{Hash, Hasher};

use lmc::assembler::macros::{
    expand_init_macro, expand_label_macro, expand_macro, expand_pop_macro, expand_push_macro,
    expand_start_macro, hash_span, macro_assert, pop_macro, push_macro,
};
use lmc::assembler::tokenizer::{tokenize_lmc_asm, Token, TokenType};
use lmc::error::{CompilerError, Expected};
use lmc::interpreter::{Event, Vm};
use lmc::instruction::Value;
use lmc::program::{assemble_program, load_program};
use lmc::span::Span;

fn tokens(source: &str) -> Vec<Token> {
    tokenize_lmc_asm(source).unwrap()
}

fn sources(ts: &[Token]) -> Vec<String> {
    ts.iter().map(|t| t.source.clone()).collect()
}

fn outputs(source: &str) -> Vec<Value> {
    let insts = match assemble_program(source, true) {
        Some(Ok((insts, _))) => insts,
        other => panic!("assembling failed: {:?}", other.map(|r| r.map(|(i, _)| i))),
    };
    let mut vm = Vm::new(load_program(&insts));
    let mut seen = vec![];
    loop {
        match vm.run_program(10_000).unwrap() {
            Some(Event::Output(v)) => seen.push(v),
            Some(Event::Halted) => return seen,
            other => panic!("unexpected {:?}", other),
        }
    }
}

#[test]
fn span_hash_is_the_default_hasher_of_the_span() {
    let span = Span::new(3, 4, 7);
    let mut h = DefaultHasher::new();
    span.hash(&mut h);
    assert_eq!(hash_span(span), format!("{:x}", h.finish()));
    assert_ne!(hash_span(span), hash_span(Span::new(3, 4, 8)));
}

#[test]
fn assertion_helper() {
    assert!(macro_assert(Span::new(0, 1, 0), true).is_ok());
    match macro_assert(Span::new(2, 3, 4), false) {
        Err(es) => assert!(matches!(es.as_slice(), [CompilerError::UnreachableCondition(s)] if *s == Span::new(2, 3, 4))),
        Ok(()) => panic!("accepted"),
    }
}

#[test]
fn push_and_pop_tokens() {
    let label = Token::new(TokenType::Ident, "SP".to_string(), Span::new(0, 2, 0));
    let ps = Span::new(0, 1, 0);
    assert_eq!(
        sources(&push_macro("h", &label, ps)),
        vec![
            "\n", "STA", "_h_tmp", "\n", "STA", "@", "SP", "\n", "LDA", "SP", "\n", "ADD", "#", "1", "\n", "STA", "SP",
            "\n", "BRA", "_h_end", "\n", "_h_tmp", "DAT", "\n", "_h_end", "LDA", "_h_tmp", "\n",
        ]
    );
    assert_eq!(
        sources(&pop_macro(&label, ps)),
        vec!["\n", "LDA", "SP", "\n", "SUB", "#", "1", "\n", "STA", "SP", "\n", "LDA", "@", "SP", "\n"]
    );
}

#[test]
fn push_takes_the_stack_pointer_by_default() {
    let ps = Span::new(0, 1, 0);
    let r = expand_push_macro("h", &[], ps).unwrap();
    assert_eq!(r[6].source, "STACK_PTR");
    let args = tokens("(SP2)");
    let r = expand_push_macro("h", &args, ps).unwrap();
    assert_eq!(r[6].source, "SP2");
    match expand_push_macro("h", &tokens("(5)"), ps) {
        Err(es) => match es.as_slice() {
            [CompilerError::InvalidToken { token, expected, .. }] => {
                assert_eq!(token, "5");
                assert_eq!(expected, &vec![Expected::Label]);
            },
            other => panic!("unexpected {:?}", other),
        },
        Ok(_) => panic!("accepted"),
    }
    match expand_pop_macro(&tokens("(a b)"), ps) {
        Err(es) => match es.as_slice() {
            [CompilerError::InvalidToken { token, expected, .. }] => {
                assert_eq!(token, "b");
                assert_eq!(expected, &vec![Expected::RBracket]);
            },
            other => panic!("unexpected {:?}", other),
        },
        Ok(_) => panic!("accepted"),
    }
}

#[test]
fn start_and_label_macros() {
    let ps = Span::new(0, 1, 0);
    assert_eq!(sources(&expand_start_macro(&[], ps).unwrap()), vec!["\n", "BRA", "_start", "\n"]);
    assert!(expand_start_macro(&tokens("x"), ps).is_err());
    let label = Token::new(TokenType::Ident, "loop:".to_string(), Span::new(1, 6, 0));
    let r = expand_label_macro(&label, &[], ps).unwrap();
    assert_eq!(sources(&r), vec!["\n", "loop", "ADD", "#", "0", "\n"]);
    assert_eq!(r[1].span, Span::new(1, 5, 0));
}

#[test]
fn init_sizes_and_errors() {
    let ps = Span::new(0, 1, 0);
    let r = expand_init_macro("h", &tokens("(stack size=2, call stack size=3)"), ps).unwrap();
    let src = sources(&r);
    assert!(src.contains(&"_h_stack_1".to_string()));
    assert!(!src.contains(&"_h_stack_2".to_string()));
    assert!(src.contains(&"_h_call_stack_2".to_string()));
    assert!(!src.contains(&"_h_call_stack_3".to_string()));
    let d = expand_init_macro("h", &[], ps).unwrap();
    assert!(sources(&d).contains(&"_h_stack_15".to_string()));
    assert_eq!(&sources(&d)[0..5], &["\n", "LDA", "#", "STACK", "\n"]);
    match expand_init_macro("h", &tokens("(stack size=2 x)"), ps) {
        Err(es) => match es.as_slice() {
            [CompilerError::InvalidToken { token, expected, .. }] => {
                assert_eq!(token, "x");
                assert_eq!(expected, &vec![Expected::Comma, Expected::RBracket]);
            },
            other => panic!("unexpected {:?}", other),
        },
        Ok(_) => panic!("accepted"),
    }
}

#[test]
fn expand_macro_checks_its_start() {
    match expand_macro(&tokens("%")) {
        Err(es) => match es.as_slice() {
            [CompilerError::ExpectedToken(span, expected)] => {
                assert_eq!(*span, Span::new(2, 3, 0));
                assert_eq!(expected, &vec![Expected::Identifier]);
            },
            other => panic!("unexpected {:?}", other),
        },
        Ok(_) => panic!("accepted"),
    }
    match expand_macro(&tokens("% 5")) {
        Err(es) => assert!(matches!(es.as_slice(), [CompilerError::InvalidToken { .. }])),
        Ok(_) => panic!("accepted"),
    }
    assert_eq!(expand_macro(&tokens("%unknown")).unwrap().len(), 0);
}

#[test]
fn push_then_pop_gives_the_value_back() {
    assert_eq!(outputs("%init LDA #5\n%push\nLDA #0\n%pop\nOUT\nHLT"), vec![Value::Number(5)]);
}

#[test]
fn labels_keep_their_numbers_when_add_zero_is_folded() {
    // The folds of `%init` and `%bsub` shorten the program, while the labels
    // keep the line numbers they were given: the call lands one instruction
    // late and the return jumps past the end, where the machine halts.
    assert_eq!(outputs("%init BRA main\nf OUT\n%ret\nmain LDA #7\n%bsub(f) HLT"), vec![]);
}
