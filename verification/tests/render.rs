use lmc::error::{CompileErrorRenderer, CompilerError, Expected, InterpreterErrorRenderer};
use lmc::interpreter::{InterpreterError, InterpreterErrorSource};
use lmc::program::assemble_program;
use lmc::span::{Colour, RenderLabel, SourceBuffer, Span, Styled};

fn text(parts: &[Styled]) -> String {
    parts.iter().map(|p| p.text.as_str()).collect::<Vec<&str>>().concat()
}

#[test]
fn buffer_lines() {
    let b = SourceBuffer::new("ab\ncd\n");
    assert_eq!(b.source(), "ab\ncd\n");
    assert_eq!(b.get_line(0), Some("ab".to_string()));
    assert_eq!(b.get_line(1), Some("cd".to_string()));
    assert_eq!(b.get_line(2), Some("".to_string()));
    assert_eq!(b.get_line(3), None);
    assert_eq!(b.get_lines(Span::new(0, 1, 0)), Some("b\n".to_string()));
    assert_eq!(b.get_lines(Span::new(0, 1, 9)), None);
}

#[test]
fn buffer_single_line() {
    let b = SourceBuffer::new("HLT");
    assert_eq!(b.get_line(0), Some("HLT".to_string()));
    assert_eq!(b.get_line(1), None);
}

#[test]
fn span_union_and_len() {
    let a = Span::new(4, 7, 2);
    let b = Span::new(1, 5, 2);
    assert_eq!(a.union(b), Span::new(1, 7, 2));
    assert_eq!(b.union(a), Span::new(1, 7, 2));
    assert_eq!(a.union(a), a);
    assert_eq!(a.len(), 3);
}

#[test]
fn render_labels() {
    let e = RenderLabel::Error("bad".to_string());
    let i = RenderLabel::Info("see".to_string());
    assert_eq!(e.label(), "bad");
    assert_eq!(i.label(), "see");
    assert_eq!(e.underline_char(), '^');
    assert_eq!(i.underline_char(), '-');
    assert_eq!(e.get_colour(), Colour::BrightRed);
    assert_eq!(i.get_colour(), Colour::BrightBlue);
    let h = e.styled();
    assert_eq!(text(&h), "error: bad");
    assert_eq!(h[0].colour, Some(Colour::BrightRed));
    assert!(h[0].bold);
    assert_eq!(text(&i.styled()), "info: see");
}

#[test]
fn span_drawing() {
    let b = SourceBuffer::new("LDA 5\nHLT");
    let r = Span::new(4, 5, 0).render(&b, Some(RenderLabel::Error("bad".to_string())), " ");
    let parts = r.styled();
    assert_eq!(text(&parts), "1 | LDA 5\n  |     ^ bad");
    assert_eq!(parts[0].colour, Some(Colour::BrightBlue));
    let plain = Span::new(0, 3, 1).render(&b, None, "   ");
    assert_eq!(text(&plain.styled()), "2   | HLT");
}

#[test]
fn expected_opcode_report() {
    let b = SourceBuffer::new("LDA 5\nloop\n");
    let r = CompilerError::ExpectedOpCode(Span::new(0, 4, 1)).render(&b, "f.lmc");
    assert_eq!(
        text(&r.styled()),
        "error: expected an opcode\n --> f.lmc:1:0\n  |\n2 | loop\n  | ^^^^ expected an opcode here\n  |\n  = note: each instruction must contain an opcode\n"
    );
}

#[test]
fn duplicate_label_report() {
    let b = SourceBuffer::new("a LDA 1\n\nb HLT\na OUT");
    let r = CompileErrorRenderer {
        error: CompilerError::DuplicateLabel("a".to_string(), Span::new(0, 1, 0), Span::new(0, 1, 3)),
        source: &b,
        filepath: "f",
    };
    assert_eq!(
        text(&r.styled()),
        "error: the label `a` has been defined multiple times\n --> f:3:0\n  |\n1 | a LDA 1\n  | - label first defined here\n ...\n4 | a OUT\n  | ^ label redefined here\n"
    );
}

#[test]
fn expected_token_report_lists_what_was_expected() {
    let b = SourceBuffer::new("LDA #");
    let r = CompilerError::ExpectedToken(Span::new(5, 10, 0), vec![Expected::Literal, Expected::Label]).render(&b, "p");
    assert_eq!(
        text(&r.styled()),
        "error: expected a token\n --> p:0:5\n  |\n1 | LDA #\n  |      ^^^^^ expected a token here\n  |\n  = note: expected literal, label\n"
    );
}

#[test]
fn machine_error_report() {
    let source = "LDA #0\nSUB #1\nSTA 9\nSTA @9\nHLT";
    let b = SourceBuffer::new(source);
    let map = match assemble_program(source, true) {
        Some(Ok((_, m))) => m,
        _ => panic!("assembling failed"),
    };
    let r = InterpreterErrorRenderer {
        error: InterpreterError { pc: 3, source: InterpreterErrorSource::NegAddrError },
        source_map: &map,
        source: &b,
        filepath: "m",
    };
    assert_eq!(
        text(&r.styled()),
        "error: attemped to use a negative value as an adress\n --> m:3:0\n  |\n4 | STA @9\n  | ------ while executing this instruction\n\n"
    );
}
