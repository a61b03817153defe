//! Errors of the assembler.
use vstd::prelude::*;

use crate::assembler::SourceMap;
use crate::instruction::{OperandParseError, OperandParseErrorView};
use crate::interpreter::InterpreterError;
use crate::report::{notes_view, report_drawable, report_lines, spans_view, ReportView, SourceErrorRenderHelper};
use crate::span::{label_view, plain, push_styled, styled_views, RenderLabel, RenderLabelView, SourceBuffer, Span, Styled};
use crate::text::{decimal, push_str, string_of, usize_to_decimal};

verus! {

/// A kind of token that was expected, as named in messages.
#[derive(Copy, Clone, Debug, PartialEq, Eq, Structural)]
pub enum Expected {
    Label,
    Opcode,
    Literal,
    Identifier,
    At,
    Hash,
    Comma,
    LBracket,
    RBracket,
    Equal,
}

impl Expected {
    pub open spec fn name(self) -> Seq<char> {
        match self {
            Expected::Label => "label"@,
            Expected::Opcode => "opcode"@,
            Expected::Literal => "literal"@,
            Expected::Identifier => "identifier"@,
            Expected::At => "'@'"@,
            Expected::Hash => "'#'"@,
            Expected::Comma => "`,`"@,
            Expected::LBracket => "`(`"@,
            Expected::RBracket => "`)`"@,
            Expected::Equal => "`=`"@,
        }
    }

    /// How the expected token is named in messages.
    pub fn as_str(&self) -> (r: &'static str)
        ensures
            r@ == self.name(),
    {
        match self {
            Expected::Label => "label",
            Expected::Opcode => "opcode",
            Expected::Literal => "literal",
            Expected::Identifier => "identifier",
            Expected::At => "'@'",
            Expected::Hash => "'#'",
            Expected::Comma => "`,`",
            Expected::LBracket => "`(`",
            Expected::RBracket => "`)`",
            Expected::Equal => "`=`",
        }
    }
}

/// An error found while assembling.
#[derive(Debug)]
pub enum CompilerError {
    UnexpectedTokens(Span),
    InvalidLabel(String, Span),
    ExpectedOpCode(Span),
    OperandParseError(Span, OperandParseError),
    DuplicateLabel(String, Span, Span),
    UndefinedLabel(String, Span),
    InvalidCharacter(String, Span),
    InvalidToken { token: String, span: Span, expected: Vec<Expected> },
    ExpectedToken(Span, Vec<Expected>),
    UnreachableCondition(Span),
}

pub enum CompilerErrorView {
    UnexpectedTokens(Span),
    InvalidLabel(Seq<char>, Span),
    ExpectedOpCode(Span),
    OperandParseError(Span, OperandParseErrorView),
    DuplicateLabel(Seq<char>, Span, Span),
    UndefinedLabel(Seq<char>, Span),
    InvalidCharacter(Seq<char>, Span),
    InvalidToken { token: Seq<char>, span: Span, expected: Seq<Expected> },
    ExpectedToken(Span, Seq<Expected>),
    UnreachableCondition(Span),
}

impl View for CompilerError {
    type V = CompilerErrorView;

    open spec fn view(&self) -> CompilerErrorView {
        match self {
            CompilerError::UnexpectedTokens(s) => CompilerErrorView::UnexpectedTokens(*s),
            CompilerError::InvalidLabel(l, s) => CompilerErrorView::InvalidLabel(l@, *s),
            CompilerError::ExpectedOpCode(s) => CompilerErrorView::ExpectedOpCode(*s),
            CompilerError::OperandParseError(s, e) => CompilerErrorView::OperandParseError(*s, e@),
            CompilerError::DuplicateLabel(l, a, b) => CompilerErrorView::DuplicateLabel(l@, *a, *b),
            CompilerError::UndefinedLabel(l, s) => CompilerErrorView::UndefinedLabel(l@, *s),
            CompilerError::InvalidCharacter(c, s) => CompilerErrorView::InvalidCharacter(c@, *s),
            CompilerError::InvalidToken { token, span, expected } => CompilerErrorView::InvalidToken {
                token: token@,
                span: *span,
                expected: expected@,
            },
            CompilerError::ExpectedToken(s, e) => CompilerErrorView::ExpectedToken(*s, e@),
            CompilerError::UnreachableCondition(s) => CompilerErrorView::UnreachableCondition(*s),
        }
    }
}

/// The views of a list of errors.
pub open spec fn error_views(es: Seq<CompilerError>) -> Seq<CompilerErrorView> {
    es.map_values(|e: CompilerError| e@)
}

/// A list holding the one error `e`.
pub fn one_error(e: CompilerError) -> (r: Vec<CompilerError>)
    ensures
        error_views(r@) == seq![e@],
{
    let es = vec![e];
    assert(error_views(es@) =~= seq![e@]);
    es
}

/// Either a result or every error found.
pub type CompilerResult<T> = Result<T, Vec<CompilerError>>;

// ---------------------------------------------------------------------------
// Reports on assembly errors
// ---------------------------------------------------------------------------

/// The names of the expected tokens, separated by commas.
pub open spec fn expected_list(es: Seq<Expected>) -> Seq<char>
    decreases es.len(),
{
    if es.len() == 0 {
        seq![]
    } else if es.len() == 1 {
        es[0].name()
    } else {
        expected_list(es.drop_last()) + ", "@ + es.last().name()
    }
}

fn expected_text(es: &Vec<Expected>) -> (r: String)
    ensures
        r@ == expected_list(es@),
{
    let mut r = String::new();
    let mut k: usize = 0;
    while k < es.len()
        invariant
            k <= es@.len(),
            r@ == expected_list(es@.take(k as int)),
        decreases es@.len() - k,
    {
        assert(es@.take(k as int + 1).drop_last() =~= es@.take(k as int));
        if k > 0 {
            push_str(&mut r, ", ");
        }
        push_str(&mut r, es[k].as_str());
        k = k + 1;
    }
    assert(es@.take(es@.len() as int) =~= es@);
    r
}

pub open spec fn one_span(span: Span, label: RenderLabelView) -> Seq<(Span, Option<RenderLabelView>)> {
    seq![(span, Some(label))]
}

/// The report on an assembly error.
pub open spec fn error_report(e: CompilerErrorView) -> ReportView {
    match e {
        CompilerErrorView::UnexpectedTokens(span) => ReportView {
            label: Some(RenderLabelView::Error("unexpected tokens"@)),
            main: span,
            spans: one_span(span, RenderLabelView::Error("unexpected tokens"@)),
            notes: seq!["each instruction can only contain at most a label, an opcode, and an operand"@],
        },
        CompilerErrorView::ExpectedOpCode(span) => ReportView {
            label: Some(RenderLabelView::Error("expected an opcode"@)),
            main: span,
            spans: one_span(span, RenderLabelView::Error("expected an opcode here"@)),
            notes: seq!["each instruction must contain an opcode"@],
        },
        CompilerErrorView::OperandParseError(span, OperandParseErrorView::InvalidIntegerLiteral(k)) => ReportView {
            label: Some(RenderLabelView::Error("invalid integer literal"@)),
            main: span,
            spans: one_span(span, RenderLabelView::Error(seq![])),
            notes: seq![k.spec_message()],
        },
        CompilerErrorView::OperandParseError(span, OperandParseErrorView::InvalidLabel(l)) => ReportView {
            label: Some(RenderLabelView::Error("invalid label"@)),
            main: span,
            spans: one_span(span, RenderLabelView::Error(seq![])),
            notes: seq!["the label `"@ + l + "` contains invalid characters"@],
        },
        CompilerErrorView::InvalidLabel(l, span) => ReportView {
            label: Some(RenderLabelView::Error("invalid label"@)),
            main: span,
            spans: one_span(span, RenderLabelView::Error(seq![])),
            notes: seq!["opcodes, such as `"@ + l + "`, cannot be used as labels"@],
        },
        CompilerErrorView::DuplicateLabel(l, first, again) => ReportView {
            label: Some(RenderLabelView::Error("the label `"@ + l + "` has been defined multiple times"@)),
            main: again,
            spans: seq![
                (first, Some(RenderLabelView::Info("label first defined here"@))),
                (again, Some(RenderLabelView::Error("label redefined here"@))),
            ],
            notes: seq![],
        },
        CompilerErrorView::UndefinedLabel(l, span) => ReportView {
            label: Some(RenderLabelView::Error("use of undefined label `"@ + l + "`"@)),
            main: span,
            spans: one_span(span, RenderLabelView::Error("undefined label used here"@)),
            notes: seq![],
        },
        CompilerErrorView::InvalidCharacter(c, span) => ReportView {
            label: Some(RenderLabelView::Error("invalid character `"@ + c + "`"@)),
            main: span,
            spans: one_span(span, RenderLabelView::Error("this character cannot be used here"@)),
            notes: seq![],
        },
        CompilerErrorView::InvalidToken { token, span, expected } => ReportView {
            label: Some(RenderLabelView::Error("unexpected token `"@ + token + "`"@)),
            main: span,
            spans: one_span(span, RenderLabelView::Error("unexpected token"@)),
            notes: seq!["expected "@ + expected_list(expected)],
        },
        CompilerErrorView::ExpectedToken(span, expected) => ReportView {
            label: Some(RenderLabelView::Error("expected a token"@)),
            main: span,
            spans: one_span(span, RenderLabelView::Error("expected a token here"@)),
            notes: seq!["expected "@ + expected_list(expected)],
        },
        CompilerErrorView::UnreachableCondition(span) => ReportView {
            label: Some(RenderLabelView::Error("the assembler reached a state it should never reach"@)),
            main: span,
            spans: one_span(span, RenderLabelView::Error(seq![])),
            notes: seq![],
        },
    }
}

fn joined(before: &str, rest: &str) -> (r: String)
    ensures
        r@ == before@ + rest@,
{
    let mut r = string_of(before);
    push_str(&mut r, rest);
    r
}

fn quoted(before: &str, middle: &str, after: &str) -> (r: String)
    ensures
        r@ == before@ + middle@ + after@,
{
    let mut r = string_of(before);
    push_str(&mut r, middle);
    push_str(&mut r, after);
    r
}

fn single(span: Span, label: RenderLabel) -> (r: Vec<(Span, Option<RenderLabel>)>)
    ensures
        spans_view(r@) == one_span(span, label@),
{
    let v = vec![(span, Some(label))];
    assert(spans_view(v@) =~= one_span(span, label@));
    v
}

fn one_note(note: String) -> (r: Vec<String>)
    ensures
        notes_view(r@) == seq![note@],
{
    let v = vec![note];
    assert(notes_view(v@) =~= seq![note@]);
    v
}

fn no_notes() -> (r: Vec<String>)
    ensures
        notes_view(r@) == Seq::<Seq<char>>::empty(),
{
    let v: Vec<String> = Vec::new();
    assert(notes_view(v@) =~= Seq::<Seq<char>>::empty());
    v
}

/// An assembly error, to be reported against the source in `filepath`.
pub struct CompileErrorRenderer<'a> {
    pub error: CompilerError,
    pub source: &'a SourceBuffer,
    pub filepath: &'a str,
}

impl CompilerError {
    /// The error, to be reported against `source`, read from `filepath`.
    pub fn render<'a>(self, source: &'a SourceBuffer, filepath: &'a str) -> (r: CompileErrorRenderer<'a>)
        ensures
            r.error@ == self@,
            r.source == source,
            r.filepath == filepath,
    {
        CompileErrorRenderer { error: self, source, filepath }
    }
}

impl<'a> CompileErrorRenderer<'a> {
    fn make(
        &self,
        label: Option<RenderLabel>,
        main_span: Span,
        spans: Vec<(Span, Option<RenderLabel>)>,
        notes: Vec<String>,
    ) -> (r: SourceErrorRenderHelper<'a>)
        ensures
            r.report() == (ReportView {
                label: label_view(label),
                main: main_span,
                spans: spans_view(spans@),
                notes: notes_view(notes@),
            }),
            r.source == self.source,
            r.filepath == self.filepath,
    {
        SourceErrorRenderHelper { label, filepath: self.filepath, source: self.source, main_span, spans, notes }
    }

    fn helper(&self) -> (r: SourceErrorRenderHelper<'a>)
        ensures
            r.report() == error_report(self.error@),
            r.source == self.source,
            r.filepath == self.filepath,
    {
        match &self.error {
            CompilerError::UnexpectedTokens(span) => {
                self.make(
                    Some(RenderLabel::Error(string_of("unexpected tokens"))),
                    *span,
                    single(*span, RenderLabel::Error(string_of("unexpected tokens"))),
                    one_note(string_of("each instruction can only contain at most a label, an opcode, and an operand")),
                )
            },
            CompilerError::ExpectedOpCode(span) => {
                self.make(
                    Some(RenderLabel::Error(string_of("expected an opcode"))),
                    *span,
                    single(*span, RenderLabel::Error(string_of("expected an opcode here"))),
                    one_note(string_of("each instruction must contain an opcode")),
                )
            },
            CompilerError::OperandParseError(span, OperandParseError::InvalidIntegerLiteral(k)) => {
                self.make(
                    Some(RenderLabel::Error(string_of("invalid integer literal"))),
                    *span,
                    single(*span, RenderLabel::Error(String::new())),
                    one_note(k.message()),
                )
            },
            CompilerError::OperandParseError(span, OperandParseError::InvalidLabel(l)) => {
                self.make(
                    Some(RenderLabel::Error(string_of("invalid label"))),
                    *span,
                    single(*span, RenderLabel::Error(String::new())),
                    one_note(quoted("the label `", l.as_str(), "` contains invalid characters")),
                )
            },
            CompilerError::InvalidLabel(l, span) => {
                self.make(
                    Some(RenderLabel::Error(string_of("invalid label"))),
                    *span,
                    single(*span, RenderLabel::Error(String::new())),
                    one_note(quoted("opcodes, such as `", l.as_str(), "`, cannot be used as labels")),
                )
            },
            CompilerError::DuplicateLabel(l, first, again) => {
                let spans = vec![
                    (*first, Some(RenderLabel::Info(string_of("label first defined here")))),
                    (*again, Some(RenderLabel::Error(string_of("label redefined here")))),
                ];
                assert(spans_view(spans@) =~= seq![
                    (*first, Some(RenderLabelView::Info("label first defined here"@))),
                    (*again, Some(RenderLabelView::Error("label redefined here"@))),
                ]);
                self.make(
                    Some(RenderLabel::Error(quoted("the label `", l.as_str(), "` has been defined multiple times"))),
                    *again,
                    spans,
                    no_notes(),
                )
            },
            CompilerError::UndefinedLabel(l, span) => {
                self.make(
                    Some(RenderLabel::Error(quoted("use of undefined label `", l.as_str(), "`"))),
                    *span,
                    single(*span, RenderLabel::Error(string_of("undefined label used here"))),
                    no_notes(),
                )
            },
            CompilerError::InvalidCharacter(c, span) => {
                self.make(
                    Some(RenderLabel::Error(quoted("invalid character `", c.as_str(), "`"))),
                    *span,
                    single(*span, RenderLabel::Error(string_of("this character cannot be used here"))),
                    no_notes(),
                )
            },
            CompilerError::InvalidToken { token, span, expected } => {
                let list = expected_text(expected);
                self.make(
                    Some(RenderLabel::Error(quoted("unexpected token `", token.as_str(), "`"))),
                    *span,
                    single(*span, RenderLabel::Error(string_of("unexpected token"))),
                    one_note(joined("expected ", list.as_str())),
                )
            },
            CompilerError::ExpectedToken(span, expected) => {
                let list = expected_text(expected);
                self.make(
                    Some(RenderLabel::Error(string_of("expected a token"))),
                    *span,
                    single(*span, RenderLabel::Error(string_of("expected a token here"))),
                    one_note(joined("expected ", list.as_str())),
                )
            },
            CompilerError::UnreachableCondition(span) => {
                self.make(
                    Some(RenderLabel::Error(string_of("the assembler reached a state it should never reach"))),
                    *span,
                    single(*span, RenderLabel::Error(String::new())),
                    no_notes(),
                )
            },
        }
    }

    /// Whether the report cannot be drawn: a span's line is missing or
    /// cannot be cut out of the text.
    pub fn would_fail(&self) -> (r: bool)
        ensures
            r == !report_drawable(self.source, error_report(self.error@)),
    {
        let h = self.helper();
        h.would_fail()
    }

    /// The report on the error.
    pub fn styled(&self) -> (r: Vec<Styled>)
        requires
            report_drawable(self.source, error_report(self.error@)),
        ensures
            styled_views(r@) == report_lines(self.source, self.filepath@, error_report(self.error@)),
    {
        let h = self.helper();
        h.styled()
    }
}

// ---------------------------------------------------------------------------
// Reports on errors of the machine
// ---------------------------------------------------------------------------

/// The report on an error of the machine at the instruction whose source is
/// `span`.
pub open spec fn machine_report(message: Seq<char>, span: Span) -> ReportView {
    ReportView {
        label: Some(RenderLabelView::Error(message)),
        main: span,
        spans: one_span(span, RenderLabelView::Info("while executing this instruction"@)),
        notes: seq![],
    }
}

/// An error of the machine, to be reported against the source of the
/// instruction that raised it.
pub struct InterpreterErrorRenderer<'a> {
    pub error: InterpreterError,
    pub source_map: &'a SourceMap,
    pub source: &'a SourceBuffer,
    pub filepath: &'a str,
}

impl<'a> InterpreterErrorRenderer<'a> {
    /// Whether the report cannot be drawn: the instruction has no source, or
    /// its line cannot be drawn.
    pub fn would_fail(&self) -> (r: bool)
        ensures
            r == !(self.source_map@.contains_key(self.error.pc) && report_drawable(
                self.source,
                machine_report(self.error.source@.message(), self.source_map@[self.error.pc]),
            )),
    {
        broadcast use vstd::std_specs::hash::group_hash_axioms;

        let span = match self.source_map.get(&self.error.pc) {
            Some(s) => *s,
            None => {
                return true;
            },
        };
        let h = SourceErrorRenderHelper {
            label: Some(RenderLabel::Error(self.error.source.message())),
            filepath: self.filepath,
            source: self.source,
            main_span: span,
            spans: single(span, RenderLabel::Info(string_of("while executing this instruction"))),
            notes: no_notes(),
        };
        h.would_fail()
    }

    /// The report, followed by a line break.
    pub fn styled(&self) -> (r: Vec<Styled>)
        requires
            self.source_map@.contains_key(self.error.pc),
            report_drawable(
                self.source,
                machine_report(self.error.source@.message(), self.source_map@[self.error.pc]),
            ),
        ensures
            styled_views(r@) == report_lines(
                self.source,
                self.filepath@,
                machine_report(self.error.source@.message(), self.source_map@[self.error.pc]),
            ) + seq![plain("\n"@)],
    {
        broadcast use vstd::std_specs::hash::group_hash_axioms;

        let span = match self.source_map.get(&self.error.pc) {
            Some(s) => *s,
            None => Span::new(0, 0, 0),
        };
        let message = self.error.source.message();
        let h = SourceErrorRenderHelper {
            label: Some(RenderLabel::Error(message)),
            filepath: self.filepath,
            source: self.source,
            main_span: span,
            spans: single(span, RenderLabel::Info(string_of("while executing this instruction"))),
            notes: no_notes(),
        };
        let mut out = h.styled();
        push_styled(&mut out, string_of("\n"), None, false);
        out
    }
}

} // verus!
