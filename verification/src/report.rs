//! Reports on errors, drawn against the source they point into.
use vstd::prelude::*;

use crate::span::{
    append_styled, frame, label_view, plain, push_repeated, push_styled, span_drawable, span_lines, styled_views,
    sv, Colour, RenderLabel, RenderLabelView, SourceBuffer, Span, Styled, StyledView,
};
use crate::text::{decimal, push_str, string_of, usize_to_decimal};

verus! {

// ---------------------------------------------------------------------------
// Reports
// ---------------------------------------------------------------------------

/// What a report on an error shows: a heading, the span that the `-->` line
/// points at, the spans drawn with their labels, and notes.
pub struct ReportView {
    pub label: Option<RenderLabelView>,
    pub main: Span,
    pub spans: Seq<(Span, Option<RenderLabelView>)>,
    pub notes: Seq<Seq<char>>,
}

/// The width of the margin: the most digits of a span's line number.
pub open spec fn margin_width(spans: Seq<(Span, Option<RenderLabelView>)>) -> nat
    decreases spans.len(),
{
    if spans.len() == 0 {
        0
    } else {
        let w = margin_width(spans.drop_last());
        let d = decimal(spans.last().0.line as nat).len();
        if d > w { d } else { w }
    }
}

/// Where the span drawn last stands: the last of those on the highest line.
pub open spec fn last_max(spans: Seq<(Span, Option<RenderLabelView>)>) -> int
    decreases spans.len(),
{
    if spans.len() <= 1 {
        0
    } else {
        let b = last_max(spans.drop_last());
        if spans.last().0.line >= spans[b].0.line { spans.len() - 1 } else { b }
    }
}

pub proof fn lemma_last_max(spans: Seq<(Span, Option<RenderLabelView>)>)
    requires
        spans.len() > 0,
    ensures
        0 <= last_max(spans) < spans.len(),
    decreases spans.len(),
{
    if spans.len() > 1 {
        lemma_last_max(spans.drop_last());
    }
}

/// The drawing of span `a`, followed by the line after it where `b` lies two
/// lines further down, or by `...` where it lies further.
pub open spec fn window_lines(
    buf: &SourceBuffer,
    a: (Span, Option<RenderLabelView>),
    b: (Span, Option<RenderLabelView>),
    padding: Seq<char>,
) -> Seq<StyledView> {
    let d = b.0.line - a.0.line;
    span_lines(buf, a.0, a.1, padding) + seq![plain("\n"@)] + if d == 2 {
        span_lines(buf, Span { line: (a.0.line + 1) as usize, ..a.0 }, None, padding) + seq![plain("\n"@)]
    } else if d > 2 {
        seq![plain(" "@), frame("..."@), plain("\n"@)]
    } else {
        seq![]
    }
}

/// The drawings of the first `n` pairs of neighbouring spans.
pub open spec fn windows_lines(
    buf: &SourceBuffer,
    spans: Seq<(Span, Option<RenderLabelView>)>,
    padding: Seq<char>,
    n: nat,
) -> Seq<StyledView>
    decreases n,
{
    if n == 0 {
        seq![]
    } else {
        windows_lines(buf, spans, padding, (n - 1) as nat) + window_lines(
            buf,
            spans[n - 1],
            spans[n as int],
            padding,
        )
    }
}

pub open spec fn note_lines(notes: Seq<Seq<char>>, padding: Seq<char>) -> Seq<StyledView>
    decreases notes.len(),
{
    if notes.len() == 0 {
        seq![]
    } else {
        note_lines(notes.drop_last(), padding) + seq![
            plain(padding + " "@),
            frame("="@),
            plain(" "@),
            sv("note"@, None, true),
            plain(": "@ + notes.last() + "\n"@),
        ]
    }
}

/// The margin of a report: as many spaces as `margin_width`.
pub open spec fn report_padding(rep: ReportView) -> Seq<char> {
    Seq::new(margin_width(rep.spans), |i: int| ' ')
}

/// The heading of a report and the line that points at the main span.
pub open spec fn report_head(filepath: Seq<char>, rep: ReportView, padding: Seq<char>) -> Seq<StyledView> {
    (match rep.label {
        Some(l) => l.heading() + seq![plain("\n"@)],
        None => seq![],
    }) + seq![
        plain(padding),
        frame("-->"@),
        plain(" "@ + filepath + ":"@ + decimal(rep.main.line as nat) + ":"@ + decimal(rep.main.start as nat) + "\n"@),
        plain(padding + " "@),
        frame("|"@),
        plain("\n"@),
    ]
}

/// The drawings of the spans of a report.
pub open spec fn report_spans(buf: &SourceBuffer, rep: ReportView, padding: Seq<char>) -> Seq<StyledView> {
    let n = rep.spans.len();
    if n > 0 {
        windows_lines(buf, rep.spans, padding, (n - 1) as nat) + span_lines(
            buf,
            rep.spans[last_max(rep.spans)].0,
            rep.spans[last_max(rep.spans)].1,
            padding,
        ) + seq![plain("\n"@)]
    } else {
        seq![]
    }
}

/// The notes of a report.
pub open spec fn report_notes(rep: ReportView, padding: Seq<char>) -> Seq<StyledView> {
    (if rep.notes.len() > 0 {
        seq![plain(padding + " "@), frame("|"@), plain("\n"@)]
    } else {
        seq![]
    }) + note_lines(rep.notes, padding)
}

/// The whole report on an error in the file `filepath`.
pub open spec fn report_lines(buf: &SourceBuffer, filepath: Seq<char>, rep: ReportView) -> Seq<StyledView> {
    let padding = report_padding(rep);
    report_head(filepath, rep, padding) + report_spans(buf, rep, padding) + report_notes(rep, padding)
}

/// Every span of the report can be drawn, and the spans come in order of
/// their lines.
pub open spec fn report_drawable(buf: &SourceBuffer, rep: ReportView) -> bool {
    &&& forall|k: int| 0 <= k < rep.spans.len() ==> span_drawable(buf, (#[trigger] rep.spans[k]).0, rep.spans[k].1 is Some)
    &&& forall|j: int|
        0 <= j < rep.spans.len() - 1 ==> {
            let a = (#[trigger] rep.spans[j]).0;
            let b = rep.spans[j + 1].0;
            &&& a.line <= b.line
            &&& b.line - a.line == 2 ==> span_drawable(buf, Span { line: (a.line + 1) as usize, ..a }, false)
        }
}

/// A report on an error: the material of [`report_lines`].
pub struct SourceErrorRenderHelper<'a> {
    pub label: Option<RenderLabel>,
    pub filepath: &'a str,
    pub source: &'a SourceBuffer,
    pub main_span: Span,
    pub spans: Vec<(Span, Option<RenderLabel>)>,
    pub notes: Vec<String>,
}

pub open spec fn spans_view(spans: Seq<(Span, Option<RenderLabel>)>) -> Seq<(Span, Option<RenderLabelView>)> {
    spans.map_values(|p: (Span, Option<RenderLabel>)| (p.0, label_view(p.1)))
}

pub open spec fn notes_view(notes: Seq<String>) -> Seq<Seq<char>> {
    notes.map_values(|n: String| n@)
}

fn clone_label(l: &Option<RenderLabel>) -> (r: Option<RenderLabel>)
    ensures
        label_view(r) == label_view(*l),
{
    match l {
        Some(x) => Some(x.clone()),
        None => None,
    }
}

fn margin_digits(spans: &Vec<(Span, Option<RenderLabel>)>) -> (r: usize)
    ensures
        r == margin_width(spans_view(spans@)),
{
    let ghost v = spans_view(spans@);
    let mut w: usize = 0;
    let mut k: usize = 0;
    while k < spans.len()
        invariant
            v == spans_view(spans@),
            k <= spans@.len(),
            w == margin_width(v.take(k as int)),
        decreases spans@.len() - k,
    {
        assert(v.take(k as int + 1).drop_last() =~= v.take(k as int));
        let t = usize_to_decimal(spans[k].0.line);
        let d = t.as_str().unicode_len();
        if d > w {
            w = d;
        }
        k = k + 1;
    }
    assert(v.take(spans@.len() as int) =~= v);
    w
}

fn last_max_index(spans: &Vec<(Span, Option<RenderLabel>)>) -> (r: usize)
    requires
        spans@.len() > 0,
    ensures
        r == last_max(spans_view(spans@)),
{
    let ghost v = spans_view(spans@);
    let mut b: usize = 0;
    let mut k: usize = 1;
    assert(v.take(1).len() == 1);
    while k < spans.len()
        invariant
            v == spans_view(spans@),
            1 <= k <= spans@.len(),
            b == last_max(v.take(k as int)),
            b < k,
        decreases spans@.len() - k,
    {
        assert(v.take(k as int + 1).drop_last() =~= v.take(k as int));
        assert(v.take(k as int + 1)[b as int] == v[b as int]);
        if spans[k].0.line >= spans[b].0.line {
            b = k;
        }
        k = k + 1;
    }
    assert(v.take(spans@.len() as int) =~= v);
    b
}

impl<'a> SourceErrorRenderHelper<'a> {
    pub open spec fn report(&self) -> ReportView {
        ReportView {
            label: label_view(self.label),
            main: self.main_span,
            spans: spans_view(self.spans@),
            notes: notes_view(self.notes@),
        }
    }

    /// Whether the report cannot be drawn (see `report_drawable`).
    pub fn would_fail(&self) -> (r: bool)
        ensures
            r == !report_drawable(self.source, self.report()),
    {
        let ghost rep = self.report();
        let n = self.spans.len();
        let mut k: usize = 0;
        while k < n
            invariant
                n == self.spans@.len(),
                rep == self.report(),
                k <= n,
                forall|i: int| 0 <= i < k ==> span_drawable(self.source, (#[trigger] rep.spans[i]).0, rep.spans[i].1 is Some),
                forall|j: int|
                    0 <= j < k && j < n - 1 ==> {
                        let a = (#[trigger] rep.spans[j]).0;
                        let b = rep.spans[j + 1].0;
                        &&& a.line <= b.line
                        &&& b.line - a.line == 2 ==> span_drawable(self.source, Span { line: (a.line + 1) as usize, ..a }, false)
                    },
            decreases n - k,
        {
            let a = &self.spans[k];
            assert(rep.spans[k as int] == (a.0, label_view(a.1)));
            if !self.source.can_draw(a.0, a.1.is_some()) {
                return true;
            }
            if k + 1 < n {
                let b = &self.spans[k + 1];
                assert(rep.spans[k + 1] == (b.0, label_view(b.1)));
                if a.0.line > b.0.line {
                    return true;
                }
                if b.0.line - a.0.line == 2 {
                    let next = Span::new(a.0.start, a.0.end, a.0.line + 1);
                    if !self.source.can_draw(next, false) {
                        return true;
                    }
                }
            }
            k = k + 1;
        }
        false
    }

    fn head(&self, padding: &String) -> (r: Vec<Styled>)
        ensures
            styled_views(r@) == report_head(self.filepath@, self.report(), padding@),
    {
        let ghost rep = self.report();
        let mut out: Vec<Styled> = Vec::new();
        match &self.label {
            Some(l) => {
                let h = l.styled();
                append_styled(&mut out, h);
                push_styled(&mut out, string_of("\n"), None, false);
            },
            None => {},
        }
        push_styled(&mut out, padding.clone(), None, false);
        push_styled(&mut out, string_of("-->"), Some(Colour::BrightBlue), true);
        let mut place = string_of(" ");
        push_str(&mut place, self.filepath);
        push_str(&mut place, ":");
        let t = usize_to_decimal(self.main_span.line);
        push_str(&mut place, t.as_str());
        push_str(&mut place, ":");
        let t = usize_to_decimal(self.main_span.start);
        push_str(&mut place, t.as_str());
        push_str(&mut place, "\n");
        push_styled(&mut out, place, None, false);
        let mut bar = padding.clone();
        push_str(&mut bar, " ");
        push_styled(&mut out, bar, None, false);
        push_styled(&mut out, string_of("|"), Some(Colour::BrightBlue), true);
        push_styled(&mut out, string_of("\n"), None, false);
        assert(styled_views(out@) =~= report_head(self.filepath@, rep, padding@));
        out
    }

    fn window(&self, j: usize, padding: &String) -> (r: Vec<Styled>)
        requires
            j + 1 < self.spans@.len(),
            j + 1 <= usize::MAX,
            report_drawable(self.source, self.report()),
        ensures
            styled_views(r@) == window_lines(
                self.source,
                self.report().spans[j as int],
                self.report().spans[j + 1],
                padding@,
            ),
    {
        let ghost rep = self.report();
        let a = &self.spans[j];
        let b = &self.spans[j + 1];
        assert(rep.spans[j as int] == (a.0, label_view(a.1)));
        assert(rep.spans[j + 1] == (b.0, label_view(b.1)));
        assert(span_drawable(self.source, rep.spans[j as int].0, rep.spans[j as int].1 is Some));
        let mut out: Vec<Styled> = Vec::new();
        let r = a.0.render(self.source, clone_label(&a.1), padding.as_str());
        let lines = r.styled();
        append_styled(&mut out, lines);
        push_styled(&mut out, string_of("\n"), None, false);
        let d = b.0.line - a.0.line;
        if d == 2 {
            let next = Span::new(a.0.start, a.0.end, a.0.line + 1);
            let r = next.render(self.source, None, padding.as_str());
            let lines = r.styled();
            append_styled(&mut out, lines);
            push_styled(&mut out, string_of("\n"), None, false);
        } else if d > 2 {
            push_styled(&mut out, string_of(" "), None, false);
            push_styled(&mut out, string_of("..."), Some(Colour::BrightBlue), true);
            push_styled(&mut out, string_of("\n"), None, false);
        }
        assert(styled_views(out@) =~= window_lines(self.source, rep.spans[j as int], rep.spans[j + 1], padding@));
        out
    }

    fn span_section(&self, padding: &String) -> (r: Vec<Styled>)
        requires
            report_drawable(self.source, self.report()),
        ensures
            styled_views(r@) == report_spans(self.source, self.report(), padding@),
    {
        let ghost rep = self.report();
        let mut out: Vec<Styled> = Vec::new();
        let n = self.spans.len();
        if n == 0 {
            assert(styled_views(out@) =~= Seq::<StyledView>::empty());
            return out;
        }
        let mut j: usize = 0;
        assert(styled_views(out@) =~= windows_lines(self.source, rep.spans, padding@, 0));
        while j + 1 < n
            invariant
                n == self.spans@.len(),
                n > 0,
                j + 1 <= n,
                rep == self.report(),
                report_drawable(self.source, rep),
                styled_views(out@) == windows_lines(self.source, rep.spans, padding@, j as nat),
            decreases n - j,
        {
            let w = self.window(j, padding);
            append_styled(&mut out, w);
            j = j + 1;
        }
        let m = last_max_index(&self.spans);
        proof {
            lemma_last_max(rep.spans);
        }
        let last = &self.spans[m];
        assert(rep.spans[m as int] == (last.0, label_view(last.1)));
        let r = last.0.render(self.source, clone_label(&last.1), padding.as_str());
        let lines = r.styled();
        append_styled(&mut out, lines);
        push_styled(&mut out, string_of("\n"), None, false);
        assert(styled_views(out@) =~= report_spans(self.source, rep, padding@));
        out
    }

    fn note_section(&self, padding: &String) -> (r: Vec<Styled>)
        ensures
            styled_views(r@) == report_notes(self.report(), padding@),
    {
        let ghost nv = notes_view(self.notes@);
        let mut out: Vec<Styled> = Vec::new();
        if self.notes.len() > 0 {
            let mut bar = padding.clone();
            push_str(&mut bar, " ");
            push_styled(&mut out, bar, None, false);
            push_styled(&mut out, string_of("|"), Some(Colour::BrightBlue), true);
            push_styled(&mut out, string_of("\n"), None, false);
        }
        let ghost start = styled_views(out@);
        let mut k: usize = 0;
        assert(note_lines(nv.take(0), padding@) =~= Seq::<StyledView>::empty());
        assert(start =~= start + note_lines(nv.take(0), padding@));
        while k < self.notes.len()
            invariant
                nv == notes_view(self.notes@),
                k <= self.notes@.len(),
                styled_views(out@) == start + note_lines(nv.take(k as int), padding@),
            decreases self.notes@.len() - k,
        {
            assert(nv.take(k as int + 1).drop_last() =~= nv.take(k as int));
            assert(nv.take(k as int + 1).last() == self.notes@[k as int]@);
            let mut bar = padding.clone();
            push_str(&mut bar, " ");
            push_styled(&mut out, bar, None, false);
            push_styled(&mut out, string_of("="), Some(Colour::BrightBlue), true);
            push_styled(&mut out, string_of(" "), None, false);
            push_styled(&mut out, string_of("note"), None, true);
            let mut text = string_of(": ");
            push_str(&mut text, self.notes[k].as_str());
            push_str(&mut text, "\n");
            push_styled(&mut out, text, None, false);
            assert(styled_views(out@) =~= start + note_lines(nv.take(k as int + 1), padding@));
            k = k + 1;
        }
        assert(nv.take(self.notes@.len() as int) =~= nv);
        assert(styled_views(out@) =~= report_notes(self.report(), padding@));
        out
    }

    /// The report.
    pub fn styled(&self) -> (r: Vec<Styled>)
        requires
            report_drawable(self.source, self.report()),
        ensures
            styled_views(r@) == report_lines(self.source, self.filepath@, self.report()),
    {
        let width = margin_digits(&self.spans);
        let mut padding = String::new();
        push_repeated(&mut padding, ' ', width);
        assert(padding@ =~= report_padding(self.report()));
        let mut out = self.head(&padding);
        let spans = self.span_section(&padding);
        append_styled(&mut out, spans);
        let notes = self.note_section(&padding);
        append_styled(&mut out, notes);
        out
    }
}

} // verus!
