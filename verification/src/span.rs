//! Positions in the source text and the rendering of source excerpts.
use vstd::prelude::*;

use crate::text::{
    byte_len, char_utf8_len, chars_of, decimal, lemma_byte_len_mono, lemma_byte_len_take, push_char, push_str,
    str_byte_len, string_from_chars, string_of, sub_chars, usize_to_decimal, utf8_width,
};

verus! {

// ---------------------------------------------------------------------------
// Source text and its lines
// ---------------------------------------------------------------------------

/// For each `\n` of `s`, the position just after it.
pub open spec fn newline_ends(s: Seq<char>) -> Seq<usize>
    decreases s.len(),
{
    if s.len() == 0 {
        seq![]
    } else if s.last() == '\n' {
        newline_ends(s.drop_last()).push(s.len() as usize)
    } else {
        newline_ends(s.drop_last())
    }
}

/// Where each line of `s` starts, counted in characters.
pub open spec fn line_starts(s: Seq<char>) -> Seq<usize> {
    seq![0usize] + newline_ends(s)
}

pub proof fn lemma_newline_ends(s: Seq<char>)
    requires
        s.len() <= usize::MAX,
    ensures
        forall|j: int| 0 <= j < newline_ends(s).len() ==> 1 <= #[trigger] newline_ends(s)[j] <= s.len(),
        newline_ends(s).len() <= s.len(),
    decreases s.len(),
{
    if s.len() > 0 {
        lemma_newline_ends(s.drop_last());
    }
}

/// A character takes at least one byte.
pub proof fn lemma_byte_len_ge_len(s: Seq<char>)
    ensures
        byte_len(s) >= s.len(),
    decreases s.len(),
{
    if s.len() > 0 {
        lemma_byte_len_ge_len(s.drop_first());
    }
}

/// Longer prefixes take more bytes.
pub proof fn lemma_byte_len_strict(s: Seq<char>, a: int, b: int)
    requires
        0 <= a < b <= s.len(),
    ensures
        byte_len(s.take(a)) < byte_len(s.take(b)),
{
    lemma_byte_len_mono(s, a, b);
    lemma_byte_len_ge_len(s.subrange(a, b));
}

/// The number of characters of `s` that the first `b` bytes of its UTF-8
/// encoding hold, if `b` falls on a character boundary.
pub open spec fn char_at_byte(s: Seq<char>, b: int) -> Option<int> {
    if exists|k: int| 0 <= k <= s.len() && byte_len(s.take(k)) == b {
        Some(choose|k: int| 0 <= k <= s.len() && byte_len(s.take(k)) == b)
    } else {
        None
    }
}

pub proof fn lemma_char_at_byte(s: Seq<char>, b: int, k: int)
    requires
        0 <= k <= s.len(),
        byte_len(s.take(k)) == b,
    ensures
        char_at_byte(s, b) == Some(k),
{
    let c = choose|j: int| 0 <= j <= s.len() && byte_len(s.take(j)) == b;
    if c < k {
        lemma_byte_len_strict(s, c, k);
    } else if k < c {
        lemma_byte_len_strict(s, k, c);
    }
}

/// Finds the character index of byte offset `b` of `cs`.
fn char_index_of_byte(cs: &[char], b: usize) -> (r: Option<usize>)
    requires
        byte_len(cs@) <= usize::MAX,
    ensures
        match char_at_byte(cs@, b as int) {
            Some(k) => r is Some && r->Some_0 == k,
            None => r is None,
        },
{
    let ghost s = cs@;
    let mut k: usize = 0;
    let mut pos: usize = 0;
    assert(s.take(0) =~= Seq::<char>::empty());
    while k < cs.len() && pos < b
        invariant
            s == cs@,
            byte_len(s) <= usize::MAX,
            k <= s.len(),
            pos == byte_len(s.take(k as int)),
            forall|j: int| 0 <= j < k ==> byte_len(#[trigger] s.take(j)) < b,
        decreases s.len() - k,
    {
        proof {
            lemma_byte_len_take(s, k as int);
            lemma_byte_len_mono(s, k as int + 1, s.len() as int);
            assert(s.take(s.len() as int) =~= s);
        }
        pos = pos + char_utf8_len(cs[k]);
        k = k + 1;
    }
    if pos == b {
        proof {
            lemma_char_at_byte(s, b as int, k as int);
        }
        Some(k)
    } else {
        proof {
            if exists|j: int| 0 <= j <= s.len() && byte_len(s.take(j)) == b {
                let j = choose|j: int| 0 <= j <= s.len() && byte_len(s.take(j)) == b;
                if j > k {
                    lemma_byte_len_strict(s, k as int, j);
                    assert(k == s.len());
                }
                if j < k {
                    assert(byte_len(s.take(j)) < b);
                }
            }
        }
        None
    }
}

/// The text `s` between the byte offsets `a` and `b` (a line's start and
/// end), where both fall on character boundaries.
pub open spec fn byte_slice(s: Seq<char>, a: int, b: int) -> Seq<char> {
    s.subrange(char_at_byte(s, a)->Some_0, char_at_byte(s, b)->Some_0)
}

/// The byte range `a..b` of `s` cannot be taken: it is reversed or cuts a
/// character.
pub open spec fn byte_slice_fails(s: Seq<char>, a: int, b: int) -> bool {
    ||| a > b
    ||| char_at_byte(s, a) is None
    ||| char_at_byte(s, b) is None
}

pub proof fn lemma_byte_slice_order(s: Seq<char>, a: int, b: int)
    requires
        !byte_slice_fails(s, a, b),
    ensures
        0 <= char_at_byte(s, a)->Some_0 <= char_at_byte(s, b)->Some_0 <= s.len(),
{
    let ka = char_at_byte(s, a)->Some_0;
    let kb = char_at_byte(s, b)->Some_0;
    if kb < ka {
        lemma_byte_len_strict(s, kb, ka);
    }
}

/// A program's text, with the positions where its lines start.  The
/// positions count characters, while a line is cut out of the text by
/// bytes: the two agree on ASCII text.
pub struct SourceBuffer {
    source: String,
    lines: Vec<usize>,
}

impl SourceBuffer {
    #[verifier::type_invariant]
    spec fn inv(self) -> bool {
        &&& self.lines@ == line_starts(self.source@)
        &&& byte_len(self.source@) <= usize::MAX
    }

    /// The text.
    pub closed spec fn text(&self) -> Seq<char> {
        self.source@
    }

    /// Where each line starts.
    pub closed spec fn starts(&self) -> Seq<usize> {
        self.lines@
    }

    pub fn new(source: &str) -> (r: Self)
        ensures
            r.text() == source@,
            r.starts() == line_starts(source@),
    {
        let cs = chars_of(source);
        let ghost s = cs@;
        let _ = str_byte_len(source);
        proof {
            lemma_byte_len_ge_len(s);
        }
        let mut lines: Vec<usize> = Vec::new();
        lines.push(0);
        let mut i: usize = 0;
        assert(lines@ =~= line_starts(s.take(0)));
        while i < cs.len()
            invariant
                s == cs@,
                s.len() <= usize::MAX,
                i <= s.len(),
                lines@ == line_starts(s.take(i as int)),
            decreases s.len() - i,
        {
            assert(s.take(i as int + 1).drop_last() =~= s.take(i as int));
            if cs[i] == '\n' {
                lines.push(i + 1);
            }
            i = i + 1;
            assert(lines@ =~= line_starts(s.take(i as int)));
        }
        assert(s.take(s.len() as int) =~= s);
        SourceBuffer { source: source.to_owned(), lines }
    }

    pub fn source(&self) -> (r: &str)
        ensures
            r@ == self.text(),
    {
        self.source.as_str()
    }

    /// The line is one that the buffer holds, and cutting it out of the text
    /// fails.
    pub open spec fn line_fails(&self, line: usize) -> bool {
        line < self.starts().len() && byte_slice_fails(
            self.text(),
            self.starts()[line as int] as int,
            self.line_end(line),
        )
    }

    /// Where line `line` ends: one before the next line's start, or the end
    /// of the text in bytes.
    pub open spec fn line_end(&self, line: usize) -> int {
        if line + 1 < self.starts().len() {
            self.starts()[line + 1] - 1
        } else {
            byte_len(self.text()) as int
        }
    }

    /// What `get_line` gives.
    pub open spec fn spec_line(&self, line: usize) -> Option<Seq<char>> {
        if line < self.starts().len() {
            Some(byte_slice(self.text(), self.starts()[line as int] as int, self.line_end(line)))
        } else {
            None
        }
    }

    fn slice(&self, a: usize, b: usize) -> (r: String)
        requires
            !byte_slice_fails(self.text(), a as int, b as int),
        ensures
            r@ == byte_slice(self.text(), a as int, b as int),
    {
        proof {
            use_type_invariant(self);
            lemma_byte_slice_order(self.text(), a as int, b as int);
        }
        let cs = chars_of(self.source.as_str());
        let ghost t = self.text();
        assert(cs@ == t);
        let ka = char_index_of_byte(cs.as_slice(), a);
        let kb = char_index_of_byte(cs.as_slice(), b);
        match (ka, kb) {
            (Some(x), Some(y)) => {
                assert(x == char_at_byte(t, a as int)->Some_0);
                assert(y == char_at_byte(t, b as int)->Some_0);
                let part = sub_chars(cs.as_slice(), x, y);
                string_from_chars(part.as_slice())
            },
            _ => String::new(),
        }
    }

    /// The text of line `line`, without its line break.
    pub fn get_line(&self, line: usize) -> (r: Option<String>)
        requires
            !self.line_fails(line),
        ensures
            match self.spec_line(line) {
                Some(t) => r matches Some(x) && x@ == t,
                None => r is None,
            },
    {
        proof {
            use_type_invariant(self);
            lemma_byte_len_ge_len(self.source@);
            lemma_newline_ends(self.source@);
        }
        if line >= self.lines.len() {
            return None;
        }
        let pos = self.lines[line];
        let end = if line + 1 < self.lines.len() {
            assert(self.lines@[line + 1] == newline_ends(self.source@)[line as int]);
            self.lines[line + 1] - 1
        } else {
            str_byte_len(self.source.as_str())
        };
        Some(self.slice(pos, end))
    }

    /// Whether cutting line `line` out of the text fails; `get_line` does
    /// not accept such a line.
    pub fn line_would_fail(&self, line: usize) -> (r: bool)
        ensures
            r == self.line_fails(line),
    {
        proof {
            use_type_invariant(self);
            lemma_byte_len_ge_len(self.source@);
            lemma_newline_ends(self.source@);
        }
        if line >= self.lines.len() {
            return false;
        }
        let pos = self.lines[line];
        let end = if line + 1 < self.lines.len() {
            assert(self.lines@[line + 1] == newline_ends(self.source@)[line as int]);
            self.lines[line + 1] - 1
        } else {
            str_byte_len(self.source.as_str())
        };
        if pos > end {
            return true;
        }
        let cs = chars_of(self.source.as_str());
        char_index_of_byte(cs.as_slice(), pos).is_none() || char_index_of_byte(cs.as_slice(), end).is_none()
    }

    /// Whether the line of `span` can be drawn (see `span_drawable`).
    pub fn can_draw(&self, span: Span, underlined: bool) -> (r: bool)
        ensures
            r == span_drawable(self, span, underlined),
    {
        span.line < self.lines.len() && !self.line_would_fail(span.line) && span.line < usize::MAX && (!underlined
            || span.start <= span.end)
    }

    /// The byte range that `get_lines` cuts out for the span's line: from
    /// just after the line's start to the next line's start.
    pub open spec fn lines_range(&self, span: Span) -> (int, int) {
        (
            self.starts()[span.line as int] + 1,
            if span.line + 1 < self.starts().len() {
                self.starts()[span.line + 1] as int
            } else {
                byte_len(self.text()) as int
            },
        )
    }

    pub open spec fn lines_fail(&self, span: Span) -> bool {
        span.line < self.starts().len() && byte_slice_fails(
            self.text(),
            self.lines_range(span).0,
            self.lines_range(span).1,
        )
    }

    /// The text from one past the start of the span's line to the start of
    /// the next line.
    pub fn get_lines(&self, span: Span) -> (r: Option<String>)
        requires
            !self.lines_fail(span),
        ensures
            span.line < self.starts().len() ==> (r matches Some(x) && x@ == byte_slice(
                self.text(),
                self.lines_range(span).0,
                self.lines_range(span).1,
            )),
            span.line >= self.starts().len() ==> r is None,
    {
        proof {
            use_type_invariant(self);
            lemma_byte_len_ge_len(self.source@);
            lemma_newline_ends(self.source@);
        }
        if span.line >= self.lines.len() {
            return None;
        }
        let pos = self.lines[span.line];
        let end = if span.line + 1 < self.lines.len() {
            self.lines[span.line + 1]
        } else {
            str_byte_len(self.source.as_str())
        };
        proof {
            lemma_byte_len_ge_len(self.source@);
        }
        Some(self.slice(pos + 1, end))
    }
}

/// A run of columns `start..end` on the line `line` (all counted from 0).
#[derive(Copy, Clone, Debug, Hash, PartialEq, Eq, Structural)]
pub struct Span {
    pub start: usize,
    pub end: usize,
    pub line: usize,
}

impl Span {
    pub fn new(start: usize, end: usize, line: usize) -> (r: Self)
        ensures
            r == (Span { start, end, line }),
    {
        Self { start, end, line }
    }

    /// The smallest span covering both spans.  The two must lie on the same
    /// line.
    pub fn union(&self, other: Self) -> (r: Self)
        requires
            self.line == other.line,
        ensures
            r == self.spec_union(other),
    {
        Self {
            start: if self.start <= other.start { self.start } else { other.start },
            end: if self.end >= other.end { self.end } else { other.end },
            line: self.line,
        }
    }

    pub open spec fn spec_union(self, other: Self) -> Self {
        Span {
            start: if self.start <= other.start { self.start } else { other.start },
            end: if self.end >= other.end { self.end } else { other.end },
            line: self.line,
        }
    }

    /// Number of columns covered.
    pub fn len(&self) -> (r: usize)
        requires
            self.start <= self.end,
        ensures
            r == self.end - self.start,
    {
        self.end - self.start
    }
}

// ---------------------------------------------------------------------------
// Styled text
// ---------------------------------------------------------------------------

/// The colours that messages are drawn in.
#[derive(Copy, Clone, Debug, PartialEq, Eq, Structural)]
pub enum Colour {
    BrightRed,
    BrightBlue,
}

/// A piece of text, with its colour (if any) and whether it is bold.
#[derive(Debug)]
pub struct Styled {
    pub text: String,
    pub colour: Option<Colour>,
    pub bold: bool,
}

pub struct StyledView {
    pub text: Seq<char>,
    pub colour: Option<Colour>,
    pub bold: bool,
}

impl View for Styled {
    type V = StyledView;

    open spec fn view(&self) -> StyledView {
        StyledView { text: self.text@, colour: self.colour, bold: self.bold }
    }
}

pub open spec fn sv(text: Seq<char>, colour: Option<Colour>, bold: bool) -> StyledView {
    StyledView { text, colour, bold }
}

/// Plain text.
pub open spec fn plain(text: Seq<char>) -> StyledView {
    sv(text, None, false)
}

/// Bright blue bold text, as the frame of a message is drawn.
pub open spec fn frame(text: Seq<char>) -> StyledView {
    sv(text, Some(Colour::BrightBlue), true)
}

pub open spec fn styled_views(v: Seq<Styled>) -> Seq<StyledView> {
    v.map_values(|x: Styled| x@)
}

pub fn push_styled(out: &mut Vec<Styled>, text: String, colour: Option<Colour>, bold: bool)
    ensures
        styled_views(final(out)@) == styled_views(old(out)@).push(sv(text@, colour, bold)),
{
    let ghost t = text@;
    out.push(Styled { text, colour, bold });
    assert(styled_views(out@) =~= styled_views(old(out)@).push(sv(t, colour, bold)));
}

pub fn append_styled(out: &mut Vec<Styled>, more: Vec<Styled>)
    ensures
        styled_views(final(out)@) == styled_views(old(out)@) + styled_views(more@),
{
    let ghost m = more@;
    let mut more = more;
    out.append(&mut more);
    assert(styled_views(out@) =~= styled_views(old(out)@) + styled_views(m));
}

/// `n` spaces.
pub open spec fn spaces(n: nat) -> Seq<char> {
    Seq::new(n, |i: int| ' ')
}

/// `n` copies of `c`.
pub open spec fn repeat_char(c: char, n: nat) -> Seq<char> {
    Seq::new(n, |i: int| c)
}

pub fn push_repeated(s: &mut String, c: char, n: usize)
    ensures
        final(s)@ == old(s)@ + repeat_char(c, n as nat),
{
    let mut j: usize = 0;
    while j < n
        invariant
            j <= n,
            s@ == old(s)@ + repeat_char(c, j as nat),
        decreases n - j,
    {
        push_char(s, c);
        j = j + 1;
        assert(s@ =~= old(s)@ + repeat_char(c, j as nat));
    }
}

/// `t` padded on the right with spaces to `width` characters.
pub open spec fn pad_right(t: Seq<char>, width: nat) -> Seq<char> {
    if t.len() < width {
        t + spaces((width - t.len()) as nat)
    } else {
        t
    }
}

// ---------------------------------------------------------------------------
// Labels of spans
// ---------------------------------------------------------------------------

/// A message attached to a span: an error, or a piece of information.
#[derive(Debug)]
pub enum RenderLabel {
    Error(String),
    Info(String),
}

pub enum RenderLabelView {
    Error(Seq<char>),
    Info(Seq<char>),
}

impl View for RenderLabel {
    type V = RenderLabelView;

    open spec fn view(&self) -> RenderLabelView {
        match self {
            RenderLabel::Error(s) => RenderLabelView::Error(s@),
            RenderLabel::Info(s) => RenderLabelView::Info(s@),
        }
    }
}

impl RenderLabelView {
    pub open spec fn text(self) -> Seq<char> {
        match self {
            RenderLabelView::Error(s) => s,
            RenderLabelView::Info(s) => s,
        }
    }

    pub open spec fn underline(self) -> char {
        match self {
            RenderLabelView::Error(_) => '^',
            RenderLabelView::Info(_) => '-',
        }
    }

    pub open spec fn colour(self) -> Colour {
        match self {
            RenderLabelView::Error(_) => Colour::BrightRed,
            RenderLabelView::Info(_) => Colour::BrightBlue,
        }
    }

    /// How the label is drawn as a heading: `error: ...` or `info: ...`.
    pub open spec fn heading(self) -> Seq<StyledView> {
        match self {
            RenderLabelView::Error(s) => seq![
                sv("error"@, Some(Colour::BrightRed), true),
                sv(":"@, None, true),
                plain(" "@),
                sv(s, None, true),
            ],
            RenderLabelView::Info(s) => seq![
                sv("info"@, Some(Colour::BrightBlue), true),
                sv(":"@, None, true),
                plain(" "@),
                sv(s, None, true),
            ],
        }
    }
}

pub open spec fn label_view(l: Option<RenderLabel>) -> Option<RenderLabelView> {
    match l {
        Some(x) => Some(x@),
        None => None,
    }
}

impl RenderLabel {
    pub fn clone(&self) -> (r: Self)
        ensures
            r@ == self@,
    {
        match self {
            RenderLabel::Error(s) => RenderLabel::Error(s.clone()),
            RenderLabel::Info(s) => RenderLabel::Info(s.clone()),
        }
    }

    /// The label's text.
    pub fn label(&self) -> (r: &str)
        ensures
            r@ == self@.text(),
    {
        match self {
            RenderLabel::Error(s) => s.as_str(),
            RenderLabel::Info(s) => s.as_str(),
        }
    }

    /// The character that underlines the span.
    pub fn underline_char(&self) -> (r: char)
        ensures
            r == self@.underline(),
    {
        match self {
            RenderLabel::Error(_) => '^',
            RenderLabel::Info(_) => '-',
        }
    }

    /// The colour of the underline and the label.
    pub fn get_colour(&self) -> (r: Colour)
        ensures
            r == self@.colour(),
    {
        match self {
            RenderLabel::Error(_) => Colour::BrightRed,
            RenderLabel::Info(_) => Colour::BrightBlue,
        }
    }

    /// The label as a heading: `error: ...` or `info: ...`.
    pub fn styled(&self) -> (r: Vec<Styled>)
        ensures
            styled_views(r@) == self@.heading(),
    {
        let mut out: Vec<Styled> = Vec::new();
        match self {
            RenderLabel::Error(s) => {
                push_styled(&mut out, string_of("error"), Some(Colour::BrightRed), true);
                push_styled(&mut out, string_of(":"), None, true);
                push_styled(&mut out, string_of(" "), None, false);
                push_styled(&mut out, s.clone(), None, true);
            },
            RenderLabel::Info(s) => {
                push_styled(&mut out, string_of("info"), Some(Colour::BrightBlue), true);
                push_styled(&mut out, string_of(":"), None, true);
                push_styled(&mut out, string_of(" "), None, false);
                push_styled(&mut out, s.clone(), None, true);
            },
        }
        assert(styled_views(out@) =~= self@.heading());
        out
    }
}

// ---------------------------------------------------------------------------
// One line of source, underlined
// ---------------------------------------------------------------------------

/// A line of source can be drawn for the span: the line exists and can be
/// cut out, its number can be shown, and (if it is to be underlined) the
/// span does not end before it starts.
pub open spec fn span_drawable(buf: &SourceBuffer, span: Span, underlined: bool) -> bool {
    &&& span.line < buf.starts().len()
    &&& !buf.line_fails(span.line)
    &&& span.line + 1 <= usize::MAX
    &&& underlined ==> span.start <= span.end
}

/// The drawing of the span's line: its number in the margin, the line, and,
/// with a label, a line underlining the span followed by the label's text.
pub open spec fn span_lines(buf: &SourceBuffer, span: Span, label: Option<RenderLabelView>, padding: Seq<char>) -> Seq<
    StyledView,
> {
    let line = buf.spec_line(span.line)->Some_0;
    let head = seq![
        frame(pad_right(decimal((span.line + 1) as nat), byte_len(padding))),
        plain(" "@),
        frame("|"@),
        plain(" "@ + line),
    ];
    match label {
        None => head,
        Some(l) => {
            let underline = spaces(span.start as nat) + repeat_char(l.underline(), (span.end - span.start) as nat);
            head + seq![
                plain("\n"@ + padding + " "@),
                frame("|"@),
                plain(" "@),
                sv(underline, Some(l.colour()), true),
            ] + if l.text().len() > 0 {
                seq![plain(" "@), sv(l.text(), Some(l.colour()), true)]
            } else {
                seq![]
            }
        },
    }
}

/// A span of a source buffer, to be drawn with an optional label and a
/// margin as wide as `padding`.
pub struct SpanRenderer<'a> {
    pub source: &'a SourceBuffer,
    pub span: Span,
    pub label: Option<RenderLabel>,
    pub padding: &'a str,
}

impl<'a> SpanRenderer<'a> {
    /// The drawing.
    pub fn styled(&self) -> (r: Vec<Styled>)
        requires
            span_drawable(self.source, self.span, self.label is Some),
        ensures
            styled_views(r@) == span_lines(self.source, self.span, label_view(self.label), self.padding@),
    {
        let line = match self.source.get_line(self.span.line) {
            Some(l) => l,
            None => String::new(),
        };
        let number = usize_to_decimal(self.span.line + 1);
        let width = str_byte_len(self.padding);
        let ghost num = number@;
        let mut margin = number;
        if margin.as_str().unicode_len() < width {
            let k = width - margin.as_str().unicode_len();
            push_repeated(&mut margin, ' ', k);
            assert(margin@ =~= pad_right(num, width as nat));
        }
        let mut out: Vec<Styled> = Vec::new();
        push_styled(&mut out, margin, Some(Colour::BrightBlue), true);
        push_styled(&mut out, string_of(" "), None, false);
        push_styled(&mut out, string_of("|"), Some(Colour::BrightBlue), true);
        let mut text = string_of(" ");
        push_str(&mut text, line.as_str());
        push_styled(&mut out, text, None, false);
        match &self.label {
            None => {},
            Some(l) => {
                let mut gap = string_of("\n");
                push_str(&mut gap, self.padding);
                push_str(&mut gap, " ");
                push_styled(&mut out, gap, None, false);
                push_styled(&mut out, string_of("|"), Some(Colour::BrightBlue), true);
                push_styled(&mut out, string_of(" "), None, false);
                let mut underline = String::new();
                push_repeated(&mut underline, ' ', self.span.start);
                push_repeated(&mut underline, l.underline_char(), self.span.len());
                assert(underline@ =~= spaces(self.span.start as nat) + repeat_char(
                    l@.underline(),
                    (self.span.end - self.span.start) as nat,
                ));
                push_styled(&mut out, underline, Some(l.get_colour()), true);
                let text = l.label();
                if text.unicode_len() > 0 {
                    push_styled(&mut out, string_of(" "), None, false);
                    push_styled(&mut out, string_of(text), Some(l.get_colour()), true);
                }
            },
        }
        assert(styled_views(out@) =~= span_lines(self.source, self.span, label_view(self.label), self.padding@));
        out
    }
}

impl Span {
    /// The span of `buffer` drawn with `label` and a margin as wide as
    /// `padding`.
    pub fn render<'a>(&self, buffer: &'a SourceBuffer, label: Option<RenderLabel>, padding: &'a str) -> (r:
        SpanRenderer<'a>)
        ensures
            r.source == buffer,
            r.span == *self,
            label_view(r.label) == label_view(label),
            r.padding == padding,
    {
        SpanRenderer { source: buffer, span: *self, label, padding }
    }
}

/// The union of two spans of one line covers both, and does not depend on
/// their order.
pub proof fn law_union(a: Span, b: Span)
    requires
        a.line == b.line,
    ensures
        a.spec_union(b) == b.spec_union(a),
        a.spec_union(b).start <= a.start && a.spec_union(b).start <= b.start,
        a.spec_union(b).end >= a.end && a.spec_union(b).end >= b.end,
        a.spec_union(b).line == a.line,
        a.spec_union(a) == a,
{
}

/// Union is associative on spans of one line.
pub proof fn law_union_assoc(a: Span, b: Span, c: Span)
    requires
        a.line == b.line,
        b.line == c.line,
    ensures
        a.spec_union(b).spec_union(c) == a.spec_union(b.spec_union(c)),
{
}

} // verus!
