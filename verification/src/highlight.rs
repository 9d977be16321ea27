//! Styles, styled ranges and the cursor that looks styles up along a line.
use crate::bytes::push_all;
use crate::strings::{decimal_bytes, decimal_bytes_of};
use vstd::prelude::*;

verus! {

/// A terminal color supplied by an embedding application's syntax theme.
///
/// The editor does not know anything about programming languages or token
/// classes. It only uses these colors when an embedding application installs
/// a syntax highlighter.
#[derive(Clone, Copy, Debug, PartialEq, Eq, Structural)]
pub enum HighlightColor {
    /// An entry in the terminal's 256-color palette.
    Ansi(u8),
    /// A true-color RGB value.
    Rgb { red: u8, green: u8, blue: u8 },
}

/// Presentation attributes for one syntax-highlighted range.
#[derive(Clone, Copy, Debug, PartialEq, Eq)]
pub struct HighlightStyle {
    pub foreground: Option<HighlightColor>,
    pub background: Option<HighlightColor>,
    pub bold: bool,
    pub italic: bool,
    pub underline: bool,
}

/// A half-open byte range in the complete editor buffer and its terminal
/// presentation. Ranges should be sorted, non-overlapping, and within the
/// buffer passed to the highlighter. Invalid or overlapping ranges are safely
/// clipped when the editor renders them.
#[derive(Clone, Copy, Debug, PartialEq, Eq)]
pub struct HighlightSpan {
    pub start: usize,
    pub end: usize,
    pub style: HighlightStyle,
}

/// The style that leaves the terminal in its normal presentation.
pub open spec fn plain_style() -> HighlightStyle {
    HighlightStyle {
        foreground: None,
        background: None,
        bold: false,
        italic: false,
        underline: false,
    }
}

/// The SGR parameters of a color on a channel (38 for the foreground, 48 for
/// the background).
pub open spec fn color_sgr(color: HighlightColor, channel: u8) -> Seq<u8> {
    match color {
        HighlightColor::Ansi(value) => decimal_bytes(channel as nat) + seq![59u8, 53, 59]
            + decimal_bytes(value as nat),
        HighlightColor::Rgb { red, green, blue } => decimal_bytes(channel as nat) + seq![
            59u8,
            50,
            59,
        ] + decimal_bytes(red as nat) + seq![59u8] + decimal_bytes(green as nat) + seq![59u8]
            + decimal_bytes(blue as nat),
    }
}

/// One more SGR parameter behind the ones that are there already.
pub open spec fn sgr_param(before: Seq<u8>, present: bool, param: Seq<u8>) -> Seq<u8> {
    if !present {
        before
    } else if before.len() == 0 {
        param
    } else {
        before + seq![59u8] + param
    }
}

/// The parameters of the escape sequence that switches a style on, separated
/// by semicolons.
pub open spec fn sgr_params(style: HighlightStyle) -> Seq<u8> {
    let bold = sgr_param(Seq::empty(), style.bold, seq![49u8]);
    let italic = sgr_param(bold, style.italic, seq![51u8]);
    let underline = sgr_param(italic, style.underline, seq![52u8]);
    let foreground = sgr_param(
        underline,
        style.foreground is Some,
        color_sgr(style.foreground->0, 38),
    );
    sgr_param(foreground, style.background is Some, color_sgr(style.background->0, 48))
}

/// The escape sequence that switches a style on.
pub open spec fn sgr(style: HighlightStyle) -> Seq<u8> {
    seq![27u8, 91] + sgr_params(style) + seq![109u8]
}

fn same_color(a: Option<HighlightColor>, b: Option<HighlightColor>) -> (r: bool)
    ensures
        r == (a == b),
{
    match (a, b) {
        (Some(x), Some(y)) => x == y,
        (None, None) => true,
        _ => false,
    }
}

fn push_sgr(params: &mut Vec<u8>, present: bool, param: &[u8])
    ensures
        final(params)@ == sgr_param(old(params)@, present, param@),
{
    if present {
        if params.len() > 0 {
            params.push(59);
        }
        push_all(params, param);
        assert(Seq::<u8>::empty() + param@ =~= param@);
    }
}

impl HighlightColor {
    /// The parameters that select this color on a channel.
    pub fn sgr_of(self, channel: u8) -> (r: Vec<u8>)
        ensures
            r@ == color_sgr(self, channel),
    {
        let mut r = decimal_bytes_of(channel as u128);
        match self {
            HighlightColor::Ansi(value) => {
                push_all(&mut r, &[59, 53, 59]);
                push_all(&mut r, &decimal_bytes_of(value as u128));
            },
            HighlightColor::Rgb { red, green, blue } => {
                push_all(&mut r, &[59, 50, 59]);
                push_all(&mut r, &decimal_bytes_of(red as u128));
                r.push(59);
                push_all(&mut r, &decimal_bytes_of(green as u128));
                r.push(59);
                push_all(&mut r, &decimal_bytes_of(blue as u128));
            },
        }
        assert(r@ =~= color_sgr(self, channel));
        r
    }
}

impl HighlightStyle {
    /// A style that leaves the terminal in its normal presentation.
    pub fn plain() -> (r: Self)
        ensures
            r == plain_style(),
    {
        HighlightStyle {
            foreground: None,
            background: None,
            bold: false,
            italic: false,
            underline: false,
        }
    }

    /// Construct a style with only a foreground color.
    pub fn foreground(color: HighlightColor) -> (r: Self)
        ensures
            r == (HighlightStyle { foreground: Some(color), ..plain_style() }),
    {
        let mut style = Self::plain();
        style.foreground = Some(color);
        style
    }

    /// Construct a style with only a background color.
    pub fn background(color: HighlightColor) -> (r: Self)
        ensures
            r == (HighlightStyle { background: Some(color), ..plain_style() }),
    {
        let mut style = Self::plain();
        style.background = Some(color);
        style
    }

    /// This style with another foreground color.
    pub fn with_foreground(self, color: HighlightColor) -> (r: Self)
        ensures
            r == (HighlightStyle { foreground: Some(color), ..self }),
    {
        let mut style = self;
        style.foreground = Some(color);
        style
    }

    /// This style with another background color.
    pub fn with_background(self, color: HighlightColor) -> (r: Self)
        ensures
            r == (HighlightStyle { background: Some(color), ..self }),
    {
        let mut style = self;
        style.background = Some(color);
        style
    }

    /// This style, bold or not.
    pub fn with_bold(self, bold: bool) -> (r: Self)
        ensures
            r == (HighlightStyle { bold, ..self }),
    {
        let mut style = self;
        style.bold = bold;
        style
    }

    /// This style, italic or not.
    pub fn with_italic(self, italic: bool) -> (r: Self)
        ensures
            r == (HighlightStyle { italic, ..self }),
    {
        let mut style = self;
        style.italic = italic;
        style
    }

    /// This style, underlined or not.
    pub fn with_underline(self, underline: bool) -> (r: Self)
        ensures
            r == (HighlightStyle { underline, ..self }),
    {
        let mut style = self;
        style.underline = underline;
        style
    }

    /// Whether two styles have the same attributes.
    pub fn same_as(self, other: Self) -> (r: bool)
        ensures
            r == (self == other),
    {
        same_color(self.foreground, other.foreground) && same_color(
            self.background,
            other.background,
        ) && self.bold == other.bold && self.italic == other.italic && self.underline
            == other.underline
    }

    /// Whether this style changes nothing.
    pub fn is_plain(self) -> (r: bool)
        ensures
            r == (self == plain_style()),
    {
        self.same_as(Self::plain())
    }

    /// The parameters of the escape sequence that switches this style on.
    fn sgr_params_of(self) -> (r: Vec<u8>)
        ensures
            r@ == sgr_params(self),
    {
        let foreground = match self.foreground {
            Some(color) => color.sgr_of(38),
            None => Vec::new(),
        };
        let background = match self.background {
            Some(color) => color.sgr_of(48),
            None => Vec::new(),
        };
        let bold: [u8; 1] = [49];
        let italic: [u8; 1] = [51];
        let underline: [u8; 1] = [52];
        assert(bold@ =~= seq![49u8]);
        assert(italic@ =~= seq![51u8]);
        assert(underline@ =~= seq![52u8]);
        let mut params: Vec<u8> = Vec::new();
        push_sgr(&mut params, self.bold, &bold);
        push_sgr(&mut params, self.italic, &italic);
        push_sgr(&mut params, self.underline, &underline);
        push_sgr(&mut params, self.foreground.is_some(), &foreground);
        push_sgr(&mut params, self.background.is_some(), &background);
        params
    }

    /// Appends the escape sequence that switches this style on.
    pub fn write_sgr(self, out: &mut Vec<u8>)
        ensures
            final(out)@ == old(out)@ + sgr(self),
    {
        let params = self.sgr_params_of();
        out.push(27);
        out.push(91);
        push_all(out, &params);
        out.push(109);
        assert(out@ =~= old(out)@ + sgr(self));
    }
}

impl Default for HighlightStyle {
    fn default() -> (r: Self)
        ensures
            r == plain_style(),
    {
        Self::plain()
    }
}

impl HighlightSpan {
    /// The half-open range from `start` to `end` in the given style.
    pub fn new(start: usize, end: usize, style: HighlightStyle) -> (r: Self)
        ensures
            r == (HighlightSpan { start, end, style }),
    {
        HighlightSpan { start, end, style }
    }
}

/// The first span from `index` on that ends behind `offset`, or the number of
/// spans where none does.
pub open spec fn span_index(spans: Seq<HighlightSpan>, index: int, offset: int) -> int
    decreases spans.len() - index,
{
    if 0 <= index < spans.len() && spans[index].end <= offset {
        span_index(spans, index + 1, offset)
    } else {
        index
    }
}

/// The style that the span at `index` gives to the byte at `offset`: none
/// where the span does not cover it or changes nothing.
pub open spec fn span_style(spans: Seq<HighlightSpan>, index: int, offset: int) -> Option<
    HighlightStyle,
> {
    if 0 <= index < spans.len() && spans[index].start <= offset < spans[index].end
        && spans[index].style != plain_style() {
        Some(spans[index].style)
    } else {
        None
    }
}

/// Looks up styles for offsets that grow: each span is passed only once.
pub struct HighlightCursor<'a> {
    pub spans: &'a [HighlightSpan],
    pub index: usize,
}

impl<'a> HighlightCursor<'a> {
    /// A cursor before the first span.
    pub fn new(spans: &'a [HighlightSpan]) -> (r: Self)
        ensures
            r.spans@ == spans@,
            r.index == 0,
    {
        HighlightCursor { spans, index: 0 }
    }

    /// Moves to the first span that ends behind `offset` and returns its style
    /// where it covers `offset` and is not plain.
    pub fn style_at(&mut self, offset: usize) -> (r: Option<HighlightStyle>)
        ensures
            final(self).spans@ == old(self).spans@,
            final(self).index == span_index(old(self).spans@, old(self).index as int, offset as int),
            r == span_style(old(self).spans@, final(self).index as int, offset as int),
    {
        while self.index < self.spans.len() && self.spans[self.index].end <= offset
            invariant
                self.spans@ == old(self).spans@,
                span_index(self.spans@, self.index as int, offset as int) == span_index(
                    old(self).spans@,
                    old(self).index as int,
                    offset as int,
                ),
            decreases self.spans@.len() - self.index,
        {
            self.index += 1;
        }
        if self.index < self.spans.len() {
            let span = self.spans[self.index];
            if span.start <= offset && offset < span.end && !span.style.is_plain() {
                return Some(span.style);
            }
        }
        None
    }
}

/// Spans that are sorted and do not overlap.
pub open spec fn spans_sorted(spans: Seq<HighlightSpan>) -> bool {
    &&& forall|i: int| 0 <= i < spans.len() ==> (#[trigger] spans[i]).start <= spans[i].end
    &&& forall|i: int, j: int|
        0 <= i < j < spans.len() ==> (#[trigger] spans[i]).end <= (#[trigger] spans[j]).start
}

proof fn lemma_span_index_bounds(spans: Seq<HighlightSpan>, index: int, offset: int)
    requires
        0 <= index <= spans.len(),
    ensures
        index <= span_index(spans, index, offset) <= spans.len(),
        forall|i: int|
            index <= i < span_index(spans, index, offset) ==> (#[trigger] spans[i]).end <= offset,
        span_index(spans, index, offset) < spans.len() ==> offset < spans[span_index(
            spans,
            index,
            offset,
        )].end,
    decreases spans.len() - index,
{
    if index < spans.len() && spans[index].end <= offset {
        lemma_span_index_bounds(spans, index + 1, offset);
    }
}

/// For sorted, non-overlapping spans the cursor loses nothing by never going
/// back: a byte that any span covers gets the style of that span, as long as
/// the spans that the cursor has passed end at or before the byte.
pub proof fn lemma_cursor_finds_covering_span(
    spans: Seq<HighlightSpan>,
    index: int,
    offset: int,
    covering: int,
)
    requires
        spans_sorted(spans),
        0 <= index <= spans.len(),
        forall|i: int| 0 <= i < index ==> (#[trigger] spans[i]).end <= offset,
        0 <= covering < spans.len(),
        spans[covering].start <= offset < spans[covering].end,
    ensures
        span_index(spans, index, offset) == covering,
        span_style(spans, span_index(spans, index, offset), offset) == (if spans[covering].style
            == plain_style() {
            None
        } else {
            Some(spans[covering].style)
        }),
{
    lemma_span_index_bounds(spans, index, offset);
    let found = span_index(spans, index, offset);
    if found < covering {
        assert(spans[found].end <= spans[covering].start);
    }
    if covering < found {
        assert(spans[covering].end <= offset);
    }
}

/// A byte that no span covers gets no style.
pub proof fn lemma_cursor_leaves_uncovered_plain(
    spans: Seq<HighlightSpan>,
    index: int,
    offset: int,
)
    requires
        0 <= index <= spans.len(),
        forall|i: int|
            0 <= i < spans.len() ==> !((#[trigger] spans[i]).start <= offset < spans[i].end),
    ensures
        span_style(spans, span_index(spans, index, offset), offset) is None,
{
    lemma_span_index_bounds(spans, index, offset);
}

} // verus!
