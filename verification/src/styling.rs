//! Which style a byte has, and how a terminal is told, said of the ranges and
//! of the styles.
use crate::highlight::{
    color_sgr, plain_style, sgr, sgr_params, span_index, span_style, HighlightColor, HighlightSpan,
    HighlightStyle,
};
use crate::strings::decimal_bytes;
use vstd::prelude::*;

verus! {

/// Whether ranges come in order and none of them is empty or reaches into the
/// next one.
pub open spec fn in_order(spans: Seq<HighlightSpan>) -> bool {
    &&& forall|i: int| 0 <= i < spans.len() ==> (#[trigger] spans[i]).start < spans[i].end
    &&& forall|i: int, j: int|
        0 <= i < j < spans.len() ==> (#[trigger] spans[i]).end <= (#[trigger] spans[j]).start
}

proof fn lemma_passed(spans: Seq<HighlightSpan>, from: int, at: int, offset: int)
    requires
        0 <= from <= at <= spans.len(),
        forall|i: int| from <= i < at ==> (#[trigger] spans[i]).end <= offset,
        at < spans.len() ==> spans[at].end > offset,
    ensures
        span_index(spans, from, offset) == at,
    decreases at - from,
{
    if from < at {
        lemma_passed(spans, from + 1, at, offset);
    }
}

/// A byte that a range covers has the style of that range, looked up from the
/// first range or from any range at or before it.
pub proof fn lemma_range_gives_style(spans: Seq<HighlightSpan>, from: int, at: int, offset: int)
    requires
        in_order(spans),
        0 <= from <= at < spans.len(),
        spans[at].start <= offset < spans[at].end,
        spans[at].style != plain_style(),
    ensures
        span_style(spans, span_index(spans, from, offset), offset) == Some(spans[at].style),
{
    lemma_passed(spans, from, at, offset);
}

/// A byte that no range covers has no style.
pub proof fn lemma_no_range_no_style(spans: Seq<HighlightSpan>, from: int, offset: int)
    requires
        0 <= from,
        forall|i: int|
            0 <= i < spans.len() ==> !((#[trigger] spans[i]).start <= offset < spans[i].end),
    ensures
        span_style(spans, span_index(spans, from, offset), offset) is None,
{
}

/// The parameters for a color: of the palette by its number, or by its red,
/// green and blue, in the foreground or in the background.
pub open spec fn color_parameters(color: HighlightColor, behind: bool) -> Seq<Seq<u8>> {
    let channel = if behind {
        seq![52u8, 56]
    } else {
        seq![51u8, 56]
    };
    match color {
        HighlightColor::Ansi(value) => seq![channel, seq![53u8], decimal_bytes(value as nat)],
        HighlightColor::Rgb { red, green, blue } => seq![
            channel,
            seq![50u8],
            decimal_bytes(red as nat),
            decimal_bytes(green as nat),
            decimal_bytes(blue as nat),
        ],
    }
}

/// The parameters for a style: 1 for bold, 3 for italic, 4 for underlined, and
/// the ones for its colors.
pub open spec fn parameters(style: HighlightStyle) -> Seq<Seq<u8>> {
    let none = Seq::<Seq<u8>>::empty();
    (if style.bold {
        seq![seq![49u8]]
    } else {
        none
    }) + (if style.italic {
        seq![seq![51u8]]
    } else {
        none
    }) + (if style.underline {
        seq![seq![52u8]]
    } else {
        none
    }) + (match style.foreground {
        Some(color) => color_parameters(color, false),
        None => none,
    }) + (match style.background {
        Some(color) => color_parameters(color, true),
        None => none,
    })
}

/// The parameters with a semicolon between each two.
pub open spec fn with_semicolons(all: Seq<Seq<u8>>) -> Seq<u8>
    decreases all.len(),
{
    if all.len() == 0 {
        Seq::empty()
    } else if all.len() == 1 {
        all[0]
    } else {
        with_semicolons(all.drop_last()) + seq![59u8] + all.last()
    }
}

proof fn lemma_joined(a: Seq<Seq<u8>>, b: Seq<Seq<u8>>)
    requires
        a.len() > 0,
        b.len() > 0,
    ensures
        with_semicolons(a + b) == with_semicolons(a) + seq![59u8] + with_semicolons(b),
    decreases b.len(),
{
    let all = a + b;
    assert(all.last() == b.last());
    if b.len() == 1 {
        assert(all.drop_last() =~= a);
        assert(b[0] == b.last());
    } else {
        let fewer = b.drop_last();
        assert(all.drop_last() =~= a + fewer);
        lemma_joined(a, fewer);
        assert(with_semicolons(all) =~= with_semicolons(a) + seq![59u8] + with_semicolons(b));
    }
}

proof fn lemma_channels()
    ensures
        decimal_bytes(38) == seq![51u8, 56],
        decimal_bytes(48) == seq![52u8, 56],
{
    reveal_with_fuel(decimal_bytes, 3);
    assert(decimal_bytes(38) =~= seq![51u8, 56]);
    assert(decimal_bytes(48) =~= seq![52u8, 56]);
}

proof fn lemma_three(a: Seq<u8>, b: Seq<u8>, c: Seq<u8>)
    ensures
        with_semicolons(seq![a, b, c]) == a + seq![59u8] + (b + seq![59u8] + c),
{
    assert(seq![a, b, c] =~= seq![a] + (seq![b] + seq![c]));
    lemma_joined(seq![b], seq![c]);
    lemma_joined(seq![a], seq![b] + seq![c]);
    assert(with_semicolons(seq![a]) == a);
    assert(with_semicolons(seq![b]) == b);
    assert(with_semicolons(seq![c]) == c);
}

proof fn lemma_color(color: HighlightColor, behind: bool)
    ensures
        ({
            let channel: u8 = if behind {
                48
            } else {
                38
            };
            &&& with_semicolons(color_parameters(color, behind)) == color_sgr(color, channel)
            &&& with_semicolons(color_parameters(color, behind)).len() > 0
        }),
{
    lemma_channels();
    let name = if behind {
        seq![52u8, 56]
    } else {
        seq![51u8, 56]
    };
    match color {
        HighlightColor::Ansi(value) => {
            let last = decimal_bytes(value as nat);
            lemma_three(name, seq![53u8], last);
            assert(name + seq![59u8] + (seq![53u8] + seq![59u8] + last) =~= name + seq![
                59u8,
                53,
                59,
            ] + last);
        },
        HighlightColor::Rgb { red, green, blue } => {
            let r = decimal_bytes(red as nat);
            let g = decimal_bytes(green as nat);
            let b = decimal_bytes(blue as nat);
            let two = seq![50u8];
            lemma_three(r, g, b);
            lemma_joined(seq![name], seq![two]);
            assert(with_semicolons(seq![name]) == name);
            assert(with_semicolons(seq![two]) == two);
            assert(seq![name, two, r, g, b] =~= (seq![name] + seq![two]) + seq![r, g, b]);
            lemma_joined(seq![name] + seq![two], seq![r, g, b]);
            assert((name + seq![59u8] + two) + seq![59u8] + (r + seq![59u8] + (g + seq![59u8] + b))
                =~= name + seq![59u8, 50, 59] + r + seq![59u8] + g + seq![59u8] + b);
        },
    }
}

proof fn lemma_param(before: Seq<Seq<u8>>, more: Seq<Seq<u8>>, present: bool)
    requires
        present ==> more.len() > 0,
        before.len() > 0 ==> with_semicolons(before).len() > 0,
    ensures
        ({
            let all = before + (if present {
                more
            } else {
                Seq::<Seq<u8>>::empty()
            });
            crate::highlight::sgr_param(with_semicolons(before), present, with_semicolons(more))
                == with_semicolons(all)
        }),
{
    if !present {
        assert(before + Seq::<Seq<u8>>::empty() =~= before);
    } else if before.len() == 0 {
        assert(before + more =~= more);
    } else {
        lemma_joined(before, more);
    }
}

/// The escape sequence for a style holds its parameters, with a semicolon
/// between each two.
pub proof fn lemma_style_is_told(style: HighlightStyle)
    ensures
        sgr(style) == seq![27u8, 91] + with_semicolons(parameters(style)) + seq![109u8],
{
    let none = Seq::<Seq<u8>>::empty();
    let one = seq![seq![49u8]];
    let three = seq![seq![51u8]];
    let four = seq![seq![52u8]];
    assert(with_semicolons(one) == seq![49u8]);
    assert(with_semicolons(three) == seq![51u8]);
    assert(with_semicolons(four) == seq![52u8]);
    let a = if style.bold {
        one
    } else {
        none
    };
    let b = a + (if style.italic {
        three
    } else {
        none
    });
    let c = b + (if style.underline {
        four
    } else {
        none
    });
    let front = color_parameters(style.foreground->0, false);
    let back = color_parameters(style.background->0, true);
    lemma_color(style.foreground->0, false);
    lemma_color(style.background->0, true);
    lemma_param(none, one, style.bold);
    assert(none + a =~= a);
    assert(a.len() > 0 ==> with_semicolons(a).len() > 0);
    lemma_param(a, three, style.italic);
    assert(b.len() > 0 ==> with_semicolons(b).len() > 0) by {
        lemma_filled(a, three, style.italic);
    }
    lemma_param(b, four, style.underline);
    assert(c.len() > 0 ==> with_semicolons(c).len() > 0) by {
        lemma_filled(b, four, style.underline);
    }
    lemma_param(c, front, style.foreground is Some);
    let d = c + (if style.foreground is Some {
        front
    } else {
        none
    });
    assert(d.len() > 0 ==> with_semicolons(d).len() > 0) by {
        lemma_filled(c, front, style.foreground is Some);
    }
    lemma_param(d, back, style.background is Some);
    let e = d + (if style.background is Some {
        back
    } else {
        none
    });
    assert(sgr_params(style) == with_semicolons(e));
    assert(e == parameters(style));
}

proof fn lemma_filled(before: Seq<Seq<u8>>, more: Seq<Seq<u8>>, present: bool)
    requires
        before.len() > 0 ==> with_semicolons(before).len() > 0,
        more.len() > 0,
        with_semicolons(more).len() > 0,
    ensures
        ({
            let all = before + (if present {
                more
            } else {
                Seq::<Seq<u8>>::empty()
            });
            all.len() > 0 ==> with_semicolons(all).len() > 0
        }),
{
    lemma_param(before, more, present);
}

} // verus!
