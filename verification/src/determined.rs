//! The layout of a document is determined: whatever meets the contract of the
//! engine's layout functions is the same list of path strings.

use vstd::prelude::*;
use vstd::utf8::encode_utf8;
use crate::document::{Input, LayoutParagraph, bidi_runs, is_resolution_of};
use crate::fixed::Fixed;
use crate::fonts::{Font, FontRegistry};
use crate::layout::{
    InputTransform, LayoutMetrics, baseline_after, document_baseline, document_paths, fragment_x,
    glyph_paths, line_paths, paragraph_paths,
};
use crate::paragraph::{
    ParagraphInfo, ShapedFragment, fragment_lengths, lemma_line_bounds, lemma_lines_cover,
    total_advance,
};
use crate::path::{FontScale, GlyphPath, PathCmd, Point};
use crate::shaping::{
    GlyphRecord, font_scale, fragment_shaped_from, is_shaping_of, line_breaks, piece_records,
    segments_upto,
};
use crate::state::{is_layout_of, is_layout_of_document, is_wrapping_of};

verus! {

/// Whether two fragments hold the same glyphs and have the same length.
pub open spec fn same_fragment(a: ShapedFragment, b: ShapedFragment) -> bool {
    &&& a.length == b.length
    &&& a.glyphs.len() == b.glyphs.len()
    &&& forall|g: int| 0 <= g < a.glyphs.len() ==> (#[trigger] a.glyphs[g])@ == b.glyphs[g]@
}

/// Whether two lists of fragments hold the same fragments in the same order.
pub open spec fn same_fragments(a: Seq<ShapedFragment>, b: Seq<ShapedFragment>) -> bool {
    &&& a.len() == b.len()
    &&& forall|i: int| 0 <= i < a.len() ==> same_fragment(#[trigger] a[i], b[i])
}

/// Whether two wrapped paragraphs hold the same fragments on the same lines
/// in the same direction.
pub open spec fn same_paragraph(a: ParagraphInfo, b: ParagraphInfo) -> bool {
    &&& a.is_rtl == b.is_rtl
    &&& a.lines@ == b.lines@
    &&& same_fragments(a.shaped_fragments@, b.shaped_fragments@)
    &&& a.wf()
}

proof fn lemma_total_advance_same(a: Seq<GlyphPath>, b: Seq<GlyphPath>)
    requires
        a.len() == b.len(),
        forall|g: int| 0 <= g < a.len() ==> (#[trigger] a[g])@ == b[g]@,
    ensures
        total_advance(a) == total_advance(b),
    decreases a.len(),
{
    if a.len() > 0 {
        assert forall|g: int| 0 <= g < a.drop_last().len() implies (#[trigger] a.drop_last()[g])@
            == b.drop_last()[g]@ by {
            assert(a[g]@ == b[g]@);
        }
        lemma_total_advance_same(a.drop_last(), b.drop_last());
        assert(a[a.len() - 1]@ == b[a.len() - 1]@);
    }
}

/// Two fragments that shaping makes of the same glyph records are the same.
pub proof fn lemma_fragment_is_determined(
    a: ShapedFragment,
    b: ShapedFragment,
    records: Seq<GlyphRecord>,
    outlines: Seq<Vec<PathCmd>>,
    scale: FontScale,
)
    requires
        fragment_shaped_from(a, records, outlines, scale),
        fragment_shaped_from(b, records, outlines, scale),
    ensures
        same_fragment(a, b),
{
    assert forall|g: int| 0 <= g < a.glyphs.len() implies (#[trigger] a.glyphs@[g])@
        == b.glyphs@[g]@ by {
        assert(b.glyphs@[g]@ == a.glyphs@[g]@);
    }
    lemma_total_advance_same(a.glyphs@, b.glyphs@);
}

/// The shaped fragments of a paragraph are determined by its text, its font,
/// the text size and its direction.
pub proof fn lemma_shaping_is_determined(
    a: Seq<ShapedFragment>,
    b: Seq<ShapedFragment>,
    text: Seq<char>,
    font: &Font,
    text_size: usize,
    is_rtl: bool,
)
    requires
        is_shaping_of(a, text, font, text_size, is_rtl),
        is_shaping_of(b, text, font, text_size, is_rtl),
    ensures
        same_fragments(a, b),
        fragment_lengths(a) == fragment_lengths(b),
{
    let pieces = segments_upto(
        encode_utf8(text),
        line_breaks(text),
        line_breaks(text).len(),
    );
    assert forall|i: int| 0 <= i < a.len() implies same_fragment(#[trigger] a[i], b[i]) by {
        lemma_fragment_is_determined(
            a[i],
            b[i],
            piece_records(&font.face, text, pieces[i], is_rtl),
            font.outlines@,
            font_scale(&font.face, text_size),
        );
    }
    assert(fragment_lengths(a) =~= fragment_lengths(b));
}

proof fn lemma_line_paths_same(
    a: Seq<ShapedFragment>,
    b: Seq<ShapedFragment>,
    from: int,
    to: int,
    start: int,
    y: Fixed,
    is_rtl: bool,
)
    requires
        same_fragments(a, b),
        0 <= from,
        to <= a.len(),
    ensures
        line_paths(a, from, to, start, y, is_rtl) == line_paths(b, from, to, start, y, is_rtl),
    decreases to - from,
{
    if to > from {
        lemma_line_paths_same(a, b, from, to - 1, start, y, is_rtl);
        assert(fragment_lengths(a) =~= fragment_lengths(b));
        assert(same_fragment(a[to - 1], b[to - 1]));
        let left = a[to - 1].glyphs@;
        let right = b[to - 1].glyphs@;
        let offset = Point {
            x: fragment_x(fragment_lengths(a), from, to - 1, start, is_rtl) as i64,
            y,
        };
        assert forall|g: int| 0 <= g < left.len() implies (#[trigger] left[g]).cmds@
            == right[g].cmds@ by {
            assert(left[g]@ == right[g]@);
        }
        assert(glyph_paths(left, offset) =~= glyph_paths(right, offset));
    }
}

proof fn lemma_paragraph_paths_same(
    a: ParagraphInfo,
    b: ParagraphInfo,
    transform: InputTransform,
    metrics: LayoutMetrics,
    y: int,
    count: nat,
)
    requires
        same_paragraph(a, b),
        count <= a.lines@.len(),
    ensures
        paragraph_paths(a, transform, metrics, y, count) == paragraph_paths(
            b,
            transform,
            metrics,
            y,
            count,
        ),
    decreases count,
{
    if count > 0 {
        lemma_paragraph_paths_same(a, b, transform, metrics, y, (count - 1) as nat);
        let line = a.lines@[count - 1];
        let fragments = a.shaped_fragments.len() as int;
        lemma_line_bounds(a.lines@, fragments, count - 1);
        lemma_line_paths_same(
            a.shaped_fragments@,
            b.shaped_fragments@,
            line.first_fragment_index as int,
            line.end(fragments),
            transform.anchor_x(metrics, a.is_rtl),
            baseline_after(
                y,
                transform.line_height_spec(metrics),
                (count - 1) as nat,
            ) as i64,
            a.is_rtl,
        );
    }
}

proof fn lemma_document_paths_same(
    a: Seq<ParagraphInfo>,
    b: Seq<ParagraphInfo>,
    transform: InputTransform,
    metrics: LayoutMetrics,
    count: nat,
)
    requires
        a.len() == b.len(),
        count <= a.len(),
        forall|i: int| 0 <= i < a.len() ==> same_paragraph(#[trigger] a[i], b[i]),
    ensures
        document_baseline(a, transform, metrics, count) == document_baseline(
            b,
            transform,
            metrics,
            count,
        ),
        document_paths(a, transform, metrics, count) == document_paths(
            b,
            transform,
            metrics,
            count,
        ),
    decreases count,
{
    if count > 0 {
        lemma_document_paths_same(a, b, transform, metrics, (count - 1) as nat);
        assert(same_paragraph(a[count - 1], b[count - 1]));
        lemma_paragraph_paths_same(
            a[count - 1],
            b[count - 1],
            transform,
            metrics,
            document_baseline(a, transform, metrics, (count - 1) as nat),
            a[count - 1].lines@.len(),
        );
    }
}

/// Whether two paragraphs ask for the same: the same text in the same font
/// and direction.
pub open spec fn same_request(a: LayoutParagraph, b: LayoutParagraph) -> bool {
    &&& a.text@ == b.text@
    &&& a.font == b.font
    &&& a.is_rtl == b.is_rtl
}

/// A paragraph after shaping and wrapping is determined by its text, its
/// font and its direction, the fonts, the box and the measures.
pub proof fn lemma_wrapping_is_determined(
    a: ParagraphInfo,
    b: ParagraphInfo,
    first: LayoutParagraph,
    second: LayoutParagraph,
    fonts: &FontRegistry,
    transform: InputTransform,
    metrics: LayoutMetrics,
)
    requires
        same_request(first, second),
        is_wrapping_of(a, first, fonts, transform, metrics),
        is_wrapping_of(b, second, fonts, transform, metrics),
    ensures
        same_paragraph(a, b),
{
    lemma_shaping_is_determined(
        a.shaped_fragments@,
        b.shaped_fragments@,
        first.text@,
        &fonts.fonts()[first.font as int],
        transform.size,
        first.is_rtl,
    );
    assert(fragment_lengths(a.shaped_fragments@).len() == a.shaped_fragments.len());
    lemma_lines_cover(
        fragment_lengths(a.shaped_fragments@),
        transform.max_line_length_spec(metrics) as Fixed,
    );
}

/// The layout of paragraphs is determined. Two lists of path strings that
/// are both the layout of paragraphs with the same texts, fonts and
/// directions, with the same fonts in the same box, are the same list: the
/// contract of the layout leaves no choice.
pub proof fn lemma_layout_is_determined(
    first: Seq<Seq<char>>,
    second: Seq<Seq<char>>,
    paragraphs: Seq<LayoutParagraph>,
    others: Seq<LayoutParagraph>,
    fonts: &FontRegistry,
    transform: InputTransform,
    metrics: LayoutMetrics,
)
    requires
        paragraphs.len() == others.len(),
        forall|i: int|
            0 <= i < paragraphs.len() ==> same_request(#[trigger] paragraphs[i], others[i]),
        is_layout_of(first, paragraphs, fonts, transform, metrics),
        is_layout_of(second, others, fonts, transform, metrics),
    ensures
        first == second,
{
    let a = choose|shaped: Seq<ParagraphInfo>|
        {
            &&& shaped.len() == paragraphs.len()
            &&& forall|i: int|
                0 <= i < shaped.len() ==> is_wrapping_of(
                    #[trigger] shaped[i],
                    paragraphs[i],
                    fonts,
                    transform,
                    metrics,
                )
            &&& first == document_paths(shaped, transform, metrics, shaped.len())
        };
    let b = choose|shaped: Seq<ParagraphInfo>|
        {
            &&& shaped.len() == others.len()
            &&& forall|i: int|
                0 <= i < shaped.len() ==> is_wrapping_of(
                    #[trigger] shaped[i],
                    others[i],
                    fonts,
                    transform,
                    metrics,
                )
            &&& second == document_paths(shaped, transform, metrics, shaped.len())
        };
    assert forall|i: int| 0 <= i < a.len() implies same_paragraph(#[trigger] a[i], b[i]) by {
        assert(is_wrapping_of(b[i], others[i], fonts, transform, metrics));
        assert(same_request(paragraphs[i], others[i]));
        lemma_wrapping_is_determined(
            a[i],
            b[i],
            paragraphs[i],
            others[i],
            fonts,
            transform,
            metrics,
        );
    }
    lemma_document_paths_same(a, b, transform, metrics, a.len());
}

/// The layout of a document is determined. Two lists of path strings that
/// are both the layout of the same document with the same fonts in the same
/// box are the same list.
pub proof fn lemma_document_layout_is_determined(
    first: Seq<Seq<char>>,
    second: Seq<Seq<char>>,
    document: &Input,
    fonts: &FontRegistry,
    transform: InputTransform,
    metrics: LayoutMetrics,
)
    requires
        fonts.wf(),
        is_layout_of_document(first, document, fonts, transform, metrics),
        is_layout_of_document(second, document, fonts, transform, metrics),
    ensures
        first == second,
{
    let runs = bidi_runs(document.text@);
    let paragraphs = choose|paragraphs: Seq<LayoutParagraph>|
        {
            &&& is_resolution_of(paragraphs, document, runs, fonts)
            &&& #[trigger] is_layout_of(first, paragraphs, fonts, transform, metrics)
        };
    let others = choose|paragraphs: Seq<LayoutParagraph>|
        {
            &&& is_resolution_of(paragraphs, document, runs, fonts)
            &&& #[trigger] is_layout_of(second, paragraphs, fonts, transform, metrics)
        };
    assert forall|i: int| 0 <= i < paragraphs.len() implies same_request(
        #[trigger] paragraphs[i],
        others[i],
    ) by {
        let left = paragraphs[i].font as int;
        let right = others[i].font as int;
        assert(fonts.ids()[left] == fonts.ids()[right]);
        if left < right {
            assert(fonts.ids()[left] != fonts.ids()[right]);
        } else if right < left {
            assert(fonts.ids()[right] != fonts.ids()[left]);
        }
    }
    lemma_layout_is_determined(first, second, paragraphs, others, fonts, transform, metrics);
}

} // verus!
