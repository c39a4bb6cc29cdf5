//! Placement: the lines of all paragraphs are stacked from the top of the
//! box, each line is anchored at the left or the right padding, and every
//! glyph is emitted as a path string at its place.

use vstd::prelude::*;
use crate::fixed::{Fixed, ONE, add_spec, sub_spec, clamp, sat_add, sat_sub, from_int};
use crate::path::{Point, path_text, translate_cmds, GlyphPath};
use crate::paragraph::{
    ShapedFragment, ParagraphInfo, fragment_lengths, lemma_line_bounds,
};

verus! {

/// The box to lay text out in, and the size of the text.
#[derive(Clone, Copy, Debug, PartialEq, Eq, Structural)]
pub struct InputTransform {
    /// Left edge of the box, in pixels.
    pub x: i32,
    /// Top edge of the box, in pixels.
    pub y: i32,
    /// Width of the box, in pixels.
    pub w: i32,
    /// Height of the box, in pixels.
    pub h: i32,
    /// Font size, in pixels per em.
    pub size: usize,
}

/// The padding between the box and the text on each side, unless the layout
/// is given other measures: 12 pixels.
pub const PAD: Fixed = 120000;

/// The height of a line for a font size of one pixel per em, unless the
/// layout is given other measures: 1.25 pixels.
pub const LINE_HEIGHT_PER_PIXEL: Fixed = 12500;

/// The measures of a layout that do not come with the box.
#[derive(Clone, Copy, Debug, PartialEq, Eq, Structural)]
pub struct LayoutMetrics {
    /// The padding between the box and the text on each side.
    pub padding: Fixed,
    /// The height of a line for a font size of one pixel per em.
    pub line_height_per_pixel: Fixed,
}

impl Default for LayoutMetrics {
    /// A padding of 12 pixels, and lines 1.25 times as high as the font size.
    fn default() -> (r: LayoutMetrics)
        ensures
            r == (LayoutMetrics { padding: PAD, line_height_per_pixel: LINE_HEIGHT_PER_PIXEL }),
    {
        LayoutMetrics { padding: PAD, line_height_per_pixel: LINE_HEIGHT_PER_PIXEL }
    }
}

impl InputTransform {
    /// The distance between two baselines: the font size times the height of
    /// a line per pixel of font size.
    pub open spec fn line_height_spec(self, metrics: LayoutMetrics) -> int {
        clamp(self.size * metrics.line_height_per_pixel)
    }

    /// The longest that a line may be: the width of the box without the
    /// padding on both sides, and zero for a box narrower than that.
    pub open spec fn max_line_length_spec(self, metrics: LayoutMetrics) -> int {
        if self.w * ONE - 2 * metrics.padding > 0 {
            clamp(self.w * ONE - 2 * metrics.padding)
        } else {
            0
        }
    }

    /// Where a line starts: the left padding for left-to-right text, the
    /// right padding for right-to-left text.
    pub open spec fn anchor_x(self, metrics: LayoutMetrics, is_rtl: bool) -> int {
        if is_rtl {
            sub_spec((self.x + self.w) * ONE, metrics.padding as int)
        } else {
            add_spec(self.x * ONE, metrics.padding as int)
        }
    }

    /// The baseline of the first line: one line height below the top padding.
    pub open spec fn first_baseline(self, metrics: LayoutMetrics) -> int {
        add_spec(add_spec(self.y * ONE, metrics.padding as int), self.line_height_spec(metrics))
    }

    /// The distance between two baselines.
    pub fn line_height(&self, metrics: &LayoutMetrics) -> (r: Fixed)
        ensures
            r == self.line_height_spec(*metrics),
    {
        let size = self.size as i128;
        let per_pixel = metrics.line_height_per_pixel as i128;
        assert(-0x8000_0000_0000_0000 * 0xffff_ffff_ffff_ffff <= size * per_pixel
            <= 0x8000_0000_0000_0000 * 0xffff_ffff_ffff_ffff) by (nonlinear_arith)
            requires
                0 <= size <= 0xffff_ffff_ffff_ffff,
                -0x8000_0000_0000_0000 <= per_pixel <= 0x8000_0000_0000_0000,
        ;
        let height: i128 = size * per_pixel;
        if height > i64::MAX as i128 {
            i64::MAX
        } else if height < i64::MIN as i128 {
            i64::MIN
        } else {
            height as i64
        }
    }

    /// The longest that a line may be.
    pub fn max_line_length(&self, metrics: &LayoutMetrics) -> (r: Fixed)
        ensures
            r == self.max_line_length_spec(*metrics),
    {
        let width = from_int(self.w) as i128;
        let usable: i128 = width - 2 * (metrics.padding as i128);
        if usable > i64::MAX as i128 {
            i64::MAX
        } else if usable > 0 {
            usable as i64
        } else {
            0
        }
    }

    /// Where the lines of a paragraph start.
    pub fn line_anchor(&self, metrics: &LayoutMetrics, is_rtl: bool) -> (r: Fixed)
        ensures
            r == self.anchor_x(*metrics, is_rtl),
    {
        if is_rtl {
            sat_sub((self.x as i64 + self.w as i64) * ONE, metrics.padding)
        } else {
            sat_add(from_int(self.x), metrics.padding)
        }
    }

    /// The baseline of the first line.
    pub fn first_line(&self, metrics: &LayoutMetrics) -> (r: Fixed)
        ensures
            r == self.first_baseline(*metrics),
    {
        sat_add(sat_add(from_int(self.y), metrics.padding), self.line_height(metrics))
    }
}

/// The views of a list of strings.
pub open spec fn texts(strings: Seq<String>) -> Seq<Seq<char>> {
    Seq::new(strings.len(), |i: int| strings[i]@)
}

/// The running X after the fragments `from..to` of a line were placed, from
/// the anchor `start`: each fragment moves it by its length, to the left for
/// right-to-left text and to the right otherwise.
pub open spec fn pen_after(lengths: Seq<Fixed>, from: int, to: int, start: int, is_rtl: bool) -> int
    decreases to - from,
{
    if to <= from {
        start
    } else if is_rtl {
        sub_spec(pen_after(lengths, from, to - 1, start, is_rtl), lengths[to - 1] as int)
    } else {
        add_spec(pen_after(lengths, from, to - 1, start, is_rtl), lengths[to - 1] as int)
    }
}

/// The X at which fragment `j` of a line that starts with fragment `from` is
/// drawn. A left-to-right fragment is drawn at the running X before it; a
/// right-to-left fragment first moves the running X left by its own length.
pub open spec fn fragment_x(lengths: Seq<Fixed>, from: int, j: int, start: int, is_rtl: bool)
    -> int {
    if is_rtl {
        pen_after(lengths, from, j + 1, start, is_rtl)
    } else {
        pen_after(lengths, from, j, start, is_rtl)
    }
}

/// The baseline `count` lines below the baseline `y`.
pub open spec fn baseline_after(y: int, line_height: int, count: nat) -> int
    decreases count,
{
    if count == 0 {
        y
    } else {
        add_spec(baseline_after(y, line_height, (count - 1) as nat), line_height)
    }
}

/// The path strings of the glyphs of one fragment drawn at `offset`, in
/// glyph order.
pub open spec fn glyph_paths(glyphs: Seq<GlyphPath>, offset: Point) -> Seq<Seq<char>> {
    Seq::new(glyphs.len(), |g: int| path_text(translate_cmds(glyphs[g].cmds@, offset)))
}

/// The path strings of the fragments `from..to` of a line that starts with
/// fragment `from` at the anchor `start` on the baseline `y`.
pub open spec fn line_paths(
    fragments: Seq<ShapedFragment>,
    from: int,
    to: int,
    start: int,
    y: Fixed,
    is_rtl: bool,
) -> Seq<Seq<char>>
    decreases to - from,
{
    if to <= from {
        Seq::<Seq<char>>::empty()
    } else {
        line_paths(fragments, from, to - 1, start, y, is_rtl) + glyph_paths(
            fragments[to - 1].glyphs@,
            Point {
                x: fragment_x(fragment_lengths(fragments), from, to - 1, start, is_rtl) as i64,
                y,
            },
        )
    }
}

/// The path strings of the first `count` lines of a paragraph whose first
/// line lies on the baseline `y`.
pub open spec fn paragraph_paths(
    paragraph: ParagraphInfo,
    transform: InputTransform,
    metrics: LayoutMetrics,
    y: int,
    count: nat,
) -> Seq<Seq<char>>
    decreases count,
{
    if count == 0 {
        Seq::<Seq<char>>::empty()
    } else {
        let line = paragraph.lines@[count - 1];
        paragraph_paths(paragraph, transform, metrics, y, (count - 1) as nat) + line_paths(
            paragraph.shaped_fragments@,
            line.first_fragment_index as int,
            line.end(paragraph.shaped_fragments.len() as int),
            transform.anchor_x(metrics, paragraph.is_rtl),
            baseline_after(y, transform.line_height_spec(metrics), (count - 1) as nat) as i64,
            paragraph.is_rtl,
        )
    }
}

/// The baseline of the first line after the first `count` paragraphs.
pub open spec fn document_baseline(
    paragraphs: Seq<ParagraphInfo>,
    transform: InputTransform,
    metrics: LayoutMetrics,
    count: nat,
) -> int
    decreases count,
{
    if count == 0 {
        transform.first_baseline(metrics)
    } else {
        baseline_after(
            document_baseline(paragraphs, transform, metrics, (count - 1) as nat),
            transform.line_height_spec(metrics),
            paragraphs[count - 1].lines@.len(),
        )
    }
}

/// The path strings of the first `count` paragraphs: paragraph after
/// paragraph, line after line, fragment after fragment, glyph after glyph.
pub open spec fn document_paths(
    paragraphs: Seq<ParagraphInfo>,
    transform: InputTransform,
    metrics: LayoutMetrics,
    count: nat,
) -> Seq<Seq<char>>
    decreases count,
{
    if count == 0 {
        Seq::<Seq<char>>::empty()
    } else {
        document_paths(paragraphs, transform, metrics, (count - 1) as nat) + paragraph_paths(
            paragraphs[count - 1],
            transform,
            metrics,
            document_baseline(paragraphs, transform, metrics, (count - 1) as nat),
            paragraphs[count - 1].lines@.len(),
        )
    }
}

/// The plain sum of `lengths[from..to]`.
pub open spec fn exact_sum(lengths: Seq<Fixed>, from: int, to: int) -> int
    decreases to - from,
{
    if to <= from {
        0
    } else {
        exact_sum(lengths, from, to - 1) + lengths[to - 1]
    }
}

/// Right-to-left placement does not drift. The fragments `from..to`, placed
/// leftward from the anchor `start`, take up exactly the sum of their
/// lengths: the anchor minus the final running X equals that sum. This holds
/// as long as every running X on the way is within the coordinate range.
pub proof fn lemma_no_drift_right_to_left(lengths: Seq<Fixed>, from: int, to: int, start: Fixed)
    requires
        0 <= from <= to <= lengths.len(),
        forall|j: int|
            from <= j <= to ==> i64::MIN <= start - #[trigger] exact_sum(lengths, from, j)
                <= i64::MAX,
    ensures
        start - pen_after(lengths, from, to, start as int, true) == exact_sum(lengths, from, to),
    decreases to - from,
{
    if to > from {
        lemma_no_drift_right_to_left(lengths, from, to - 1, start);
        assert(i64::MIN <= start - exact_sum(lengths, from, to) <= i64::MAX);
    }
}

/// Left-to-right placement does not drift. The fragments `from..to`, placed
/// rightward from the anchor `start`, take up exactly the sum of their
/// lengths: the final running X minus the anchor equals that sum. This holds
/// as long as every running X on the way is within the coordinate range.
pub proof fn lemma_no_drift_left_to_right(lengths: Seq<Fixed>, from: int, to: int, start: Fixed)
    requires
        0 <= from <= to <= lengths.len(),
        forall|j: int|
            from <= j <= to ==> i64::MIN <= start + #[trigger] exact_sum(lengths, from, j)
                <= i64::MAX,
    ensures
        pen_after(lengths, from, to, start as int, false) - start == exact_sum(lengths, from, to),
    decreases to - from,
{
    if to > from {
        lemma_no_drift_left_to_right(lengths, from, to - 1, start);
        assert(i64::MIN <= start + exact_sum(lengths, from, to) <= i64::MAX);
    }
}

/// The baselines are evenly spaced: the baseline `count` lines below `y` lies
/// `count` line heights below it, as long as that is within the coordinate
/// range.
pub proof fn lemma_baselines_evenly_spaced(y: Fixed, line_height: Fixed, count: nat)
    requires
        line_height >= 0,
        y + count * line_height <= i64::MAX,
    ensures
        baseline_after(y as int, line_height as int, count) == y + count * line_height,
    decreases count,
{
    if count == 0 {
        assert(count * line_height == 0) by (nonlinear_arith)
            requires
                count == 0,
        ;
    } else {
        let above = (count - 1) as nat;
        assert(count * line_height == above * line_height + line_height) by (nonlinear_arith)
            requires
                above == count - 1,
        ;
        assert(above * line_height >= 0) by (nonlinear_arith)
            requires
                above >= 0,
                line_height >= 0,
        ;
        lemma_baselines_evenly_spaced(y, line_height, above);
    }
}

/// A paragraph without fragments has a single line and no path strings.
pub proof fn lemma_empty_paragraph_has_no_paths(
    paragraph: ParagraphInfo,
    transform: InputTransform,
    metrics: LayoutMetrics,
    y: int,
)
    requires
        paragraph.wf(),
        paragraph.shaped_fragments.len() == 0,
    ensures
        paragraph.lines.len() == 1,
        paragraph_paths(paragraph, transform, metrics, y, 1) == Seq::<Seq<char>>::empty(),
{
    let lines = paragraph.lines@;
    if lines.len() > 1 {
        assert(lines[0].first_fragment_index < lines[0].last_fragment_index);
        lemma_line_bounds(lines, 0, 0);
    }
    assert(paragraph_paths(paragraph, transform, metrics, y, 0) == Seq::<Seq<char>>::empty());
    assert(paragraph_paths(paragraph, transform, metrics, y, 1) =~= Seq::<Seq<char>>::empty());
}

/// Appends the path string of each glyph of `fragment`, drawn at `offset`.
pub fn push_fragment_paths(out: &mut Vec<String>, fragment: &ShapedFragment, offset: Point)
    ensures
        texts(final(out)@) == texts(old(out)@) + glyph_paths(fragment.glyphs@, offset),
{
    let ghost paths = glyph_paths(fragment.glyphs@, offset);
    let mut g: usize = 0;
    proof {
        assert(texts(out@) =~= texts(old(out)@) + paths.take(0));
    }
    while g < fragment.glyphs.len()
        invariant
            g <= fragment.glyphs.len(),
            paths == glyph_paths(fragment.glyphs@, offset),
            texts(out@) == texts(old(out)@) + paths.take(g as int),
        decreases fragment.glyphs.len() - g,
    {
        let ghost before = out@;
        let path = fragment.glyphs[g].path_at(offset);
        out.push(path);
        proof {
            assert(texts(out@) =~= texts(before).push(path@));
            assert(paths.take(g + 1) =~= paths.take(g as int).push(paths[g as int]));
            assert(texts(out@) =~= texts(old(out)@) + paths.take(g + 1));
        }
        g += 1;
    }
    proof {
        assert(paths.take(fragment.glyphs.len() as int) =~= paths);
    }
}

/// Appends the path strings of the fragments `from..to`, which make up one
/// line that starts at the anchor `start` on the baseline `y`.
pub fn push_line_paths(
    out: &mut Vec<String>,
    fragments: &Vec<ShapedFragment>,
    from: usize,
    to: usize,
    start: Fixed,
    y: Fixed,
    is_rtl: bool,
)
    requires
        from <= to <= fragments.len(),
    ensures
        texts(final(out)@) == texts(old(out)@) + line_paths(
            fragments@,
            from as int,
            to as int,
            start as int,
            y,
            is_rtl,
        ),
{
    let ghost lengths = fragment_lengths(fragments@);
    let mut baseline_x: Fixed = start;
    let mut j: usize = from;
    proof {
        assert(texts(out@) =~= texts(old(out)@) + line_paths(
            fragments@,
            from as int,
            from as int,
            start as int,
            y,
            is_rtl,
        ));
    }
    while j < to
        invariant
            from <= j <= to <= fragments.len(),
            lengths == fragment_lengths(fragments@),
            baseline_x == pen_after(lengths, from as int, j as int, start as int, is_rtl),
            texts(out@) == texts(old(out)@) + line_paths(
                fragments@,
                from as int,
                j as int,
                start as int,
                y,
                is_rtl,
            ),
        decreases to - j,
    {
        let fragment = &fragments[j];
        let new_baseline_x = if is_rtl {
            sat_sub(baseline_x, fragment.length)
        } else {
            baseline_x
        };
        proof {
            assert(lengths[j as int] == fragment.length);
            assert(new_baseline_x == fragment_x(
                lengths,
                from as int,
                j as int,
                start as int,
                is_rtl,
            ));
        }
        push_fragment_paths(out, fragment, Point { x: new_baseline_x, y });
        baseline_x = if is_rtl {
            new_baseline_x
        } else {
            sat_add(new_baseline_x, fragment.length)
        };
        proof {
            assert(texts(out@) =~= texts(old(out)@) + line_paths(
                fragments@,
                from as int,
                j + 1,
                start as int,
                y,
                is_rtl,
            ));
        }
        j += 1;
    }
}

/// Appends the path strings of a paragraph whose first line lies on the
/// baseline `y`, and returns the baseline of the line after its last.
pub fn push_paragraph_paths(
    out: &mut Vec<String>,
    paragraph: &ParagraphInfo,
    input_transform: &InputTransform,
    metrics: &LayoutMetrics,
    y: Fixed,
) -> (next: Fixed)
    requires
        paragraph.wf(),
    ensures
        texts(final(out)@) == texts(old(out)@) + paragraph_paths(
            *paragraph,
            *input_transform,
            *metrics,
            y as int,
            paragraph.lines@.len(),
        ),
        next == baseline_after(
            y as int,
            input_transform.line_height_spec(*metrics),
            paragraph.lines@.len(),
        ),
{
    let line_height = input_transform.line_height(metrics);
    let start = input_transform.line_anchor(metrics, paragraph.is_rtl);
    let count = paragraph.shaped_fragments.len();
    let mut current_height: Fixed = y;
    let mut k: usize = 0;
    proof {
        assert(texts(out@) =~= texts(old(out)@) + paragraph_paths(
            *paragraph,
            *input_transform,
            *metrics,
            y as int,
            0,
        ));
    }
    while k < paragraph.lines.len()
        invariant
            k <= paragraph.lines.len(),
            count == paragraph.shaped_fragments.len(),
            paragraph.wf(),
            line_height == input_transform.line_height_spec(*metrics),
            start == input_transform.anchor_x(*metrics, paragraph.is_rtl),
            current_height == baseline_after(y as int, line_height as int, k as nat),
            texts(out@) == texts(old(out)@) + paragraph_paths(
                *paragraph,
                *input_transform,
                *metrics,
                y as int,
                k as nat,
            ),
        decreases paragraph.lines.len() - k,
    {
        let line = paragraph.lines[k];
        proof {
            lemma_line_bounds(paragraph.lines@, count as int, k as int);
        }
        let from = line.first_fragment_index;
        let to = line.end_index(count);
        push_line_paths(
            out,
            &paragraph.shaped_fragments,
            from,
            to,
            start,
            current_height,
            paragraph.is_rtl,
        );
        proof {
            assert(texts(out@) =~= texts(old(out)@) + paragraph_paths(
                *paragraph,
                *input_transform,
                *metrics,
                y as int,
                (k + 1) as nat,
            ));
        }
        current_height = sat_add(current_height, line_height);
        k += 1;
    }
    current_height
}

/// Lays out wrapped paragraphs: the path string of every glyph at its place,
/// paragraph after paragraph and line after line, in reading order.
pub fn layout_paragraphs(
    input_transform: &InputTransform,
    metrics: &LayoutMetrics,
    paragraphs: &Vec<ParagraphInfo>,
) -> (r: Vec<String>)
    requires
        forall|p: int| 0 <= p < paragraphs.len() ==> (#[trigger] paragraphs[p]).wf(),
    ensures
        texts(r@) == document_paths(
            paragraphs@,
            *input_transform,
            *metrics,
            paragraphs.len() as nat,
        ),
{
    let mut result: Vec<String> = Vec::new();
    let mut current_height = input_transform.first_line(metrics);
    let mut p: usize = 0;
    proof {
        assert(texts(result@) =~= document_paths(paragraphs@, *input_transform, *metrics, 0));
    }
    while p < paragraphs.len()
        invariant
            p <= paragraphs.len(),
            forall|q: int| 0 <= q < paragraphs.len() ==> (#[trigger] paragraphs[q]).wf(),
            current_height == document_baseline(
                paragraphs@,
                *input_transform,
                *metrics,
                p as nat,
            ),
            texts(result@) == document_paths(paragraphs@, *input_transform, *metrics, p as nat),
        decreases paragraphs.len() - p,
    {
        current_height = push_paragraph_paths(
            &mut result,
            &paragraphs[p],
            input_transform,
            metrics,
            current_height,
        );
        p += 1;
    }
    result
}

} // verus!
