//! Shaping: a paragraph's text is cut at its line-break opportunities, each
//! piece is shaped into glyphs, and each glyph's outline is mapped from font
//! space to screen space, relative to the start of its fragment.

use vstd::prelude::*;
use vstd::string::StringSliceAdditionalSpecFns;
use vstd::utf8::{
    decode_utf8, encode_utf8, encode_utf8_valid_utf8, is_char_boundary_start_end_of_seq,
};
use crate::fixed::{Fixed, ONE, sub_spec, sat_sub, from_int};
use crate::fonts::{Font, outline_at};
use crate::layout::InputTransform;
use crate::paragraph::{ShapedFragment, total_advance};
use crate::path::{
    FontScale, GlyphPath, GlyphPathView, GlyphTransform, PathCmd, Point, path_text,
    transform_cmds,
};
use crate::text::{is_text_range, is_range_of, slice_str};

verus! {

/// The shaping engine's text directions.
#[verifier::external_type_specification]
pub struct ExDirection(rustybuzz::Direction);

/// The shaping engine's cluster levels.
#[verifier::external_type_specification]
pub struct ExBufferClusterLevel(rustybuzz::BufferClusterLevel);

/// The units per em of a face.
pub uninterp spec fn face_units_per_em(face: &rustybuzz::Face) -> i32;

/// `rustybuzz::Face::units_per_em` returns the units per em of the face's
/// `head` table, which the font parser accepts only from 16 to 16384. The
/// value is kept from the time the face was made and never set again.
pub assume_specification<'a>[ rustybuzz::Face::<'a>::units_per_em ](
    face: &rustybuzz::Face<'a>,
) -> (upem: i32)
    ensures
        upem == face_units_per_em(face),
        16 <= upem <= 16384,
;

/// One shaped glyph as the shaping engine reports it, in font units.
#[derive(Clone, Copy, Debug, PartialEq, Eq, Structural)]
pub struct GlyphRecord {
    pub glyph_id: u32,
    pub x_advance: i32,
    pub y_advance: i32,
    pub x_offset: i32,
    pub y_offset: i32,
}

/// The glyphs that the shaping engine makes of `text` with `face` and without
/// font features, where `pre` stands before the text and `post` behind it,
/// the text runs in `direction` and clusters are kept at `cluster_level`.
pub uninterp spec fn shaped_records(
    face: &rustybuzz::Face,
    pre: Seq<char>,
    text: Seq<char>,
    post: Seq<char>,
    direction: rustybuzz::Direction,
    cluster_level: rustybuzz::BufferClusterLevel,
) -> Seq<GlyphRecord>;

/// Fills a `rustybuzz::UnicodeBuffer::new` with `set_pre_context`, `push_str`
/// and `set_post_context`, lets `guess_segment_properties` find script and
/// language, sets direction and cluster level with `set_direction` and
/// `set_cluster_level`, hands the buffer to `rustybuzz::shape` with no
/// features, and reads `glyph_positions` and `glyph_infos` of what comes
/// back, one record for each pair. The result is a function of the
/// arguments; nothing else is claimed of it. Only the two horizontal
/// directions are handed over.
#[verifier::external_body]
fn shape_piece(
    face: &rustybuzz::Face,
    pre: &str,
    text: &str,
    post: &str,
    direction: rustybuzz::Direction,
    cluster_level: rustybuzz::BufferClusterLevel,
) -> (records: Vec<GlyphRecord>)
    requires
        direction == rustybuzz::Direction::LeftToRight || direction
            == rustybuzz::Direction::RightToLeft,
    ensures
        records@ == shaped_records(face, pre@, text@, post@, direction, cluster_level),
{
    let mut buffer = rustybuzz::UnicodeBuffer::new();
    buffer.set_pre_context(pre);
    buffer.push_str(text);
    buffer.set_post_context(post);
    buffer.guess_segment_properties();
    buffer.set_direction(direction);
    buffer.set_cluster_level(cluster_level);
    let glyphs = rustybuzz::shape(face, &[], buffer);
    glyphs.glyph_positions().iter().zip(glyphs.glyph_infos()).map(|(p, i)| GlyphRecord {
        glyph_id: i.glyph_id, x_advance: p.x_advance, y_advance: p.y_advance,
        x_offset: p.x_offset, y_offset: p.y_offset,
    }).collect()
}

/// The byte offsets at which the line segmenter allows a line of `text` to
/// break, in the order in which it reports them.
pub uninterp spec fn line_breaks(text: Seq<char>) -> Seq<usize>;

/// Asks `icu::segmenter::LineSegmenter::new_auto` for a segmenter and collects
/// what its `segment_str` reports for `text`. The result is a function of the
/// text; nothing else is claimed of it.
#[verifier::external_body]
fn line_break_offsets(text: &str) -> (breaks: Vec<usize>)
    ensures
        breaks@ == line_breaks(text@),
{
    icu::segmenter::LineSegmenter::new_auto().segment_str(text).collect()
}

/// A piece of a text between two byte offsets.
#[derive(Clone, Copy, Debug, PartialEq, Eq, Structural)]
pub struct Segment {
    pub start: usize,
    pub end: usize,
}

/// Where the piece after the first `count` break offsets starts: at the last
/// of them that could end a piece, or at 0.
pub open spec fn segment_start(bytes: Seq<u8>, breaks: Seq<usize>, count: nat) -> int
    decreases count,
{
    if count == 0 {
        0
    } else {
        let start = segment_start(bytes, breaks, (count - 1) as nat);
        if is_text_range(bytes, start, breaks[count - 1] as int) {
            breaks[count - 1] as int
        } else {
            start
        }
    }
}

/// The pieces that the first `count` break offsets cut a text into. An offset
/// ends the piece that starts at the offset before it. Empty pieces are left
/// out, and so is an offset that cannot end a piece: one that lies before the
/// start of the piece, beyond the text, or inside a character.
pub open spec fn segments_upto(bytes: Seq<u8>, breaks: Seq<usize>, count: nat) -> Seq<Segment>
    decreases count,
{
    if count == 0 {
        Seq::<Segment>::empty()
    } else {
        let before = segments_upto(bytes, breaks, (count - 1) as nat);
        let start = segment_start(bytes, breaks, (count - 1) as nat);
        let end = breaks[count - 1] as int;
        if is_text_range(bytes, start, end) && start < end {
            before.push(Segment { start: start as usize, end: end as usize })
        } else {
            before
        }
    }
}

/// An empty text has no pieces, whatever the break offsets are.
pub proof fn lemma_empty_text_has_no_pieces(breaks: Seq<usize>, count: nat)
    ensures
        segment_start(Seq::<u8>::empty(), breaks, count) == 0,
        segments_upto(Seq::<u8>::empty(), breaks, count) == Seq::<Segment>::empty(),
    decreases count,
{
    if count > 0 {
        lemma_empty_text_has_no_pieces(breaks, (count - 1) as nat);
    }
}

/// Whether `pieces` are pieces of the text `bytes` in the order of the text:
/// each is not empty, lies between two characters and ends at or before
/// `limit`, and each starts at or behind the end of the one before it.
pub open spec fn pieces_in_order(pieces: Seq<Segment>, bytes: Seq<u8>, limit: int) -> bool {
    &&& forall|i: int|
        0 <= i < pieces.len() ==> (#[trigger] pieces[i]).start < pieces[i].end <= limit
            && is_text_range(bytes, pieces[i].start as int, pieces[i].end as int)
    &&& forall|i: int, j: int|
        0 <= i < j < pieces.len() ==> (#[trigger] pieces[i]).end <= (#[trigger] pieces[j]).start
}

/// Whatever the break offsets are, the pieces that they cut a text into are
/// pieces of the text in the order of the text, and none reaches beyond the
/// start of the piece to come.
pub proof fn lemma_pieces_in_order(bytes: Seq<u8>, breaks: Seq<usize>, count: nat)
    requires
        count <= breaks.len(),
    ensures
        0 <= segment_start(bytes, breaks, count) <= bytes.len(),
        segment_start(bytes, breaks, count) <= usize::MAX,
        pieces_in_order(
            segments_upto(bytes, breaks, count),
            bytes,
            segment_start(bytes, breaks, count),
        ),
    decreases count,
{
    if count > 0 {
        lemma_pieces_in_order(bytes, breaks, (count - 1) as nat);
        let before = segments_upto(bytes, breaks, (count - 1) as nat);
        let pieces = segments_upto(bytes, breaks, count);
        let start = segment_start(bytes, breaks, (count - 1) as nat);
        let end = breaks[count - 1] as int;
        if is_text_range(bytes, start, end) && start < end {
            let piece = Segment { start: start as usize, end: end as usize };
            assert(pieces[pieces.len() - 1] == piece);
            assert forall|i: int| 0 <= i < before.len() implies pieces[i] == before[i] by {}
        }
    }
}

/// The pieces that `breaks` cut `text` into.
pub fn segments(text: &str, breaks: &Vec<usize>) -> (r: Vec<Segment>)
    ensures
        r@ == segments_upto(text.spec_bytes(), breaks@, breaks.len() as nat),
        pieces_in_order(r@, text.spec_bytes(), text.spec_bytes().len() as int),
{
    let mut result: Vec<Segment> = Vec::new();
    let mut start: usize = 0;
    let mut i: usize = 0;
    while i < breaks.len()
        invariant
            i <= breaks.len(),
            start == segment_start(text.spec_bytes(), breaks@, i as nat),
            result@ == segments_upto(text.spec_bytes(), breaks@, i as nat),
        decreases breaks.len() - i,
    {
        let end = breaks[i];
        if is_range_of(text, start, end) {
            if start < end {
                result.push(Segment { start, end });
            }
            start = end;
        }
        i += 1;
    }
    proof {
        lemma_pieces_in_order(text.spec_bytes(), breaks@, breaks.len() as nat);
    }
    result
}

/// The font-space to screen-space ratio of a face at a text size: the text
/// size in pixels per em over the face's units per em.
pub open spec fn font_scale(face: &rustybuzz::Face, text_size: usize) -> FontScale {
    FontScale { ppem: text_size, upem: face_units_per_em(face) }
}

/// The font-space to screen-space ratio of a face at a text size.
pub fn from_font_space_to_screen_space(face: &rustybuzz::Face, text_size: usize) -> (r: FontScale)
    ensures
        r == font_scale(face, text_size),
        r.wf(),
{
    FontScale { ppem: text_size, upem: face.units_per_em() }
}

/// A whole number of font units as a fixed-point value.
pub open spec fn font_units(v: i32) -> Fixed {
    (v * ONE) as i64
}

/// The screen-space advance of a shaped glyph: its font-space advance scaled,
/// with the Y axis flipped.
pub open spec fn advance_of(record: GlyphRecord, scale: FontScale) -> Point {
    Point {
        x: scale.scaled(font_units(record.x_advance) as int) as i64,
        y: sub_spec(0, scale.scaled(font_units(record.y_advance) as int)) as i64,
    }
}

/// Where glyph `count` of a fragment starts, relative to the start of the
/// fragment: at the sum of the advances of the glyphs before it.
pub open spec fn pen_at(records: Seq<GlyphRecord>, scale: FontScale, count: nat) -> Point
    decreases count,
{
    if count == 0 {
        Point { x: 0, y: 0 }
    } else {
        pen_at(records, scale, (count - 1) as nat).translated(
            advance_of(records[count - 1], scale),
        )
    }
}

/// The transform of a shaped glyph that starts at `origin`.
pub open spec fn glyph_transform(record: GlyphRecord, scale: FontScale, origin: Point)
    -> GlyphTransform {
    GlyphTransform {
        origin,
        scale,
        offset: Point { x: font_units(record.x_offset), y: font_units(record.y_offset) },
    }
}

/// What shaping makes of one glyph that starts at `origin`: its outline, taken
/// from `outlines` by its glyph id, mapped to screen space; the path string
/// of that outline; and its advance along X.
pub open spec fn shaped_glyph(
    record: GlyphRecord,
    outlines: Seq<Vec<PathCmd>>,
    scale: FontScale,
    origin: Point,
) -> GlyphPathView {
    let transform = glyph_transform(record, scale, origin);
    let cmds = transform_cmds(outline_at(outlines, record.glyph_id), transform);
    GlyphPathView {
        glyph_id: record.glyph_id,
        text: path_text(cmds),
        transform,
        cmds,
        advance_x: advance_of(record, scale).x,
    }
}

/// Whether `glyphs` are what shaping makes of `records`, glyph by glyph, each
/// starting where the one before it ends.
pub open spec fn glyphs_shaped_from(
    glyphs: Seq<GlyphPath>,
    records: Seq<GlyphRecord>,
    outlines: Seq<Vec<PathCmd>>,
    scale: FontScale,
) -> bool {
    &&& glyphs.len() == records.len()
    &&& forall|i: int|
        0 <= i < glyphs.len() ==> (#[trigger] glyphs[i])@ == shaped_glyph(
            records[i],
            outlines,
            scale,
            pen_at(records, scale, i as nat),
        )
}

/// Whether `fragment` is what shaping makes of `records`.
pub open spec fn fragment_shaped_from(
    fragment: ShapedFragment,
    records: Seq<GlyphRecord>,
    outlines: Seq<Vec<PathCmd>>,
    scale: FontScale,
) -> bool {
    &&& glyphs_shaped_from(fragment.glyphs@, records, outlines, scale)
    &&& fragment.length == total_advance(fragment.glyphs@)
}

fn font_unit_value(v: i32) -> (r: Fixed)
    ensures
        r == font_units(v),
{
    from_int(v)
}

/// Maps shaped glyphs to screen space. Each glyph gets the outline that
/// `outlines` holds for its glyph id, moved by the glyph's offset, scaled by
/// `scale` with the Y axis flipped, and placed where the glyph before it
/// ends; the first glyph starts at the origin.
pub fn perform_shaping(records: &Vec<GlyphRecord>, outlines: &Vec<Vec<PathCmd>>, scale: FontScale)
    -> (r: Vec<GlyphPath>)
    requires
        scale.wf(),
    ensures
        glyphs_shaped_from(r@, records@, outlines@, scale),
{
    let mut result: Vec<GlyphPath> = Vec::new();
    let mut baseline = Point { x: 0, y: 0 };
    let empty: Vec<PathCmd> = Vec::new();
    let mut i: usize = 0;
    while i < records.len()
        invariant
            i <= records.len(),
            scale.wf(),
            empty@ == Seq::<PathCmd>::empty(),
            baseline == pen_at(records@, scale, i as nat),
            result.len() == i,
            forall|k: int|
                0 <= k < i ==> (#[trigger] result[k])@ == shaped_glyph(
                    records[k],
                    outlines@,
                    scale,
                    pen_at(records@, scale, k as nat),
                ),
        decreases records.len() - i,
    {
        let record = records[i];
        let advance = Point {
            x: scale.apply(font_unit_value(record.x_advance)),
            y: sat_sub(0, scale.apply(font_unit_value(record.y_advance))),
        };
        let transform = GlyphTransform {
            origin: baseline,
            scale,
            offset: Point {
                x: font_unit_value(record.x_offset),
                y: font_unit_value(record.y_offset),
            },
        };
        let mut glyph_path = GlyphPath::new(record.glyph_id, transform, advance.x);
        let outline = if (record.glyph_id as usize) < outlines.len() {
            &outlines[record.glyph_id as usize]
        } else {
            &empty
        };
        glyph_path.outline(outline);
        proof {
            let cmds = transform_cmds(outline_at(outlines@, record.glyph_id), transform);
            assert(outline@ == outline_at(outlines@, record.glyph_id));
            assert(glyph_path@.cmds =~= cmds);
            assert(glyph_path@.text =~= path_text(cmds));
            assert(glyph_path@ == shaped_glyph(record, outlines@, scale, baseline));
        }
        result.push(glyph_path);
        baseline = baseline.translate(advance);
        i += 1;
    }
    result
}

/// The fragment that shaping makes of the glyph records of one piece of text.
pub fn shape_fragment(records: &Vec<GlyphRecord>, outlines: &Vec<Vec<PathCmd>>, scale: FontScale)
    -> (r: ShapedFragment)
    requires
        scale.wf(),
    ensures
        fragment_shaped_from(r, records@, outlines@, scale),
{
    ShapedFragment::new(perform_shaping(records, outlines, scale))
}

/// The direction that the shaping engine is told for a paragraph.
pub open spec fn direction_of(is_rtl: bool) -> rustybuzz::Direction {
    if is_rtl {
        rustybuzz::Direction::RightToLeft
    } else {
        rustybuzz::Direction::LeftToRight
    }
}

/// The glyphs that the shaping engine makes of the piece `piece` of `text`
/// with `face`. It is given the piece; all the text before the piece and all
/// the text behind it as context, so that glyph forms that depend on a
/// neighbour across the cut come out right; the direction of the paragraph;
/// and clusters at the level of characters.
pub open spec fn piece_records(
    face: &rustybuzz::Face,
    text: Seq<char>,
    piece: Segment,
    is_rtl: bool,
) -> Seq<GlyphRecord> {
    let bytes = encode_utf8(text);
    shaped_records(
        face,
        decode_utf8(bytes.subrange(0, piece.start as int)),
        decode_utf8(bytes.subrange(piece.start as int, piece.end as int)),
        decode_utf8(bytes.subrange(piece.end as int, bytes.len() as int)),
        direction_of(is_rtl),
        rustybuzz::BufferClusterLevel::MonotoneCharacters,
    )
}

/// Shapes the piece `segment` of `text` with `face`.
fn shape_segment(text: &str, segment: Segment, face: &rustybuzz::Face, is_rtl: bool) -> (r: Vec<
    GlyphRecord,
>)
    requires
        is_text_range(text.spec_bytes(), segment.start as int, segment.end as int),
    ensures
        r@ == piece_records(face, text@, segment, is_rtl),
{
    proof {
        encode_utf8_valid_utf8(text@);
        is_char_boundary_start_end_of_seq(text.spec_bytes());
    }
    let len = text.as_bytes().len();
    let pre_context = slice_str(text, 0, segment.start);
    let current_text = slice_str(text, segment.start, segment.end);
    let post_context = slice_str(text, segment.end, len);
    let direction = if is_rtl {
        rustybuzz::Direction::RightToLeft
    } else {
        rustybuzz::Direction::LeftToRight
    };
    shape_piece(
        face,
        pre_context,
        current_text,
        post_context,
        direction,
        rustybuzz::BufferClusterLevel::MonotoneCharacters,
    )
}

/// Whether `fragments` are the shaped fragments of the paragraph `text` in
/// `font` at `text_size` pixels per em: there is one fragment for each piece
/// that the line segmenter cuts the text into, in the order of the text, and
/// each is what shaping makes of the glyphs that the shaping engine returns
/// for its piece, with the outlines of the font and at the scale of the
/// font's face.
pub open spec fn is_shaping_of(
    fragments: Seq<ShapedFragment>,
    text: Seq<char>,
    font: &Font,
    text_size: usize,
    is_rtl: bool,
) -> bool {
    let pieces = segments_upto(encode_utf8(text), line_breaks(text), line_breaks(text).len());
    &&& fragments.len() == pieces.len()
    &&& forall|i: int|
        0 <= i < fragments.len() ==> fragment_shaped_from(
            #[trigger] fragments[i],
            piece_records(&font.face, text, pieces[i], is_rtl),
            font.outlines@,
            font_scale(&font.face, text_size),
        )
}

/// Shapes the text of one paragraph into fragments: one fragment for each
/// non-empty piece between two line-break opportunities, in the order of the
/// text.
pub fn shape_static_text(
    text: &str,
    font: &Font,
    input_transform: &InputTransform,
    is_rtl: bool,
) -> (r: Vec<ShapedFragment>)
    ensures
        is_shaping_of(r@, text@, font, input_transform.size, is_rtl),
        text@.len() == 0 ==> r.len() == 0,
{
    let mut result: Vec<ShapedFragment> = Vec::new();
    let breaks = line_break_offsets(text);
    let pieces = segments(text, &breaks);
    proof {
        if text@.len() == 0 {
            assert(text.spec_bytes() =~= Seq::<u8>::empty());
            lemma_empty_text_has_no_pieces(breaks@, breaks.len() as nat);
        }
    }
    let scale = from_font_space_to_screen_space(&font.face, input_transform.size);
    let mut i: usize = 0;
    while i < pieces.len()
        invariant
            i <= pieces.len(),
            scale.wf(),
            scale == font_scale(&font.face, input_transform.size),
            result.len() == i,
            pieces_in_order(pieces@, text.spec_bytes(), text.spec_bytes().len() as int),
            forall|k: int|
                0 <= k < i ==> fragment_shaped_from(
                    #[trigger] result[k],
                    piece_records(&font.face, text@, pieces[k], is_rtl),
                    font.outlines@,
                    scale,
                ),
        decreases pieces.len() - i,
    {
        let records = shape_segment(text, pieces[i], &font.face, is_rtl);
        let fragment = shape_fragment(&records, &font.outlines, scale);
        result.push(fragment);
        i += 1;
    }
    result
}

} // verus!
