//! Documents and their paragraphs: the text of a document is split into
//! directional paragraphs, and each gets its displayed text and its font.

use vstd::prelude::*;
use vstd::string::StringSliceAdditionalSpecFns;
use vstd::utf8::{
    decode_utf8, encode_utf8, encode_utf8_valid_utf8, decode_utf8_encode_utf8, valid_utf8_split,
    is_char_boundary_iff_not_is_continuation_byte,
};
use crate::fonts::FontRegistry;
use crate::separators::{separator_width, without_separator, lemma_trimmed_text};
use crate::text::{is_text_range, slice_str, lemma_boundary_in_prefix};

verus! {

/// How the lines of a document are aligned horizontally. `Normal` starts
/// each line at the side where its paragraph's direction starts. The other
/// two values are accepted, but no geometry is defined for them yet: a
/// document that asks for them is laid out as `Normal`.
#[derive(Clone, Copy, Debug, PartialEq, Eq, Structural)]
pub enum HorizontalAlignment {
    Normal,
    Reverse,
    Center,
}

/// How the lines of a document are aligned vertically. `Normal` starts at
/// the top of the box. The other two values are accepted, but no geometry is
/// defined for them yet: a document that asks for them is laid out as
/// `Normal`.
#[derive(Clone, Copy, Debug, PartialEq, Eq, Structural)]
pub enum VerticalAlignment {
    Normal,
    Reverse,
    Center,
}

impl Default for HorizontalAlignment {
    fn default() -> (r: HorizontalAlignment)
        ensures
            r == HorizontalAlignment::Normal,
    {
        HorizontalAlignment::Normal
    }
}

impl Default for VerticalAlignment {
    fn default() -> (r: VerticalAlignment)
        ensures
            r == VerticalAlignment::Normal,
    {
        VerticalAlignment::Normal
    }
}

/// A document to lay out.
pub struct Input {
    /// The text, paragraph after paragraph.
    pub text: String,
    /// The name of the font of each paragraph, in order.
    pub paragraphs_fonts: Vec<String>,
    pub horizontal_alignment: HorizontalAlignment,
    pub vertical_alignment: VerticalAlignment,
    /// The name of the font for a paragraph whose own font is not registered.
    pub fallback_font: String,
}

/// One paragraph as the bidirectional algorithm delimits it: a byte range of
/// the text, which ends behind the paragraph's separator if it has one, and
/// the direction of the paragraph.
#[derive(Clone, Copy, Debug, PartialEq, Eq, Structural)]
pub struct BidiParagraph {
    pub start: usize,
    pub end: usize,
    pub is_rtl: bool,
}

/// One paragraph ready for shaping.
pub struct LayoutParagraph {
    /// The text to display: the paragraph without its separator.
    pub text: String,
    /// The place of the paragraph's font in the registry.
    pub font: usize,
    pub is_rtl: bool,
}

/// The paragraphs that the bidirectional algorithm finds in `text`, in order.
pub uninterp spec fn bidi_runs(text: Seq<char>) -> Seq<BidiParagraph>;

/// Runs `unicode_bidi::BidiInfo::new_with_data_source` on `text`, with the
/// character classes of `icu::properties::maps::bidi_class` behind
/// `icu::properties::bidi::BidiClassAdapter`, and reports each paragraph's
/// byte range and whether `unicode_bidi::Level::is_rtl` holds of its level.
/// The result is a function of the text. Each range is cut between two
/// characters that the algorithm walked over, so it is not empty, lies within
/// the text and on character boundaries.
#[verifier::external_body]
fn bidi_paragraphs(text: &str) -> (runs: Vec<BidiParagraph>)
    ensures
        runs@ == bidi_runs(text@),
        forall|i: int|
            0 <= i < runs.len() ==> (#[trigger] runs[i]).start < runs[i].end && is_text_range(
                text.spec_bytes(),
                runs[i].start as int,
                runs[i].end as int,
            ),
{
    let adapter = icu::properties::bidi::BidiClassAdapter::new(
        icu::properties::maps::bidi_class(),
    );
    let info = unicode_bidi::BidiInfo::new_with_data_source(&adapter, text, None);
    info.paragraphs.iter().map(
        |paragraph|
            BidiParagraph {
                start: paragraph.range.start,
                end: paragraph.range.end,
                is_rtl: paragraph.level.is_rtl(),
            },
    ).collect()
}

/// The characters of the paragraph `run` of `text`, its separator included.
pub open spec fn paragraph_text(text: Seq<char>, run: BidiParagraph) -> Seq<char> {
    decode_utf8(encode_utf8(text).subrange(run.start as int, run.end as int))
}

/// The displayed text of the paragraph `run` of `text`: the paragraph
/// without its trailing paragraph separator.
pub open spec fn display_text(text: Seq<char>, run: BidiParagraph) -> Seq<char> {
    without_separator(paragraph_text(text, run))
}

/// The displayed text of the paragraph `run` of `text`: the paragraph
/// without its trailing paragraph separator.
pub fn display_str<'a>(text: &'a str, run: &BidiParagraph) -> (r: &'a str)
    requires
        is_text_range(text.spec_bytes(), run.start as int, run.end as int),
    ensures
        r@ == display_text(text@, *run),
{
    let bytes = text.as_bytes();
    let start = run.start;
    let end = run.end;
    let width: usize = if end - start >= 1 && (bytes[end - 1] == 0x0a || bytes[end - 1] == 0x0d
        || bytes[end - 1] == 0x1c || bytes[end - 1] == 0x1d || bytes[end - 1] == 0x1e) {
        1
    } else if end - start >= 2 && bytes[end - 2] == 0xc2 && bytes[end - 1] == 0x85 {
        2
    } else if end - start >= 3 && bytes[end - 3] == 0xe2 && bytes[end - 2] == 0x80 && bytes[end
        - 1] == 0xa9 {
        3
    } else {
        0
    };
    proof {
        let whole = text.spec_bytes().subrange(start as int, end as int);
        let paragraph = paragraph_text(text@, *run);
        encode_utf8_valid_utf8(text@);
        assert(width == separator_width(text.spec_bytes(), start as int, end as int));
        if width > 0 {
            is_char_boundary_iff_not_is_continuation_byte(text.spec_bytes(), end - width);
        }
        // The paragraph's bytes are the encoding of its characters.
        valid_utf8_split(text.spec_bytes(), end as int);
        lemma_boundary_in_prefix(text.spec_bytes(), start as int, end as int);
        valid_utf8_split(text.spec_bytes().subrange(0, end as int), start as int);
        assert(whole =~= text.spec_bytes().subrange(0, end as int).subrange(
            start as int,
            end as int,
        ));
        decode_utf8_encode_utf8(whole);
        lemma_trimmed_text(paragraph);
        assert(separator_width(whole, 0, whole.len() as int) == width);
        assert(whole.subrange(0, whole.len() - width) =~= text.spec_bytes().subrange(
            start as int,
            end - width,
        ));
    }
    slice_str(text, start, end - width)
}

impl Input {
    /// The name of the font that paragraph `i` asks for: its entry in
    /// `paragraphs_fonts`, or the fallback font where the list is too short.
    pub open spec fn font_name(&self, i: int) -> Seq<char> {
        if 0 <= i < self.paragraphs_fonts.len() {
            self.paragraphs_fonts[i]@
        } else {
            self.fallback_font@
        }
    }
}

/// Whether `paragraphs` are the paragraphs `runs` of the document `input`,
/// ready for shaping: each with its displayed text, its direction, and the
/// font that the fallback chain of `fonts` ends with for it.
pub open spec fn is_resolution_of(
    paragraphs: Seq<LayoutParagraph>,
    input: &Input,
    runs: Seq<BidiParagraph>,
    fonts: &FontRegistry,
) -> bool {
    &&& paragraphs.len() == runs.len()
    &&& forall|i: int|
        0 <= i < paragraphs.len() ==> {
            &&& (#[trigger] paragraphs[i]).text@ == display_text(input.text@, runs[i])
            &&& paragraphs[i].is_rtl == runs[i].is_rtl
            &&& paragraphs[i].font < fonts.ids().len()
            &&& paragraphs[i].font < fonts.fonts().len()
            &&& fonts.ids()[paragraphs[i].font as int] == fonts.resolved_id(
                input.font_name(i),
                input.fallback_font@,
            )
        }
}

/// Prepares the paragraphs `runs` of a document for shaping.
pub fn resolve_paragraphs(input: &Input, runs: &Vec<BidiParagraph>, fonts: &FontRegistry) -> (r:
    Vec<LayoutParagraph>)
    requires
        fonts.wf(),
        forall|i: int|
            0 <= i < runs.len() ==> is_text_range(
                encode_utf8(input.text@),
                (#[trigger] runs[i]).start as int,
                runs[i].end as int,
            ),
    ensures
        is_resolution_of(r@, input, runs@, fonts),
{
    let mut result: Vec<LayoutParagraph> = Vec::new();
    let text = input.text.as_str();
    let mut i: usize = 0;
    while i < runs.len()
        invariant
            i <= runs.len(),
            fonts.wf(),
            text@ == input.text@,
            forall|k: int|
                0 <= k < runs.len() ==> is_text_range(
                    text.spec_bytes(),
                    (#[trigger] runs[k]).start as int,
                    runs[k].end as int,
                ),
            is_resolution_of(result@, input, runs@.take(i as int), fonts),
        decreases runs.len() - i,
    {
        let display = display_str(text, &runs[i]);
        let fallback = input.fallback_font.as_str();
        let font = if i < input.paragraphs_fonts.len() {
            fonts.resolve(input.paragraphs_fonts[i].as_str(), fallback)
        } else {
            fonts.resolve(fallback, fallback)
        };
        result.push(LayoutParagraph { text: display.to_owned(), font, is_rtl: runs[i].is_rtl });
        i += 1;
    }
    proof {
        assert(runs@.take(runs.len() as int) =~= runs@);
    }
    result
}

/// Splits the text of a document into its paragraphs and prepares each for
/// shaping.
pub fn resolve_document(input: &Input, fonts: &FontRegistry) -> (r: Vec<LayoutParagraph>)
    requires
        fonts.wf(),
    ensures
        is_resolution_of(r@, input, bidi_runs(input.text@), fonts),
        input.text@.len() == 0 ==> r.len() == 0,
{
    let runs = bidi_paragraphs(input.text.as_str());
    proof {
        if input.text@.len() == 0 && runs.len() > 0 {
            assert(encode_utf8(input.text@) =~= Seq::<u8>::empty());
            assert(runs[0].start < runs[0].end);
        }
    }
    resolve_paragraphs(input, &runs, fonts)
}

} // verus!
