//! The layout engine: a font registry and the documents to lay out, and the
//! whole way from a document to its path strings.

use vstd::prelude::*;
use crate::document::{Input, LayoutParagraph, bidi_runs, is_resolution_of, resolve_document};
use crate::fixed::Fixed;
use crate::fonts::FontRegistry;
use crate::layout::{
    InputTransform, LayoutMetrics, LINE_HEIGHT_PER_PIXEL, PAD, document_paths, layout_paragraphs,
    texts,
};
use crate::paragraph::{ParagraphInfo, fragment_lengths, wrap_lines};
use crate::shaping::{is_shaping_of, shape_static_text};

verus! {

/// The fonts and the documents that the engine works on, and the measures
/// that it lays text out with.
pub struct AppState<'a> {
    pub fonts: FontRegistry<'a>,
    pub inputs: Vec<Input>,
    pub metrics: LayoutMetrics,
}

/// Whether `shaped` is the paragraph `paragraph` after shaping and wrapping
/// for the box `transform`: it has the paragraph's direction, its fragments
/// are the shaped fragments of the paragraph's text in the paragraph's font,
/// and its lines are those fragments wrapped to the usable width of the box.
pub open spec fn is_wrapping_of(
    shaped: ParagraphInfo,
    paragraph: LayoutParagraph,
    fonts: &FontRegistry,
    transform: InputTransform,
    metrics: LayoutMetrics,
) -> bool {
    &&& shaped.is_rtl == paragraph.is_rtl
    &&& is_shaping_of(
        shaped.shaped_fragments@,
        paragraph.text@,
        &fonts.fonts()[paragraph.font as int],
        transform.size,
        paragraph.is_rtl,
    )
    &&& shaped.lines@ == wrap_lines(
        fragment_lengths(shaped.shaped_fragments@),
        transform.max_line_length_spec(metrics) as Fixed,
    )
}

/// Whether `paths` are the layout of `paragraphs` in the box `transform`:
/// the path strings of the paragraphs, each shaped and wrapped, stacked in
/// order.
pub open spec fn is_layout_of(
    paths: Seq<Seq<char>>,
    paragraphs: Seq<LayoutParagraph>,
    fonts: &FontRegistry,
    transform: InputTransform,
    metrics: LayoutMetrics,
) -> bool {
    exists|shaped: Seq<ParagraphInfo>|
        {
            &&& shaped.len() == paragraphs.len()
            &&& forall|i: int|
                0 <= i < shaped.len() ==> is_wrapping_of(
                    #[trigger] shaped[i],
                    paragraphs[i],
                    fonts,
                    transform,
                    metrics,
                )
            &&& paths == document_paths(shaped, transform, metrics, shaped.len())
        }
}

/// Whether `paths` are the layout of `document` in the box `transform`: the
/// layout of the paragraphs that the bidirectional algorithm finds in the
/// document's text, each with its displayed text, its direction and its font.
pub open spec fn is_layout_of_document(
    paths: Seq<Seq<char>>,
    document: &Input,
    fonts: &FontRegistry,
    transform: InputTransform,
    metrics: LayoutMetrics,
) -> bool {
    exists|paragraphs: Seq<LayoutParagraph>|
        {
            &&& is_resolution_of(paragraphs, document, bidi_runs(document.text@), fonts)
            &&& #[trigger] is_layout_of(paths, paragraphs, fonts, transform, metrics)
        }
}

impl<'a> AppState<'a> {
    /// An engine with the given fonts and documents, and the usual measures:
    /// a padding of 12 pixels, and lines 1.25 times as high as the font size.
    pub fn new(fonts: FontRegistry<'a>, inputs: Vec<Input>) -> (r: AppState<'a>)
        ensures
            r.fonts == fonts,
            r.inputs == inputs,
            r.metrics == (LayoutMetrics {
                padding: PAD,
                line_height_per_pixel: LINE_HEIGHT_PER_PIXEL,
            }),
    {
        AppState { fonts, inputs, metrics: LayoutMetrics::default() }
    }

    /// An engine with the given fonts and documents, and measures of its own.
    pub fn with_metrics(fonts: FontRegistry<'a>, inputs: Vec<Input>, metrics: LayoutMetrics) -> (r:
        AppState<'a>)
        ensures
            r.fonts == fonts,
            r.inputs == inputs,
            r.metrics == metrics,
    {
        AppState { fonts, inputs, metrics }
    }

    /// Lays out `document` in the box `input_transform`: the path strings of
    /// its glyphs, in reading order. The document is split into its
    /// paragraphs, each paragraph gets its displayed text and its font, is
    /// shaped and wrapped, and the lines of all paragraphs are placed in the
    /// box.
    pub fn layout(&self, input_transform: &InputTransform, document: &Input) -> (r: Vec<String>)
        requires
            self.fonts.wf(),
        ensures
            is_layout_of_document(
                texts(r@),
                document,
                &self.fonts,
                *input_transform,
                self.metrics,
            ),
            document.text@.len() == 0 ==> r.len() == 0,
    {
        let layout_paragraphs = resolve_document(document, &self.fonts);
        let r = self.perform_layout_on_paragraphs(input_transform, &layout_paragraphs);
        proof {
            assert(is_layout_of(
                texts(r@),
                layout_paragraphs@,
                &self.fonts,
                *input_transform,
                self.metrics,
            ));
        }
        r
    }

    /// Lays out document `input` of the engine in the box `input_transform`.
    pub fn resolve_input(&self, input_transform: &InputTransform, input: usize) -> (r: Vec<String>)
        requires
            self.fonts.wf(),
            input < self.inputs.len(),
        ensures
            is_layout_of_document(
                texts(r@),
                &self.inputs[input as int],
                &self.fonts,
                *input_transform,
                self.metrics,
            ),
            self.inputs[input as int].text@.len() == 0 ==> r.len() == 0,
    {
        self.layout(input_transform, &self.inputs[input])
    }

    /// Shapes and wraps each paragraph for the box `input_transform`, then
    /// places all their lines in it.
    pub fn perform_layout_on_paragraphs(
        &self,
        input_transform: &InputTransform,
        paragraphs: &Vec<LayoutParagraph>,
    ) -> (r: Vec<String>)
        requires
            self.fonts.wf(),
            forall|i: int|
                0 <= i < paragraphs.len() ==> (#[trigger] paragraphs[i]).font
                    < self.fonts.fonts().len(),
        ensures
            is_layout_of(texts(r@), paragraphs@, &self.fonts, *input_transform, self.metrics),
            paragraphs.len() == 0 ==> r.len() == 0,
    {
        let max_line_length = input_transform.max_line_length(&self.metrics);
        let mut shaped_paragraphs: Vec<ParagraphInfo> = Vec::new();
        let mut i: usize = 0;
        while i < paragraphs.len()
            invariant
                i <= paragraphs.len(),
                self.fonts.wf(),
                max_line_length == input_transform.max_line_length_spec(self.metrics),
                forall|k: int|
                    0 <= k < paragraphs.len() ==> (#[trigger] paragraphs[k]).font
                        < self.fonts.fonts().len(),
                shaped_paragraphs.len() == i,
                forall|k: int|
                    0 <= k < i ==> is_wrapping_of(
                        #[trigger] shaped_paragraphs[k],
                        paragraphs[k],
                        &self.fonts,
                        *input_transform,
                        self.metrics,
                    ),
                forall|k: int| 0 <= k < i ==> (#[trigger] shaped_paragraphs[k]).wf(),
            decreases paragraphs.len() - i,
        {
            let paragraph = &paragraphs[i];
            let font = self.fonts.font(paragraph.font);
            let shaped_fragments = shape_static_text(
                paragraph.text.as_str(),
                font,
                input_transform,
                paragraph.is_rtl,
            );
            let shaped = ParagraphInfo::new(shaped_fragments, max_line_length, paragraph.is_rtl);
            shaped_paragraphs.push(shaped);
            i += 1;
        }
        let r = layout_paragraphs(input_transform, &self.metrics, &shaped_paragraphs);
        proof {
            let shaped = shaped_paragraphs@;
            assert(texts(r@) == document_paths(
                shaped,
                *input_transform,
                self.metrics,
                shaped.len(),
            ));
        }
        r
    }
}

} // verus!
