use rustybuzz::ttf_parser::{GlyphId, OutlineBuilder};
use wasm_paths::document::{
    resolve_document, resolve_paragraphs, BidiParagraph, HorizontalAlignment, Input,
    VerticalAlignment,
};
use wasm_paths::fixed::Fixed;
use wasm_paths::fonts::{Font, FontRegistry};
use wasm_paths::layout::{InputTransform, LayoutMetrics};
use wasm_paths::paragraph::ParagraphInfo;
use wasm_paths::path::{PathCmd, Point};
use wasm_paths::shaping::{from_font_space_to_screen_space, shape_static_text};
use wasm_paths::state::AppState;

// A small TrueType font, written out table by table: 1000 units per em,
// a triangle for each of the letters of "Hello World" and for three Hebrew
// letters, and an empty glyph for the space.

const ADVANCES: [u16; 12] = [500, 250, 700, 500, 300, 550, 900, 400, 560, 600, 610, 620];

const CHAR_MAP: [(u32, u32); 11] = [
    (0x20, 1),
    (0x48, 2),
    (0x57, 6),
    (0x64, 8),
    (0x65, 3),
    (0x6c, 4),
    (0x6f, 5),
    (0x72, 7),
    (0x5d0, 9),
    (0x5d1, 10),
    (0x5d2, 11),
];

fn put16(out: &mut Vec<u8>, v: u16) {
    out.extend_from_slice(&v.to_be_bytes());
}

fn put32(out: &mut Vec<u8>, v: u32) {
    out.extend_from_slice(&v.to_be_bytes());
}

fn put_i16(out: &mut Vec<u8>, v: i16) {
    out.extend_from_slice(&v.to_be_bytes());
}

fn head_table() -> Vec<u8> {
    let mut t = Vec::new();
    put32(&mut t, 0x0001_0000);
    put32(&mut t, 0x0001_0000);
    put32(&mut t, 0);
    put32(&mut t, 0x5f0f_3cf5);
    put16(&mut t, 0);
    put16(&mut t, 1000);
    t.extend_from_slice(&[0; 16]);
    put_i16(&mut t, 0);
    put_i16(&mut t, 0);
    put_i16(&mut t, 900);
    put_i16(&mut t, 700);
    put16(&mut t, 0);
    put16(&mut t, 8);
    put_i16(&mut t, 2);
    put_i16(&mut t, 1);
    put_i16(&mut t, 0);
    t
}

fn hhea_table() -> Vec<u8> {
    let mut t = Vec::new();
    put32(&mut t, 0x0001_0000);
    put_i16(&mut t, 800);
    put_i16(&mut t, -200);
    put_i16(&mut t, 0);
    put16(&mut t, 900);
    t.extend_from_slice(&[0; 22]);
    put16(&mut t, ADVANCES.len() as u16);
    t
}

fn maxp_table() -> Vec<u8> {
    let mut t = Vec::new();
    put32(&mut t, 0x0001_0000);
    put16(&mut t, ADVANCES.len() as u16);
    t.extend_from_slice(&[0; 26]);
    t
}

fn hmtx_table() -> Vec<u8> {
    let mut t = Vec::new();
    for advance in ADVANCES {
        put16(&mut t, advance);
        put_i16(&mut t, 0);
    }
    t
}

fn cmap_table() -> Vec<u8> {
    let mut t = Vec::new();
    put16(&mut t, 0);
    put16(&mut t, 1);
    put16(&mut t, 3);
    put16(&mut t, 10);
    put32(&mut t, 12);
    put16(&mut t, 12);
    put16(&mut t, 0);
    put32(&mut t, 16 + 12 * CHAR_MAP.len() as u32);
    put32(&mut t, 0);
    put32(&mut t, CHAR_MAP.len() as u32);
    for (code, glyph) in CHAR_MAP {
        put32(&mut t, code);
        put32(&mut t, code);
        put32(&mut t, glyph);
    }
    t
}

fn triangle(width: i16) -> Vec<u8> {
    let mut g = Vec::new();
    put_i16(&mut g, 1);
    put_i16(&mut g, 0);
    put_i16(&mut g, 0);
    put_i16(&mut g, width);
    put_i16(&mut g, 700);
    put16(&mut g, 2);
    put16(&mut g, 0);
    g.extend_from_slice(&[1, 1, 1]);
    put_i16(&mut g, 0);
    put_i16(&mut g, width);
    put_i16(&mut g, -(width / 2));
    put_i16(&mut g, 0);
    put_i16(&mut g, 0);
    put_i16(&mut g, 700);
    while g.len() % 4 != 0 {
        g.push(0);
    }
    g
}

fn glyf_and_loca() -> (Vec<u8>, Vec<u8>) {
    let mut glyf = Vec::new();
    let mut loca = Vec::new();
    for (id, advance) in ADVANCES.iter().enumerate() {
        put32(&mut loca, glyf.len() as u32);
        if id >= 2 {
            glyf.extend_from_slice(&triangle(*advance as i16 - 100));
        }
    }
    put32(&mut loca, glyf.len() as u32);
    (glyf, loca)
}

fn font_bytes() -> Vec<u8> {
    let (glyf, loca) = glyf_and_loca();
    let tables: Vec<(&[u8; 4], Vec<u8>)> = vec![
        (b"cmap", cmap_table()),
        (b"glyf", glyf),
        (b"head", head_table()),
        (b"hhea", hhea_table()),
        (b"hmtx", hmtx_table()),
        (b"loca", loca),
        (b"maxp", maxp_table()),
    ];
    let mut out = Vec::new();
    put32(&mut out, 0x0001_0000);
    put16(&mut out, tables.len() as u16);
    put16(&mut out, 64);
    put16(&mut out, 2);
    put16(&mut out, 48);
    let mut offset = 12 + 16 * tables.len();
    for (tag, data) in tables.iter() {
        out.extend_from_slice(&tag[..]);
        put32(&mut out, 0);
        put32(&mut out, offset as u32);
        put32(&mut out, data.len() as u32);
        offset += (data.len() + 3) / 4 * 4;
    }
    for (_, data) in tables.iter() {
        out.extend_from_slice(data);
        while out.len() % 4 != 0 {
            out.push(0);
        }
    }
    out
}

struct Recorder(Vec<PathCmd>);

fn fixed(v: f32) -> Fixed {
    (v as f64 * 10000.0).round() as Fixed
}

fn point(x: f32, y: f32) -> Point {
    Point { x: fixed(x), y: fixed(y) }
}

impl OutlineBuilder for Recorder {
    fn move_to(&mut self, x: f32, y: f32) {
        self.0.push(PathCmd::M(point(x, y)));
    }

    fn line_to(&mut self, x: f32, y: f32) {
        self.0.push(PathCmd::L(point(x, y)));
    }

    fn quad_to(&mut self, x1: f32, y1: f32, x: f32, y: f32) {
        self.0.push(PathCmd::Q(point(x1, y1), point(x, y)));
    }

    fn curve_to(&mut self, x1: f32, y1: f32, x2: f32, y2: f32, x: f32, y: f32) {
        self.0.push(PathCmd::C(point(x1, y1), point(x2, y2), point(x, y)));
    }

    fn close(&mut self) {
        self.0.push(PathCmd::Z);
    }
}

fn font(data: &[u8]) -> Font<'_> {
    let face = rustybuzz::Face::from_slice(data, 0).unwrap();
    let mut outlines = Vec::new();
    for id in 0..face.number_of_glyphs() {
        let mut recorder = Recorder(Vec::new());
        face.outline_glyph(GlyphId(id), &mut recorder);
        outlines.push(recorder.0);
    }
    Font { raw_data: data, face, outlines }
}

fn document(text: &str, fonts: &[&str], fallback: &str) -> Input {
    Input {
        text: text.to_string(),
        paragraphs_fonts: fonts.iter().map(|f| f.to_string()).collect(),
        horizontal_alignment: HorizontalAlignment::default(),
        vertical_alignment: VerticalAlignment::default(),
        fallback_font: fallback.to_string(),
    }
}

fn first_x(path: &str) -> f64 {
    let rest = path.strip_prefix('M').unwrap();
    rest.split(' ').next().unwrap().parse().unwrap()
}

fn first_y(path: &str) -> f64 {
    let rest = path.strip_prefix('M').unwrap();
    rest.split(' ').nth(1).unwrap().parse().unwrap()
}

#[test]
fn the_font_parses_and_has_outlines() {
    let data = font_bytes();
    let font = font(&data);
    assert_eq!(font.outlines.len(), 12);
    assert!(font.outlines[0].is_empty());
    assert!(font.outlines[1].is_empty());
    assert_eq!(
        font.outlines[2],
        vec![
            PathCmd::M(point(0.0, 0.0)),
            PathCmd::L(point(600.0, 0.0)),
            PathCmd::L(point(300.0, 700.0)),
            PathCmd::L(point(0.0, 0.0)),
            PathCmd::Z,
        ]
    );
    let scale = from_font_space_to_screen_space(&font.face, 16);
    assert_eq!(scale.ppem, 16);
    assert_eq!(scale.upem, 1000);
}

#[test]
fn resolve_returns_a_registered_name_unchanged() {
    let data = font_bytes();
    let mut registry = FontRegistry::new("pt".to_string(), font(&data));
    assert!(!registry.register("noto".to_string(), font(&data)));
    assert!(!registry.register("roboto".to_string(), font(&data)));
    assert_eq!(registry.len(), 3);
    let i = registry.resolve("noto", "roboto");
    assert_eq!(registry.id(i), "noto");
    let j = registry.resolve("roboto", "noto");
    assert_eq!(registry.id(j), "roboto");
    let k = registry.resolve("pt", "noto");
    assert_eq!(registry.id(k), "pt");
}

#[test]
fn resolve_falls_back_in_order() {
    let data = font_bytes();
    let mut registry = FontRegistry::new("pt".to_string(), font(&data));
    registry.register("noto".to_string(), font(&data));
    let i = registry.resolve("missing", "noto");
    assert_eq!(registry.id(i), "noto");
    let j = registry.resolve("missing", "also-missing");
    assert_eq!(j, 0);
    assert_eq!(registry.id(j), "pt");
    let k = registry.resolve("", "");
    assert_eq!(registry.id(k), "pt");
}

#[test]
fn register_replaces_a_font_of_the_same_name() {
    let data = font_bytes();
    let mut registry = FontRegistry::new("pt".to_string(), font(&data));
    assert!(!registry.register("noto".to_string(), font(&data)));
    let mut other = font(&data);
    other.outlines.truncate(3);
    assert!(registry.register("noto".to_string(), other));
    assert_eq!(registry.len(), 2);
    assert_eq!(registry.index_of("noto"), Some(1));
    assert_eq!(registry.font(1).outlines.len(), 3);
    assert_eq!(registry.font(0).outlines.len(), 12);
    assert_eq!(registry.index_of("seoul"), None);
}

#[test]
fn paragraphs_lose_their_separator_and_get_their_font() {
    let data = font_bytes();
    let mut registry = FontRegistry::new("pt".to_string(), font(&data));
    registry.register("noto".to_string(), font(&data));
    let input = document("Hello\n\u{5d0}\u{5d1}\u{5d2}\nWorld", &["pt", "noto", "gone"], "noto");
    let paragraphs = resolve_document(&input, &registry);
    assert_eq!(paragraphs.len(), 3);
    assert_eq!(paragraphs[0].text, "Hello");
    assert!(!paragraphs[0].is_rtl);
    assert_eq!(paragraphs[0].font, 0);
    assert_eq!(paragraphs[1].text, "\u{5d0}\u{5d1}\u{5d2}");
    assert!(paragraphs[1].is_rtl);
    assert_eq!(paragraphs[1].font, 1);
    assert_eq!(paragraphs[2].text, "World");
    assert!(!paragraphs[2].is_rtl);
    assert_eq!(paragraphs[2].font, 1);
}

#[test]
fn a_last_paragraph_that_ends_with_a_separator_is_trimmed_too() {
    let data = font_bytes();
    let registry = FontRegistry::new("pt".to_string(), font(&data));
    let input = document("Hello\n\nWorld\n", &[], "pt");
    let paragraphs = resolve_document(&input, &registry);
    assert_eq!(paragraphs.len(), 3);
    assert_eq!(paragraphs[0].text, "Hello");
    assert_eq!(paragraphs[1].text, "");
    assert_eq!(paragraphs[2].text, "World");
    assert_eq!(paragraphs[2].font, 0);
}

#[test]
fn wide_separators_are_trimmed_whole() {
    let data = font_bytes();
    let registry = FontRegistry::new("pt".to_string(), font(&data));
    let input = document("Hello\u{2029}World\u{85}", &[], "pt");
    let paragraphs = resolve_document(&input, &registry);
    assert_eq!(paragraphs.len(), 2);
    assert_eq!(paragraphs[0].text, "Hello");
    assert_eq!(paragraphs[1].text, "World");
}

#[test]
fn paragraphs_beyond_the_list_of_fonts_get_the_fallback_font() {
    let data = font_bytes();
    let mut registry = FontRegistry::new("pt".to_string(), font(&data));
    registry.register("noto".to_string(), font(&data));
    registry.register("roboto".to_string(), font(&data));
    let input = document("ab\ncd\nef\ngh", &["roboto", "gone"], "noto");
    let runs = vec![
        BidiParagraph { start: 0, end: 3, is_rtl: false },
        BidiParagraph { start: 3, end: 6, is_rtl: true },
        BidiParagraph { start: 6, end: 9, is_rtl: false },
        BidiParagraph { start: 9, end: 11, is_rtl: true },
    ];
    let paragraphs = resolve_paragraphs(&input, &runs, &registry);
    let texts: Vec<&str> = paragraphs.iter().map(|p| p.text.as_str()).collect();
    assert_eq!(texts, vec!["ab", "cd", "ef", "gh"]);
    let fonts: Vec<usize> = paragraphs.iter().map(|p| p.font).collect();
    assert_eq!(fonts, vec![2, 1, 1, 1]);
    let directions: Vec<bool> = paragraphs.iter().map(|p| p.is_rtl).collect();
    assert_eq!(directions, vec![false, true, false, true]);

    let input = document("ab\ncd\n", &["gone"], "gone too");
    let paragraphs = resolve_paragraphs(&input, &runs[..2].to_vec(), &registry);
    let fonts: Vec<usize> = paragraphs.iter().map(|p| p.font).collect();
    assert_eq!(fonts, vec![0, 0]);
    assert!(resolve_paragraphs(&input, &vec![], &registry).is_empty());
}

#[test]
fn an_empty_document_has_no_paragraphs() {
    let data = font_bytes();
    let registry = FontRegistry::new("pt".to_string(), font(&data));
    let input = document("", &["pt"], "pt");
    assert_eq!(resolve_document(&input, &registry).len(), 0);
}

#[test]
fn text_is_shaped_piece_by_piece() {
    let data = font_bytes();
    let font = font(&data);
    let transform = InputTransform { x: 0, y: 0, w: 600, h: 100, size: 16 };
    let fragments = shape_static_text("Hello World", &font, &transform, false);
    assert_eq!(fragments.len(), 2);
    let ids: Vec<u32> = fragments[0].glyphs.iter().map(|g| g.glyph_id).collect();
    assert_eq!(ids, vec![2, 3, 4, 4, 5, 1]);
    let ids: Vec<u32> = fragments[1].glyphs.iter().map(|g| g.glyph_id).collect();
    assert_eq!(ids, vec![6, 5, 7, 4, 8]);
    // 700 font units at 16 pixels per em of 1000 units: 11.2 pixels.
    assert_eq!(fragments[0].glyphs[0].advance_x, 112000);
    let total: Fixed = fragments[0].glyphs.iter().map(|g| g.advance_x).sum();
    assert_eq!(fragments[0].length, total);
    // The second glyph starts where the first one ends.
    assert_eq!(fragments[0].glyphs[1].transform.origin, Point { x: 112000, y: 0 });
    assert_eq!(fragments[0].glyphs[0].svg_path_string, "M0 0 L9.6 0 L4.8 -11.2 L0 0 Z ");
    assert_eq!(fragments[0].glyphs[5].svg_path_string, "");
}

#[test]
fn an_empty_paragraph_has_no_fragments_and_one_empty_line() {
    let data = font_bytes();
    let font = font(&data);
    let transform = InputTransform { x: 0, y: 0, w: 600, h: 100, size: 16 };
    let fragments = shape_static_text("", &font, &transform, false);
    assert_eq!(fragments.len(), 0);
    let paragraph =
        ParagraphInfo::new(fragments, transform.max_line_length(&LayoutMetrics::default()), false);
    assert_eq!(paragraph.lines.len(), 1);
    assert_eq!(paragraph.lines[0].first_fragment_index, 0);
    assert_eq!(paragraph.lines[0].line_length, 0);
    assert!(!paragraph.lines[0].has_next_line);

    let registry = FontRegistry::new("pt".to_string(), self::font(&data));
    let state = AppState::new(registry, vec![document("", &["pt"], "pt"), document("\n", &["pt"], "pt")]);
    assert_eq!(state.resolve_input(&transform, 0).len(), 0);
    assert_eq!(state.resolve_input(&transform, 1).len(), 0);
}

#[test]
fn hello_world_gives_one_path_for_each_glyph_from_left_to_right() {
    let data = font_bytes();
    let registry = FontRegistry::new("pt".to_string(), font(&data));
    let state = AppState::new(registry, vec![document("Hello World", &["pt"], "pt")]);
    let transform = InputTransform { x: 0, y: 0, w: 600, h: 100, size: 16 };
    let paths = state.resolve_input(&transform, 0);
    assert_eq!(paths.len(), 11);
    let drawn: Vec<&String> = paths.iter().filter(|p| !p.is_empty()).collect();
    // Ten glyphs that are not the space.
    assert_eq!(drawn.len(), 10);
    assert_eq!(paths[5], "");
    let mut last = f64::NEG_INFINITY;
    for path in drawn.iter() {
        let x = first_x(path);
        assert!(x > last);
        last = x;
        // The baseline: 12 pixels of padding and one line height of 20.
        assert_eq!(first_y(path), 32.0);
    }
    assert_eq!(first_x(drawn[0]), 12.0);
    assert_eq!(*drawn[0], "M12 32 L21.6 32 L16.8 20.8 L12 32 Z ");
}

#[test]
fn a_narrow_box_puts_each_fragment_on_its_own_line() {
    let data = font_bytes();
    let registry = FontRegistry::new("pt".to_string(), font(&data));
    let state = AppState::new(registry, vec![document("Hello World", &["pt"], "pt")]);
    let transform = InputTransform { x: 0, y: 0, w: 10, h: 100, size: 16 };
    let paths = state.resolve_input(&transform, 0);
    assert_eq!(paths.len(), 11);
    assert_eq!(first_y(&paths[0]), 32.0);
    assert_eq!(first_y(&paths[6]), 52.0);
    assert_eq!(first_x(&paths[0]), 12.0);
    assert_eq!(first_x(&paths[6]), 12.0);
}

#[test]
fn right_to_left_text_runs_leftward_from_the_right_padding() {
    let data = font_bytes();
    let registry = FontRegistry::new("pt".to_string(), font(&data));
    let text = "\u{5d0}\u{5d1}\u{5d2} \u{5d0}\u{5d1}";
    let state = AppState::new(registry, vec![document(text, &["pt"], "pt")]);
    let transform = InputTransform { x: 10, y: 0, w: 600, h: 100, size: 16 };
    let paths = state.resolve_input(&transform, 0);
    assert_eq!(paths.len(), 6);
    let first_fragment = first_x(paths.iter().find(|p| !p.is_empty()).unwrap());
    let second_fragment = first_x(paths.iter().rev().find(|p| !p.is_empty()).unwrap());
    // Everything lies to the left of the right padding, at 610 - 12 pixels.
    assert!(first_fragment < 598.0);
    // The second fragment lies to the left of the first.
    assert!(second_fragment < first_fragment);
}

#[test]
fn textbox() {
    const WIDTH: i32 = 600;
    const HEIGHT: i32 = 600;
    const HEIGHT_PAD: i32 = 100;
    let data = font_bytes();
    let registry = FontRegistry::new("pt".to_string(), font(&data));
    let text = "Hello World Hello World Hello World Hello World Hello World Hello\n\u{5d0}\u{5d1}\u{5d2} \u{5d0}\u{5d1}\u{5d2}\nWorld";
    let state = AppState::new(
        registry,
        vec![document(text, &["roboto-italic", "noto", "roboto"], "roboto")],
    );
    let paths = state.resolve_input(&InputTransform { x: 0, y: 0, w: WIDTH, h: HEIGHT, size: 16 }, 0);

    let svg_paths = paths
        .iter()
        .map(|p| format!("<path d=\"{}\"></path>", p))
        .collect::<Vec<String>>();

    let mut svg = format!(
        "<svg xmlns=\"http://www.w3.org/2000/svg\" width=\"{}\" height=\"{}\" viewBox=\"0 0 {} {}\">",
        WIDTH, HEIGHT + HEIGHT_PAD, WIDTH, HEIGHT + HEIGHT_PAD
    );
    svg += &format!(
        "<rect x=\"0\" y=\"0\" width=\"{}\" height=\"{}\" fill=\"white\" stroke=\"cyan\" stroke-width=\"5\"></rect>",
        WIDTH, HEIGHT
    );
    svg += &format!("<g fill=\"black\" stroke=\"transparent\">");
    for path in svg_paths.iter() {
        svg += path;
    }
    svg += &format!(
        "<text x=\"{}\" y=\"{}\">Layout took {}ms</text>",
        20,
        HEIGHT + HEIGHT_PAD - 20,
        0,
    );
    svg += "</g>/</svg>";

    // 65 glyphs in the first paragraph, 7 in the second, 5 in the third.
    assert_eq!(paths.len(), 77);
    assert!(svg.starts_with("<svg "));
    assert!(svg.ends_with("</g>/</svg>"));
    // The first paragraph does not fit on one line of 576 pixels.
    let ys: Vec<f64> = paths.iter().filter(|p| !p.is_empty()).map(|p| first_y(p)).collect();
    assert_eq!(ys[0], 32.0);
    assert!(ys.iter().any(|y| *y == 52.0));
    assert!(ys.windows(2).all(|w| w[0] <= w[1]));
}

#[test]
fn an_engine_with_measures_of_its_own_lays_out_by_them() {
    let data = font_bytes();
    let registry = FontRegistry::new("pt".to_string(), font(&data));
    let metrics = LayoutMetrics { padding: 0, line_height_per_pixel: 20000 };
    let state =
        AppState::with_metrics(registry, vec![document("Hello World", &["pt"], "pt")], metrics);
    let transform = InputTransform { x: 5, y: 7, w: 600, h: 100, size: 16 };
    let paths = state.resolve_input(&transform, 0);
    assert_eq!(paths.len(), 11);
    assert_eq!(paths[0], "M5 39 L14.6 39 L9.8 27.8 L5 39 Z ");
    let document = document("Hello", &[], "pt");
    assert_eq!(state.layout(&transform, &document)[0], paths[0]);
}

#[test]
fn the_shaper_is_told_the_direction_of_the_paragraph() {
    let data = font_bytes();
    let font = font(&data);
    let transform = InputTransform { x: 0, y: 0, w: 600, h: 100, size: 16 };
    let text = "\u{5d0}\u{5d1}\u{5d2}";
    let leftward = shape_static_text(text, &font, &transform, true);
    assert_eq!(leftward.len(), 1);
    let ids: Vec<u32> = leftward[0].glyphs.iter().map(|g| g.glyph_id).collect();
    // The glyphs come in the order in which they are drawn from the left.
    assert_eq!(ids, vec![11, 10, 9]);
    let rightward = shape_static_text(text, &font, &transform, false);
    let ids: Vec<u32> = rightward[0].glyphs.iter().map(|g| g.glyph_id).collect();
    assert_eq!(ids, vec![9, 10, 11]);
    assert_eq!(leftward[0].length, rightward[0].length);
    // 600, 610 and 620 font units at 16 pixels per em of 1000 units.
    assert_eq!(leftward[0].length, 96000 + 97600 + 99200);
}

#[test]
fn shaping_the_same_text_twice_gives_the_same_fragments() {
    let data = font_bytes();
    let font = font(&data);
    let transform = InputTransform { x: 0, y: 0, w: 600, h: 100, size: 16 };
    let once = shape_static_text("Hello World", &font, &transform, false);
    let again = shape_static_text("Hello World", &font, &transform, false);
    assert_eq!(once.len(), again.len());
    for (a, b) in once.iter().zip(again.iter()) {
        assert_eq!(a.length, b.length);
        let paths: Vec<&String> = a.glyphs.iter().map(|g| &g.svg_path_string).collect();
        let others: Vec<&String> = b.glyphs.iter().map(|g| &g.svg_path_string).collect();
        assert_eq!(paths, others);
    }
}

#[test]
fn the_scale_is_that_of_the_face() {
    let data = font_bytes();
    let font = font(&data);
    let scale = from_font_space_to_screen_space(&font.face, 24);
    assert_eq!(scale.ppem, 24);
    assert_eq!(scale.upem, font.face.units_per_em());
    assert_eq!(scale.upem, 1000);
}
