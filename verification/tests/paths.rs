use wasm_paths::fixed::{Fixed, ONE};
use wasm_paths::path::{push_cmd, FontScale, GlyphPath, GlyphTransform, PathCmd, Point};

fn units(v: i64) -> Fixed {
    v * ONE
}

fn p(x: i64, y: i64) -> Point {
    Point { x: units(x), y: units(y) }
}

fn identity() -> GlyphTransform {
    // One pixel per font unit, no offset: only the Y axis is flipped.
    GlyphTransform { origin: p(0, 0), scale: FontScale { ppem: 1, upem: 1 }, offset: p(0, 0) }
}

fn text(cmd: PathCmd) -> String {
    let mut s = String::new();
    push_cmd(&mut s, cmd);
    s
}

#[test]
fn each_command_has_its_path_string_form() {
    assert_eq!(text(PathCmd::M(p(1, 2))), "M1 2 ");
    assert_eq!(text(PathCmd::L(p(-3, 4))), "L-3 4 ");
    assert_eq!(text(PathCmd::Q(p(1, 2), p(3, 4))), "Q1 2,3 4 ");
    assert_eq!(text(PathCmd::C(p(1, 2), p(3, 4), p(5, 6))), "C1 2,3 4,5 6 ");
    assert_eq!(text(PathCmd::Z), "Z ");
    assert_eq!(
        text(PathCmd::C(
            Point { x: 15000, y: -2500 },
            Point { x: 1, y: 0 },
            Point { x: 123456789, y: -1 }
        )),
        "C1.5 -0.25,0.0001 0,12345.6789 -0.0001 "
    );
}

#[test]
fn commands_append_to_the_string() {
    let mut s = String::from("M0 0 ");
    push_cmd(&mut s, PathCmd::L(p(1, 1)));
    push_cmd(&mut s, PathCmd::Z);
    assert_eq!(s, "M0 0 L1 1 Z ");
}

#[test]
fn the_transform_scales_flips_and_moves() {
    let transform = GlyphTransform {
        origin: p(100, 50),
        scale: FontScale { ppem: 16, upem: 1000 },
        offset: p(10, 20),
    };
    // x: 100 + (500 + 10) * 0.016 = 108.16; y: 50 - (700 + 20) * 0.016 = 38.48.
    assert_eq!(transform.transform_point(p(500, 700)), Point { x: 1081600, y: 384800 });
    assert_eq!(transform.transform_point(p(-10, -20)), p(100, 50));
    assert_eq!(identity().transform_point(p(3, 4)), p(3, -4));
}

#[test]
fn the_scale_rounds_to_the_nearest_ten_thousandth() {
    let scale = FontScale { ppem: 16, upem: 2048 };
    // 1434 / 128 = 11.203125.
    assert_eq!(scale.apply(units(1434)), 112031);
    assert_eq!(scale.apply(units(-1434)), -112031);
    let scale = FontScale { ppem: 1, upem: 3 };
    assert_eq!(scale.apply(1), 0);
    assert_eq!(scale.apply(2), 1);
    assert_eq!(scale.apply(i64::MAX), 3074457345618258602);
}

#[test]
fn drawing_records_the_outline_and_writes_the_path_string() {
    let transform = GlyphTransform {
        origin: p(10, 0),
        scale: FontScale { ppem: 16, upem: 1000 },
        offset: p(0, 0),
    };
    let mut glyph = GlyphPath::new(7, transform, 112000);
    assert_eq!(glyph.svg_path_string, "");
    assert!(glyph.cmds.is_empty());
    glyph.move_to(units(0), units(0));
    glyph.line_to(units(600), units(0));
    glyph.quad_to(units(600), units(700), units(300), units(700));
    glyph.curve_to(units(200), units(700), units(100), units(350), units(0), units(0));
    glyph.close();
    assert_eq!(
        glyph.cmds,
        vec![
            PathCmd::M(Point { x: 100000, y: 0 }),
            PathCmd::L(Point { x: 196000, y: 0 }),
            PathCmd::Q(Point { x: 196000, y: -112000 }, Point { x: 148000, y: -112000 }),
            PathCmd::C(
                Point { x: 132000, y: -112000 },
                Point { x: 116000, y: -56000 },
                Point { x: 100000, y: 0 }
            ),
            PathCmd::Z,
        ]
    );
    assert_eq!(
        glyph.svg_path_string,
        "M10 0 L19.6 0 Q19.6 -11.2,14.8 -11.2 C13.2 -11.2,11.6 -5.6,10 0 Z "
    );
    assert_eq!(glyph.glyph_id, 7);
    assert_eq!(glyph.advance_x, 112000);
    assert_eq!(glyph.transform, transform);
}

#[test]
fn a_whole_outline_is_drawn_command_by_command() {
    let outline = vec![
        PathCmd::M(p(0, 0)),
        PathCmd::L(p(600, 0)),
        PathCmd::Q(p(600, 700), p(300, 700)),
        PathCmd::C(p(200, 700), p(100, 350), p(0, 0)),
        PathCmd::Z,
    ];
    let transform = GlyphTransform {
        origin: p(10, 0),
        scale: FontScale { ppem: 16, upem: 1000 },
        offset: p(0, 0),
    };
    let mut by_outline = GlyphPath::new(7, transform, 0);
    by_outline.outline(&outline);
    let mut by_hand = GlyphPath::new(7, transform, 0);
    by_hand.move_to(units(0), units(0));
    by_hand.line_to(units(600), units(0));
    by_hand.quad_to(units(600), units(700), units(300), units(700));
    by_hand.curve_to(units(200), units(700), units(100), units(350), units(0), units(0));
    by_hand.close();
    assert_eq!(by_outline.cmds, by_hand.cmds);
    assert_eq!(by_outline.svg_path_string, by_hand.svg_path_string);
    assert_eq!(by_outline.cmds.len(), 5);
    by_outline.outline(&vec![]);
    assert_eq!(by_outline.cmds.len(), 5);
}

fn sample() -> GlyphPath {
    let mut glyph = GlyphPath::new(1, identity(), units(7));
    glyph.move_to(units(0), units(0));
    glyph.line_to(units(6), units(0));
    glyph.quad_to(units(6), units(-7), units(3), units(-7));
    glyph.curve_to(units(2), units(-7), units(1), units(-3), units(0), units(0));
    glyph.close();
    glyph
}

#[test]
fn translating_rewrites_the_path_string_and_nothing_else() {
    let mut glyph = sample();
    let cmds = glyph.cmds.clone();
    assert_eq!(glyph.svg_path_string, "M0 0 L6 0 Q6 7,3 7 C2 7,1 3,0 0 Z ");
    glyph.translate(Point { x: units(12), y: 325000 });
    assert_eq!(
        glyph.svg_path_string,
        "M12 32.5 L18 32.5 Q18 39.5,15 39.5 C14 39.5,13 35.5,12 32.5 Z "
    );
    assert_eq!(glyph.path_at(p(1, 1)), "M1 1 L7 1 Q7 8,4 8 C3 8,2 4,1 1 Z ");
    assert_eq!(glyph.cmds, cmds);
    assert_eq!(glyph.advance_x, units(7));
    assert_eq!(glyph.transform, identity());
    assert_eq!(glyph.glyph_id, 1);
}

#[test]
fn a_placement_does_not_build_on_the_one_before() {
    let mut glyph = sample();
    let untouched = glyph.svg_path_string.clone();
    glyph.translate(p(5, 5));
    glyph.translate(p(5, 5));
    assert_eq!(glyph.svg_path_string, "M5 5 L11 5 Q11 12,8 12 C7 12,6 8,5 5 Z ");
    glyph.translate(p(0, 0));
    assert_eq!(glyph.svg_path_string, untouched);
}

#[test]
fn moving_there_and_back_gives_the_outline_back() {
    let glyph = sample();
    let v = Point { x: 123456, y: -654321 };
    let back = Point { x: -123456, y: 654321 };
    for cmd in glyph.cmds.iter() {
        assert_eq!(cmd.translate(v).translate(back), *cmd);
    }
    assert_eq!(p(3, 4).translate(v).translate(back), p(3, 4));
    assert_eq!(p(3, 4).translate(v), Point { x: 153456, y: -614321 });
}

#[test]
fn a_translation_keeps_the_distances_between_points() {
    let a = p(3, 4);
    let b = p(-10, 25);
    let v = Point { x: 123456, y: -654321 };
    let (ta, tb) = (a.translate(v), b.translate(v));
    assert_eq!(ta.x - tb.x, a.x - b.x);
    assert_eq!(ta.y - tb.y, a.y - b.y);
    assert_eq!(ta.x - a.x, v.x);
    assert_eq!(ta.y - a.y, v.y);
}

#[test]
fn a_translation_saturates_at_the_ends_of_the_range() {
    let far = Point { x: i64::MAX, y: i64::MIN };
    assert_eq!(far.translate(Point { x: 1, y: -1 }), far);
    // Here the way back does not lead to the start.
    let near = Point { x: i64::MAX - 1, y: 0 };
    let there = near.translate(Point { x: 5, y: 0 });
    assert_eq!(there, Point { x: i64::MAX, y: 0 });
    assert_eq!(there.translate(Point { x: -5, y: 0 }), Point { x: i64::MAX - 5, y: 0 });
}
