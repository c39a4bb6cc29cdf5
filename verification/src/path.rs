//! Glyph outlines: drawing commands, the transform from font space to screen
//! space, and the path string of an outline under a translation.

use vstd::prelude::*;
use crate::fixed::{
    Fixed, add_spec, sub_spec, scale_spec, clamp, fixed_text, sat_add, sat_sub, scale, push_fixed,
};

verus! {

/// A point or a vector, in fixed-point coordinates.
#[derive(Clone, Copy, Debug, PartialEq, Eq, Structural)]
pub struct Point {
    pub x: Fixed,
    pub y: Fixed,
}

/// One drawing command of an outline, with absolute coordinates.
#[derive(Clone, Copy, Debug, PartialEq, Eq, Structural)]
pub enum PathCmd {
    /// Move to a point: the start of a contour.
    M(Point),
    /// Line to a point.
    L(Point),
    /// Quadratic curve: control point, end point.
    Q(Point, Point),
    /// Cubic curve: two control points, end point.
    C(Point, Point, Point),
    /// Close the contour.
    Z,
}

/// The ratio between font units and pixels: `ppem` pixels per em over `upem`
/// font units per em.
#[derive(Clone, Copy, Debug, PartialEq, Eq, Structural)]
pub struct FontScale {
    pub ppem: usize,
    pub upem: i32,
}

/// The map from a glyph's font space to screen space: add the glyph's
/// `offset`, scale by `scale` with the Y axis flipped, then add `origin`.
#[derive(Clone, Copy, Debug, PartialEq, Eq, Structural)]
pub struct GlyphTransform {
    /// Where the glyph's origin lies on screen, relative to its fragment.
    pub origin: Point,
    /// The font-space to screen-space ratio.
    pub scale: FontScale,
    /// The shaper's offset for this glyph, in font space.
    pub offset: Point,
}

/// The outline of one shaped glyph in screen space, relative to the origin of
/// its fragment, with the path string of its last placement.
#[derive(Clone, Debug)]
pub struct GlyphPath {
    pub glyph_id: u32,
    pub svg_path_string: String,
    pub transform: GlyphTransform,
    pub cmds: Vec<PathCmd>,
    pub advance_x: Fixed,
}

/// What a `GlyphPath` holds, as mathematical values.
pub struct GlyphPathView {
    pub glyph_id: u32,
    pub text: Seq<char>,
    pub transform: GlyphTransform,
    pub cmds: Seq<PathCmd>,
    pub advance_x: Fixed,
}

impl View for GlyphPath {
    type V = GlyphPathView;

    open spec fn view(&self) -> GlyphPathView {
        GlyphPathView {
            glyph_id: self.glyph_id,
            text: self.svg_path_string@,
            transform: self.transform,
            cmds: self.cmds@,
            advance_x: self.advance_x,
        }
    }
}

impl Point {
    /// This point moved by `offset`, each coordinate saturating.
    pub open spec fn translated(self, offset: Point) -> Point {
        Point {
            x: add_spec(self.x as int, offset.x as int) as i64,
            y: add_spec(self.y as int, offset.y as int) as i64,
        }
    }

    /// Moves the point by `offset`.
    pub fn translate(self, offset: Point) -> (r: Point)
        ensures
            r == self.translated(offset),
    {
        Point { x: sat_add(self.x, offset.x), y: sat_add(self.y, offset.y) }
    }

    /// `x y`: the two coordinates, separated by a space.
    pub open spec fn text(self) -> Seq<char> {
        fixed_text(self.x as int) + seq![' '] + fixed_text(self.y as int)
    }
}

impl FontScale {
    /// A scale is usable when the font has a positive number of units per em.
    pub open spec fn wf(self) -> bool {
        self.upem > 0
    }

    /// The screen-space size of the font-space length `v`.
    pub open spec fn scaled(self, v: int) -> int {
        clamp(scale_spec(v, self.ppem as int, self.upem as int))
    }

    /// Converts a font-space length to screen space.
    pub fn apply(self, v: Fixed) -> (r: Fixed)
        requires
            self.wf(),
        ensures
            r == self.scaled(v as int),
    {
        scale(v, self.ppem as u64, self.upem as u64)
    }
}

impl GlyphTransform {
    /// The screen-space image of the font-space point `p`.
    pub open spec fn applied(self, p: Point) -> Point {
        Point {
            x: add_spec(
                self.origin.x as int,
                self.scale.scaled(add_spec(p.x as int, self.offset.x as int)),
            ) as i64,
            y: sub_spec(
                self.origin.y as int,
                self.scale.scaled(add_spec(p.y as int, self.offset.y as int)),
            ) as i64,
        }
    }

    /// Maps a font-space point to screen space.
    pub fn transform_point(self, p: Point) -> (r: Point)
        requires
            self.scale.wf(),
        ensures
            r == self.applied(p),
    {
        let x = self.scale.apply(sat_add(p.x, self.offset.x));
        let y = self.scale.apply(sat_add(p.y, self.offset.y));
        Point { x: sat_add(self.origin.x, x), y: sat_sub(self.origin.y, y) }
    }
}

impl PathCmd {
    /// The path-string form of the command, with its trailing space.
    pub open spec fn text(self) -> Seq<char> {
        match self {
            PathCmd::M(to) => seq!['M'] + to.text() + seq![' '],
            PathCmd::L(to) => seq!['L'] + to.text() + seq![' '],
            PathCmd::Q(c, to) => seq!['Q'] + c.text() + seq![','] + to.text() + seq![' '],
            PathCmd::C(c1, c2, to) => seq!['C'] + c1.text() + seq![','] + c2.text() + seq![',']
                + to.text() + seq![' '],
            PathCmd::Z => seq!['Z', ' '],
        }
    }

    /// The command with every point moved by `offset`.
    pub open spec fn translated(self, offset: Point) -> PathCmd {
        match self {
            PathCmd::M(to) => PathCmd::M(to.translated(offset)),
            PathCmd::L(to) => PathCmd::L(to.translated(offset)),
            PathCmd::Q(c, to) => PathCmd::Q(c.translated(offset), to.translated(offset)),
            PathCmd::C(c1, c2, to) => PathCmd::C(
                c1.translated(offset),
                c2.translated(offset),
                to.translated(offset),
            ),
            PathCmd::Z => PathCmd::Z,
        }
    }

    /// The font-space command mapped to screen space by `transform`.
    pub open spec fn transformed(self, transform: GlyphTransform) -> PathCmd {
        match self {
            PathCmd::M(to) => PathCmd::M(transform.applied(to)),
            PathCmd::L(to) => PathCmd::L(transform.applied(to)),
            PathCmd::Q(c, to) => PathCmd::Q(transform.applied(c), transform.applied(to)),
            PathCmd::C(c1, c2, to) => PathCmd::C(
                transform.applied(c1),
                transform.applied(c2),
                transform.applied(to),
            ),
            PathCmd::Z => PathCmd::Z,
        }
    }

    /// Moves every point of the command by `offset`.
    pub fn translate(self, offset: Point) -> (r: PathCmd)
        ensures
            r == self.translated(offset),
    {
        match self {
            PathCmd::M(to) => PathCmd::M(to.translate(offset)),
            PathCmd::L(to) => PathCmd::L(to.translate(offset)),
            PathCmd::Q(c, to) => PathCmd::Q(c.translate(offset), to.translate(offset)),
            PathCmd::C(c1, c2, to) => PathCmd::C(
                c1.translate(offset),
                c2.translate(offset),
                to.translate(offset),
            ),
            PathCmd::Z => PathCmd::Z,
        }
    }
}

/// The path string of an outline: the text of each command, in order.
pub open spec fn path_text(cmds: Seq<PathCmd>) -> Seq<char>
    decreases cmds.len(),
{
    if cmds.len() == 0 {
        Seq::<char>::empty()
    } else {
        path_text(cmds.drop_last()) + cmds.last().text()
    }
}

/// An outline with every point moved by `offset`.
pub open spec fn translate_cmds(cmds: Seq<PathCmd>, offset: Point) -> Seq<PathCmd> {
    Seq::new(cmds.len(), |i: int| cmds[i].translated(offset))
}

/// A font-space outline mapped to screen space by `transform`.
pub open spec fn transform_cmds(cmds: Seq<PathCmd>, transform: GlyphTransform) -> Seq<PathCmd> {
    Seq::new(cmds.len(), |i: int| cmds[i].transformed(transform))
}

fn push_point(out: &mut String, p: Point)
    ensures
        final(out)@ == old(out)@ + p.text(),
{
    push_fixed(out, p.x);
    out.append(" ");
    push_fixed(out, p.y);
    proof {
        reveal_strlit(" ");
        assert(out@ =~= old(out)@ + p.text());
    }
}

/// Appends the path-string form of `cmd` to `out`.
pub fn push_cmd(out: &mut String, cmd: PathCmd)
    ensures
        final(out)@ == old(out)@ + cmd.text(),
{
    proof {
        reveal_strlit("M");
        reveal_strlit("L");
        reveal_strlit("Q");
        reveal_strlit("C");
        reveal_strlit("Z ");
        reveal_strlit(",");
        reveal_strlit(" ");
    }
    match cmd {
        PathCmd::M(to) => {
            out.append("M");
            push_point(out, to);
            out.append(" ");
        },
        PathCmd::L(to) => {
            out.append("L");
            push_point(out, to);
            out.append(" ");
        },
        PathCmd::Q(c, to) => {
            out.append("Q");
            push_point(out, c);
            out.append(",");
            push_point(out, to);
            out.append(" ");
        },
        PathCmd::C(c1, c2, to) => {
            out.append("C");
            push_point(out, c1);
            out.append(",");
            push_point(out, c2);
            out.append(",");
            push_point(out, to);
            out.append(" ");
        },
        PathCmd::Z => {
            out.append("Z ");
        },
    }
    assert(out@ =~= old(out)@ + cmd.text());
}

impl GlyphPathView {
    /// The glyph after one more command was drawn: the command is recorded and
    /// its text appended to the path string.
    pub open spec fn drawn(self, cmd: PathCmd) -> GlyphPathView {
        GlyphPathView { text: self.text + cmd.text(), cmds: self.cmds.push(cmd), ..self }
    }

    /// The glyph placed at `offset`: the path string is that of the outline
    /// moved by `offset`; the outline itself and the advance stay.
    pub open spec fn placed(self, offset: Point) -> GlyphPathView {
        GlyphPathView { text: path_text(translate_cmds(self.cmds, offset)), ..self }
    }
}

impl GlyphPath {
    /// A glyph without outline yet.
    pub fn new(glyph_id: u32, transform: GlyphTransform, advance_x: Fixed) -> (r: GlyphPath)
        ensures
            r@ == (GlyphPathView {
                glyph_id,
                text: Seq::<char>::empty(),
                transform,
                cmds: Seq::<PathCmd>::empty(),
                advance_x,
            }),
    {
        GlyphPath {
            glyph_id,
            svg_path_string: String::new(),
            transform,
            cmds: Vec::new(),
            advance_x,
        }
    }

    fn draw(&mut self, cmd: PathCmd)
        ensures
            final(self)@ == old(self)@.drawn(cmd),
    {
        push_cmd(&mut self.svg_path_string, cmd);
        self.cmds.push(cmd);
    }

    /// Starts a contour at the font-space point `(x, y)`.
    pub fn move_to(&mut self, x: Fixed, y: Fixed)
        requires
            old(self).transform.scale.wf(),
        ensures
            final(self)@ == old(self)@.drawn(
                PathCmd::M(old(self).transform.applied(Point { x, y })),
            ),
    {
        let to = self.transform.transform_point(Point { x, y });
        self.draw(PathCmd::M(to));
    }

    /// Draws a line to the font-space point `(x, y)`.
    pub fn line_to(&mut self, x: Fixed, y: Fixed)
        requires
            old(self).transform.scale.wf(),
        ensures
            final(self)@ == old(self)@.drawn(
                PathCmd::L(old(self).transform.applied(Point { x, y })),
            ),
    {
        let to = self.transform.transform_point(Point { x, y });
        self.draw(PathCmd::L(to));
    }

    /// Draws a quadratic curve with control point `(x1, y1)` to `(x, y)`, all
    /// in font space.
    pub fn quad_to(&mut self, x1: Fixed, y1: Fixed, x: Fixed, y: Fixed)
        requires
            old(self).transform.scale.wf(),
        ensures
            final(self)@ == old(self)@.drawn(
                PathCmd::Q(
                    old(self).transform.applied(Point { x: x1, y: y1 }),
                    old(self).transform.applied(Point { x, y }),
                ),
            ),
    {
        let control = self.transform.transform_point(Point { x: x1, y: y1 });
        let to = self.transform.transform_point(Point { x, y });
        self.draw(PathCmd::Q(control, to));
    }

    /// Draws a cubic curve with control points `(x1, y1)` and `(x2, y2)` to
    /// `(x, y)`, all in font space.
    pub fn curve_to(&mut self, x1: Fixed, y1: Fixed, x2: Fixed, y2: Fixed, x: Fixed, y: Fixed)
        requires
            old(self).transform.scale.wf(),
        ensures
            final(self)@ == old(self)@.drawn(
                PathCmd::C(
                    old(self).transform.applied(Point { x: x1, y: y1 }),
                    old(self).transform.applied(Point { x: x2, y: y2 }),
                    old(self).transform.applied(Point { x, y }),
                ),
            ),
    {
        let first = self.transform.transform_point(Point { x: x1, y: y1 });
        let second = self.transform.transform_point(Point { x: x2, y: y2 });
        let to = self.transform.transform_point(Point { x, y });
        self.draw(PathCmd::C(first, second, to));
    }

    /// Closes the current contour.
    pub fn close(&mut self)
        ensures
            final(self)@ == old(self)@.drawn(PathCmd::Z),
    {
        self.draw(PathCmd::Z);
    }

    /// Draws a whole font-space outline, command by command.
    pub fn outline(&mut self, cmds: &Vec<PathCmd>)
        requires
            old(self).transform.scale.wf(),
        ensures
            final(self)@ == (GlyphPathView {
                text: old(self)@.text + path_text(
                    transform_cmds(cmds@, old(self).transform),
                ),
                cmds: old(self)@.cmds + transform_cmds(cmds@, old(self).transform),
                ..old(self)@
            }),
    {
        let ghost screen = transform_cmds(cmds@, self.transform);
        let mut i: usize = 0;
        while i < cmds.len()
            invariant
                i <= cmds.len(),
                self.transform == old(self).transform,
                self.transform.scale.wf(),
                screen == transform_cmds(cmds@, self.transform),
                self@ == (GlyphPathView {
                    text: old(self)@.text + path_text(screen.take(i as int)),
                    cmds: old(self)@.cmds + screen.take(i as int),
                    ..old(self)@
                }),
            decreases cmds.len() - i,
        {
            let ghost before = self@;
            match cmds[i] {
                PathCmd::M(to) => self.move_to(to.x, to.y),
                PathCmd::L(to) => self.line_to(to.x, to.y),
                PathCmd::Q(c, to) => self.quad_to(c.x, c.y, to.x, to.y),
                PathCmd::C(c1, c2, to) => self.curve_to(c1.x, c1.y, c2.x, c2.y, to.x, to.y),
                PathCmd::Z => self.close(),
            }
            proof {
                assert(self@ == before.drawn(screen[i as int]));
                assert(screen.take(i + 1).drop_last() =~= screen.take(i as int));
                assert(screen.take(i + 1).last() == screen[i as int]);
                assert(self@.cmds =~= old(self)@.cmds + screen.take(i + 1));
                assert(self@.text =~= old(self)@.text + path_text(screen.take(i + 1)));
            }
            i += 1;
        }
        assert(screen.take(cmds.len() as int) =~= screen);
    }

    /// The path string of the outline moved by `offset`.
    pub fn path_at(&self, offset: Point) -> (r: String)
        ensures
            r@ == path_text(translate_cmds(self.cmds@, offset)),
    {
        let ghost moved = translate_cmds(self.cmds@, offset);
        let mut out = String::new();
        let mut i: usize = 0;
        while i < self.cmds.len()
            invariant
                i <= self.cmds.len(),
                moved == translate_cmds(self.cmds@, offset),
                out@ == path_text(moved.take(i as int)),
            decreases self.cmds.len() - i,
        {
            push_cmd(&mut out, self.cmds[i].translate(offset));
            proof {
                assert(moved.take(i + 1).drop_last() =~= moved.take(i as int));
                assert(moved.take(i + 1).last() == moved[i as int]);
            }
            i += 1;
        }
        assert(moved.take(self.cmds.len() as int) =~= moved);
        out
    }

    /// Places the glyph at `offset`: the path string is rewritten from the
    /// recorded outline, which is not changed, nor is the advance.
    pub fn translate(&mut self, offset: Point)
        ensures
            final(self)@ == old(self)@.placed(offset),
    {
        self.svg_path_string = self.path_at(offset);
    }
}

/// Moving a point by `v` and then by the opposite of `v` gives the point
/// back, as long as the moved point is within the coordinate range.
pub proof fn lemma_translate_round_trip(p: Point, v: Point)
    requires
        p.fits(v),
        i64::MIN < v.x,
        i64::MIN < v.y,
    ensures
        p.translated(v).translated(v.negated()) == p,
{
}

/// A translated point differs from the point by the translation vector, and
/// two points moved by the same vector keep their distance from each other,
/// as long as both moved points are within the coordinate range.
pub proof fn lemma_translate_keeps_offsets(a: Point, b: Point, v: Point)
    requires
        i64::MIN <= a.x + v.x <= i64::MAX,
        i64::MIN <= a.y + v.y <= i64::MAX,
        i64::MIN <= b.x + v.x <= i64::MAX,
        i64::MIN <= b.y + v.y <= i64::MAX,
    ensures
        a.translated(v).x - b.translated(v).x == a.x - b.x,
        a.translated(v).y - b.translated(v).y == a.y - b.y,
        a.translated(v).x - a.x == v.x,
        a.translated(v).y - a.y == v.y,
{
}

impl Point {
    /// Whether the point moved by `v` is within the coordinate range.
    pub open spec fn fits(self, v: Point) -> bool {
        &&& i64::MIN <= self.x + v.x <= i64::MAX
        &&& i64::MIN <= self.y + v.y <= i64::MAX
    }

    /// The opposite vector.
    pub open spec fn negated(self) -> Point {
        Point { x: (-self.x) as i64, y: (-self.y) as i64 }
    }
}

impl PathCmd {
    /// Whether every point of the command, moved by `v`, is within the
    /// coordinate range.
    pub open spec fn fits(self, v: Point) -> bool {
        match self {
            PathCmd::M(to) => to.fits(v),
            PathCmd::L(to) => to.fits(v),
            PathCmd::Q(c, to) => c.fits(v) && to.fits(v),
            PathCmd::C(c1, c2, to) => c1.fits(v) && c2.fits(v) && to.fits(v),
            PathCmd::Z => true,
        }
    }
}

/// Translating an outline by `v` and then by the opposite of `v` gives the
/// outline back, with the same commands in the same order, as long as every
/// moved point is within the coordinate range.
pub proof fn lemma_outline_round_trip(cmds: Seq<PathCmd>, v: Point)
    requires
        forall|i: int| 0 <= i < cmds.len() ==> (#[trigger] cmds[i]).fits(v),
        i64::MIN < v.x,
        i64::MIN < v.y,
    ensures
        translate_cmds(translate_cmds(cmds, v), v.negated()) == cmds,
{
    let back = translate_cmds(translate_cmds(cmds, v), v.negated());
    assert forall|i: int| 0 <= i < cmds.len() implies back[i] == cmds[i] by {
        assert(cmds[i].fits(v));
        assert(back[i] == cmds[i].translated(v).translated(v.negated()));
    }
    assert(back =~= cmds);
}

} // verus!
