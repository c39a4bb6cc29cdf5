//! The font registry: fonts stored under unique names, and the fallback
//! chain that gives every paragraph a font.

use vstd::prelude::*;
use crate::path::PathCmd;
use crate::text::str_eq;

verus! {

/// A parsed font face of the shaping engine. It borrows the bytes of the
/// font file, which therefore outlive it.
#[verifier::external_type_specification]
#[verifier::external_body]
pub struct ExFace<'a>(rustybuzz::Face<'a>);

/// A font ready for layout.
pub struct Font<'a> {
    /// The bytes of the font file.
    pub raw_data: &'a [u8],
    /// The face parsed from `raw_data`, with its variation axes already set.
    pub face: rustybuzz::Face<'a>,
    /// The outline of each glyph of the face in font space, indexed by glyph
    /// id and read from the face when the font is loaded. A glyph beyond the
    /// end of the list has an empty outline.
    pub outlines: Vec<Vec<PathCmd>>,
}

/// A font with the name it is registered under.
pub struct FontEntry<'a> {
    pub id: String,
    pub font: Font<'a>,
}

/// Fonts by name. The first entry is the global fallback font: a registry
/// cannot be made without it, so every lookup ends with a font.
pub struct FontRegistry<'a> {
    entries: Vec<FontEntry<'a>>,
}

/// Entry `glyph_id` of a table of outlines, or the empty outline beyond its
/// end.
pub open spec fn outline_at(outlines: Seq<Vec<PathCmd>>, glyph_id: u32) -> Seq<PathCmd> {
    if glyph_id < outlines.len() {
        outlines[glyph_id as int]@
    } else {
        Seq::<PathCmd>::empty()
    }
}

impl<'a> FontRegistry<'a> {
    /// The names of the registered fonts, in the order of registration.
    pub closed spec fn ids(&self) -> Seq<Seq<char>> {
        Seq::new(self.entries@.len(), |i: int| self.entries[i].id@)
    }

    /// The registered fonts, in the order of registration: `fonts()[i]` is
    /// registered under `ids()[i]`.
    pub closed spec fn fonts(&self) -> Seq<Font<'a>> {
        Seq::new(self.entries@.len(), |i: int| self.entries[i].font)
    }

    /// A registry is well formed when it holds the global fallback font and
    /// no name twice. Every registry made by `new` and filled by `register`
    /// is.
    pub open spec fn wf(&self) -> bool {
        &&& self.ids().len() == self.fonts().len()
        &&& self.ids().len() > 0
        &&& forall|i: int, j: int|
            0 <= i < j < self.ids().len() ==> self.ids()[i] != self.ids()[j]
    }

    /// Whether a font is registered under `id`.
    pub open spec fn has(&self, id: Seq<char>) -> bool {
        self.ids().contains(id)
    }

    /// The name of the global fallback font.
    pub open spec fn global_fallback_id(&self) -> Seq<char> {
        self.ids()[0]
    }

    /// The name that the fallback chain ends with for a paragraph that asks
    /// for `primary` and falls back to `fallback`: the first of `primary`,
    /// `fallback` and the global fallback that is registered.
    pub open spec fn resolved_id(&self, primary: Seq<char>, fallback: Seq<char>) -> Seq<char> {
        if self.has(primary) {
            primary
        } else if self.has(fallback) {
            fallback
        } else {
            self.global_fallback_id()
        }
    }

    /// A registry that holds the global fallback font under `id`.
    pub fn new(id: String, font: Font<'a>) -> (r: FontRegistry<'a>)
        ensures
            r.wf(),
            r.ids() == seq![id@],
            r.fonts() == seq![font],
    {
        let mut entries = Vec::new();
        entries.push(FontEntry { id, font });
        let r = FontRegistry { entries };
        assert(r.ids() =~= seq![id@]);
        assert(r.fonts() =~= seq![font]);
        r
    }

    /// The number of registered fonts.
    pub fn len(&self) -> (r: usize)
        ensures
            r == self.ids().len(),
            r == self.fonts().len(),
    {
        self.entries.len()
    }

    /// The place of the font registered under `id`, if there is one.
    pub fn index_of(&self, id: &str) -> (r: Option<usize>)
        ensures
            match r {
                Some(i) => i < self.ids().len() && self.ids()[i as int] == id@,
                None => !self.has(id@),
            },
    {
        let mut i: usize = 0;
        while i < self.entries.len()
            invariant
                i <= self.entries.len(),
                forall|k: int| 0 <= k < i ==> self.entries[k].id@ != id@,
            decreases self.entries.len() - i,
        {
            if str_eq(self.entries[i].id.as_str(), id) {
                return Some(i);
            }
            i += 1;
        }
        None
    }

    /// Stores `font` under `id`. A font already stored under that name is
    /// replaced, and `true` is returned; a new name is added at the end. The
    /// other fonts stay as they are, the global fallback among them unless
    /// `id` is its name.
    pub fn register(&mut self, id: String, font: Font<'a>) -> (replaced: bool)
        requires
            old(self).wf(),
        ensures
            final(self).wf(),
            replaced == old(self).has(id@),
            replaced ==> final(self).ids() == old(self).ids() && forall|i: int|
                0 <= i < old(self).ids().len() ==> #[trigger] final(self).fonts()[i] == (
                if old(self).ids()[i] == id@ {
                    font
                } else {
                    old(self).fonts()[i]
                }),
            !replaced ==> final(self).ids() == old(self).ids().push(id@) && final(self).fonts()
                == old(self).fonts().push(font),
    {
        match self.index_of(id.as_str()) {
            Some(i) => {
                self.entries.set(i, FontEntry { id, font });
                proof {
                    assert(old(self).ids()[i as int] == id@);
                    assert forall|k: int| 0 <= k < self.entries.len() implies self.entries[k].id@
                        == old(self).entries[k].id@ by {}
                    assert(final(self).ids() =~= old(self).ids());
                    let after = final(self).fonts();
                    let before = old(self).fonts();
                    assert forall|k: int| 0 <= k < old(self).ids().len() implies #[trigger] after[k]
                        == if old(self).ids()[k] == id@ {
                        font
                    } else {
                        before[k]
                    } by {
                        if k < i {
                            assert(old(self).ids()[k] != old(self).ids()[i as int]);
                        } else if k > i {
                            assert(old(self).ids()[i as int] != old(self).ids()[k]);
                        }
                    }
                }
                true
            },
            None => {
                self.entries.push(FontEntry { id, font });
                proof {
                    let before = old(self).entries@;
                    assert forall|k: int| 0 <= k < before.len() implies before[k].id@ != id@ by {
                        assert(old(self).ids()[k] == before[k].id@);
                    }
                    assert(final(self).ids() =~= old(self).ids().push(id@));
                    assert(final(self).fonts() =~= old(self).fonts().push(font));
                }
                false
            },
        }
    }

    /// The font at place `index`.
    pub fn font(&self, index: usize) -> (r: &Font<'a>)
        requires
            index < self.fonts().len(),
        ensures
            *r == self.fonts()[index as int],
    {
        &self.entries[index].font
    }

    /// The name of the font at place `index`.
    pub fn id(&self, index: usize) -> (r: &str)
        requires
            index < self.ids().len(),
        ensures
            r@ == self.ids()[index as int],
    {
        self.entries[index].id.as_str()
    }

    /// Follows the fallback chain: the place of the first registered font
    /// among `primary`, `fallback` and the global fallback. The result is
    /// always a registered font; a registered `primary` resolves to itself;
    /// and where neither `primary` nor `fallback` is registered, the result
    /// is the global fallback.
    pub fn resolve(&self, primary: &str, fallback: &str) -> (r: usize)
        requires
            self.wf(),
        ensures
            r < self.ids().len(),
            r < self.fonts().len(),
            self.ids()[r as int] == self.resolved_id(primary@, fallback@),
            self.has(self.ids()[r as int]),
            self.has(primary@) ==> self.ids()[r as int] == primary@,
            !self.has(primary@) && self.has(fallback@) ==> self.ids()[r as int] == fallback@,
            !self.has(primary@) && !self.has(fallback@) ==> r == 0 && self.ids()[r as int]
                == self.global_fallback_id(),
    {
        match self.index_of(primary) {
            Some(i) => i,
            None => match self.index_of(fallback) {
                Some(i) => i,
                None => 0,
            },
        }
    }
}

} // verus!
