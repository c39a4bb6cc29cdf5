//! Text layout inside a fixed-size box.
//!
//! A document is split into directional paragraphs; each paragraph gets a
//! font through a fallback chain, is cut at its line-break opportunities and
//! shaped piece by piece into fragments; the fragments are wrapped greedily
//! into lines; and the lines of all paragraphs are stacked in the box, each
//! glyph emitted as the path string of its outline.
//!
//! All geometry is fixed-point arithmetic with four decimal places that
//! saturates instead of overflowing, so a layout always ends with a list of
//! path strings, whatever the box, the size and the text.
//!
//! - [`fixed`]: fixed-point scalars and their decimal numerals.
//! - [`text`]: strings as UTF-8, compared and cut at byte offsets.
//! - [`path`]: drawing commands, glyph outlines and their path strings.
//! - [`fonts`]: the font registry and its fallback chain.
//! - [`document`]: documents, their paragraphs and displayed texts.
//! - [`shaping`]: from a paragraph's text to shaped fragments.
//! - [`paragraph`]: wrapping fragments into lines.
//! - [`layout`]: placing lines and glyphs in the box.
//! - [`state`]: the engine, from a document to its path strings.
//! - [`determined`]: the proof that the layout of a document is determined.

pub mod determined;
pub mod document;
pub mod fixed;
pub mod fonts;
pub mod layout;
pub mod paragraph;
pub mod path;
pub mod separators;
pub mod shaping;
pub mod state;
pub mod text;
