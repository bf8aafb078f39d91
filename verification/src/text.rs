//! Text layout: a line of glyphs, centred on its anchor.
//!
//! Every character of the text takes one advance of the line, whether the
//! font has a glyph for it or not, and the line is centred on the origin.
//! Positions are counted in half advances, so that centring stays exact.

use vstd::prelude::*;
use vstd::std_specs::iter::IteratorSpec;
use crate::face::{FontFace, cmap_glyph};

verus! {

/// The advance from one character of a line to the next, in hundredths of
/// the unit in which the line is drawn.
pub const ADVANCE_HUNDREDTHS: u32 = 70;

/// A single instance of a glyph on a line.
#[derive(Clone, Copy, Debug, PartialEq, Eq, Structural)]
pub struct MsdfGlyph {
    /// The position of this glyph's anchor along the line, in half advances.
    pub pos: i128,
    /// The index of this glyph within the atlas.
    pub index: u16,
}

/// The glyphs placed for the first `k` characters of a line.
///
/// The character at place `i` of `n` lies at `2 * i - n` half advances; a
/// character without a glyph leaves its place empty.
pub open spec fn placed_upto(glyphs: Seq<Option<u16>>, k: int) -> Seq<MsdfGlyph>
    decreases k,
{
    if k <= 0 {
        Seq::empty()
    } else {
        match glyphs[k - 1] {
            Some(g) => placed_upto(glyphs, k - 1).push(
                MsdfGlyph { pos: (2 * (k - 1) - glyphs.len()) as i128, index: g },
            ),
            None => placed_upto(glyphs, k - 1),
        }
    }
}

/// The glyphs placed for a line.
pub open spec fn placed(glyphs: Seq<Option<u16>>) -> Seq<MsdfGlyph> {
    placed_upto(glyphs, glyphs.len() as int)
}

/// The glyph of each character of a text, by the character map of a font.
pub open spec fn glyphs_of(data: Seq<u8>, content: Seq<char>) -> Seq<Option<u16>> {
    Seq::new(content.len(), |i: int| cmap_glyph(data, content[i]))
}

/// Tells whether a text is to be laid out anew: where the text itself
/// changed, and where its atlas was loaded.
pub fn needs_layout(changed: bool, atlas_loaded: bool) -> (r: bool)
    ensures
        r == (changed || atlas_loaded),
{
    changed || atlas_loaded
}

/// Places the glyphs of a line, given the glyph of each of its characters.
pub fn place_glyphs(glyphs: &Vec<Option<u16>>) -> (line: Vec<MsdfGlyph>)
    ensures
        line@ == placed(glyphs@),
{
    let n: usize = glyphs.len();
    let mut line: Vec<MsdfGlyph> = Vec::new();
    let mut i: usize = 0;
    while i < n
        invariant
            i <= n,
            n == glyphs.len(),
            line@ == placed_upto(glyphs@, i as int),
        decreases n - i,
    {
        match glyphs[i] {
            Some(g) => {
                let pos: i128 = 2 * (i as i128) - (n as i128);
                line.push(MsdfGlyph { pos, index: g });
            },
            None => {},
        }
        i = i + 1;
    }
    line
}

/// Lays out a text as one line of glyphs of a face.
///
/// Each character is looked up in the font; what comes back is placed as
/// [`place_glyphs`] says.
pub fn layout(face: &FontFace, content: &str) -> (line: Vec<MsdfGlyph>)
    ensures
        line@ == placed(glyphs_of(face@, content@)),
{
    broadcast use vstd::string::group_string_axioms;

    let mut glyphs: Vec<Option<u16>> = Vec::new();
    let mut chars = content.chars();
    loop
        invariant
            chars.remaining() == content@.skip(glyphs@.len() as int),
            glyphs@.len() <= content@.len(),
            forall|j: int|
                0 <= j < glyphs@.len() ==> (#[trigger] glyphs@[j]) == cmap_glyph(
                    face@,
                    content@[j],
                ),
        ensures
            glyphs@.len() == content@.len(),
        decreases content@.len() - glyphs@.len(),
    {
        match chars.next() {
            Some(c) => {
                glyphs.push(face.glyph_index(c));
            },
            None => {
                break ;
            },
        }
    }
    assert(glyphs@ =~= glyphs_of(face@, content@));
    place_glyphs(&glyphs)
}

} // verus!
