//! The errors of atlas generation.

use vstd::prelude::*;
use owned_ttf_parser::FaceParsingError;

verus! {

/// The parsing error of the font parser. Its cases are not looked into here.
#[verifier::external_type_specification]
#[verifier::external_body]
pub struct ExFaceParsingError(owned_ttf_parser::FaceParsingError);

/// Possible errors of loading a font into an atlas.
///
/// The first is fatal: no atlas comes of bytes that are no font. The other
/// two concern one glyph each; that glyph is left out and the rest goes on.
#[non_exhaustive]
#[derive(Debug, Clone, Copy, PartialEq)]
pub enum MsdfAtlasLoaderError {
    /// The bytes are not a font face.
    FontInvalid(FaceParsingError),
    /// Failure to read a glyph shape.
    GlyphShape(u16),
    /// Failed to frame a glyph within its cell.
    AutoFraming { glyph: u16, width: usize, height: usize, range: u32 },
}

impl MsdfAtlasLoaderError {
    /// The glyph that the error concerns, if it concerns one.
    pub open spec fn glyph_of(self) -> Option<u16> {
        match self {
            MsdfAtlasLoaderError::FontInvalid(_) => None,
            MsdfAtlasLoaderError::GlyphShape(g) => Some(g),
            MsdfAtlasLoaderError::AutoFraming { glyph, .. } => Some(glyph),
        }
    }

    /// Gives the glyph that the error concerns, if it concerns one.
    pub fn glyph(&self) -> (r: Option<u16>)
        ensures
            r == self.glyph_of(),
    {
        match self {
            MsdfAtlasLoaderError::FontInvalid(_) => None,
            MsdfAtlasLoaderError::GlyphShape(g) => Some(*g),
            MsdfAtlasLoaderError::AutoFraming { glyph, .. } => Some(*glyph),
        }
    }
}

} // verus!
