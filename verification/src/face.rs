//! The font face: parsed bytes, and what the pipeline reads from them.
//!
//! Parsing and the lookups are the work of the font parser. What it returns
//! is named here, as a function of the bytes, and not spelled out.

use vstd::prelude::*;
use owned_ttf_parser::{AsFaceRef, FaceParsingError, GlyphId, OwnedFace};
use crate::error::MsdfAtlasLoaderError;

verus! {

/// The owned face of the font parser: opaque but for the bytes it holds.
#[verifier::external_type_specification]
#[verifier::external_body]
pub struct ExOwnedFace(owned_ttf_parser::OwnedFace);

/// The bytes that a parsed face was made from and holds.
pub uninterp spec fn face_data(face: OwnedFace) -> Seq<u8>;

/// Whether the font parser accepts the bytes as a font, taking its face 0.
pub uninterp spec fn is_font_data(data: Seq<u8>) -> bool;

/// The glyph that the character map of the font gives for a character.
pub uninterp spec fn cmap_glyph(data: Seq<u8>, c: char) -> Option<u16>;

/// The number of glyphs that the font declares.
pub uninterp spec fn glyph_total(data: Seq<u8>) -> u16;

/// The number of design units in the em of the font.
pub uninterp spec fn em_units(data: Seq<u8>) -> u16;

/// The horizontal advance of a glyph, in design units, where the horizontal
/// metrics table of the font gives one.
pub uninterp spec fn advance_units(data: Seq<u8>, glyph: u16) -> Option<u16>;

/// A parsed font face. It is made by [`FontFace::parse`] and never changed.
pub struct FontFace {
    face: OwnedFace,
}

impl View for FontFace {
    type V = Seq<u8>;

    closed spec fn view(&self) -> Seq<u8> {
        face_data(self.face)
    }
}

/// `OwnedFace::from_vec` with face index 0. It succeeds on the bytes that the
/// parser accepts, and the face keeps the bytes it was given.
#[verifier::external_body]
fn parse_owned_face(data: Vec<u8>) -> (r: Result<OwnedFace, FaceParsingError>)
    ensures
        r is Ok <==> is_font_data(data@),
        r matches Ok(face) ==> face_data(face) == data@,
{
    OwnedFace::from_vec(data, 0)
}

/// `Face::glyph_index`: the glyph of a character, by the font's character
/// map.
#[verifier::external_body]
fn lookup_glyph(face: &FontFace, c: char) -> (r: Option<u16>)
    ensures
        r == cmap_glyph(face@, c),
{
    face.face.as_face_ref().glyph_index(c).map(|g| g.0)
}

/// `Face::number_of_glyphs`: the glyph count of the font, which is never
/// zero.
#[verifier::external_body]
fn count_glyphs(face: &FontFace) -> (r: u16)
    ensures
        r == glyph_total(face@),
        r > 0,
{
    face.face.as_face_ref().number_of_glyphs()
}

/// `Face::units_per_em`: the units of the em, which the parser keeps within
/// 16 to 16384.
#[verifier::external_body]
fn read_units_per_em(face: &FontFace) -> (r: u16)
    ensures
        r == em_units(face@),
        16 <= r <= 16384,
{
    face.face.as_face_ref().units_per_em()
}

/// `hmtx::Table::advance`, on the horizontal metrics table that
/// `Face::tables` hands out: the advance that the table holds for the glyph,
/// read as it stands. There is none without the table, and none for a glyph
/// beyond it. Variation axes play no part.
#[verifier::external_body]
fn read_hor_advance(face: &FontFace, glyph: u16) -> (r: Option<u16>)
    ensures
        r == advance_units(face@, glyph),
{
    face.face.as_face_ref().tables().hmtx?.advance(GlyphId(glyph))
}

impl FontFace {
    /// Parses the bytes of a font, taking its first face.
    ///
    /// Bytes that the parser refuses give `FontInvalid` with the parser's
    /// error; nothing else does.
    pub fn parse(data: Vec<u8>) -> (r: Result<FontFace, MsdfAtlasLoaderError>)
        ensures
            r is Ok <==> is_font_data(data@),
            r matches Ok(face) ==> face@ == data@,
            r matches Err(e) ==> e is FontInvalid,
    {
        match parse_owned_face(data) {
            Ok(face) => Ok(FontFace { face }),
            Err(e) => Err(MsdfAtlasLoaderError::FontInvalid(e)),
        }
    }

    /// The glyph that stands for a character, if the font has one.
    pub fn glyph_index(&self, c: char) -> (r: Option<u16>)
        ensures
            r == cmap_glyph(self@, c),
    {
        lookup_glyph(self, c)
    }

    /// The number of glyphs of the face: glyph ids run from 0 to below it.
    pub fn glyph_count(&self) -> (r: u16)
        ensures
            r == glyph_total(self@),
            r > 0,
    {
        count_glyphs(self)
    }

    /// The number of design units in the em.
    pub fn units_per_em(&self) -> (r: u16)
        ensures
            r == em_units(self@),
            16 <= r <= 16384,
    {
        read_units_per_em(self)
    }

    /// The horizontal advance of a glyph in design units, if the font gives
    /// one.
    pub fn advance(&self, glyph: u16) -> (r: Option<u16>)
        ensures
            r == advance_units(self@, glyph),
    {
        read_hor_advance(self, glyph)
    }

    /// The parser's face, for reading what this crate does not: outlines.
    pub fn as_owned(&self) -> (r: &OwnedFace)
        ensures
            face_data(*r) == self@,
    {
        &self.face
    }
}

} // verus!
