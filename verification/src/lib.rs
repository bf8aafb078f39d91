//! Glyph atlas generation for multi-channel signed distance field text.
//!
//! A font becomes one texture that holds a distance field for every glyph,
//! with the metrics and the rectangle of each. This crate holds the part of
//! that work that is done in whole numbers:
//!
//! - [`face`]: the parsed font, and what is looked up in it;
//! - [`outline`]: path commands to closed contours of edges;
//! - [`coloring`]: the colour channels of each edge, so that corners stay
//!   sharp;
//! - [`framing`]: the scale and the margins of a glyph in its cell;
//! - [`glyph`]: the plan of one glyph, or the error that leaves it out;
//! - [`bitmap`]: signed distances to bytes;
//! - [`packing`]: the grid of cells and the texture that holds it;
//! - [`atlas`]: the finished texture with the record of every glyph;
//! - [`builder`] and [`loader`]: the way from the bytes of a font to its
//!   atlas, one glyph at a time;
//! - [`run`]: what a whole run over the glyphs of a face comes to;
//! - [`text`]: a line of glyphs for a text.
//!
//! Two steps work on floating-point numbers and are the caller's: reading
//! the path of a glyph from the font parser, and sampling the distance field
//! of a planned glyph. The builder says what goes in and what comes back.
//!
//! Coordinates are whole numbers of sub-units, 64 to the design unit of the
//! font; a scale is a fraction; metrics are whole numbers of 64ths of a
//! pixel.

pub mod geometry;
pub mod outline;
pub mod coloring;
pub mod framing;
pub mod packing;
pub mod bitmap;
pub mod error;
pub mod face;
pub mod text;
pub mod glyph;
pub mod atlas;
pub mod builder;
pub mod loader;
pub mod run;

pub use crate::atlas::GlyphAtlas;
pub use crate::error::MsdfAtlasLoaderError;
pub use crate::loader::{MsdfAtlas, MsdfAtlasLoader};
pub use crate::text::{layout, MsdfGlyph};
