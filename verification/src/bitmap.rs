//! Glyph bitmaps: distance samples, one byte per channel.
//!
//! A signed distance is positive outside the filled region and negative
//! inside it. It is clamped to the range on either side of the outline and
//! mapped linearly onto `0..=255`, so that the outline itself lies between
//! the bytes 127 and 128.

use vstd::prelude::*;

verus! {

/// Number of channels of a pixel.
pub const CHANNELS: usize = 3;

/// Number of distance units in one pixel.
pub const DISTANCE_UNITS_PER_PIXEL: i64 = 256;

/// The byte that stands for a signed distance, given in distance units, at a
/// range of `range` pixels.
///
/// The distance is clamped to `[-range, range]` and that interval is mapped
/// linearly onto `[0, 255]`, rounding to the nearest byte and halves up. At a
/// range of zero only the sign is left.
pub open spec fn encoded(distance: int, range: int) -> int {
    let reach = range * DISTANCE_UNITS_PER_PIXEL;
    if reach <= 0 {
        if distance > 0 {
            255
        } else if distance < 0 {
            0
        } else {
            128
        }
    } else if distance <= -reach {
        0
    } else if distance >= reach {
        255
    } else {
        ((distance + reach) * 255 + reach) / (2 * reach)
    }
}

/// The byte of a distance tells its sign: it is 128 or more exactly where
/// the distance is not negative, that is outside the filled region or on its
/// outline.
pub proof fn lemma_encoded_sign(distance: int, range: int)
    requires
        range >= 0,
    ensures
        0 <= encoded(distance, range) <= 255,
        encoded(distance, range) >= 128 <==> distance >= 0,
{
    let reach = range * DISTANCE_UNITS_PER_PIXEL;
    if reach > 0 && -reach < distance < reach {
        let n = (distance + reach) * 255 + reach;
        if distance >= 0 {
            assert(n / (2 * reach) >= 128) by (nonlinear_arith)
                requires
                    n >= 256 * reach,
                    reach > 0,
            ;
        } else {
            assert(n / (2 * reach) <= 127) by (nonlinear_arith)
                requires
                    n < 256 * reach,
                    reach > 0,
            ;
        }
        assert(0 <= n / (2 * reach) <= 255) by (nonlinear_arith)
            requires
                0 <= n < 512 * reach,
                reach > 0,
        ;
    }
}

/// A greater distance never has a smaller byte.
pub proof fn lemma_encoded_monotone(near: int, far: int, range: int)
    requires
        range >= 0,
        near <= far,
    ensures
        encoded(near, range) <= encoded(far, range),
{
    let reach = range * DISTANCE_UNITS_PER_PIXEL;
    lemma_encoded_sign(near, range);
    lemma_encoded_sign(far, range);
    if reach > 0 && -reach < near && far < reach {
        let a = (near + reach) * 255 + reach;
        let b = (far + reach) * 255 + reach;
        assert(a / (2 * reach) <= b / (2 * reach)) by (nonlinear_arith)
            requires
                a <= b,
                reach > 0,
        ;
    }
}

/// Gives the byte that stands for a signed distance, in distance units, at a
/// range of `range` pixels.
pub fn encode_distance(distance: i32, range: u32) -> (byte: u8)
    ensures
        byte == encoded(distance as int, range as int),
{
    let reach: i64 = range as i64 * DISTANCE_UNITS_PER_PIXEL;
    let d: i64 = distance as i64;
    if reach == 0 {
        if d > 0 {
            255
        } else if d < 0 {
            0
        } else {
            128
        }
    } else if d <= -reach {
        0
    } else if d >= reach {
        255
    } else {
        proof {
            lemma_encoded_sign(distance as int, range as int);
        }
        let n: i64 = (d + reach) * 255 + reach;
        (n / (2 * reach)) as u8
    }
}

/// The number of samples of a bitmap of `width` by `height` pixels.
fn sample_count(width: u32, height: u32) -> (n: u128)
    ensures
        n == width * height * CHANNELS,
{
    assert(0 <= width * height <= 0xffff_ffff * 0xffff_ffff) by (nonlinear_arith)
        requires
            0 <= width <= 0xffff_ffff,
            0 <= height <= 0xffff_ffff,
    ;
    (width as u128) * (height as u128) * 3
}

/// The distance samples of one glyph: rows of pixels, three bytes a pixel.
#[derive(Debug, PartialEq, Eq)]
pub struct GlyphBitmap {
    width: u32,
    height: u32,
    data: Vec<u8>,
}

impl View for GlyphBitmap {
    type V = Seq<u8>;

    closed spec fn view(&self) -> Seq<u8> {
        self.data@
    }
}

impl GlyphBitmap {
    #[verifier::type_invariant]
    spec fn inv(self) -> bool {
        self.data@.len() == self.width * self.height * CHANNELS
    }

    /// The width in pixels.
    pub closed spec fn spec_width(&self) -> u32 {
        self.width
    }

    /// The height in pixels.
    pub closed spec fn spec_height(&self) -> u32 {
        self.height
    }

    /// Builds a bitmap from signed distances, in distance units, one for each
    /// channel of each pixel, row by row.
    ///
    /// There is none where the number of distances is not three for each
    /// pixel.
    pub fn from_distances(width: u32, height: u32, range: u32, distances: &Vec<i32>) -> (r: Option<
        GlyphBitmap,
    >)
        ensures
            r is Some <==> distances@.len() == width * height * CHANNELS,
            r matches Some(b) ==> {
                &&& b.spec_width() == width
                &&& b.spec_height() == height
                &&& b@.len() == distances@.len()
                &&& forall|i: int|
                    0 <= i < distances@.len() ==> (#[trigger] b@[i]) == encoded(
                        distances@[i] as int,
                        range as int,
                    )
            },
    {
        let wanted: u128 = sample_count(width, height);
        if distances.len() as u128 != wanted {
            return None;
        }
        let mut data: Vec<u8> = Vec::new();
        let mut i: usize = 0;
        while i < distances.len()
            invariant
                i <= distances.len(),
                data@.len() == i,
                forall|j: int|
                    0 <= j < i ==> (#[trigger] data@[j]) == encoded(
                        distances@[j] as int,
                        range as int,
                    ),
            decreases distances.len() - i,
        {
            data.push(encode_distance(distances[i], range));
            i = i + 1;
        }
        Some(GlyphBitmap { width, height, data })
    }

    /// Builds a bitmap from bytes, one for each channel of each pixel, row by
    /// row. There is none where the number of bytes is not three for each
    /// pixel.
    pub fn from_bytes(width: u32, height: u32, data: Vec<u8>) -> (r: Option<GlyphBitmap>)
        ensures
            r is Some <==> data@.len() == width * height * CHANNELS,
            r matches Some(b) ==> b.spec_width() == width && b.spec_height() == height && b@
                == data@,
    {
        let wanted: u128 = sample_count(width, height);
        if data.len() as u128 != wanted {
            return None;
        }
        Some(GlyphBitmap { width, height, data })
    }

    pub fn width(&self) -> (w: u32)
        ensures
            w == self.spec_width(),
    {
        self.width
    }

    pub fn height(&self) -> (h: u32)
        ensures
            h == self.spec_height(),
    {
        self.height
    }

    /// The bytes, row by row.
    pub fn data(&self) -> (d: &Vec<u8>)
        ensures
            d@ == self@,
            d@.len() == self.spec_width() * self.spec_height() * CHANNELS,
    {
        proof {
            use_type_invariant(self);
        }
        &self.data
    }
}

} // verus!
