//! How an engine output is cropped, scaled and rotated onto the display.

use crate::ieee::{Binary32, Binary64, ONE_64};
use crate::numbers::rounded32;
use vstd::arithmetic::power2::pow2;
use vstd::prelude::*;

verus! {

/// The binary64 pattern of `0.0001`.
pub const SMALLEST_ASPECT: u64 = 0x3f1a_36e2_eb1c_432d;

/// The binary64 pattern of the quotient of pi and 180.
pub const RADIANS_PER_DEGREE: u64 = 0x3f91_df46_a252_9d39;

/// What the engine says of a completed output.
#[derive(Clone, Copy, Debug)]
pub struct OutputInfo {
    /// The address of the pixels; the adapter only passes it on.
    pub pixels: u64,
    pub frame_id: u64,
    pub generation: u64,
    pub pts_value: i64,
    pub duration_value: i64,
    pub pts_scale: i32,
    pub duration_scale: i32,
    pub width: u32,
    pub height: u32,
    pub reference_white: Binary64,
    /// Left, top, width and height, in pixels of the output.
    pub crop: [Binary64; 4],
    /// In degrees.
    pub rotation: Binary64,
    /// The width of a pixel over its height.
    pub aspect: Binary64,
}

impl Default for OutputInfo {
    fn default() -> (info: OutputInfo)
        ensures
            info.pixels == 0,
            info.frame_id == 0,
            info.generation == 0,
            info.pts_value == 0,
            info.duration_value == 0,
            info.pts_scale == 0,
            info.duration_scale == 0,
            info.width == 0,
            info.height == 0,
            info.reference_white.bits == 0,
            info.crop@ == seq![
                Binary64 { bits: 0 },
                Binary64 { bits: 0 },
                Binary64 { bits: 0 },
                Binary64 { bits: 0 },
            ],
            info.rotation.bits == 0,
            info.aspect.bits == 0,
    {
        let zero = Binary64 { bits: 0 };
        OutputInfo {
            pixels: 0,
            frame_id: 0,
            generation: 0,
            pts_value: 0,
            duration_value: 0,
            pts_scale: 0,
            duration_scale: 0,
            width: 0,
            height: 0,
            reference_white: zero,
            crop: [zero, zero, zero, zero],
            rotation: zero,
            aspect: zero,
        }
    }
}

/// A length in pixels, as a fraction of a number of pixels.
pub open spec fn fraction_of(length: Binary64, pixels: u32) -> Binary32 {
    length.narrowed().quotient(rounded32(false, pixels * pow2(149), 1))
}

impl OutputInfo {
    /// The width of the cropped picture with square pixels.
    pub open spec fn square_width(self) -> Binary64 {
        self.crop[2].raised(Binary64 { bits: ONE_64 }).product(
            self.aspect.raised(Binary64 { bits: SMALLEST_ASPECT }),
        )
    }

    /// The height of the cropped picture.
    pub open spec fn square_height(self) -> Binary64 {
        self.crop[3].raised(Binary64 { bits: ONE_64 })
    }

    /// The width of the box around the rotated picture.
    pub open spec fn display_width(self, sin: Binary64, cos: Binary64) -> Binary64 {
        cos.unsigned().product(self.square_width()).sum(
            sin.unsigned().product(self.square_height()),
        )
    }

    /// The height of the box around the rotated picture.
    pub open spec fn display_height(self, sin: Binary64, cos: Binary64) -> Binary64 {
        sin.unsigned().product(self.square_width()).sum(
            cos.unsigned().product(self.square_height()),
        )
    }

    /// The crop as fractions of the output's size.
    pub open spec fn crop_fractions(self) -> Seq<Binary32> {
        seq![
            fraction_of(self.crop[0], self.width),
            fraction_of(self.crop[1], self.height),
            fraction_of(self.crop[2], self.width),
            fraction_of(self.crop[3], self.height),
        ]
    }

    /// The matrix from a place in the box, about its centre, to a place in the picture.
    pub open spec fn inverse_matrix(self, sin: Binary64, cos: Binary64) -> Seq<Binary32> {
        let dw = self.display_width(sin, cos);
        let dh = self.display_height(sin, cos);
        let w = self.square_width();
        let h = self.square_height();
        seq![
            cos.product(dw).quotient(w).narrowed(),
            sin.product(dh).quotient(w).narrowed(),
            sin.opposite().product(dw).quotient(h).narrowed(),
            cos.product(dh).quotient(h).narrowed(),
        ]
    }

    /// The angle whose sine and cosine [`OutputInfo::presentation_geometry`] takes.
    pub fn rotation_radians(&self) -> (angle: Binary64)
        ensures
            angle == self.rotation.product(Binary64 { bits: RADIANS_PER_DEGREE }),
    {
        self.rotation.times(Binary64 { bits: RADIANS_PER_DEGREE })
    }

    /// The crop as fractions of the output, the matrix from the display back into the picture, and
    /// the size of the display, for the sine and cosine of the rotation.
    pub fn presentation_geometry(
        &self,
        sin: Binary64,
        cos: Binary64,
    ) -> (geometry: ([Binary32; 4], [Binary32; 4], u32, u32))
        ensures
            geometry.0@ == self.crop_fractions(),
            geometry.1@ == self.inverse_matrix(sin, cos),
            geometry.2 == self.display_width(sin, cos).whole_pixels(),
            geometry.3 == self.display_height(sin, cos).whole_pixels(),
    {
        let one = Binary64 { bits: ONE_64 };
        let smallest = Binary64 { bits: SMALLEST_ASPECT };
        proof {
            lemma_constants_positive();
        }
        let w = self.crop[2].at_least_floor(one).times(self.aspect.at_least_floor(smallest));
        let h = self.crop[3].at_least_floor(one);
        let dw = cos.absolute().times(w).plus(sin.absolute().times(h));
        let dh = sin.absolute().times(w).plus(cos.absolute().times(h));
        let width = Binary32::from_unsigned(self.width);
        let height = Binary32::from_unsigned(self.height);
        let crop = [
            self.crop[0].to_binary32().over(width),
            self.crop[1].to_binary32().over(height),
            self.crop[2].to_binary32().over(width),
            self.crop[3].to_binary32().over(height),
        ];
        let inverse = [
            cos.times(dw).over(w).to_binary32(),
            sin.times(dh).over(w).to_binary32(),
            sin.negated().times(dw).over(h).to_binary32(),
            cos.times(dh).over(h).to_binary32(),
        ];
        (crop, inverse, dw.to_pixels(), dh.to_pixels())
    }
}

proof fn lemma_constants_positive()
    ensures
        (Binary64 { bits: ONE_64 }).positive(),
        (Binary64 { bits: SMALLEST_ASPECT }).positive(),
{
    Binary64::lemma_pattern_positive(Binary64 { bits: ONE_64 });
    Binary64::lemma_pattern_positive(Binary64 { bits: SMALLEST_ASPECT });
}

} // verus!
