use vstd::prelude::*;

use crate::vector::{Color3i, Vec3};

verus! {

/// Fixed-point value of a full color channel: a channel runs from `0`
/// (none) to `COLOR_ONE` (full).
pub const COLOR_ONE: i64 = 65536;

/// A number `num / den` of the unit interval, kept exact.
#[derive(Clone, Copy, Debug, PartialEq, Eq, Structural)]
pub struct Fraction {
    pub num: u64,
    pub den: u64,
}

impl Fraction {
    /// The fraction names a number of `[0, 1]`.
    pub open spec fn wf(self) -> bool {
        0 < self.den && self.num <= self.den
    }

    pub fn new(num: u64, den: u64) -> (r: Self)
        ensures
            r == (Fraction { num, den }),
    {
        Self { num, den }
    }
}

/// A color whose channels lie in `[0, COLOR_ONE]`.
pub open spec fn is_color(c: Color3i) -> bool {
    0 <= c.x <= COLOR_ONE && 0 <= c.y <= COLOR_ONE && 0 <= c.z <= COLOR_ONE
}

/// A channel in `[0, COLOR_ONE]` quantized to a byte.
pub open spec fn channel_byte(c: int) -> int {
    c * 255 / COLOR_ONE as int
}

#[derive(Clone, Copy, Debug)]
pub struct Sample {
    /// The x position of the sample, in [0, 1]
    pub x: Fraction,
    /// The y position of the sample, in [0, 1]
    pub y: Fraction,
    /// The color of the sample, each channel in [0, COLOR_ONE]
    pub color: Color3i,
}

impl Sample {
    pub open spec fn wf(self) -> bool {
        self.x.wf() && self.y.wf() && is_color(self.color)
    }

    /// The position lies in `[0, 1)²`.
    pub open spec fn in_unit_square(self) -> bool {
        self.x.num < self.x.den && self.y.num < self.y.den
    }

    /// A black sample at `(x, y)`.
    pub fn new(x: Fraction, y: Fraction) -> (r: Self)
        ensures
            r == (Sample { x, y, color: Vec3 { x: 0, y: 0, z: 0 } }),
    {
        Self { x, y, color: Vec3::new(0, 0, 0) }
    }

    pub fn new_with_color(x: Fraction, y: Fraction, color: Color3i) -> (r: Self)
        ensures
            r == (Sample { x, y, color }),
    {
        Self { x, y, color }
    }

    /// The color quantized to bytes: each channel scaled to `[0, 255]` and
    /// rounded down.
    pub fn color_rgb_bytes(&self) -> (r: Color3i)
        requires
            is_color(self.color),
        ensures
            r.x == channel_byte(self.color.x as int),
            r.y == channel_byte(self.color.y as int),
            r.z == channel_byte(self.color.z as int),
            0 <= r.x <= 255 && 0 <= r.y <= 255 && 0 <= r.z <= 255,
    {
        proof {
            lemma_channel_byte_range(self.color.x as int);
            lemma_channel_byte_range(self.color.y as int);
            lemma_channel_byte_range(self.color.z as int);
        }
        Vec3::new(
            self.color.x * 255 / COLOR_ONE,
            self.color.y * 255 / COLOR_ONE,
            self.color.z * 255 / COLOR_ONE,
        )
    }
}

proof fn lemma_channel_byte_range(c: int)
    requires
        0 <= c <= COLOR_ONE,
    ensures
        0 <= channel_byte(c) <= 255,
{
    assert(0 <= c * 255 / 65536 <= 255) by (nonlinear_arith)
        requires
            0 <= c <= 65536,
    ;
}

} // verus!
