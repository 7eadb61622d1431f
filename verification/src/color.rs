use vstd::prelude::*;
use crate::canvas::{Rgb, RgbImage, image_height, image_width};

verus! {

/// How many units of a [`Color`] channel make the radiance 1.
pub const UNIT: u64 = 65536;

/// The light gathered for one pixel, as the sum over its samples.
///
/// A channel that has gathered the radiance `x` holds the whole part of
/// `UNIT * x`. Nothing finer is needed: the level that [`Color::write`] stores
/// depends on the mean radiance `m` only through the whole part of `UNIT * m`,
/// and dividing the whole part of `UNIT * x` by the number of samples, whole
/// parts again, gives exactly that.
#[derive(Clone, Copy, Debug, PartialEq, Eq, Structural)]
pub struct Color {
    pub r: u64,
    pub g: u64,
    pub b: u64,
}

/// Whether `level` is the level stored for a channel whose mean is `mean`
/// units: 256 times the square root of the mean radiance, rounded down, the
/// root being held at 0.999 from above.
pub open spec fn is_level(mean: int, level: int) -> bool {
    if mean >= 255 * 255 {
        level == 255
    } else {
        0 <= level && level * level <= mean < (level + 1) * (level + 1)
    }
}

/// The level stored for a channel whose mean is `mean` units.
pub open spec fn level_of(mean: int) -> int {
    choose|level: int| is_level(mean, level)
}

/// A mean has one level only.
pub proof fn lemma_level_unique(mean: int, a: int, b: int)
    requires
        is_level(mean, a),
        is_level(mean, b),
    ensures
        a == b,
{
    if mean < 255 * 255 {
        if a < b {
            assert((a + 1) * (a + 1) <= b * b) by (nonlinear_arith)
                requires
                    0 <= a,
                    a + 1 <= b,
            ;
        }
        if b < a {
            assert((b + 1) * (b + 1) <= a * a) by (nonlinear_arith)
                requires
                    0 <= b,
                    b + 1 <= a,
            ;
        }
    }
}

/// A brighter mean never gets a darker level.
pub proof fn lemma_level_monotone(dim: int, bright: int)
    requires
        0 <= dim <= bright,
    ensures
        level_of(dim) <= level_of(bright),
{
    lemma_level_exists(dim);
    lemma_level_exists(bright);
    let a = level_of(dim);
    let b = level_of(bright);
    if bright >= 255 * 255 {
        if dim < 255 * 255 && a > 255 {
            assert(256 * 256 <= a * a) by (nonlinear_arith)
                requires
                    256 <= a,
            ;
        }
    } else if b < a {
        assert((b + 1) * (b + 1) <= a * a) by (nonlinear_arith)
            requires
                0 <= b,
                b + 1 <= a,
        ;
    }
}

/// Every mean that is not negative has a level, and it fits eight bits.
pub proof fn lemma_level_exists(mean: int)
    requires
        0 <= mean,
    ensures
        is_level(mean, level_of(mean)),
        0 <= level_of(mean) <= 255,
    decreases mean,
{
    if mean >= 255 * 255 {
        assert(is_level(mean, 255));
    } else if mean == 0 {
        assert(is_level(0, 0));
    } else {
        lemma_level_exists(mean - 1);
        let k = level_of(mean - 1);
        if (k + 1) * (k + 1) <= mean {
            assert((k + 2) * (k + 2) > (k + 1) * (k + 1) + 1) by (nonlinear_arith)
                requires
                    0 <= k,
            ;
            assert(is_level(mean, k + 1));
        } else {
            assert(is_level(mean, k));
        }
    }
    let q = level_of(mean);
    if mean < 255 * 255 && q > 255 {
        assert(256 * 256 <= q * q) by (nonlinear_arith)
            requires
                256 <= q,
        ;
    }
}

/// One step of the search for a square root: `low` moves up by `half` where
/// the root is not below that.
fn narrow(mean: u32, low: u32, half: u32) -> (next: u32)
    requires
        low * low <= mean < (low + 2 * half) * (low + 2 * half),
        low + 2 * half <= 256,
    ensures
        next * next <= mean < (next + half) * (next + half),
        next + half <= 256,
        low <= next,
{
    let high: u32 = low + half;
    assert(high * high <= 256 * 256) by (nonlinear_arith)
        requires
            high <= 256,
    ;
    if high * high <= mean {
        high
    } else {
        low
    }
}

/// The level stored for a channel that has gathered `sum` units over
/// `samples_per_pixel` samples: the mean, its square root for gamma 2, clamped
/// and scaled to eight bits.
pub fn gamma_level(sum: u64, samples_per_pixel: i32) -> (level: u8)
    requires
        samples_per_pixel > 0,
    ensures
        level == level_of(sum as int / samples_per_pixel as int),
        is_level(sum as int / samples_per_pixel as int, level as int),
{
    let mean: u64 = sum / (samples_per_pixel as u64);
    let level: u8 = if mean >= 255 * 255 {
        255
    } else {
        let m: u32 = mean as u32;
        assert(0 * 0 <= m < (0 + 2 * 128) * (0 + 2 * 128)) by (nonlinear_arith)
            requires
                m < 255 * 255,
        ;
        let k = narrow(m, 0, 128);
        let k = narrow(m, k, 64);
        let k = narrow(m, k, 32);
        let k = narrow(m, k, 16);
        let k = narrow(m, k, 8);
        let k = narrow(m, k, 4);
        let k = narrow(m, k, 2);
        let k = narrow(m, k, 1);
        k as u8
    };
    proof {
        lemma_level_exists(mean as int);
        lemma_level_unique(mean as int, level as int, level_of(mean as int));
    }
    level
}

impl Color {
    /// The pixel stored for this colour when it was gathered over `samples` samples.
    pub open spec fn pixel(&self, samples: int) -> Rgb {
        (
            level_of(self.r as int / samples) as u8,
            level_of(self.g as int / samples) as u8,
            level_of(self.b as int / samples) as u8,
        )
    }

    /// Stores the colour, gathered over `samples_per_pixel` samples, as the
    /// pixel in column `x` of row `y` of `img`.
    pub fn write(&self, img: &mut RgbImage, x: u32, y: u32, samples_per_pixel: i32)
        requires
            x < image_width(*old(img)),
            y < image_height(*old(img)),
            samples_per_pixel > 0,
        ensures
            image_width(*final(img)) == image_width(*old(img)),
            image_height(*final(img)) == image_height(*old(img)),
            final(img).pixel(x as int, y as int) == self.pixel(samples_per_pixel as int),
            forall|i: int, j: int|
                (i, j) != (x as int, y as int) ==> #[trigger] final(img).pixel(i, j) == old(
                    img,
                ).pixel(i, j),
    {
        let red = gamma_level(self.r, samples_per_pixel);
        let green = gamma_level(self.g, samples_per_pixel);
        let blue = gamma_level(self.b, samples_per_pixel);
        img.put_pixel(x, y, (red, green, blue));
    }
}

} // verus!
