//! The canvas: per-pixel accumulation, tone mapping, and the two output
//! buffer formats.

use crate::defs::{div_floor, isqrt, Real, SCALE};
use crate::math::{is_zero, v3, Color3};
use vstd::prelude::*;

verus! {

/// Widest canvas edge accepted, in pixels.
pub const CANVAS_LIMIT: usize = 0x2000;

/// Most samples per pixel accepted.
pub const SAMPLE_LIMIT: i64 = 0x10_0000;

/// A channel averaged over its samples and gamma-corrected by square root.
pub open spec fn gamma_of(c: int, samples: int) -> int {
    isqrt((c / samples) * SCALE)
}

/// A channel clamped to `[0, 0.999]` and quantized to a byte.
pub open spec fn byte_of(c: int) -> int {
    let clamped = if c < 0 {
        0int
    } else if c > 65470 {
        65470int
    } else {
        c
    };
    clamped / 256
}

/// A packed `0x00RRGGBB` pixel.
pub open spec fn packed_of(x: int, y: int, z: int) -> int {
    byte_of(x) * 0x1_0000 + byte_of(y) * 0x100 + byte_of(z)
}

/// The grid of tone-mapped pixels, row 0 at the top.
pub struct Canvas {
    pub width: usize,
    pub height: usize,
    pub data: Vec<Color3>,
}

/// The canvas holds exactly one color per pixel, within sane dimensions.
pub open spec fn canvas_wf(c: Canvas) -> bool {
    &&& 1 <= c.width <= CANVAS_LIMIT
    &&& 1 <= c.height <= CANVAS_LIMIT
    &&& c.data.len() == c.width * c.height
}

/// A channel accumulated from at most one unit per sample tone-maps into
/// `[0, 1]`.
pub proof fn lemma_gamma_unit(c: int, samples: int)
    requires
        0 <= c <= samples * SCALE,
        1 <= samples,
    ensures
        0 <= gamma_of(c, samples) <= SCALE,
{
    vstd::arithmetic::div_mod::lemma_div_pos_is_pos(c, samples);
    vstd::arithmetic::div_mod::lemma_div_is_ordered(c, samples * SCALE, samples);
    vstd::arithmetic::div_mod::lemma_div_multiples_vanish(SCALE as int, samples);
    let avg = c / samples;
    assert(0 <= avg * SCALE <= (SCALE as int) * SCALE) by (nonlinear_arith)
        requires
            0 <= avg <= SCALE,
    ;
    crate::defs::lemma_isqrt_exists(avg * SCALE);
    let g = isqrt(avg * SCALE);
    assert(g <= SCALE) by (nonlinear_arith)
        requires
            0 <= g,
            g * g <= (SCALE as int) * SCALE,
    ;
}

/// A byte value lies in `[0, 255]`.
pub proof fn lemma_byte_of_range(c: int)
    ensures
        0 <= byte_of(c) <= 255,
{
    let clamped = if c < 0 {
        0int
    } else if c > 65470 {
        65470int
    } else {
        c
    };
    vstd::arithmetic::div_mod::lemma_fundamental_div_mod_converse_div(65535, 256, 255, 255);
    vstd::arithmetic::div_mod::lemma_div_is_ordered(clamped, 65535, 256);
    vstd::arithmetic::div_mod::lemma_div_pos_is_pos(clamped, 256);
}

impl Canvas {
    /// A black canvas of the given dimensions.
    pub fn new(width: usize, height: usize) -> (r: Canvas)
        requires
            1 <= width <= CANVAS_LIMIT,
            1 <= height <= CANVAS_LIMIT,
        ensures
            canvas_wf(r),
            r.width == width,
            r.height == height,
            forall|i: int| 0 <= i < r.data.len() ==> is_zero(#[trigger] r.data[i]),
    {
        proof {
            assert(width * height <= 0x400_0000) by (nonlinear_arith)
                requires
                    width <= 0x2000,
                    height <= 0x2000,
            ;
        }
        let total: usize = width * height;
        let mut data: Vec<Color3> = Vec::new();
        let mut i: usize = 0;
        while i < total
            invariant
                i <= total,
                data.len() == i,
                forall|j: int| 0 <= j < i ==> is_zero(#[trigger] data[j]),
            decreases total - i,
        {
            data.push(crate::math::Vector3::default());
            i = i + 1;
        }
        Canvas { width, height, data }
    }

    /// Average the accumulated color over its samples, gamma-correct each
    /// channel by square root, and store the result at `(x, y)` with the
    /// vertical axis flipped (render row 0 is the bottom of the image).
    pub fn set_pixel(&mut self, x: usize, y: usize, color: &Color3, samples_per_pixel: i64)
        requires
            canvas_wf(*old(self)),
            x < old(self).width,
            y < old(self).height,
            1 <= samples_per_pixel <= SAMPLE_LIMIT,
            0 <= color.x.raw <= 0x100_0000_0000,
            0 <= color.y.raw <= 0x100_0000_0000,
            0 <= color.z.raw <= 0x100_0000_0000,
        ensures
            canvas_wf(*final(self)),
            final(self).width == old(self).width,
            final(self).height == old(self).height,
            final(self).data@ == old(self).data@.update(
                (old(self).height - 1 - y) * old(self).width + x,
                v3(
                    gamma_of(color.x.raw as int, samples_per_pixel as int),
                    gamma_of(color.y.raw as int, samples_per_pixel as int),
                    gamma_of(color.z.raw as int, samples_per_pixel as int),
                ),
            ),
    {
        let red = tone_channel(color.x, samples_per_pixel);
        let green = tone_channel(color.y, samples_per_pixel);
        let blue = tone_channel(color.z, samples_per_pixel);
        let new_color = Color3::new(red, green, blue);
        proof {
            assert((self.height - 1 - y) * self.width + x < self.height * self.width
                && self.height * self.width <= 0x400_0000) by (nonlinear_arith)
                requires
                    1 <= self.width <= 0x2000,
                    1 <= self.height <= 0x2000,
                    x < self.width,
                    y < self.height,
            ;
            assert(self.width * self.height == self.height * self.width) by (nonlinear_arith);
        }
        let idx: usize = (self.height - 1 - y) * self.width + x;
        self.data[idx] = new_color;
    }

    /// The interleaved 8-bit RGB bytes of every pixel, top row first.
    pub fn to_u8_vec(&self) -> (r: Vec<u8>)
        requires
            canvas_wf(*self),
        ensures
            r.len() == 3 * self.data.len(),
            forall|i: int|
                0 <= i < self.data.len() ==> r[3 * i] == byte_of((#[trigger] self.data[i]).x.raw as int)
                    && r[3 * i + 1] == byte_of(self.data[i].y.raw as int) && r[3 * i + 2] == byte_of(
                    self.data[i].z.raw as int,
                ),
    {
        let mut u8_vec: Vec<u8> = Vec::new();
        let mut i: usize = 0;
        while i < self.data.len()
            invariant
                canvas_wf(*self),
                i <= self.data.len(),
                u8_vec.len() == 3 * i,
                forall|j: int|
                    0 <= j < i ==> u8_vec[3 * j] == byte_of(
                        (#[trigger] self.data[j]).x.raw as int,
                    ) && u8_vec[3 * j + 1] == byte_of(self.data[j].y.raw as int) && u8_vec[3 * j
                        + 2] == byte_of(self.data[j].z.raw as int),
            decreases self.data.len() - i,
        {
            let color = self.data[i];
            u8_vec.push(quantize(color.x));
            u8_vec.push(quantize(color.y));
            u8_vec.push(quantize(color.z));
            i = i + 1;
        }
        u8_vec
    }

    /// The packed `0x00RRGGBB` form of every pixel, top row first.
    pub fn to_u32_vec(&self) -> (r: Vec<u32>)
        requires
            canvas_wf(*self),
        ensures
            r.len() == self.data.len(),
            forall|i: int|
                0 <= i < self.data.len() ==> r[i] == packed_of(
                    (#[trigger] self.data[i]).x.raw as int,
                    self.data[i].y.raw as int,
                    self.data[i].z.raw as int,
                ),
    {
        let mut u32_vec: Vec<u32> = Vec::new();
        let mut i: usize = 0;
        while i < self.data.len()
            invariant
                canvas_wf(*self),
                i <= self.data.len(),
                u32_vec.len() == i,
                forall|j: int|
                    0 <= j < i ==> u32_vec[j] == packed_of(
                        (#[trigger] self.data[j]).x.raw as int,
                        self.data[j].y.raw as int,
                        self.data[j].z.raw as int,
                    ),
            decreases self.data.len() - i,
        {
            let color = self.data[i];
            let red = quantize(color.x);
            let green = quantize(color.y);
            let blue = quantize(color.z);
            u32_vec.push(Canvas::from_u8_rgb(red, green, blue));
            i = i + 1;
        }
        u32_vec
    }

    /// Pack three channel bytes into one `0x00RRGGBB` word.
    pub fn from_u8_rgb(r: u8, g: u8, b: u8) -> (packed: u32)
        ensures
            packed == r * 0x1_0000 + g * 0x100 + b,
    {
        let (r32, g32, b32) = (r as u32, g as u32, b as u32);
        proof {
            assert(((r as u32) << 16) | ((g as u32) << 8) | (b as u32) == (r as u32) * 0x1_0000 + (
            g as u32) * 0x100 + (b as u32)) by (bit_vector);
        }
        (r32 << 16) | (g32 << 8) | b32
    }

    /// The value clamped into `[min, max]`; `min` wins when the bounds
    /// cross.
    pub fn clamp(val: Real, min: Real, max: Real) -> (r: Real)
        ensures
            r.raw == if val.raw < min.raw {
                min.raw
            } else if val.raw > max.raw {
                max.raw
            } else {
                val.raw
            },
    {
        if val.raw < min.raw {
            return min;
        }
        if val.raw > max.raw {
            return max;
        }
        val
    }
}

/// Average one channel over its samples and gamma-correct it.
fn tone_channel(c: Real, samples: i64) -> (r: Real)
    requires
        1 <= samples <= SAMPLE_LIMIT,
        0 <= c.raw <= 0x100_0000_0000,
    ensures
        r.raw == gamma_of(c.raw as int, samples as int),
{
    proof {
        vstd::arithmetic::div_mod::lemma_div_pos_is_pos(c.raw as int, samples as int);
        vstd::arithmetic::div_mod::lemma_div_nonincreasing(c.raw as int, samples as int);
    }
    let averaged = Real::from_raw(div_floor(c.raw as i128, samples as i128) as i64);
    averaged.sqrt()
}

/// Clamp a channel to `[0, 0.999]` and quantize it to a byte.
fn quantize(c: Real) -> (r: u8)
    ensures
        r == byte_of(c.raw as int),
{
    proof {
        lemma_byte_of_range(c.raw as int);
        vstd::arithmetic::div_mod::lemma_div_pos_is_pos(
            if c.raw < 0 {
                0int
            } else if c.raw > 65470 {
                65470int
            } else {
                c.raw as int
            },
            256,
        );
    }
    let clamped = Canvas::clamp(c, Real::zero(), Real::from_raw(65470));
    (clamped.raw / 256) as u8
}

} // verus!
