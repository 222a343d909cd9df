//! The buffer rescaler and the color pipeline.
//!
//! [`upscale_buffer`] stretches a low-resolution iteration buffer by an
//! integer factor, replicating every source pixel into a square block —
//! the cheap path used for interactive previews.
//!
//! [`PostProc`] turns an iteration buffer into packed 24-bit RGB pixels.
//! The options apply in a fixed order: the sentinel `0` (bounded orbit)
//! short-circuits to black, then black/white mode, then scaling and
//! shifting of the count, then clamping, inversion, and finally one of
//! three syntheses: grayscale, a gradient palette lookup, or cheap
//! bit-banded color.  The scale is a 32-bit-fraction fixed-point value, so
//! colorizing is exact integer arithmetic end to end.

use rayon::iter::{IndexedParallelIterator, IntoParallelRefIterator, ParallelIterator};
use vstd::arithmetic::div_mod::{
    lemma_div_basics_2, lemma_div_is_ordered, lemma_div_multiples_vanish_fancy,
    lemma_fundamental_div_mod,
};
use vstd::prelude::*;

verus! {

/// How many gradient palettes a policy carries.
pub const PALETTE_COUNT: usize = 5;

/// How many samples one palette holds; also the banding period of the
/// gradient mode (a count maps to palette entry `count % 64`).
pub const PALETTE_PERIOD: usize = 64;

/// The fixed-point representation of a color scale of 1.0 (2^32).
pub const SCALE_ONE: u64 = 4294967296;

/// The lowest value the color scale can reach: one downward step (a
/// division by 1.01) below 1.0.
pub const SCALE_FLOOR: u64 = 4252442867;

/// The highest value the color scale can reach (2^52; further upward
/// steps are ignored).
pub const SCALE_CAP: u64 = 4503599627370496;

/// What an upscaled buffer holds at destination pixel `(yd, xd)`: the
/// source pixel whose block it falls in.
pub open spec fn upscaled_pixel(b: Seq<u32>, width: int, scale: int, yd: int, xd: int) -> u32 {
    b[(yd / scale) * width + (xd / scale)]
}

/// The destination buffer is the source blown up by `scale`: row-major at
/// width `width * scale`, every pixel copied from the source pixel whose
/// block covers it.
pub open spec fn is_upscaled(b: Seq<u32>, out: Seq<u32>, width: int, height: int, scale: int) -> bool {
    &&& out.len() == (width * scale) * (height * scale)
    &&& forall|yd: int, xd: int|
        0 <= yd < height * scale && 0 <= xd < width * scale ==> out[yd * (width * scale) + xd]
            == #[trigger] upscaled_pixel(b, width, scale, yd, xd)
}

/// Nearest-neighbour block upscaling: each source pixel is replicated into
/// a `scale` by `scale` block of the destination.
pub fn upscale_buffer(buffer: &Vec<u32>, width: usize, height: usize, scale: usize) -> (out: Vec<
    u32,
>)
    requires
        buffer@.len() == width * height,
        1 <= width,
        1 <= height,
        1 <= scale,
        width * scale <= 0xFFFF,
        height * scale <= 0xFFFF,
    ensures
        is_upscaled(buffer@, out@, width as int, height as int, scale as int),
{
    proof {
        assert(width <= width * scale && height <= height * scale && scale <= width * scale)
            by (nonlinear_arith)
            requires
                1 <= width,
                1 <= height,
                1 <= scale,
        ;
        assert(width * height <= 0xFFFF * 0xFFFF) by (nonlinear_arith)
            requires
                0 <= width <= 0xFFFF,
                0 <= height <= 0xFFFF,
        ;
    }
    let new_width = width * scale;
    let new_height = height * scale;
    let mut out: Vec<u32> = Vec::new();
    let mut yd: usize = 0;
    while yd < new_height
        invariant
            buffer@.len() == width * height,
            1 <= width,
            1 <= height,
            1 <= scale,
            new_width == width * scale,
            new_height == height * scale,
            new_width <= 0xFFFF,
            new_height <= 0xFFFF,
            width <= 0xFFFF,
            height <= 0xFFFF,
            width * height <= 0xFFFF * 0xFFFF,
            yd <= new_height,
            out@.len() == yd * new_width,
            forall|y: int, x: int|
                0 <= y < yd && 0 <= x < new_width ==> out@[y * new_width as int + x]
                    == #[trigger] upscaled_pixel(
                    buffer@,
                    width as int,
                    scale as int,
                    y,
                    x,
                ),
        decreases new_height - yd,
    {
        let sy = yd / scale;
        proof {
            lemma_div_is_ordered(yd as int, height as int * scale as int - 1, scale as int);
            lemma_div_multiples_vanish_fancy(height as int - 1, scale as int - 1, scale as int);
            assert(scale as int * (height as int - 1) + (scale as int - 1) == height as int
                * scale as int - 1) by (nonlinear_arith);
            assert(sy as int * width as int + width as int <= height as int * width as int)
                by (nonlinear_arith)
                requires
                    sy as int <= height as int - 1,
                    0 <= sy as int,
                    width as int >= 1,
            ;
            assert(width as int * height as int == height as int * width as int)
                by (nonlinear_arith);
        }
        let row_base = sy * width;
        let mut xd: usize = 0;
        while xd < new_width
            invariant
                buffer@.len() == width * height,
                1 <= width,
                1 <= height,
                1 <= scale,
                new_width == width * scale,
                new_height == height * scale,
                new_width <= 0xFFFF,
                new_height <= 0xFFFF,
                width <= 0xFFFF,
                height <= 0xFFFF,
                width * height <= 0xFFFF * 0xFFFF,
                yd < new_height,
                sy == yd as int / scale as int,
                row_base == sy * width,
                row_base + width <= width * height,
                xd <= new_width,
                out@.len() == yd * new_width + xd,
                forall|y: int, x: int|
                    0 <= y < yd && 0 <= x < new_width ==> out@[y * new_width as int + x]
                        == #[trigger] upscaled_pixel(
                        buffer@,
                        width as int,
                        scale as int,
                        y,
                        x,
                    ),
                forall|x: int|
                    0 <= x < xd ==> out@[yd as int * new_width as int + x]
                        == #[trigger] upscaled_pixel(
                        buffer@,
                        width as int,
                        scale as int,
                        yd as int,
                        x,
                    ),
            decreases new_width - xd,
        {
            let sx = xd / scale;
            proof {
                lemma_div_is_ordered(xd as int, width as int * scale as int - 1, scale as int);
                lemma_div_multiples_vanish_fancy(width as int - 1, scale as int - 1, scale as int);
                assert(scale as int * (width as int - 1) + (scale as int - 1) == width as int
                    * scale as int - 1) by (nonlinear_arith);
                assert(yd as int * new_width as int + new_width as int <= new_height as int
                    * new_width as int) by (nonlinear_arith)
                    requires
                        yd as int + 1 <= new_height as int,
                        0 <= yd as int,
                        0 <= new_width as int,
                ;
                assert(new_height as int * new_width as int <= 0xFFFF * 0xFFFF)
                    by (nonlinear_arith)
                    requires
                        0 <= new_height as int <= 0xFFFF,
                        0 <= new_width as int <= 0xFFFF,
                ;
            }
            let v = buffer[row_base + sx];
            proof {
                assert(v == upscaled_pixel(buffer@, width as int, scale as int, yd as int, xd as int));
            }
            out.push(v);
            xd = xd + 1;
            proof {
                assert forall|y: int, x: int|
                    0 <= y < yd && 0 <= x < new_width implies out@[y * new_width as int + x]
                    == #[trigger] upscaled_pixel(buffer@, width as int, scale as int, y, x) by {
                    assert(0 <= y * new_width as int + x < yd as int * new_width as int)
                        by (nonlinear_arith)
                        requires
                            0 <= y <= yd as int - 1,
                            0 <= x < new_width as int,
                            new_width as int > 0,
                    ;
                }
            }
        }
        yd = yd + 1;
        proof {
            assert((yd as int - 1) * new_width as int + new_width as int == yd as int
                * new_width as int) by (nonlinear_arith);
        }
    }
    proof {
        assert((width as int * scale as int) * (height as int * scale as int) == new_height as int
            * new_width as int) by (nonlinear_arith)
            requires
                new_width == width as int * scale as int,
                new_height == height as int * scale as int,
        ;
    }
    out
}

/// Block replication: every destination pixel of the `scale` by `scale`
/// block of source pixel `(x, y)` holds exactly that source pixel.
pub proof fn lemma_block_replication(
    b: Seq<u32>,
    out: Seq<u32>,
    width: int,
    height: int,
    scale: int,
    y: int,
    x: int,
    dy: int,
    dx: int,
)
    requires
        is_upscaled(b, out, width, height, scale),
        1 <= scale,
        0 <= y < height,
        0 <= x < width,
        0 <= dy < scale,
        0 <= dx < scale,
    ensures
        out[(y * scale + dy) * (width * scale) + (x * scale + dx)] == b[y * width + x],
{
    let yd = y * scale + dy;
    let xd = x * scale + dx;
    lemma_div_multiples_vanish_fancy(y, dy, scale);
    lemma_div_multiples_vanish_fancy(x, dx, scale);
    assert(scale * y + dy == yd) by (nonlinear_arith)
        requires
            yd == y * scale + dy,
    ;
    assert(scale * x + dx == xd) by (nonlinear_arith)
        requires
            xd == x * scale + dx,
    ;
    assert(0 <= yd < height * scale) by (nonlinear_arith)
        requires
            0 <= y < height,
            0 <= dy < scale,
            yd == y * scale + dy,
    ;
    assert(0 <= xd < width * scale) by (nonlinear_arith)
        requires
            0 <= x < width,
            0 <= dx < scale,
            xd == x * scale + dx,
    ;
    assert(upscaled_pixel(b, width, scale, yd, xd) == b[y * width + x]);
}

/// Upscaling by 1 is the identity.
pub proof fn lemma_upscale_identity(b: Seq<u32>, out: Seq<u32>, width: int, height: int)
    requires
        1 <= width,
        1 <= height,
        b.len() == width * height,
        is_upscaled(b, out, width, height, 1),
    ensures
        out == b,
{
    assert(out.len() == b.len()) by (nonlinear_arith)
        requires
            out.len() == (width * 1) * (height * 1),
            b.len() == width * height,
    ;
    assert forall|k: int| 0 <= k < b.len() implies out[k] == b[k] by {
        let y = k / width;
        let x = k % width;
        lemma_fundamental_div_mod(k, width);
        lemma_div_is_ordered(k, width * height - 1, width);
        lemma_div_multiples_vanish_fancy(height - 1, width - 1, width);
        assert(width * (height - 1) + (width - 1) == width * height - 1) by (nonlinear_arith);
        lemma_div_basics_2(y);
        lemma_div_basics_2(x);
        assert(y * width + x == k) by (nonlinear_arith)
            requires
                k == width * y + x,
        ;
        assert(0 <= y < height * 1 && 0 <= x < width * 1);
        assert(out[y * (width * 1) + x] == upscaled_pixel(b, width, 1, y, x));
        assert(upscaled_pixel(b, width, 1, y, x) == b[(y / 1) * width + (x / 1)]);
    }
    assert(out =~= b);
}


/// The color policy and its gradient tables.  A palette is a gradient
/// sampled at its 64 banding positions, packed as 24-bit RGB; the numeric
/// options are exact fixed-point values, so the whole pipeline is
/// reproducible integer arithmetic.
#[derive(Debug)]
pub struct PostProc {
    /// Five gradient lookup tables of 64 packed RGB entries each.
    pub palettes: Vec<Vec<u32>>,
    /// Divides the iteration count before banding; 32 fractional bits.
    pub color_scale: u64,
    /// Added to the scaled iteration count.
    pub color_shift: u32,
    /// Cheap bit-banded synthesis instead of the gradient lookup.
    pub fast_color: bool,
    /// Pure white for every escaped pixel.
    pub blackwhite: bool,
    /// Grayscale synthesis.
    pub grayscale: bool,
    /// Constrain the scaled count to one byte before synthesis.
    pub clamp: bool,
    /// Complement the scaled count within its byte.
    pub invert: bool,
}

/// A well-formed palette set: `PALETTE_COUNT` tables of `PALETTE_PERIOD`
/// packed 24-bit entries.
pub open spec fn palettes_well_formed(palettes: Seq<Vec<u32>>) -> bool {
    &&& palettes.len() == PALETTE_COUNT
    &&& forall|i: int| 0 <= i < PALETTE_COUNT ==> (#[trigger] palettes[i])@.len() == PALETTE_PERIOD
    &&& forall|i: int, j: int|
        0 <= i < PALETTE_COUNT && 0 <= j < PALETTE_PERIOD ==> palettes[i]@[j] <= 0xFFFFFF
}

impl PostProc {
    /// The invariant every policy keeps: well-formed palettes and a scale
    /// between its floor and cap.
    pub open spec fn well_formed(self) -> bool {
        &&& palettes_well_formed(self.palettes@)
        &&& SCALE_FLOOR <= self.color_scale <= SCALE_CAP
    }

    /// The scaled and shifted iteration count: `shift + v / scale`,
    /// rounded down.
    pub open spec fn scaled_count(self, v: u32) -> int {
        self.color_shift + (v * SCALE_ONE) / (self.color_scale as int)
    }

    /// The synthesis step: grayscale, bit-banded color, or a palette
    /// lookup banded over `PALETTE_PERIOD` positions.
    pub open spec fn synthesized(self, val: int) -> int {
        if self.grayscale {
            let g = val % 256;
            g * 0x10000 + g * 0x100 + g
        } else if self.fast_color {
            (val % 8 * 32) * 0x10000 + (val % 16 * 16) * 0x100 + (val % 32 * 8)
        } else {
            self.palettes@[(val / 64) % (PALETTE_COUNT as int)]@[val % 64] as int
        }
    }

    /// The whole per-pixel pipeline, in its fixed order: the sentinel is
    /// black whatever else is set; black/white mode paints every escaped
    /// pixel white; otherwise the count is scaled and shifted, optionally
    /// clamped to a byte, optionally inverted within its byte, and handed
    /// to the synthesis step.
    pub open spec fn color_pixel_spec(self, v: u32) -> int {
        if v == 0 {
            0
        } else if self.blackwhite {
            0xFFFFFF
        } else {
            let s0 = self.scaled_count(v);
            let s1 = if self.clamp && s0 > 255 { 255int } else { s0 };
            let s2 = if self.invert { 255 - (s1 % 256) } else { s1 };
            self.synthesized(s2)
        }
    }

    /// A policy over the given palettes with every option at its default.
    pub fn new(palettes: Vec<Vec<u32>>) -> (r: Self)
        requires
            palettes_well_formed(palettes@),
        ensures
            r.well_formed(),
            r == (PostProc {
                palettes,
                color_scale: SCALE_ONE,
                color_shift: 0,
                fast_color: false,
                blackwhite: false,
                grayscale: false,
                clamp: false,
                invert: false,
            }),
    {
        Self {
            palettes,
            color_scale: SCALE_ONE,
            color_shift: 0,
            fast_color: false,
            blackwhite: false,
            grayscale: false,
            clamp: false,
            invert: false,
        }
    }

    /// Back to the defaults, keeping the palettes.
    pub fn reset(&mut self)
        requires
            old(self).well_formed(),
        ensures
            final(self).well_formed(),
            final(self).palettes == old(self).palettes,
            final(self).color_scale == SCALE_ONE,
            final(self).color_shift == 0,
            !final(self).fast_color,
            !final(self).blackwhite,
            !final(self).grayscale,
            !final(self).clamp,
            !final(self).invert,
    {
        self.color_scale = SCALE_ONE;
        self.color_shift = 0;
        self.fast_color = false;
        self.blackwhite = false;
        self.grayscale = false;
        self.clamp = false;
        self.invert = false;
    }

    /// One step up for the color shift (saturating at the type's top).
    pub fn color_shift_up(&mut self)
        ensures
            final(self).color_shift == if old(self).color_shift < 0xFFFF_FFFFu32 {
                old(self).color_shift + 1
            } else {
                old(self).color_shift as int
            },
            unchanged_but_shift(*old(self), *final(self)),
    {
        if self.color_shift < 0xFFFF_FFFF {
            self.color_shift = self.color_shift + 1;
        }
    }

    /// One step down for the color shift, floored at 1.
    pub fn color_shift_down(&mut self)
        ensures
            final(self).color_shift == if old(self).color_shift > 1 {
                old(self).color_shift - 1
            } else {
                old(self).color_shift as int
            },
            unchanged_but_shift(*old(self), *final(self)),
    {
        if self.color_shift > 1 {
            self.color_shift = self.color_shift - 1;
        }
    }

    /// Multiplies the color scale by 1.01, ignoring steps past the cap.
    pub fn color_scale_up(&mut self)
        requires
            old(self).well_formed(),
        ensures
            final(self).well_formed(),
            final(self).color_scale == if old(self).color_scale * 101 / 100 <= SCALE_CAP {
                old(self).color_scale * 101 / 100
            } else {
                old(self).color_scale as int
            },
            unchanged_but_scale(*old(self), *final(self)),
    {
        let candidate = self.color_scale * 101 / 100;
        if candidate <= SCALE_CAP {
            proof {
                let sc = old(self).color_scale as int;
                assert(sc * 101 / 100 >= sc * 100 / 100) by {
                    assert(sc * 101 >= sc * 100) by (nonlinear_arith)
                        requires
                            sc >= 0,
                    ;
                    lemma_div_is_ordered(sc * 100, sc * 101, 100);
                }
                assert(sc * 100 / 100 == sc) by {
                    vstd::arithmetic::div_mod::lemma_div_multiples_vanish(sc, 100);
                    assert(sc * 100 == 100 * sc) by (nonlinear_arith);
                }
            }
            self.color_scale = candidate;
        }
    }

    /// Divides the color scale by 1.01, only while it is above 1.0.
    pub fn color_scale_down(&mut self)
        requires
            old(self).well_formed(),
        ensures
            final(self).well_formed(),
            final(self).color_scale == if old(self).color_scale > SCALE_ONE {
                old(self).color_scale * 100 / 101
            } else {
                old(self).color_scale as int
            },
            unchanged_but_scale(*old(self), *final(self)),
    {
        if self.color_scale > SCALE_ONE {
            proof {
                let sc = old(self).color_scale as int;
                assert(sc * 100 >= 429496729700) by (nonlinear_arith)
                    requires
                        sc >= 4294967297,
                ;
                lemma_div_is_ordered(429496729700, sc * 100, 101);
                assert(429496729700int / 101 == 4252442868);
                assert(sc * 100 <= SCALE_CAP * 100) by (nonlinear_arith)
                    requires
                        sc <= SCALE_CAP,
                ;
                lemma_div_is_ordered(sc * 100, SCALE_CAP * 100, 101);
                assert(SCALE_CAP * 100int / 101 <= SCALE_CAP);
            }
            self.color_scale = self.color_scale * 100 / 101;
        }
    }

    /// Colors one iteration count.
    pub fn color_pixel(&self, num_iters: u32) -> (r: u32)
        requires
            self.well_formed(),
        ensures
            r as int == self.color_pixel_spec(num_iters),
            r <= 0xFFFFFF,
    {
        if num_iters == 0 {
            return 0;
        }
        if self.blackwhite {
            return 0xFFFFFF;
        }
        proof {
            lemma_div_is_ordered(
                num_iters as int * SCALE_ONE as int,
                0xFFFF_FFFFu32 * SCALE_ONE as int,
                self.color_scale as int,
            );
            vstd::arithmetic::div_mod::lemma_div_is_ordered_by_denominator(
                0xFFFF_FFFFu32 * SCALE_ONE as int,
                SCALE_FLOOR as int,
                self.color_scale as int,
            );
            assert(0xFFFF_FFFFu32 * SCALE_ONE as int / (SCALE_FLOOR as int) == 4337916968);
            vstd::arithmetic::div_mod::lemma_div_pos_is_pos(
                num_iters as int * SCALE_ONE as int,
                self.color_scale as int,
            );
        }
        let scaled: u64 = (num_iters as u64) * SCALE_ONE / self.color_scale;
        let mut val: u64 = (self.color_shift as u64) + scaled;
        if self.clamp && val > 255 {
            val = 255;
        }
        if self.invert {
            val = 255 - (val % 256);
        }
        if self.grayscale {
            let g = (val % 256) as u32;
            g * 0x10000 + g * 0x100 + g
        } else if self.fast_color {
            let r = (val % 8) as u32 * 32;
            let g = (val % 16) as u32 * 16;
            let b = (val % 32) as u32 * 8;
            r * 0x10000 + g * 0x100 + b
        } else {
            let gi = ((val / 64) % 5) as usize;
            let off = (val % 64) as usize;
            let pal = &self.palettes[gi];
            pal[off]
        }
    }

    /// Colors a whole iteration buffer, pixel by pixel.
    pub fn process(&self, buffer: &Vec<u32>) -> (out: Vec<u32>)
        requires
            self.well_formed(),
        ensures
            out@.len() == buffer@.len(),
            forall|i: int|
                0 <= i < buffer@.len() ==> (#[trigger] out@[i]) as int == self.color_pixel_spec(
                    buffer@[i],
                ),
    {
        par_color_all(self, buffer)
    }
}

/// Everything except the shift is as it was.
pub open spec fn unchanged_but_shift(a: PostProc, b: PostProc) -> bool {
    &&& a.palettes == b.palettes
    &&& a.color_scale == b.color_scale
    &&& a.fast_color == b.fast_color
    &&& a.blackwhite == b.blackwhite
    &&& a.grayscale == b.grayscale
    &&& a.clamp == b.clamp
    &&& a.invert == b.invert
}

/// Everything except the scale is as it was.
pub open spec fn unchanged_but_scale(a: PostProc, b: PostProc) -> bool {
    &&& a.palettes == b.palettes
    &&& a.color_shift == b.color_shift
    &&& a.fast_color == b.fast_color
    &&& a.blackwhite == b.blackwhite
    &&& a.grayscale == b.grayscale
    &&& a.clamp == b.clamp
    &&& a.invert == b.invert
}

/// Relies on rayon's indexed parallel iterator over a slice, mapped and
/// collected into a `Vec`, which keeps every item at its index: the result
/// equals the sequential per-pixel map.
#[verifier::external_body]
fn par_color_all(p: &PostProc, buffer: &Vec<u32>) -> (out: Vec<u32>)
    requires
        p.well_formed(),
    ensures
        out@.len() == buffer@.len(),
        forall|i: int|
            0 <= i < buffer@.len() ==> (#[trigger] out@[i]) as int == p.color_pixel_spec(
                buffer@[i],
            ),
{
    buffer.par_iter().with_min_len(1024).map(|&v| p.color_pixel(v)).collect()
}

/// The sentinel short-circuits every option: an all-zero iteration buffer
/// colors to an all-zero pixel buffer under any policy, while black/white
/// mode paints exactly the escaped pixels white.
pub proof fn lemma_sentinel_precedence(p: PostProc, v: u32)
    ensures
        v == 0 ==> p.color_pixel_spec(v) == 0,
        v != 0 && p.blackwhite ==> p.color_pixel_spec(v) == 0xFFFFFF,
{
}

/// Buffer form of the sentinel short-circuit: a colorized all-zero buffer
/// is all zero, whatever the policy.
pub proof fn lemma_sentinel_buffer(p: PostProc, input: Seq<u32>, out: Seq<u32>)
    requires
        out.len() == input.len(),
        forall|i: int| 0 <= i < input.len() ==> (#[trigger] out[i]) as int == p.color_pixel_spec(
            input[i],
        ),
        forall|i: int| 0 <= i < input.len() ==> input[i] == 0u32,
    ensures
        forall|i: int| 0 <= i < out.len() ==> out[i] == 0u32,
{
    assert forall|i: int| 0 <= i < out.len() implies out[i] == 0u32 by {
        assert(input[i] == 0u32);
        assert(out[i] as int == p.color_pixel_spec(input[i]));
    }
}

} // verus!
