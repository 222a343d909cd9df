//! The view state: output size, plane position, zoom, iteration budget and
//! preview downsampling, with the bounded pan/zoom rules that keep every
//! render call inside the kernel's domain.

use crate::constants::ITERATIONS;
use crate::fixed::{fx_div, fx_div_exec, fx_mul, fx_mul_wide, lemma_tdiv_bound_q, FX_ONE};
use crate::imaging::{upscale_buffer, upscaled_pixel};
use crate::rendering::{render, rendered_pixel, MetaData, ZOOM_MAX, ZOOM_MIN};
use vstd::arithmetic::div_mod::{
    lemma_div_is_ordered, lemma_div_multiples_vanish_fancy, lemma_div_nonincreasing,
    lemma_div_pos_is_pos,
};
use vstd::prelude::*;

verus! {

/// The default center of the view: -0.5 on the real axis.
pub const HOME_X: i64 = -140737488355328;

/// How far iteration doubling may go before it is ignored.
pub const ITER_CAP: u32 = 0x4000_0000;

/// The view state a user pans, zooms and tunes.  All positions are
/// fixed-point plane values.
#[derive(Clone, Copy, Debug)]
pub struct Viewer {
    pub width: usize,
    pub height: usize,
    pub iterations: u32,
    pub downsample_exp: u32,
    pub x_pos: i64,
    pub y_pos: i64,
    pub zoom: i64,
}

impl Viewer {
    /// The invariant every viewer keeps: an output large enough to
    /// downsample, at most twice as tall as wide (previews divide both
    /// sides by up to 16 and round down, and twice-the-width is the largest
    /// aspect whose every rounded preview still fits the renderer's
    /// four-times aspect cap), at least one iteration, a center within the
    /// plane region of the set, and a zoom between floor and ceiling.
    pub open spec fn well_formed(self) -> bool {
        &&& 16 <= self.width <= 32768
        &&& 16 <= self.height <= 32768
        &&& self.height <= 2 * self.width
        &&& 1 <= self.iterations
        &&& self.downsample_exp <= 4
        &&& -2 * FX_ONE <= self.x_pos <= 2 * FX_ONE
        &&& -2 * FX_ONE <= self.y_pos <= 2 * FX_ONE
        &&& ZOOM_MIN <= self.zoom <= ZOOM_MAX
    }

    /// The render descriptor for a full-resolution frame.
    pub open spec fn meta(self) -> MetaData {
        MetaData {
            width: self.width,
            height: self.height,
            x_pos: self.x_pos,
            y_pos: self.y_pos,
            zoom: self.zoom,
            iterations: self.iterations,
        }
    }

    /// The preview block size: 2 to the downsampling exponent.
    pub open spec fn low_scale(self) -> int {
        if self.downsample_exp == 0 {
            1int
        } else if self.downsample_exp == 1 {
            2int
        } else if self.downsample_exp == 2 {
            4int
        } else if self.downsample_exp == 3 {
            8int
        } else {
            16int
        }
    }

    /// The render descriptor for a low-resolution preview frame: the size
    /// shrinks by the block size and the budget halves.
    pub open spec fn low_meta(self) -> MetaData {
        MetaData {
            width: (self.width as int / self.low_scale()) as usize,
            height: (self.height as int / self.low_scale()) as usize,
            x_pos: self.x_pos,
            y_pos: self.y_pos,
            zoom: self.zoom,
            iterations: (self.iterations / 2) as u32,
        }
    }

    /// A fresh view of the whole set: centered at -0.5, zoom 1, the
    /// default budget.
    pub fn new(width: usize, height: usize) -> (r: Self)
        requires
            16 <= width <= 32768,
            16 <= height <= 32768,
            height <= 2 * width,
        ensures
            r == (Viewer {
                width,
                height,
                iterations: ITERATIONS,
                downsample_exp: 2,
                x_pos: HOME_X,
                y_pos: 0,
                zoom: FX_ONE,
            }),
            r.well_formed(),
    {
        Self {
            width,
            height,
            iterations: ITERATIONS,
            downsample_exp: 2,
            x_pos: HOME_X,
            y_pos: 0,
            zoom: FX_ONE,
        }
    }

    /// A full-resolution iteration buffer of the current view.
    pub fn buffer(&mut self) -> (buf: Vec<u32>)
        requires
            old(self).well_formed(),
        ensures
            *final(self) == *old(self),
            buf@.len() == old(self).width * old(self).height,
            forall|yi: int, xi: int|
                0 <= yi < old(self).height && 0 <= xi < old(self).width ==> buf@[yi
                    * old(self).width + xi] as nat == #[trigger] rendered_pixel(
                    old(self).meta(),
                    yi,
                    xi,
                ),
    {
        let data = MetaData::new(
            self.width,
            self.height,
            self.x_pos,
            self.y_pos,
            self.zoom,
            self.iterations,
        );
        render(data)
    }

    /// The preview block size as a value.
    fn low_scale_exec(&self) -> (s: usize)
        requires
            self.well_formed(),
        ensures
            s as int == self.low_scale(),
            1 <= s <= 16,
    {
        if self.downsample_exp == 0 {
            1
        } else if self.downsample_exp == 1 {
            2
        } else if self.downsample_exp == 2 {
            4
        } else if self.downsample_exp == 3 {
            8
        } else {
            16
        }
    }

    /// A cheap preview of the current view: rendered at a fraction of the
    /// output size with half the budget, then blown back up by pixel
    /// replication.  Destination pixel `(xd, yd)` holds the low-resolution
    /// render's answer for pixel `(xd / s, yd / s)`.
    pub fn buffer_low(&mut self) -> (buf: Vec<u32>)
        requires
            old(self).well_formed(),
        ensures
            *final(self) == *old(self),
            buf@.len() == (old(self).low_meta().width * old(self).low_scale()) * (
            old(self).low_meta().height * old(self).low_scale()),
            forall|yd: int, xd: int|
                0 <= yd < old(self).low_meta().height * old(self).low_scale() && 0 <= xd
                    < old(self).low_meta().width * old(self).low_scale() ==> buf@[yd * (
                old(self).low_meta().width * old(self).low_scale()) + xd] as nat
                    == #[trigger] rendered_pixel(
                    old(self).low_meta(),
                    yd / old(self).low_scale(),
                    xd / old(self).low_scale(),
                ),
    {
        let scale = self.low_scale_exec();
        let width = self.width / scale;
        let height = self.height / scale;
        let iterations = self.iterations / 2;
        proof {
            let w = old(self).width as int;
            let h = old(self).height as int;
            let s = scale as int;
            lemma_div_pos_is_pos(w, s);
            lemma_div_pos_is_pos(h, s);
            lemma_div_is_ordered(s, w, s);
            lemma_div_is_ordered(s, h, s);
            vstd::arithmetic::div_mod::lemma_div_by_self(s);
            lemma_div_nonincreasing(w, s);
            lemma_div_nonincreasing(h, s);
            // a preview of a twice-as-tall view stays within the renderer's
            // four-times aspect cap: h/s <= 2*(w/s) + 1 <= 4*(w/s)
            let wq = w / s;
            vstd::arithmetic::div_mod::lemma_fundamental_div_mod(w, s);
            assert(h <= s * (2 * wq + 1) + (s - 1)) by (nonlinear_arith)
                requires
                    h <= 2 * w,
                    w == s * wq + w % s,
                    w % s <= s - 1,
                    s >= 1,
            ;
            lemma_div_multiples_vanish_fancy(2 * wq + 1, s - 1, s);
            lemma_div_is_ordered(h, s * (2 * wq + 1) + (s - 1), s);
            // the re-expanded size fits the source size
            vstd::arithmetic::div_mod::lemma_fundamental_div_mod(w, s);
            vstd::arithmetic::div_mod::lemma_fundamental_div_mod(h, s);
            assert((w / s) * s <= w && (h / s) * s <= h) by (nonlinear_arith)
                requires
                    w == s * (w / s) + w % s,
                    h == s * (h / s) + h % s,
                    w % s >= 0,
                    h % s >= 0,
            ;
        }
        let data = MetaData::new(width, height, self.x_pos, self.y_pos, self.zoom, iterations);
        let low = render(data);
        let buf = upscale_buffer(&low, width, height, scale);
        proof {
            let m = old(self).low_meta();
            let s = scale as int;
            let wl = m.width as int;
            let hl = m.height as int;
            assert forall|yd: int, xd: int|
                0 <= yd < hl * s && 0 <= xd < wl * s implies buf@[yd * (wl * s) + xd] as nat
                == #[trigger] rendered_pixel(m, yd / s, xd / s) by {
                assert(buf@[yd * (wl * s) + xd] == upscaled_pixel(low@, wl, s, yd, xd));
                lemma_div_is_ordered(yd, hl * s - 1, s);
                lemma_div_multiples_vanish_fancy(hl - 1, s - 1, s);
                assert(s * (hl - 1) + (s - 1) == hl * s - 1) by (nonlinear_arith);
                lemma_div_is_ordered(xd, wl * s - 1, s);
                lemma_div_multiples_vanish_fancy(wl - 1, s - 1, s);
                assert(s * (wl - 1) + (s - 1) == wl * s - 1) by (nonlinear_arith);
                lemma_div_pos_is_pos(yd, s);
                lemma_div_pos_is_pos(xd, s);
            }
        }
        buf
    }

    /// Back to the home view, keeping the output size.
    pub fn reset(&mut self)
        requires
            old(self).well_formed(),
        ensures
            *final(self) == (Viewer {
                width: old(self).width,
                height: old(self).height,
                iterations: ITERATIONS,
                downsample_exp: 2,
                x_pos: HOME_X,
                y_pos: 0,
                zoom: FX_ONE,
            }),
            final(self).well_formed(),
    {
        let w = self.width;
        let h = self.height;
        *self = Self::new(w, h);
    }

    /// Doubles the iteration budget (ignored past the cap).
    pub fn iter_up(&mut self)
        requires
            old(self).well_formed(),
        ensures
            final(self).well_formed(),
            final(self).iterations == if old(self).iterations <= ITER_CAP {
                2 * old(self).iterations
            } else {
                old(self).iterations as int
            },
            unchanged_but_iterations(*old(self), *final(self)),
    {
        if self.iterations <= ITER_CAP {
            self.iterations = 2 * self.iterations;
        }
    }

    /// Halves the iteration budget, floored at 1.
    pub fn iter_down(&mut self)
        requires
            old(self).well_formed(),
        ensures
            final(self).well_formed(),
            final(self).iterations == if old(self).iterations > 1 {
                old(self).iterations as int / 2
            } else {
                old(self).iterations as int
            },
            unchanged_but_iterations(*old(self), *final(self)),
    {
        if self.iterations > 1 {
            self.iterations = self.iterations / 2;
        }
    }

    /// Coarser previews: one more halving of the preview size (capped).
    pub fn downsample_up(&mut self)
        requires
            old(self).well_formed(),
        ensures
            final(self).well_formed(),
            final(self).downsample_exp == if old(self).downsample_exp < 4 {
                old(self).downsample_exp + 1
            } else {
                old(self).downsample_exp as int
            },
            unchanged_but_downsample(*old(self), *final(self)),
    {
        if self.downsample_exp < 4 {
            self.downsample_exp = self.downsample_exp + 1;
        }
    }

    /// Finer previews: one less halving of the preview size (floored).
    pub fn downsample_down(&mut self)
        requires
            old(self).well_formed(),
        ensures
            final(self).well_formed(),
            final(self).downsample_exp == if old(self).downsample_exp > 0 {
                old(self).downsample_exp - 1
            } else {
                old(self).downsample_exp as int
            },
            unchanged_but_downsample(*old(self), *final(self)),
    {
        if self.downsample_exp > 0 {
            self.downsample_exp = self.downsample_exp - 1;
        }
    }

    /// The zoom after applying a factor.
    pub open spec fn zoomed(self, factor: int) -> int {
        fx_mul(self.zoom as int, factor)
    }

    /// Multiplies the zoom by the factor, refusing steps that would leave
    /// the zoom floor or ceiling.
    pub fn zoom(&mut self, factor: i64)
        requires
            old(self).well_formed(),
            FX_ONE / 2 <= factor <= 2 * FX_ONE,
        ensures
            final(self).well_formed(),
            final(self).zoom == if ZOOM_MIN <= old(self).zoomed(factor as int) <= ZOOM_MAX {
                old(self).zoomed(factor as int)
            } else {
                old(self).zoom as int
            },
            unchanged_but_zoom(*old(self), *final(self)),
    {
        proof {
            let z = old(self).zoom as int;
            let f = factor as int;
            assert(-(0x4000_0000_0000_0000 * (FX_ONE as int)) <= z * f <= 0x4000_0000_0000_0000
                * (FX_ONE as int)) by (nonlinear_arith)
                requires
                    0 < z <= ZOOM_MAX,
                    0 < f <= 2 * FX_ONE,
                    ZOOM_MAX == 1152921504606846976,
                    FX_ONE == 281474976710656,
            ;
            lemma_tdiv_bound_q(z * f, FX_ONE as int, 0x4000_0000_0000_0000);
        }
        let nz = fx_mul_wide(self.zoom, factor);
        if ZOOM_MIN <= nz && nz <= ZOOM_MAX {
            self.zoom = nz;
        }
    }

    /// The center after panning by a plane-step pair at the current zoom.
    pub open spec fn panned_x(self, dx: int) -> int {
        self.x_pos + fx_div(dx, self.zoom as int)
    }

    /// The center after panning vertically.
    pub open spec fn panned_y(self, dy: int) -> int {
        self.y_pos + fx_div(dy, self.zoom as int)
    }

    /// Whether a pan would carry the center outside the plane region of
    /// the set (2.0 on each axis).
    pub open spec fn pan_out_of_bounds(self, dx: int, dy: int) -> bool {
        ||| self.panned_x(dx) < -2 * FX_ONE
        ||| self.panned_x(dx) > 2 * FX_ONE
        ||| self.panned_y(dy) < -2 * FX_ONE
        ||| self.panned_y(dy) > 2 * FX_ONE
    }

    /// Decides whether the pan would leave the bounded plane region.
    fn out_of_bounds(&self, dx: i64, dy: i64) -> (r: bool)
        requires
            self.well_formed(),
            -FX_ONE <= dx <= FX_ONE,
            -FX_ONE <= dy <= FX_ONE,
        ensures
            r == self.pan_out_of_bounds(dx as int, dy as int),
    {
        proof {
            lemma_pan_step_bound(*self, dx as int);
            lemma_pan_step_bound(*self, dy as int);
        }
        let sx = fx_div_exec(dx, self.zoom);
        let sy = fx_div_exec(dy, self.zoom);
        let nx = self.x_pos + sx;
        let ny = self.y_pos + sy;
        nx < -2 * FX_ONE || nx > 2 * FX_ONE || ny < -2 * FX_ONE || ny > 2 * FX_ONE
    }

    /// Moves the center by a plane-step pair scaled by the zoom, refusing
    /// moves that would leave the bounded plane region.
    pub fn pan(&mut self, dx: i64, dy: i64)
        requires
            old(self).well_formed(),
            -FX_ONE <= dx <= FX_ONE,
            -FX_ONE <= dy <= FX_ONE,
        ensures
            final(self).well_formed(),
            old(self).pan_out_of_bounds(dx as int, dy as int) ==> *final(self) == *old(self),
            !old(self).pan_out_of_bounds(dx as int, dy as int) ==> {
                &&& final(self).x_pos == old(self).panned_x(dx as int)
                &&& final(self).y_pos == old(self).panned_y(dy as int)
                &&& unchanged_but_center(*old(self), *final(self))
            },
    {
        if self.out_of_bounds(dx, dy) {
            return ;
        }
        proof {
            lemma_pan_step_bound(*old(self), dx as int);
            lemma_pan_step_bound(*old(self), dy as int);
        }
        let sx = fx_div_exec(dx, self.zoom);
        let sy = fx_div_exec(dy, self.zoom);
        self.x_pos = self.x_pos + sx;
        self.y_pos = self.y_pos + sy;
    }
}

/// A pan step of at most one plane unit moves the center by at most 3
/// plane units at the lowest zoom.
proof fn lemma_pan_step_bound(v: Viewer, d: int)
    requires
        v.well_formed(),
        -FX_ONE <= d <= FX_ONE,
    ensures
        -3 * FX_ONE <= fx_div(d, v.zoom as int) <= 3 * FX_ONE,
{
    assert(-(3 * FX_ONE * v.zoom as int) <= d * FX_ONE <= 3 * FX_ONE * v.zoom as int)
        by (nonlinear_arith)
        requires
            -FX_ONE <= d <= FX_ONE,
            v.zoom as int >= ZOOM_MIN,
            ZOOM_MIN == 112589990684262,
            FX_ONE == 281474976710656,
    ;
    lemma_tdiv_bound_q(d * FX_ONE, v.zoom as int, 3 * FX_ONE);
}

/// Everything except the iteration budget is as it was.
pub open spec fn unchanged_but_iterations(a: Viewer, b: Viewer) -> bool {
    &&& a.width == b.width
    &&& a.height == b.height
    &&& a.downsample_exp == b.downsample_exp
    &&& a.x_pos == b.x_pos
    &&& a.y_pos == b.y_pos
    &&& a.zoom == b.zoom
}

/// Everything except the downsampling exponent is as it was.
pub open spec fn unchanged_but_downsample(a: Viewer, b: Viewer) -> bool {
    &&& a.width == b.width
    &&& a.height == b.height
    &&& a.iterations == b.iterations
    &&& a.x_pos == b.x_pos
    &&& a.y_pos == b.y_pos
    &&& a.zoom == b.zoom
}

/// Everything except the zoom is as it was.
pub open spec fn unchanged_but_zoom(a: Viewer, b: Viewer) -> bool {
    &&& a.width == b.width
    &&& a.height == b.height
    &&& a.iterations == b.iterations
    &&& a.downsample_exp == b.downsample_exp
    &&& a.x_pos == b.x_pos
    &&& a.y_pos == b.y_pos
}

/// Everything except the center is as it was.
pub open spec fn unchanged_but_center(a: Viewer, b: Viewer) -> bool {
    &&& a.width == b.width
    &&& a.height == b.height
    &&& a.iterations == b.iterations
    &&& a.downsample_exp == b.downsample_exp
    &&& a.zoom == b.zoom
}

} // verus!
