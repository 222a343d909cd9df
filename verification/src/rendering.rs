//! Viewport mapping and the render dispatcher.
//!
//! A [`MetaData`] value describes one render: output size, plane center,
//! zoom and iteration budget.  [`render`] maps every pixel index to a plane
//! coordinate and fills a row-major iteration buffer with the kernel's
//! answer for that coordinate.  Rows are independent, so they are computed
//! in parallel; the contract pins every pixel to the same mapped
//! coordinate regardless of how the rows were partitioned.

use crate::fixed::{
    fx_div, fx_div_exec, lemma_tdiv_bound_q, lemma_tdiv_nonneg, tdiv, COORD_MAX, FX_ONE,
};
use crate::kernel::{calc_pixel, pixel_value};
use rayon::iter::{IntoParallelIterator, ParallelIterator};
use vstd::arithmetic::div_mod::{
    lemma_div_is_ordered, lemma_div_multiples_vanish, lemma_div_nonincreasing,
    lemma_fundamental_div_mod,
};
use vstd::prelude::*;

verus! {

/// The smallest zoom a view may carry (just under 0.4 in plane units);
/// zooming out further would push coordinates outside the kernel's domain.
pub const ZOOM_MIN: i64 = 112589990684262;

/// The largest zoom a view may carry; deeper zooms would exhaust the 48
/// fractional bits of the plane representation.
pub const ZOOM_MAX: i64 = 1152921504606846976;

/// Everything one render call needs: output size, plane position, zoom and
/// iteration budget.  Coordinates and zoom are fixed-point plane values.
#[derive(Clone, Copy, Debug)]
pub struct MetaData {
    pub width: usize,
    pub height: usize,
    pub x_pos: i64,
    pub y_pos: i64,
    pub zoom: i64,
    pub iterations: u32,
}

impl MetaData {
    /// The domain every render call assumes: positive output sides, an
    /// aspect the plane representation can carry (a machine limit: rows of
    /// a view taller than four times its width would map outside the
    /// kernel's 64-unit coordinate domain), a center inside the plane
    /// region of the set, and a zoom between the configured floor and
    /// ceiling.
    pub open spec fn valid(self) -> bool {
        &&& 1 <= self.width <= 32768
        &&& 1 <= self.height <= 32768
        &&& self.height <= 4 * self.width
        &&& -2 * FX_ONE <= self.x_pos <= 2 * FX_ONE
        &&& -2 * FX_ONE <= self.y_pos <= 2 * FX_ONE
        &&& ZOOM_MIN <= self.zoom <= ZOOM_MAX
    }

    pub fn new(
        width: usize,
        height: usize,
        x_pos: i64,
        y_pos: i64,
        zoom: i64,
        iterations: u32,
    ) -> (r: Self)
        ensures
            r == (MetaData { width, height, x_pos, y_pos, zoom, iterations }),
    {
        Self { width, height, x_pos, y_pos, zoom, iterations }
    }
}

/// The vertical half-extent of the view at zoom 1: 2.0 scaled by the
/// aspect ratio height/width, so that zoom is isotropic.
pub open spec fn base_view_height(m: MetaData) -> int {
    tdiv(2 * FX_ONE * m.height as int, m.width as int)
}

/// The plane coordinate of the left edge of the view.
pub open spec fn x_min(m: MetaData) -> int {
    m.x_pos - fx_div(2 * FX_ONE, m.zoom as int)
}

/// The plane coordinate of the top edge of the view.
pub open spec fn y_min(m: MetaData) -> int {
    m.y_pos - fx_div(base_view_height(m), m.zoom as int)
}

/// The plane distance between two neighbouring pixels: the horizontal
/// extent `4.0 / zoom` divided over `width - 1` steps (0 for a single
/// column, where no step is ever taken).
pub open spec fn pixel_step(m: MetaData) -> int {
    if m.width >= 2 {
        tdiv(fx_div(4 * FX_ONE, m.zoom as int), m.width - 1)
    } else {
        0
    }
}

/// The plane coordinate of pixel column `xi`.
pub open spec fn map_x(m: MetaData, xi: int) -> int {
    x_min(m) + xi * pixel_step(m)
}

/// The vertical plane distance between two neighbouring rows: the vertical
/// extent `2 * base_view_height / zoom` divided over `height - 1` steps
/// (0 for a single row, where no step is ever taken).
pub open spec fn y_step(m: MetaData) -> int {
    if m.height >= 2 {
        tdiv(fx_div(2 * base_view_height(m), m.zoom as int), m.height - 1)
    } else {
        0
    }
}

/// The plane coordinate of pixel row `yi`.
pub open spec fn map_y(m: MetaData, yi: int) -> int {
    y_min(m) + yi * y_step(m)
}

/// What a finished render holds at pixel `(xi, yi)`: the kernel's answer
/// for the plane coordinate that pixel maps to.
pub open spec fn rendered_pixel(m: MetaData, yi: int, xi: int) -> nat {
    pixel_value(map_x(m, xi), map_y(m, yi), m.iterations as nat)
}

/// `2 * FX_ONE * h / w`, evaluated exactly.
fn view_base_height(m: &MetaData) -> (r: i64)
    requires
        m.valid(),
    ensures
        r as int == base_view_height(*m),
        0 <= r <= 8 * FX_ONE,
{
    let p: u128 = 562949953421312u128 * (m.height as u128);
    let q: u128 = p / (m.width as u128);
    proof {
        let h = m.height as int;
        let w = m.width as int;
        assert(2 * (FX_ONE as int) * h <= 8 * (FX_ONE as int) * w) by (nonlinear_arith)
            requires
                h <= 4 * w,
                FX_ONE > 0,
        ;
        lemma_div_is_ordered(2 * FX_ONE * h, 8 * FX_ONE * w, w);
        lemma_div_multiples_vanish(8 * FX_ONE, w);
        assert(w * (8 * FX_ONE) == 8 * (FX_ONE as int) * w) by (nonlinear_arith);
        lemma_tdiv_nonneg(2 * FX_ONE * h, w);
    }
    q as i64
}

/// The left edge of the view, `x_pos - 2 / zoom`.
fn view_x_min(m: &MetaData) -> (r: i64)
    requires
        m.valid(),
    ensures
        r as int == x_min(*m),
        -8 * FX_ONE <= r <= 8 * FX_ONE,
{
    proof {
        assert(-(6 * FX_ONE * m.zoom as int) <= 2 * (FX_ONE as int) * (FX_ONE as int) <= 6
            * FX_ONE * m.zoom as int) by (nonlinear_arith)
            requires
                m.zoom as int >= ZOOM_MIN,
                ZOOM_MIN == 112589990684262,
                FX_ONE == 281474976710656,
        ;
        lemma_tdiv_bound_q(2 * FX_ONE * (FX_ONE as int), m.zoom as int, 6 * FX_ONE);
    }
    let half_w = fx_div_exec(2 * FX_ONE, m.zoom);
    m.x_pos - half_w
}

/// The top edge of the view, `y_pos - base_view_height / zoom`.
fn view_y_min(m: &MetaData) -> (r: i64)
    requires
        m.valid(),
    ensures
        r as int == y_min(*m),
        -23 * FX_ONE <= r <= 23 * FX_ONE,
{
    let bvh = view_base_height(m);
    proof {
        assert(-(21 * FX_ONE * m.zoom as int) <= bvh as int * (FX_ONE as int) <= 21 * FX_ONE
            * m.zoom as int) by (nonlinear_arith)
            requires
                0 <= bvh as int <= 8 * FX_ONE,
                m.zoom as int >= ZOOM_MIN,
                ZOOM_MIN == 112589990684262,
                FX_ONE == 281474976710656,
        ;
        lemma_tdiv_bound_q(bvh as int * (FX_ONE as int), m.zoom as int, 21 * FX_ONE);
    }
    let off = fx_div_exec(bvh, m.zoom);
    m.y_pos - off
}

/// The per-row plane step, with the bound the sweep needs: all `height - 1`
/// steps together stay within the vertical extent.
fn view_y_step(m: &MetaData) -> (r: i64)
    requires
        m.valid(),
    ensures
        r as int == y_step(*m),
        0 <= r,
        (m.height as int - 1) * (r as int) <= 41 * FX_ONE,
{
    let bvh = view_base_height(m);
    proof {
        assert(-(41 * FX_ONE * m.zoom as int) <= 2 * (bvh as int) * (FX_ONE as int) <= 41
            * FX_ONE * m.zoom as int) by (nonlinear_arith)
            requires
                0 <= bvh as int <= 8 * FX_ONE,
                m.zoom as int >= ZOOM_MIN,
                ZOOM_MIN == 112589990684262,
                FX_ONE == 281474976710656,
        ;
        lemma_tdiv_bound_q(2 * (bvh as int) * (FX_ONE as int), m.zoom as int, 41 * FX_ONE);
        lemma_tdiv_nonneg(2 * (bvh as int) * (FX_ONE as int), m.zoom as int);
    }
    let vspan = fx_div_exec(2 * bvh, m.zoom);
    if m.height >= 2 {
        let ys = ((vspan as u64) / ((m.height - 1) as u64)) as i64;
        proof {
            let h = m.height as int;
            let s = vspan as int;
            lemma_fundamental_div_mod(s, h - 1);
            lemma_tdiv_nonneg(s, h - 1);
        }
        ys
    } else {
        0
    }
}

/// The per-pixel plane step, with the bound the sweep loops need: all
/// `width` steps together stay within twice the horizontal extent.
fn view_pixel_step(m: &MetaData) -> (r: i64)
    requires
        m.valid(),
    ensures
        r as int == pixel_step(*m),
        0 <= r,
        m.width as int * (r as int) <= 22 * FX_ONE,
{
    proof {
        assert(-(11 * FX_ONE * m.zoom as int) <= 4 * (FX_ONE as int) * (FX_ONE as int) <= 11
            * FX_ONE * m.zoom as int) by (nonlinear_arith)
            requires
                m.zoom as int >= ZOOM_MIN,
                ZOOM_MIN == 112589990684262,
                FX_ONE == 281474976710656,
        ;
        lemma_tdiv_bound_q(4 * FX_ONE * (FX_ONE as int), m.zoom as int, 11 * FX_ONE);
        lemma_tdiv_nonneg(4 * FX_ONE * (FX_ONE as int), m.zoom as int);
    }
    let span = fx_div_exec(4 * FX_ONE, m.zoom);
    if m.width >= 2 {
        let pw = ((span as u64) / ((m.width - 1) as u64)) as i64;
        proof {
            let w = m.width as int;
            let s = span as int;
            lemma_fundamental_div_mod(s, w - 1);
            lemma_div_nonincreasing(s, w - 1);
            lemma_tdiv_nonneg(s, w - 1);
            assert(w * (s / (w - 1)) == (w - 1) * (s / (w - 1)) + s / (w - 1))
                by (nonlinear_arith);
        }
        pw
    } else {
        0
    }
}

/// Fills one output row: pixel `x` of row `y` is the kernel's answer for
/// the mapped plane coordinate of that pixel.  The sweep reuses the
/// previous pixel's coordinate, which in integer arithmetic is exactly the
/// per-index formula.
pub fn render_row(m: &MetaData, y: usize) -> (row: Vec<u32>)
    requires
        m.valid(),
        y < m.height,
    ensures
        row@.len() == m.width,
        forall|x: int| 0 <= x < m.width ==> row@[x] as nat == #[trigger] rendered_pixel(
            *m,
            y as int,
            x,
        ),
{
    let xm = view_x_min(m);
    let ym = view_y_min(m);
    let pw = view_pixel_step(m);
    let ys = view_y_step(m);
    proof {
        assert(0 <= y as int * (ys as int) <= (m.height as int - 1) * (ys as int))
            by (nonlinear_arith)
            requires
                0 <= y as int <= m.height as int - 1,
                0 <= ys as int,
        ;
    }
    let y_cur = ym + (y as i64) * ys;
    let mut row: Vec<u32> = Vec::new();
    let mut x_cur = xm;
    let mut xi: usize = 0;
    while xi < m.width
        invariant
            m.valid(),
            y < m.height,
            xm as int == x_min(*m),
            ym as int == y_min(*m),
            pw as int == pixel_step(*m),
            -8 * FX_ONE <= xm <= 8 * FX_ONE,
            0 <= pw,
            m.width as int * (pw as int) <= 22 * FX_ONE,
            y_cur as int == map_y(*m, y as int),
            -COORD_MAX <= y_cur <= COORD_MAX,
            xi <= m.width,
            x_cur as int == map_x(*m, xi as int),
            0 <= xi as int * (pw as int) <= 22 * FX_ONE,
            row@.len() == xi,
            forall|x: int| 0 <= x < xi ==> row@[x] as nat == #[trigger] rendered_pixel(
                *m,
                y as int,
                x,
            ),
        decreases m.width - xi,
    {
        proof {
            assert((xi as int + 1) * (pw as int) == xi as int * (pw as int) + pw as int)
                by (nonlinear_arith);
            assert(0 <= (xi + 1) as int * (pw as int) <= m.width as int * (pw as int))
                by (nonlinear_arith)
                requires
                    0 <= xi as int,
                    xi + 1 <= m.width as int,
                    0 <= pw as int,
            ;
        }
        let v = calc_pixel(x_cur, y_cur, m.iterations);
        proof {
            assert(v as nat == rendered_pixel(*m, y as int, xi as int));
        }
        row.push(v);
        x_cur = x_cur + pw;
        xi = xi + 1;
    }
    row
}

/// Relies on rayon's indexed parallel iterator over a range, mapped and
/// collected into a `Vec`: the collect places the row computed for index
/// `y` at position `y`, whatever the partitioning, so the result equals
/// the sequential map.
#[verifier::external_body]
fn par_render_rows(m: &MetaData) -> (rows: Vec<Vec<u32>>)
    requires
        m.valid(),
    ensures
        rows@.len() == m.height,
        forall|y: int| 0 <= y < m.height ==> (#[trigger] rows@[y])@.len() == m.width,
        forall|y: int, x: int|
            0 <= y < m.height && 0 <= x < m.width ==> rows@[y]@[x] as nat
                == #[trigger] rendered_pixel(*m, y, x),
{
    (0..m.height).into_par_iter().map(|y| render_row(m, y)).collect()
}

/// Renders one iteration buffer: row-major, one kernel answer per pixel,
/// each pixel tied to the plane coordinate its index maps to.
pub fn render(data: MetaData) -> (buffer: Vec<u32>)
    requires
        data.valid(),
    ensures
        buffer@.len() == data.width * data.height,
        forall|yi: int, xi: int|
            0 <= yi < data.height && 0 <= xi < data.width ==> buffer@[yi * data.width + xi] as nat
                == #[trigger] rendered_pixel(data, yi, xi),
{
    let rows = par_render_rows(&data);
    let mut buffer: Vec<u32> = Vec::new();
    let mut yi: usize = 0;
    while yi < data.height
        invariant
            data.valid(),
            rows@.len() == data.height,
            forall|y: int| 0 <= y < data.height ==> (#[trigger] rows@[y])@.len() == data.width,
            forall|y: int, x: int|
                0 <= y < data.height && 0 <= x < data.width ==> rows@[y]@[x] as nat
                    == #[trigger] rendered_pixel(data, y, x),
            yi <= data.height,
            buffer@.len() == yi * data.width,
            forall|y: int, x: int|
                0 <= y < yi && 0 <= x < data.width ==> buffer@[y * data.width + x] as nat
                    == #[trigger] rendered_pixel(data, y, x),
        decreases data.height - yi,
    {
        let row = &rows[yi];
        let mut xi: usize = 0;
        while xi < data.width
            invariant
                data.valid(),
                rows@.len() == data.height,
                yi < data.height,
                forall|y: int| 0 <= y < data.height ==> (#[trigger] rows@[y])@.len()
                    == data.width,
                forall|y: int, x: int|
                    0 <= y < data.height && 0 <= x < data.width ==> rows@[y]@[x] as nat
                        == #[trigger] rendered_pixel(data, y, x),
                row@ == rows@[yi as int]@,
                xi <= data.width,
                buffer@.len() == yi * data.width + xi,
                forall|y: int, x: int|
                    0 <= y < yi && 0 <= x < data.width ==> buffer@[y * data.width + x] as nat
                        == #[trigger] rendered_pixel(data, y, x),
                forall|x: int|
                    0 <= x < xi ==> buffer@[yi as int * data.width + x] as nat
                        == #[trigger] rendered_pixel(data, yi as int, x),
            decreases data.width - xi,
        {
            proof {
                assert(yi as int * data.width as int + data.width <= data.height as int
                    * data.width as int) by (nonlinear_arith)
                    requires
                        yi as int + 1 <= data.height as int,
                        0 <= yi as int,
                        0 <= data.width as int,
                ;
                assert(data.height as int * data.width as int <= 32768 * 32768)
                    by (nonlinear_arith)
                    requires
                        0 <= data.height as int <= 32768,
                        0 <= data.width as int <= 32768,
                ;
            }
            let v = row[xi];
            proof {
                assert(v as nat == rendered_pixel(data, yi as int, xi as int));
            }
            buffer.push(v);
            xi = xi + 1;
            proof {
                assert forall|y: int, x: int|
                    0 <= y < yi && 0 <= x < data.width implies buffer@[y * data.width + x] as nat
                    == #[trigger] rendered_pixel(data, y, x) by {
                    assert(0 <= y * data.width as int + x < yi as int * data.width as int)
                        by (nonlinear_arith)
                        requires
                            0 <= y <= yi as int - 1,
                            0 <= x < data.width as int,
                            data.width as int > 0,
                    ;
                }
            }
        }
        yi = yi + 1;
        proof {
            assert((yi as int - 1) * data.width as int + data.width as int == yi as int
                * data.width as int) by (nonlinear_arith);
        }
    }
    proof {
        assert(data.height as int * data.width as int == data.width as int * data.height as int)
            by (nonlinear_arith);
    }
    buffer
}

} // verus!
