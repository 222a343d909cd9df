use mandelbrust::fixed::FX_ONE;
use mandelbrust::imaging::{upscale_buffer, PostProc, SCALE_ONE};
use mandelbrust::kernel::calc_pixel;
use mandelbrust::rendering::{render, MetaData};

/// A synthetic, easily decoded palette set: palette `i`, entry `j` packs
/// `i` in the red byte and `j` in the green byte.
fn test_palettes() -> Vec<Vec<u32>> {
    (0..5u32)
        .map(|i| (0..64u32).map(|j| i * 0x10000 + j * 0x100 + (i + j)).collect())
        .collect()
}

/// The palette tables built the way the display layer builds them: each
/// gradient sampled at its 64 banding positions.
fn colorgrad_palettes() -> Vec<Vec<u32>> {
    let gradients = [
        colorgrad::magma(),
        colorgrad::spectral(),
        colorgrad::rainbow(),
        colorgrad::sinebow(),
        colorgrad::turbo(),
    ];
    gradients
        .iter()
        .map(|g| {
            (0..64)
                .map(|j| {
                    let c = g.at(j as f64 / 64.0).to_rgba8();
                    ((c[0] as u32) << 16) | ((c[1] as u32) << 8) | c[2] as u32
                })
                .collect()
        })
        .collect()
}

#[test]
fn upscale_identity_at_scale_one() {
    let buf: Vec<u32> = vec![1, 2, 3, 4, 5, 6];
    let out = upscale_buffer(&buf, 3, 2, 1);
    assert_eq!(out, buf);
}

#[test]
fn upscale_replicates_blocks() {
    let buf: Vec<u32> = vec![1, 2, 3, 4];
    let out = upscale_buffer(&buf, 2, 2, 2);
    assert_eq!(out, vec![1, 1, 2, 2, 1, 1, 2, 2, 3, 3, 4, 4, 3, 3, 4, 4]);
}

#[test]
fn upscale_handles_non_square_buffers() {
    let buf: Vec<u32> = vec![1, 2, 3, 4, 5, 6];
    let out = upscale_buffer(&buf, 3, 2, 2);
    let expected: Vec<u32> = vec![
        1, 1, 2, 2, 3, 3,
        1, 1, 2, 2, 3, 3,
        4, 4, 5, 5, 6, 6,
        4, 4, 5, 5, 6, 6,
    ];
    assert_eq!(out, expected);
}

#[test]
fn sentinel_black_under_every_policy() {
    let zeros: Vec<u32> = vec![0; 16];
    let mut p = PostProc::new(test_palettes());
    p.blackwhite = true;
    p.grayscale = true;
    p.invert = true;
    p.clamp = true;
    p.fast_color = true;
    let out = p.process(&zeros);
    assert_eq!(out, vec![0; 16]);
}

#[test]
fn blackwhite_paints_escaped_white() {
    let mut p = PostProc::new(test_palettes());
    p.blackwhite = true;
    let out = p.process(&vec![0, 5, 123]);
    assert_eq!(out, vec![0, 0xFFFFFF, 0xFFFFFF]);
}

#[test]
fn fast_color_bands() {
    let mut p = PostProc::new(test_palettes());
    p.fast_color = true;
    let out = p.process(&vec![1, 100]);
    assert_eq!(out, vec![0x201008, 0x804020]);
}

#[test]
fn grayscale_and_invert_and_clamp() {
    let mut p = PostProc::new(test_palettes());
    p.grayscale = true;
    assert_eq!(p.process(&vec![100, 300]), vec![0x646464, 0x2c2c2c]);
    p.invert = true;
    assert_eq!(p.process(&vec![100]), vec![0x9b9b9b]);
    p.clamp = true;
    assert_eq!(p.process(&vec![300]), vec![0x0]);
}

#[test]
fn palette_lookup_bands_over_period() {
    let p = PostProc::new(test_palettes());
    // 100 = 64 + 36: palette 1, entry 36
    assert_eq!(p.process(&vec![5, 100]), vec![0x505, 0x12425]);
    let mut shifted = PostProc::new(test_palettes());
    shifted.color_shift = 10;
    // 110 = 64 + 46: palette 1, entry 46
    assert_eq!(shifted.process(&vec![100]), vec![0x12e2f]);
}

#[test]
fn color_scale_steps_are_exact() {
    let mut p = PostProc::new(test_palettes());
    p.color_scale_up();
    assert_eq!(p.color_scale, 4337916968);
    p.color_scale_down();
    assert_eq!(p.color_scale, 4294967295);
    // at or below 1.0 the downward step is refused
    p.color_scale_down();
    assert_eq!(p.color_scale, 4294967295);
    // scaling by 1.01 drops a count of 100 to 99
    let mut q = PostProc::new(test_palettes());
    q.color_scale_up();
    q.fast_color = true;
    assert_eq!(q.process(&vec![100]), vec![0x603018]);
}

#[test]
fn color_shift_steps() {
    let mut p = PostProc::new(test_palettes());
    assert_eq!(p.color_shift, 0);
    p.color_shift_down();
    assert_eq!(p.color_shift, 0);
    p.color_shift_up();
    p.color_shift_up();
    assert_eq!(p.color_shift, 2);
    p.color_shift_down();
    assert_eq!(p.color_shift, 1);
    p.color_shift_down();
    assert_eq!(p.color_shift, 1);
    p.reset();
    assert_eq!(p.color_shift, 0);
    assert_eq!(p.color_scale, SCALE_ONE);
}

#[test]
fn single_pixel_render_matches_kernel() {
    let data = MetaData::new(1, 1, 0, 0, FX_ONE, 64);
    let buf = render(data);
    assert_eq!(buf.len(), 1);
    // the single pixel maps to (x_pos - 2/zoom, y_pos - 2/zoom)
    assert_eq!(buf[0], calc_pixel(-2 * FX_ONE, -2 * FX_ONE, 64));
    assert_eq!(buf[0], 1);
}

#[test]
fn four_by_four_end_to_end() {
    let home_x = -FX_ONE / 2;
    let data = MetaData::new(4, 4, home_x, 0, FX_ONE, 50);
    let buf = render(data);
    assert_eq!(buf, vec![1, 1, 1, 1, 1, 3, 10, 2, 1, 3, 10, 2, 1, 1, 1, 1]);
    let p = PostProc::new(colorgrad_palettes());
    let colored = p.process(&buf);
    assert_eq!(colored.len(), 16);
    // every corner escaped immediately and colors to something non-black
    for &corner in [0usize, 3, 12, 15].iter() {
        assert_ne!(colored[corner], 0);
    }
}

#[test]
fn portrait_render_uses_vertical_step() {
    // a 4x8 view at zoom 1 spans 4 plane units horizontally but 8
    // vertically: each row advances by the vertical extent over height - 1,
    // so the set's spine shows up only in the two middle rows
    let home_x = -FX_ONE / 2;
    let data = MetaData::new(4, 8, home_x, 0, FX_ONE, 50);
    let buf = render(data);
    let expected: Vec<u32> = vec![
        1, 1, 1, 1,
        1, 1, 1, 1,
        1, 1, 2, 1,
        1, 4, 0, 2,
        1, 4, 0, 2,
        1, 1, 2, 1,
        1, 1, 1, 1,
        1, 1, 1, 1,
    ];
    assert_eq!(buf, expected);
}

#[test]
fn tall_thin_render_stays_defined() {
    // the renderer's aspect cap: four times as tall as wide
    let home_x = -FX_ONE / 2;
    let data = MetaData::new(2, 8, home_x, 0, FX_ONE, 60);
    let buf = render(data);
    let expected: Vec<u32> = vec![1, 1, 1, 1, 1, 1, 1, 2, 1, 2, 1, 1, 1, 1, 1, 1];
    assert_eq!(buf, expected);
}

#[test]
fn five_by_five_center_is_black() {
    // an odd grid puts pixels exactly on the set's spine: the center
    // column pixels at (-0.5, 0) and (-1.5, 0) are bounded and stay black
    let home_x = -FX_ONE / 2;
    let data = MetaData::new(5, 5, home_x, 0, FX_ONE, 50);
    let buf = render(data);
    assert_eq!(buf[2 * 5 + 2], 0);
    assert_eq!(buf[2 * 5 + 1], 0);
    let p = PostProc::new(colorgrad_palettes());
    let colored = p.process(&buf);
    assert_eq!(colored[2 * 5 + 2], 0x000000);
    assert_eq!(colored[2 * 5 + 1], 0x000000);
    for &corner in [0usize, 4, 20, 24].iter() {
        assert_ne!(colored[corner], 0);
    }
}

#[test]
fn gradient_tables_are_well_formed() {
    let tables = colorgrad_palettes();
    assert_eq!(tables.len(), 5);
    for t in tables.iter() {
        assert_eq!(t.len(), 64);
        for &e in t.iter() {
            assert!(e <= 0xFFFFFF);
        }
    }
    // the pipeline hands back exactly the sampled entry
    let p = PostProc::new(colorgrad_palettes());
    let out = p.process(&vec![3]);
    assert_eq!(out[0], colorgrad_palettes()[0][3]);
}
