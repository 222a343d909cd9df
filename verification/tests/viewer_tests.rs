use mandelbrust::constants::{ITERATIONS, PAN_FACTOR, ZOOM_FACTOR};
use mandelbrust::fixed::FX_ONE;
use mandelbrust::rendering::ZOOM_MIN;
use mandelbrust::Viewer;

#[test]
fn new_viewer_has_home_view() {
    let v = Viewer::new(1280, 720);
    assert_eq!(v.width, 1280);
    assert_eq!(v.height, 720);
    assert_eq!(v.iterations, ITERATIONS);
    assert_eq!(v.x_pos, -FX_ONE / 2);
    assert_eq!(v.y_pos, 0);
    assert_eq!(v.zoom, FX_ONE);
}

#[test]
fn iteration_budget_doubles_and_halves_with_floor() {
    let mut v = Viewer::new(64, 64);
    v.iter_up();
    assert_eq!(v.iterations, 2 * ITERATIONS);
    v.iter_down();
    v.iter_down();
    assert_eq!(v.iterations, ITERATIONS / 2);
    for _ in 0..30 {
        v.iter_down();
    }
    assert_eq!(v.iterations, 1);
    v.iter_down();
    assert_eq!(v.iterations, 1);
}

#[test]
fn downsampling_exponent_is_capped() {
    let mut v = Viewer::new(64, 64);
    for _ in 0..10 {
        v.downsample_up();
    }
    assert_eq!(v.downsample_exp, 4);
    for _ in 0..10 {
        v.downsample_down();
    }
    assert_eq!(v.downsample_exp, 0);
}

#[test]
fn zoom_is_floored() {
    let mut v = Viewer::new(64, 64);
    let half = FX_ONE / 2;
    v.zoom(half);
    assert_eq!(v.zoom, half);
    // another halving would fall below the floor and is refused
    v.zoom(half);
    assert_eq!(v.zoom, half);
    assert!(v.zoom >= ZOOM_MIN);
    // the interactive step factors stay inside the accepted range
    v.zoom(FX_ONE + ZOOM_FACTOR);
    assert!(v.zoom > half);
}

#[test]
fn pan_is_bounded_to_the_set_region() {
    let mut v = Viewer::new(64, 64);
    v.pan(FX_ONE, 0);
    assert_eq!(v.x_pos, FX_ONE / 2);
    v.pan(FX_ONE, 0);
    assert_eq!(v.x_pos, FX_ONE / 2 + FX_ONE);
    // one more unit step would pass +2.0 and is refused entirely
    v.pan(FX_ONE, FX_ONE / 4);
    assert_eq!(v.x_pos, FX_ONE / 2 + FX_ONE);
    assert_eq!(v.y_pos, 0);
    // the interactive pan step moves by factor / zoom
    v.pan(-PAN_FACTOR, 0);
    assert_eq!(v.x_pos, FX_ONE / 2 + FX_ONE - PAN_FACTOR);
}

#[test]
fn portrait_viewer_renders_and_previews() {
    let mut v = Viewer::new(16, 32);
    let full = v.buffer();
    assert_eq!(full.len(), 512);
    let low = v.buffer_low();
    assert_eq!(low.len(), 512);
    for y in 0..32 {
        for x in 0..16 {
            assert_eq!(low[y * 16 + x], low[(y / 4) * 4 * 16 + (x / 4) * 4]);
        }
    }
}

#[test]
fn full_and_preview_buffers_agree_on_size() {
    let mut v = Viewer::new(16, 16);
    let full = v.buffer();
    assert_eq!(full.len(), 256);
    // preview: rendered at 4x4 (downsampling 2^2), re-expanded to 16x16
    let low = v.buffer_low();
    assert_eq!(low.len(), 256);
    // each preview pixel is constant over its 4x4 block
    for y in 0..16 {
        for x in 0..16 {
            assert_eq!(low[y * 16 + x], low[(y / 4) * 4 * 16 + (x / 4) * 4]);
        }
    }
}
