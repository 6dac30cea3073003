use string_art::canvas::Canvas;
use string_art::canvas::darken_pixels;
use string_art::canvas::overlay_string;

#[test]
fn new_canvas_is_all_white() {
    let canvas = Canvas::new(4);
    for y in 0..4 {
        for x in 0..4 {
            assert_eq!(canvas.read(x, y), 255);
        }
    }
    assert_eq!(canvas.pixels().len(), 16);
}

#[test]
fn overlay_exact_values() {
    // factor = 1 - coverage * alpha in Q16, result rounded to nearest.
    assert_eq!(overlay_string(255, 65536, 19661), 178);
    assert_eq!(overlay_string(255, 32768, 19661), 217);
    assert_eq!(overlay_string(200, 65536, 65536), 0);
    assert_eq!(overlay_string(0, 65536, 65536), 0);
}

#[test]
fn overlay_zero_coverage_is_identity() {
    for pixel in [0u8, 1, 100, 254, 255] {
        assert_eq!(overlay_string(pixel, 0, 65536), pixel);
    }
}

#[test]
fn blend_only_darkens_across_a_sequence_of_calls() {
    let mut canvas = Canvas::new(3);
    let mut previous: Vec<u8> = canvas.pixels().clone();
    let passes = [
        (1u32, 1u32, 32768u32, 19661u32),
        (1, 1, 65536, 19661),
        (0, 2, 65536, 65536),
        (1, 1, 12345, 54321),
        (2, 0, 1, 1),
    ];
    for (x, y, coverage, alpha) in passes {
        canvas.blend(x, y, coverage, alpha);
        let now: Vec<u8> = canvas.pixels().clone();
        for k in 0..now.len() {
            assert!(now[k] <= previous[k]);
        }
        previous = now;
    }
}

#[test]
fn blend_touches_only_its_pixel() {
    let mut canvas = Canvas::new(3);
    canvas.blend(1, 2, 65536, 65536);
    for y in 0..3 {
        for x in 0..3 {
            if (x, y) == (1, 2) {
                assert_eq!(canvas.read(x, y), 0);
            } else {
                assert_eq!(canvas.read(x, y), 255);
            }
        }
    }
}

#[test]
fn darken_saturates_at_black() {
    let mut data: Vec<u8> = vec![0, 5, 100, 200, 255];
    darken_pixels(&mut data, 100);
    assert_eq!(data, vec![0, 0, 0, 100, 155]);
}
