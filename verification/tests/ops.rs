use augmentor::ops::{
    apply_fixed, brighten, fliph, flipv, grayscale, huerotate, invert, rotate180, rotate270,
    rotate90,
};
use augmentor::raster::PixelBuffer;
use augmentor::registry::Operator;

fn numbered(width: u32, height: u32) -> PixelBuffer {
    let mut data = Vec::new();
    for i in 0..(width * height) {
        data.extend_from_slice(&[i as u8, (i + 100) as u8, (2 * i) as u8, 255 - i as u8]);
    }
    PixelBuffer::from_raw(width, height, data).unwrap()
}

fn empty(width: u32, height: u32) -> PixelBuffer {
    PixelBuffer::from_raw(width, height, Vec::new()).unwrap()
}

#[test]
fn rotate90_turns_clockwise() {
    let img = numbered(3, 2);
    let out = rotate90(&img);
    assert_eq!((out.width(), out.height()), (2, 3));
    for y in 0..2 {
        for x in 0..3 {
            assert_eq!(out.get_pixel(2 - 1 - y, x), img.get_pixel(x, y));
        }
    }
    assert_eq!(out.get_pixel(1, 0), img.get_pixel(0, 0));
    assert_eq!(out.get_pixel(0, 0), img.get_pixel(0, 1));
}

#[test]
fn rotate180_turns_upside_down() {
    let img = numbered(3, 2);
    let out = rotate180(&img);
    assert_eq!((out.width(), out.height()), (3, 2));
    for y in 0..2 {
        for x in 0..3 {
            assert_eq!(out.get_pixel(3 - 1 - x, 2 - 1 - y), img.get_pixel(x, y));
        }
    }
}

#[test]
fn rotate270_turns_counterclockwise() {
    let img = numbered(3, 2);
    let out = rotate270(&img);
    assert_eq!((out.width(), out.height()), (2, 3));
    for y in 0..2 {
        for x in 0..3 {
            assert_eq!(out.get_pixel(y, 3 - 1 - x), img.get_pixel(x, y));
        }
    }
    assert_eq!(out.get_pixel(0, 2), img.get_pixel(0, 0));
}

#[test]
fn fliph_exchanges_left_and_right() {
    let img = numbered(3, 2);
    let out = fliph(&img);
    assert_eq!((out.width(), out.height()), (3, 2));
    for y in 0..2 {
        for x in 0..3 {
            assert_eq!(out.get_pixel(3 - 1 - x, y), img.get_pixel(x, y));
        }
    }
}

#[test]
fn flipv_exchanges_top_and_bottom() {
    let img = numbered(3, 2);
    let out = flipv(&img);
    assert_eq!((out.width(), out.height()), (3, 2));
    for y in 0..2 {
        for x in 0..3 {
            assert_eq!(out.get_pixel(x, 2 - 1 - y), img.get_pixel(x, y));
        }
    }
}

#[test]
fn turns_compose_to_the_identity() {
    let img = numbered(4, 3);
    assert_eq!(rotate270(&rotate90(&img)).into_raw(), numbered(4, 3).into_raw());
    assert_eq!(rotate180(&rotate180(&img)).into_raw(), numbered(4, 3).into_raw());
    assert_eq!(rotate90(&rotate90(&img)).into_raw(), rotate180(&img).into_raw());
    assert_eq!(fliph(&fliph(&img)).into_raw(), numbered(4, 3).into_raw());
    assert_eq!(flipv(&flipv(&img)).into_raw(), numbered(4, 3).into_raw());
}

#[test]
fn invert_complements_colour_and_keeps_alpha() {
    let img = PixelBuffer::from_raw(2, 1, vec![0, 1, 255, 7, 100, 200, 50, 0]).unwrap();
    let out = invert(&img);
    assert_eq!(out.into_raw(), vec![255, 254, 0, 7, 155, 55, 205, 0]);
}

#[test]
fn grayscale_takes_the_luma_and_keeps_alpha() {
    let img = PixelBuffer::from_raw(
        4,
        1,
        vec![255, 0, 0, 9, 0, 255, 0, 8, 0, 0, 255, 7, 255, 255, 255, 255],
    )
    .unwrap();
    let out = grayscale(&img);
    assert_eq!(
        out.into_raw(),
        vec![54, 54, 54, 9, 182, 182, 182, 8, 18, 18, 18, 7, 255, 255, 255, 255]
    );
    let img = PixelBuffer::from_raw(1, 1, vec![10, 20, 30, 40]).unwrap();
    let luma = ((2126u32 * 10 + 7152 * 20 + 722 * 30) / 10000) as u8;
    assert_eq!(grayscale(&img).into_raw(), vec![luma, luma, luma, 40]);
}

#[test]
fn brighten_adds_and_clamps() {
    let img = PixelBuffer::from_raw(2, 1, vec![0, 100, 250, 7, 5, 128, 255, 200]).unwrap();
    assert_eq!(brighten(&img, 10).into_raw(), vec![10, 110, 255, 7, 15, 138, 255, 200]);
    assert_eq!(brighten(&img, -10).into_raw(), vec![0, 90, 240, 7, 0, 118, 245, 200]);
    assert_eq!(brighten(&img, 0).into_raw(), vec![0, 100, 250, 7, 5, 128, 255, 200]);
    assert_eq!(brighten(&img, 255).into_raw(), vec![255, 255, 255, 7, 255, 255, 255, 200]);
    assert_eq!(brighten(&img, -255).into_raw(), vec![0, 0, 0, 7, 0, 0, 0, 200]);
}

#[test]
fn brighten_takes_every_amount() {
    let img = PixelBuffer::from_raw(1, 1, vec![0, 100, 250, 7]).unwrap();
    assert_eq!(brighten(&img, i32::MAX).into_raw(), vec![255, 255, 255, 7]);
    assert_eq!(brighten(&img, i32::MIN).into_raw(), vec![0, 0, 0, 7]);
    assert_eq!(brighten(&img, 256).into_raw(), vec![255, 255, 255, 7]);
    assert_eq!(brighten(&img, -256).into_raw(), vec![0, 0, 0, 7]);
}

#[test]
fn huerotate_keeps_shape_and_alpha() {
    let img = numbered(3, 2);
    for degrees in [-60, -10, 10, 60, 180, i32::MAX, i32::MIN] {
        let out = huerotate(&img, degrees);
        assert_eq!((out.width(), out.height()), (3, 2));
        for y in 0..2 {
            for x in 0..3 {
                assert_eq!(out.get_pixel(x, y)[3], img.get_pixel(x, y)[3]);
            }
        }
    }
}

#[test]
fn huerotate_changes_colours() {
    let img = PixelBuffer::from_raw(1, 1, vec![200, 30, 30, 255]).unwrap();
    let out = huerotate(&img, 60);
    assert_ne!(out.into_raw(), vec![200, 30, 30, 255]);
}

#[test]
fn images_without_pixels_stay_without_pixels() {
    let out = rotate90(&empty(0, 5));
    assert_eq!((out.width(), out.height()), (5, 0));
    let out = rotate270(&empty(4, 0));
    assert_eq!((out.width(), out.height()), (0, 4));
    let out = rotate180(&empty(0, 5));
    assert_eq!((out.width(), out.height()), (0, 5));
    let out = fliph(&empty(0, 0));
    assert_eq!((out.width(), out.height()), (0, 0));
    let out = flipv(&empty(3, 0));
    assert_eq!((out.width(), out.height()), (3, 0));
    assert!(invert(&empty(0, 2)).into_raw().is_empty());
    assert!(grayscale(&empty(0, 2)).into_raw().is_empty());
    assert!(brighten(&empty(2, 0), 5).into_raw().is_empty());
    let out = huerotate(&empty(2, 0), 5);
    assert_eq!((out.width(), out.height()), (2, 0));
}

#[test]
fn apply_fixed_dispatches_parameterless_operators() {
    let img = numbered(3, 2);
    assert_eq!(
        apply_fixed(Operator::Rotate90, &img).unwrap().into_raw(),
        rotate90(&img).into_raw()
    );
    assert_eq!(
        apply_fixed(Operator::Rotate180, &img).unwrap().into_raw(),
        rotate180(&img).into_raw()
    );
    assert_eq!(
        apply_fixed(Operator::Rotate270, &img).unwrap().into_raw(),
        rotate270(&img).into_raw()
    );
    assert_eq!(apply_fixed(Operator::FlipH, &img).unwrap().into_raw(), fliph(&img).into_raw());
    assert_eq!(apply_fixed(Operator::FlipV, &img).unwrap().into_raw(), flipv(&img).into_raw());
    assert_eq!(
        apply_fixed(Operator::Grayscale, &img).unwrap().into_raw(),
        grayscale(&img).into_raw()
    );
    assert_eq!(apply_fixed(Operator::Invert, &img).unwrap().into_raw(), invert(&img).into_raw());
}

#[test]
fn apply_fixed_leaves_parameterised_operators() {
    let img = numbered(3, 2);
    for operator in [
        Operator::ShiftH,
        Operator::ShiftV,
        Operator::HueRotate,
        Operator::Saturate,
        Operator::Brighten,
        Operator::Contrast,
    ] {
        assert!(apply_fixed(operator, &img).is_none());
    }
}

fn gradient(width: u32, height: u32) -> PixelBuffer {
    let mut data = Vec::new();
    for i in 0..(width * height) {
        data.extend_from_slice(&[
            (i * 7 % 256) as u8,
            (i * 13 % 256) as u8,
            (255 - i * 3 % 256) as u8,
            (i * 31 % 256) as u8,
        ]);
    }
    PixelBuffer::from_raw(width, height, data).unwrap()
}

#[test]
fn brighten_matches_the_formula_for_every_amount() {
    let img = gradient(16, 16);
    for delta in -300i32..=300 {
        let out = brighten(&img, delta).into_raw();
        let expected: Vec<u8> = img
            .as_raw()
            .iter()
            .enumerate()
            .map(|(i, &c)| if i % 4 < 3 { (c as i32 + delta).clamp(0, 255) as u8 } else { c })
            .collect();
        assert_eq!(out, expected);
    }
}

#[test]
fn grayscale_matches_the_formula_on_many_colours() {
    let img = gradient(64, 64);
    let out = grayscale(&img).into_raw();
    for (before, after) in img.as_raw().chunks_exact(4).zip(out.chunks_exact(4)) {
        let luma = ((2126 * before[0] as u32 + 7152 * before[1] as u32 + 722 * before[2] as u32)
            / 10000) as u8;
        assert_eq!(after, [luma, luma, luma, before[3]]);
    }
}

#[test]
fn invert_matches_the_formula_on_many_colours() {
    let img = gradient(64, 64);
    let out = invert(&img).into_raw();
    for (before, after) in img.as_raw().chunks_exact(4).zip(out.chunks_exact(4)) {
        assert_eq!(after, [255 - before[0], 255 - before[1], 255 - before[2], before[3]]);
    }
    assert_eq!(invert(&invert(&img)).into_raw(), gradient(64, 64).into_raw());
}

#[test]
fn turns_match_the_formula_on_many_sizes() {
    for (w, h) in [(1u32, 1u32), (1, 5), (5, 1), (4, 7), (9, 2)] {
        let img = gradient(w, h);
        let right = rotate90(&img);
        let half = rotate180(&img);
        let left = rotate270(&img);
        let across = fliph(&img);
        let down = flipv(&img);
        for y in 0..h {
            for x in 0..w {
                let p = img.get_pixel(x, y);
                assert_eq!(right.get_pixel(h - 1 - y, x), p);
                assert_eq!(half.get_pixel(w - 1 - x, h - 1 - y), p);
                assert_eq!(left.get_pixel(y, w - 1 - x), p);
                assert_eq!(across.get_pixel(w - 1 - x, y), p);
                assert_eq!(down.get_pixel(x, h - 1 - y), p);
            }
        }
    }
}
