use image_pipeline::color::Color;
use image_pipeline::dithering::{
    dither_image, map_to_palette, palette16, DitheringKernel, QuantizationError,
};
use image_pipeline::image_handling::Image;

fn rgb(r: u8, g: u8, b: u8) -> Color {
    Color::from_rgb(r, g, b)
}

fn gray(v: u8) -> Color {
    Color::from_rgb(v, v, v)
}

#[test]
fn floyd_steinberg_has_the_classic_weights() {
    let k = DitheringKernel::floyd_steinberg();
    assert_eq!(k.width(), 3);
    assert_eq!(k.height(), 3);
    assert_eq!(k.divisor(), 16);
    let expected = [[0, 0, 0], [0, 0, 7], [3, 5, 1]];
    for ky in 0..3 {
        for kx in 0..3 {
            assert_eq!(k.weight(kx, ky), Some(expected[ky][kx]));
        }
    }
    assert_eq!(k.weight(3, 0), None);
    assert_eq!(k.weight(0, 3), None);
    assert!(k.is_forward_only());
}

#[test]
fn kernel_needs_odd_extents_and_zero_center() {
    assert!(DitheringKernel::new(3, 1, vec![0, 0, 1], 1).is_some());
    assert!(DitheringKernel::new(1, 1, vec![0], 5).is_some());
    assert!(DitheringKernel::new(2, 1, vec![0, 1], 1).is_none());
    assert!(DitheringKernel::new(1, 2, vec![0, 1], 1).is_none());
    assert!(DitheringKernel::new(0, 1, vec![], 1).is_none());
    assert!(DitheringKernel::new(3, 1, vec![0, 1, 1], 1).is_none());
    assert!(DitheringKernel::new(3, 1, vec![0, 0], 1).is_none());
    assert!(DitheringKernel::new(3, 1, vec![0, 0, 1, 0], 1).is_none());
    assert!(DitheringKernel::new(3, 1, vec![0, 0, 1], 0).is_none());
    assert!(DitheringKernel::new(3, 1, vec![0, 0, 1], -4).is_none());
    assert!(DitheringKernel::new(usize::MAX, usize::MAX, vec![0], 1).is_none());
}

#[test]
fn forward_only_is_told_apart() {
    let backward = DitheringKernel::new(3, 1, vec![1, 0, 1], 2).unwrap();
    assert!(!backward.is_forward_only());
    let upward = DitheringKernel::new(1, 3, vec![1, 0, 0], 1).unwrap();
    assert!(!upward.is_forward_only());
    let down = DitheringKernel::new(3, 3, vec![0, 0, 0, 0, 0, 0, 1, 1, 1], 3).unwrap();
    assert!(down.is_forward_only());
}

#[test]
fn palette16_is_the_reference_palette() {
    let palette = palette16();
    let expected = [
        (0, 0, 0),
        (157, 157, 157),
        (255, 255, 255),
        (190, 38, 51),
        (224, 111, 139),
        (73, 60, 43),
        (164, 100, 34),
        (235, 137, 49),
        (247, 226, 107),
        (47, 72, 78),
        (68, 137, 26),
        (163, 206, 39),
        (27, 38, 50),
        (0, 87, 132),
        (49, 162, 242),
        (178, 220, 239),
    ];
    assert_eq!(palette.len(), 16);
    for (color, (r, g, b)) in palette.iter().zip(expected) {
        assert_eq!(*color, rgb(r, g, b));
    }
}

#[test]
fn maps_to_the_nearest_color() {
    let palette = [rgb(0, 0, 0), rgb(255, 255, 255), rgb(255, 0, 0)];
    let (chosen, error) = map_to_palette(&rgb(200, 30, 20), &palette);
    assert_eq!(chosen, rgb(255, 0, 0));
    assert_eq!(error, QuantizationError { r: -55, g: 30, b: 20 });
    let (chosen, error) = map_to_palette(&rgb(100, 100, 100), &palette);
    assert_eq!(chosen, rgb(0, 0, 0));
    assert_eq!(error, QuantizationError { r: 100, g: 100, b: 100 });
    let (chosen, error) = map_to_palette(&rgb(255, 255, 255), &palette);
    assert_eq!(chosen, rgb(255, 255, 255));
    assert_eq!(error, QuantizationError { r: 0, g: 0, b: 0 });
}

#[test]
fn nearest_color_tie_goes_to_the_earlier_entry() {
    let input = rgb(10, 10, 10);
    let first = rgb(20, 10, 10);
    let second = rgb(0, 10, 10);
    let (chosen, error) = map_to_palette(&input, &[first, second]);
    assert_eq!(chosen, first);
    assert_eq!(error, QuantizationError { r: -10, g: 0, b: 0 });
    let (chosen, error) = map_to_palette(&input, &[second, first]);
    assert_eq!(chosen, second);
    assert_eq!(error, QuantizationError { r: 10, g: 0, b: 0 });
    let (chosen, _) = map_to_palette(&input, &[rgb(200, 0, 0), second, first, second]);
    assert_eq!(chosen, second);
}

#[test]
fn single_color_palette_takes_everything() {
    let only = rgb(1, 2, 3);
    let (chosen, error) = map_to_palette(&rgb(255, 0, 128), &[only]);
    assert_eq!(chosen, only);
    assert_eq!(error, QuantizationError { r: 254, g: -2, b: 125 });
}

#[test]
fn error_travels_right_with_seven_sixteenths() {
    let image = Image::from_pixels(2, 1, vec![gray(100), gray(100)]).unwrap();
    let palette = [gray(0), gray(255)];
    let out = dither_image(&image, &DitheringKernel::floyd_steinberg(), &palette);
    // 100 maps to black and leaves 100; 100 + 100 * 7 / 16 = 143.75, which
    // rounds to 144 and maps to white.
    assert_eq!(out.pixels(), &vec![gray(0), gray(255)]);
}

#[test]
fn diffused_values_round_half_away_from_zero() {
    // A kernel that hands half of the error to the right neighbour.
    let half = DitheringKernel::new(3, 1, vec![0, 0, 1], 2).unwrap();
    // 195 maps to 190 and leaves 5; 6 + 5 / 2 = 8.5 rounds to 9.
    let image = Image::from_pixels(2, 1, vec![gray(195), gray(6)]).unwrap();
    let out = dither_image(&image, &half, &[gray(190), gray(8), gray(9)]);
    assert_eq!(out.pixels(), &vec![gray(190), gray(9)]);
    // 200 maps to 205 and leaves -5; 6 - 5 / 2 = 3.5 rounds to 4.
    let image = Image::from_pixels(2, 1, vec![gray(200), gray(6)]).unwrap();
    let out = dither_image(&image, &half, &[gray(205), gray(3), gray(4)]);
    assert_eq!(out.pixels(), &vec![gray(205), gray(4)]);
}

#[test]
fn diffused_values_are_clamped() {
    let half = DitheringKernel::new(3, 1, vec![0, 0, 1], 2).unwrap();
    // 100 maps to 0 and leaves 100; 250 + 50 = 300 clamps to 255.
    let image = Image::from_pixels(2, 1, vec![gray(100), gray(250)]).unwrap();
    let out = dither_image(&image, &half, &[gray(0), gray(255)]);
    assert_eq!(out.pixels(), &vec![gray(0), gray(255)]);
    // 100 is as far from 200 as from 0; 200 comes first and leaves -100;
    // 10 - 50 = -40 clamps to 0.
    let image = Image::from_pixels(2, 1, vec![gray(100), gray(10)]).unwrap();
    let out = dither_image(&image, &half, &[gray(200), gray(0), gray(255)]);
    assert_eq!(out.pixels(), &vec![gray(200), gray(0)]);
}

#[test]
fn dithering_keeps_the_dimensions() {
    for (w, h) in [(1, 1), (1, 5), (5, 1), (4, 3), (7, 2)] {
        let data: Vec<Color> =
            (0..w * h).map(|i| rgb((i * 37 % 256) as u8, (i * 91 % 256) as u8, (i * 53 % 256) as u8)).collect();
        let image = Image::from_pixels(w, h, data).unwrap();
        let out = dither_image(&image, &DitheringKernel::floyd_steinberg(), &palette16());
        assert_eq!(out.width(), w);
        assert_eq!(out.height(), h);
        assert_eq!(out.pixels().len(), w * h);
    }
}

#[test]
fn dithering_leaves_the_source_untouched() {
    let data = vec![gray(100), gray(100), gray(100), gray(100)];
    let image = Image::from_pixels(2, 2, data.clone()).unwrap();
    let _ = dither_image(&image, &DitheringKernel::floyd_steinberg(), &[gray(0), gray(255)]);
    assert_eq!(image.pixels(), &data);
}

#[test]
fn dithered_pixels_are_palette_colors() {
    let palette = palette16();
    let data: Vec<Color> = (0..64usize)
        .map(|i| rgb((i * 4) as u8, (255 - i * 3) as u8, (i * i % 256) as u8))
        .collect();
    let image = Image::from_pixels(8, 8, data).unwrap();
    let out = dither_image(&image, &DitheringKernel::floyd_steinberg(), &palette);
    for pixel in out.pixels() {
        assert!(palette.contains(pixel));
    }
}

#[test]
fn dithers_a_gradient_exactly() {
    let data: Vec<Color> = (0..3usize)
        .flat_map(|y| {
            (0..4usize).map(move |x| {
                rgb(
                    ((x * 60 + y * 20) % 256) as u8,
                    ((x * 30 + y * 70) % 256) as u8,
                    ((x * 90 + y * 10 + 5) % 256) as u8,
                )
            })
        })
        .collect();
    let image = Image::from_pixels(4, 3, data).unwrap();
    let out = dither_image(&image, &DitheringKernel::floyd_steinberg(), &palette16());
    let expected = vec![
        rgb(0, 0, 0),
        rgb(47, 72, 78),
        rgb(157, 157, 157),
        rgb(190, 38, 51),
        rgb(27, 38, 50),
        rgb(47, 72, 78),
        rgb(157, 157, 157),
        rgb(164, 100, 34),
        rgb(68, 137, 26),
        rgb(157, 157, 157),
        rgb(178, 220, 239),
        rgb(163, 206, 39),
    ];
    assert_eq!(out.pixels(), &expected);
}

#[test]
fn error_does_not_wrap_around_the_right_edge() {
    // Only the last pixel of the first row leaves an error. Its right and
    // lower-right neighbours lie outside the image; the first pixel of the
    // second row must not get their share.
    let palette = [gray(0), gray(40)];
    let data = vec![gray(0), gray(0), gray(100), gray(0), gray(0), gray(0)];
    let image = Image::from_pixels(3, 2, data).unwrap();
    let out = dither_image(&image, &DitheringKernel::floyd_steinberg(), &palette);
    assert_eq!(out.get(0, 1).unwrap(), gray(0));
    assert_eq!(
        out.pixels(),
        &vec![gray(0), gray(0), gray(40), gray(0), gray(0), gray(40)]
    );
}

#[test]
fn error_does_not_wrap_around_the_bottom_edge() {
    // In a single row nothing can travel down: only the right neighbour
    // gets a share.
    let palette = [gray(0), gray(255)];
    let image = Image::from_pixels(3, 1, vec![gray(100), gray(0), gray(0)]).unwrap();
    let out = dither_image(&image, &DitheringKernel::floyd_steinberg(), &palette);
    // 0 + 100 * 7 / 16 = 43.75 -> 44 -> black, leaving 44; 0 + 44 * 7 / 16
    // = 19.25 -> 19 -> black.
    assert_eq!(out.pixels(), &vec![gray(0), gray(0), gray(0)]);
}

#[test]
fn exact_palette_matches_come_back_unchanged() {
    let data = vec![rgb(255, 0, 0), rgb(0, 255, 0), rgb(0, 0, 255), rgb(255, 255, 255)];
    let image = Image::from_pixels(2, 2, data.clone()).unwrap();
    let palette = [rgb(255, 255, 255), rgb(0, 0, 255), rgb(0, 255, 0), rgb(255, 0, 0), rgb(0, 0, 0)];
    let out = dither_image(&image, &DitheringKernel::floyd_steinberg(), &palette);
    assert_eq!(out.width(), 2);
    assert_eq!(out.height(), 2);
    assert_eq!(out.pixels(), &data);
}

#[test]
fn backward_kernel_can_leave_the_palette() {
    // The whole error goes to the pixel on the left, which has been
    // quantized already: the result is no palette color.
    let backward = DitheringKernel::new(3, 1, vec![1, 0, 0], 1).unwrap();
    let palette = [gray(0), gray(255)];
    let image = Image::from_pixels(2, 1, vec![gray(0), gray(100)]).unwrap();
    let out = dither_image(&image, &backward, &palette);
    assert_eq!(out.pixels(), &vec![gray(100), gray(0)]);
}

/// The same scan in single-precision floating point, with the
/// Floyd-Steinberg weights as sixteenths.
fn dither_in_floats(data: &[Color], width: usize, height: usize, palette: &[Color]) -> Vec<Color> {
    let matrix: [f32; 9] = [0.0, 0.0, 0.0, 0.0, 0.0, 7.0 / 16.0, 3.0 / 16.0, 5.0 / 16.0, 1.0 / 16.0];
    let mut out = data.to_vec();
    for cy in 0..height {
        for cx in 0..width {
            let i = cy * width + cx;
            let mut min_distance = f32::INFINITY;
            let mut chosen = palette[0];
            for candidate in palette {
                let distance = (out[i].r as f32 - candidate.r as f32).powi(2)
                    + (out[i].g as f32 - candidate.g as f32).powi(2)
                    + (out[i].b as f32 - candidate.b as f32).powi(2);
                if distance < min_distance {
                    chosen = *candidate;
                    min_distance = distance;
                }
            }
            let er = out[i].r as f32 - chosen.r as f32;
            let eg = out[i].g as f32 - chosen.g as f32;
            let eb = out[i].b as f32 - chosen.b as f32;
            out[i] = chosen;
            for ky in 0..3usize {
                for kx in 0..3usize {
                    let x = cx as isize + kx as isize - 1;
                    let y = cy as isize + ky as isize - 1;
                    if x < 0 || x >= width as isize || y < 0 || y >= height as isize {
                        continue;
                    }
                    let j = y as usize * width + x as usize;
                    let weight = matrix[ky * 3 + kx];
                    out[j].r = (out[j].r as f32 + er * weight).round().clamp(0.0, 255.0) as u8;
                    out[j].g = (out[j].g as f32 + eg * weight).round().clamp(0.0, 255.0) as u8;
                    out[j].b = (out[j].b as f32 + eb * weight).round().clamp(0.0, 255.0) as u8;
                }
            }
        }
    }
    out
}

#[test]
fn agrees_with_single_precision_arithmetic() {
    let mut state: u64 = 0x2545F4914F6CDD1D;
    let mut next = move |bound: u64| -> u64 {
        state ^= state << 13;
        state ^= state >> 7;
        state ^= state << 17;
        state % bound
    };
    let kernel = DitheringKernel::floyd_steinberg();
    for round in 0..300 {
        let width = 1 + next(9) as usize;
        let height = 1 + next(9) as usize;
        let data: Vec<Color> = (0..width * height)
            .map(|_| rgb(next(256) as u8, next(256) as u8, next(256) as u8))
            .collect();
        let palette: Vec<Color> = match round % 3 {
            0 => palette16(),
            1 => vec![gray(0), gray(255)],
            _ => (0..1 + next(6)).map(|_| rgb(next(256) as u8, next(256) as u8, next(256) as u8)).collect(),
        };
        let image = Image::from_pixels(width, height, data.clone()).unwrap();
        let out = dither_image(&image, &kernel, &palette);
        assert_eq!(out.pixels(), &dither_in_floats(&data, width, height, &palette));
    }
}
