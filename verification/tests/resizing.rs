use image_pipeline::color::Color;
use image_pipeline::error::PipelineError;
use image_pipeline::image_handling::Image;
use std::cell::RefCell;

use image_pipeline::resizing::{resize_lanczos, site_of, Filter, SampleSite};

fn rgb(r: u8, g: u8, b: u8) -> Color {
    Color::from_rgb(r, g, b)
}

fn sinc(x: f64) -> f64 {
    if x.abs() < f64::EPSILON {
        1.0
    } else {
        x.sin() / x
    }
}

fn lanczos(x: f64, a: f64) -> f64 {
    if -a < x && x < a {
        sinc(x) * sinc(x / a)
    } else {
        0.0
    }
}

fn quantize(v: f64) -> u8 {
    v.round().clamp(0.0, 255.0) as u8
}

/// Adds one source pixel, weighted, to the sums of red, green, blue and
/// weights.
fn lanczos_add(sums: [f64; 4], site: &SampleSite, ix: usize, iy: usize, color: Color) -> [f64; 4] {
    let a = site.lobes as f64;
    let ox = site.dst_x as f64 * site.src_width as f64 / site.dst_width as f64;
    let oy = site.dst_y as f64 * site.src_height as f64 / site.dst_height as f64;
    let weight = lanczos(ox - ix as f64, a) * lanczos(oy - iy as f64, a);
    [
        sums[0] + color.r as f64 * weight,
        sums[1] + color.g as f64 * weight,
        sums[2] + color.b as f64 * weight,
        sums[3] + weight,
    ]
}

/// The weighted mean, rounded and clamped.
fn lanczos_mean(sums: [f64; 4]) -> Option<Color> {
    if sums[3] == 0.0 || !sums[3].is_finite() {
        return None;
    }
    Some(Color::from_rgb(
        quantize(sums[0] / sums[3]),
        quantize(sums[1] / sums[3]),
        quantize(sums[2] / sums[3]),
    ))
}

type Add<A> = fn(A, &SampleSite, usize, usize, Color) -> A;
type Finish<A> = fn(A) -> Option<Color>;

/// The Lanczos filter.
fn lanczos_filter() -> Filter<[f64; 4], Add<[f64; 4]>, Finish<[f64; 4]>> {
    Filter { zero: [0.0; 4], accumulate: lanczos_add, finish: lanczos_mean }
}

fn keep_origin(
    found: Option<Color>,
    site: &SampleSite,
    ix: usize,
    iy: usize,
    color: Color,
) -> Option<Color> {
    if (ix, iy) == (site.origin_x, site.origin_y) {
        Some(color)
    } else {
        found
    }
}

fn found(found: Option<Color>) -> Option<Color> {
    found
}

/// The filter that takes the source pixel at the site's origin.
fn origin_filter() -> Filter<Option<Color>, Add<Option<Color>>, Finish<Option<Color>>> {
    Filter { zero: None, accumulate: keep_origin, finish: found }
}

fn ramp(w: usize, h: usize) -> Image {
    let data: Vec<Color> = (0..h)
        .flat_map(|y| {
            (0..w).map(move |x| {
                rgb(
                    ((x * 40 + y * 10) % 256) as u8,
                    ((x * 15 + y * 50) % 256) as u8,
                    ((200 - x as i64 * 20 - y as i64 * 5).rem_euclid(256)) as u8,
                )
            })
        })
        .collect();
    Image::from_pixels(w, h, data).unwrap()
}

#[test]
fn site_maps_back_without_offset() {
    // 10 columns to 4: column 3 comes from 3 * 10 / 4 = 7.5, floor 7.
    let site = site_of(10, 6, 4, 3, 3, 3, 2);
    assert_eq!(
        site,
        SampleSite {
            src_width: 10,
            src_height: 6,
            dst_width: 4,
            dst_height: 3,
            dst_x: 3,
            dst_y: 2,
            lobes: 3,
            origin_x: 7,
            origin_y: 4,
            x_begin: 5,
            x_end: 10,
            y_begin: 2,
            y_end: 6,
        }
    );
}

#[test]
fn site_window_is_clipped_at_the_edges() {
    let first = site_of(10, 10, 10, 10, 3, 0, 0);
    assert_eq!((first.origin_x, first.x_begin, first.x_end), (0, 0, 3));
    assert_eq!((first.origin_y, first.y_begin, first.y_end), (0, 0, 3));
    let last = site_of(10, 10, 10, 10, 3, 9, 9);
    assert_eq!((last.origin_x, last.x_begin, last.x_end), (9, 7, 10));
    assert_eq!((last.origin_y, last.y_begin, last.y_end), (9, 7, 10));
    let middle = site_of(10, 10, 10, 10, 3, 5, 4);
    assert_eq!((middle.origin_x, middle.x_begin, middle.x_end), (5, 3, 8));
    assert_eq!((middle.origin_y, middle.y_begin, middle.y_end), (4, 2, 7));
}

#[test]
fn site_window_has_two_lobes_minus_one_cells() {
    let site = site_of(100, 100, 50, 25, 1, 20, 10);
    assert_eq!((site.origin_x, site.x_begin, site.x_end), (40, 40, 41));
    assert_eq!((site.origin_y, site.y_begin, site.y_end), (40, 40, 41));
    let wide = site_of(100, 100, 50, 25, 200, 20, 10);
    assert_eq!((wide.x_begin, wide.x_end), (0, 100));
    let huge = site_of(100, 100, 50, 25, usize::MAX, 20, 10);
    assert_eq!((huge.x_begin, huge.x_end, huge.y_begin, huge.y_end), (0, 100, 0, 100));
}

#[test]
fn site_of_large_extents_does_not_overflow() {
    let site = site_of(usize::MAX, usize::MAX, usize::MAX, usize::MAX, 3, usize::MAX - 1, 7);
    assert_eq!(site.origin_x, usize::MAX - 1);
    assert_eq!((site.x_begin, site.x_end), (usize::MAX - 3, usize::MAX));
    assert_eq!(site.origin_y, 7);
}

#[test]
fn same_size_sites_sit_on_their_own_pixel() {
    for x in 0..7 {
        for y in 0..5 {
            let site = site_of(7, 5, 7, 5, 3, x, y);
            assert_eq!((site.origin_x, site.origin_y), (x, y));
        }
    }
}

#[test]
fn resize_returns_exactly_the_asked_dimensions() {
    let image = ramp(4, 4);
    for (w, h) in [(1, 1), (2, 2), (4, 4), (6, 3), (3, 9), (1, 17)] {
        let out = resize_lanczos(&image, w, h, 3, &lanczos_filter()).unwrap();
        assert_eq!(out.width(), w);
        assert_eq!(out.height(), h);
        assert_eq!(out.pixels().len(), w * h);
    }
}

#[test]
fn resize_fills_every_pixel_from_its_own_site() {
    let image = ramp(5, 3);
    let tag = Filter {
        zero: None,
        accumulate: |_: Option<Color>, site: &SampleSite, _: usize, _: usize, _: Color| {
            Some(rgb(site.dst_x as u8, site.dst_y as u8, site.origin_x as u8))
        },
        finish: |tagged: Option<Color>| tagged,
    };
    let out = resize_lanczos(&image, 10, 6, 3, &tag).unwrap();
    for y in 0..6 {
        for x in 0..10 {
            assert_eq!(out.get(x, y).unwrap(), rgb(x as u8, y as u8, (x / 2) as u8));
        }
    }
}

#[test]
fn every_window_pixel_contributes_once_row_by_row() {
    let image = ramp(6, 4);
    let seen: RefCell<Vec<(usize, usize, usize, usize, Color)>> = RefCell::new(Vec::new());
    let finished: RefCell<Vec<usize>> = RefCell::new(Vec::new());
    let record = Filter {
        zero: 0usize,
        accumulate: |count: usize, site: &SampleSite, ix: usize, iy: usize, color: Color| {
            seen.borrow_mut().push((site.dst_x, site.dst_y, ix, iy, color));
            count + 1
        },
        finish: |count: usize| {
            finished.borrow_mut().push(count);
            Some(Color::black())
        },
    };
    resize_lanczos(&image, 3, 2, 2, &record).unwrap();
    let mut expected = Vec::new();
    let mut counts = Vec::new();
    for ny in 0..2usize {
        for nx in 0..3usize {
            // Origins are 2 * nx and 2 * ny; the window reaches one pixel
            // to each side.
            let (ox, oy) = (2 * nx, 2 * ny);
            let mut count = 0;
            for iy in oy.saturating_sub(1)..(oy + 2).min(4) {
                for ix in ox.saturating_sub(1)..(ox + 2).min(6) {
                    expected.push((nx, ny, ix, iy, image.get(ix, iy).unwrap()));
                    count += 1;
                }
            }
            counts.push(count);
        }
    }
    assert_eq!(*seen.borrow(), expected);
    assert_eq!(*finished.borrow(), counts);
    assert_eq!(counts, vec![4, 6, 6, 6, 9, 9]);
}

#[test]
fn resize_rejects_degenerate_geometry() {
    let image = ramp(4, 4);
    for (w, h, lobes) in [(0, 4, 3), (4, 0, 3), (0, 0, 3), (4, 4, 0), (usize::MAX, 2, 3)] {
        assert_eq!(
            resize_lanczos(&image, w, h, lobes, &origin_filter()).unwrap_err(),
            PipelineError::DegenerateGeometry
        );
    }
}

#[test]
fn resize_fails_when_weights_sum_to_zero() {
    let image = ramp(4, 4);
    let nothing = Filter {
        zero: (),
        accumulate: |_: (), _: &SampleSite, _: usize, _: usize, _: Color| (),
        finish: |_: ()| -> Option<Color> { None },
    };
    assert_eq!(
        resize_lanczos(&image, 2, 2, 3, &nothing).unwrap_err(),
        PipelineError::DegenerateGeometry
    );
    let last_fails = Filter {
        zero: false,
        accumulate: |_: bool, site: &SampleSite, _: usize, _: usize, _: Color| {
            site.dst_x == 1 && site.dst_y == 1
        },
        finish: |last: bool| if last { None } else { Some(Color::black()) },
    };
    assert_eq!(
        resize_lanczos(&image, 2, 2, 3, &last_fails).unwrap_err(),
        PipelineError::DegenerateGeometry
    );
    let weightless = Filter {
        zero: [0.0f64; 4],
        accumulate: |sums: [f64; 4], _: &SampleSite, _: usize, _: usize, _: Color| sums,
        finish: lanczos_mean,
    };
    assert_eq!(
        resize_lanczos(&image, 2, 2, 3, &weightless).unwrap_err(),
        PipelineError::DegenerateGeometry
    );
}

#[test]
fn same_size_resize_from_origins_is_the_identity() {
    let image = ramp(6, 5);
    let out = resize_lanczos(&image, 6, 5, 3, &origin_filter()).unwrap();
    assert_eq!(out.pixels(), image.pixels());
}

#[test]
fn lanczos_resize_keeps_a_flat_image_flat() {
    let image = Image::new(3, 2, rgb(10, 20, 30)).unwrap();
    let same = resize_lanczos(&image, 3, 2, 3, &lanczos_filter()).unwrap();
    assert_eq!(same.pixels(), image.pixels());
    let larger = resize_lanczos(&image, 5, 4, 3, &lanczos_filter()).unwrap();
    assert_eq!(larger.pixels().len(), 20);
    assert!(larger.pixels().iter().all(|p| *p == rgb(10, 20, 30)));
}

#[test]
fn lanczos_halves_a_ramp() {
    let image = ramp(4, 4);
    let out = resize_lanczos(&image, 2, 2, 3, &lanczos_filter()).unwrap();
    assert_eq!(
        out.pixels(),
        &vec![rgb(37, 48, 181), rgb(76, 63, 162), rgb(47, 97, 177), rgb(86, 112, 157)]
    );
}

#[test]
fn lanczos_stretches_a_ramp() {
    let image = ramp(4, 4);
    let out = resize_lanczos(&image, 6, 3, 3, &lanczos_filter()).unwrap();
    let expected = vec![
        rgb(37, 48, 181),
        rgb(44, 51, 178),
        rgb(64, 59, 168),
        rgb(76, 63, 162),
        rgb(89, 68, 155),
        rgb(102, 72, 149),
        rgb(44, 82, 178),
        rgb(51, 85, 175),
        rgb(71, 93, 164),
        rgb(83, 97, 158),
        rgb(96, 102, 152),
        rgb(109, 107, 146),
        rgb(50, 113, 175),
        rgb(57, 116, 171),
        rgb(77, 124, 161),
        rgb(89, 128, 155),
        rgb(102, 133, 149),
        rgb(115, 138, 143),
    ];
    assert_eq!(out.pixels(), &expected);
}

/// The whole resize as one loop nest in double precision, windows and all.
fn resize_in_floats(image: &Image, new_width: usize, new_height: usize, a: f64) -> Vec<Color> {
    let (width, height) = (image.width(), image.height());
    let mut out = vec![Color::black(); new_width * new_height];
    for ny in 0..new_height {
        let oy = ny as f64 * height as f64 / new_height as f64;
        for nx in 0..new_width {
            let ox = nx as f64 * width as f64 / new_width as f64;
            let (mut r, mut g, mut b, mut sum) = (0f64, 0f64, 0f64, 0f64);
            for iy in (oy.floor() - a + 1f64) as isize..(oy.floor() + a) as isize {
                for ix in (ox.floor() - a + 1f64) as isize..(ox.floor() + a) as isize {
                    if iy < 0 || iy >= height as isize || ix < 0 || ix >= width as isize {
                        continue;
                    }
                    let weight = lanczos(ox - ix as f64, a) * lanczos(oy - iy as f64, a);
                    sum += weight;
                    let color = image.pixels()[iy as usize * width + ix as usize];
                    r += color.r as f64 * weight;
                    g += color.g as f64 * weight;
                    b += color.b as f64 * weight;
                }
            }
            out[ny * new_width + nx] =
                Color::from_rgb(quantize(r / sum), quantize(g / sum), quantize(b / sum));
        }
    }
    out
}

#[test]
fn agrees_with_the_double_precision_loop_nest() {
    let sizes = [(1, 1), (2, 3), (5, 4), (7, 7), (9, 2)];
    for (w, h) in sizes {
        let image = ramp(w, h);
        for (nw, nh) in [(1, 1), (3, 2), (4, 4), (7, 5), (10, 13)] {
            for lobes in [1usize, 2, 3, 4] {
                let out = resize_lanczos(&image, nw, nh, lobes, &lanczos_filter()).unwrap();
                assert_eq!(
                    out.pixels(),
                    &resize_in_floats(&image, nw, nh, lobes as f64),
                    "{}x{} to {}x{} with {} lobes",
                    w,
                    h,
                    nw,
                    nh,
                    lobes
                );
            }
        }
    }
}
