//! Palette quantization with error diffusion.
//!
//! Weights are exact fractions: each kernel cell holds an integer numerator
//! over the kernel's common divisor, so the whole algorithm runs on integers.

use vstd::prelude::*;
use vstd::arithmetic::div_mod::{lemma_fundamental_div_mod, lemma_fundamental_div_mod_converse};
use vstd::slice::slice_to_vec;
use crate::color::Color;
use crate::image_handling::Image;

verus! {

/// An error-diffusion weight matrix. Both extents are odd, so there is a
/// center cell; it stands for the pixel being quantized and its weight is 0.
#[derive(Debug)]
pub struct DitheringKernel {
    matrix: Vec<i32>,
    divisor: i32,
    width: usize,
    height: usize,
}

/// The mathematical content of a [`DitheringKernel`]: cell `(kx, ky)` weighs
/// `weights[ky * width + kx] / divisor`.
pub struct KernelView {
    pub width: nat,
    pub height: nat,
    pub weights: Seq<i32>,
    pub divisor: int,
}

impl KernelView {
    /// The column of the center cell.
    pub open spec fn center_x(self) -> int {
        self.width as int / 2
    }

    /// The row of the center cell.
    pub open spec fn center_y(self) -> int {
        self.height as int / 2
    }

    /// Whether `(kx, ky)` is a cell of the kernel.
    pub open spec fn covers(self, kx: int, ky: int) -> bool {
        0 <= kx < self.width && 0 <= ky < self.height
    }

    /// The numerator of the weight of cell `(kx, ky)`.
    pub open spec fn weight(self, kx: int, ky: int) -> int
        recommends
            self.covers(kx, ky),
    {
        self.weights[ky * self.width + kx] as int
    }

    /// Odd extents, one weight per cell, a positive divisor, and a center
    /// cell of weight 0.
    pub open spec fn wf(self) -> bool {
        &&& self.width % 2 == 1
        &&& self.height % 2 == 1
        &&& self.weights.len() == self.width * self.height
        &&& self.divisor > 0
        &&& self.weight(self.center_x(), self.center_y()) == 0
    }

    /// Whether error only travels to pixels that come later in scan order:
    /// every cell above the center, or left of it in its row, weighs 0.
    pub open spec fn forward_only(self) -> bool {
        forall|kx: int, ky: int|
            self.covers(kx, ky) && (ky < self.center_y() || (ky == self.center_y() && kx
                <= self.center_x())) ==> #[trigger] self.weight(kx, ky) == 0
    }
}

/// The nine numerators of the Floyd-Steinberg kernel, over the divisor 16.
pub open spec fn floyd_steinberg_weights() -> Seq<i32> {
    seq![0i32, 0i32, 0i32, 0i32, 0i32, 7i32, 3i32, 5i32, 1i32]
}

impl View for DitheringKernel {
    type V = KernelView;

    closed spec fn view(&self) -> KernelView {
        KernelView {
            width: self.width as nat,
            height: self.height as nat,
            weights: self.matrix@,
            divisor: self.divisor as int,
        }
    }
}

impl DitheringKernel {
    /// What holds of every kernel.
    #[verifier::type_invariant]
    pub open spec fn inv(&self) -> bool {
        self@.wf()
    }

    /// Builds a kernel of `width x height` cells from its numerators in
    /// row-major order and their common divisor. Returns `None` unless both
    /// extents are odd, there is one numerator per cell, the divisor is
    /// positive and the center cell weighs 0.
    pub fn new(width: usize, height: usize, matrix: Vec<i32>, divisor: i32) -> (r: Option<
        DitheringKernel,
    >)
        ensures
            r is Some <==> (KernelView {
                width: width as nat,
                height: height as nat,
                weights: matrix@,
                divisor: divisor as int,
            }).wf(),
            r matches Some(k) ==> k@ == (KernelView {
                width: width as nat,
                height: height as nat,
                weights: matrix@,
                divisor: divisor as int,
            }),
    {
        let len = matrix.len();
        if width % 2 != 1 || height % 2 != 1 || divisor <= 0 {
            return None;
        }
        match width.checked_mul(height) {
            Some(cells) => {
                if len != cells {
                    return None;
                }
                let cx = width / 2;
                let cy = height / 2;
                assert(cy * width + cx < width * height) by (nonlinear_arith)
                    requires
                        cx < width,
                        cy < height,
                ;
                if matrix[cy * width + cx] != 0 {
                    return None;
                }
                Some(DitheringKernel { matrix, divisor, width, height })
            },
            None => None,
        }
    }

    /// The Floyd-Steinberg kernel: 7/16 to the right, and 3/16, 5/16, 1/16
    /// to the three pixels below.
    pub fn floyd_steinberg() -> (k: DitheringKernel)
        ensures
            k@ == (KernelView {
                width: 3,
                height: 3,
                weights: floyd_steinberg_weights(),
                divisor: 16,
            }),
            k@.forward_only(),
    {
        let matrix: Vec<i32> = vec![0, 0, 0, 0, 0, 7, 3, 5, 1];
        assert(matrix@ =~= floyd_steinberg_weights());
        let k = DitheringKernel { matrix, divisor: 16, width: 3, height: 3 };
        proof {
            lemma_floyd_steinberg_forward_only();
        }
        k
    }

    /// The kernel's width in cells.
    pub fn width(&self) -> (w: usize)
        ensures
            w == self@.width,
    {
        self.width
    }

    /// The kernel's height in cells.
    pub fn height(&self) -> (h: usize)
        ensures
            h == self@.height,
    {
        self.height
    }

    /// The common divisor of the weights.
    pub fn divisor(&self) -> (d: i32)
        ensures
            d == self@.divisor,
    {
        self.divisor
    }

    /// The numerator of the weight of cell `(kx, ky)`, or `None` when the
    /// kernel has no such cell.
    pub fn weight(&self, kx: usize, ky: usize) -> (w: Option<i32>)
        ensures
            w is Some <==> self@.covers(kx as int, ky as int),
            w matches Some(weight) ==> weight == self@.weight(kx as int, ky as int),
    {
        proof {
            use_type_invariant(self);
        }
        if kx >= self.width || ky >= self.height {
            return None;
        }
        let cells = self.matrix.len();
        assert(0 <= ky * self.width && ky * self.width + kx < cells) by (nonlinear_arith)
            requires
                kx < self.width,
                ky < self.height,
                cells == self.width * self.height,
        ;
        Some(self.matrix[ky * self.width + kx])
    }

    /// Whether error only travels to pixels that come later in scan order.
    pub fn is_forward_only(&self) -> (b: bool)
        ensures
            b == self@.forward_only(),
    {
        proof {
            use_type_invariant(self);
        }
        let center_x = self.width / 2;
        let center_y = self.height / 2;
        let cells = self.matrix.len();
        let mut ky: usize = 0;
        while ky <= center_y
            invariant
                self@.wf(),
                cells == self.matrix@.len(),
                center_x == self@.center_x(),
                center_y == self@.center_y(),
                ky <= center_y + 1,
                forall|x: int, y: int|
                    self@.covers(x, y) && y < ky && (y < center_y || x <= center_x)
                        ==> #[trigger] self@.weight(x, y) == 0,
            decreases center_y + 1 - ky,
        {
            let end = if ky < center_y {
                self.width
            } else {
                center_x + 1
            };
            let mut kx: usize = 0;
            while kx < end
                invariant
                    self@.wf(),
                    cells == self.matrix@.len(),
                    center_x == self@.center_x(),
                    center_y == self@.center_y(),
                    ky <= center_y,
                    kx <= end <= self.width,
                    end == (if ky < center_y {
                        self.width
                    } else {
                        (center_x + 1) as usize
                    }),
                    forall|x: int, y: int|
                        self@.covers(x, y) && (y < ky || (y == ky && x < kx)) && (y < center_y || x
                            <= center_x) ==> #[trigger] self@.weight(x, y) == 0,
                decreases end - kx,
            {
                assert(0 <= ky * self.width && ky * self.width + kx < cells) by (nonlinear_arith)
                    requires
                        kx < self.width,
                        ky < self.height,
                        cells == self.width * self.height,
                ;
                if self.matrix[ky * self.width + kx] != 0 {
                    assert(self@.weight(kx as int, ky as int) != 0);
                    return false;
                }
                kx = kx + 1;
            }
            ky = ky + 1;
        }
        true
    }
}

/// The Floyd-Steinberg kernel is well formed and sends error forward only.
pub proof fn lemma_floyd_steinberg_forward_only()
    ensures
        (KernelView { width: 3, height: 3, weights: floyd_steinberg_weights(), divisor: 16 }).wf(),
        (KernelView {
            width: 3,
            height: 3,
            weights: floyd_steinberg_weights(),
            divisor: 16,
        }).forward_only(),
{
    let k = KernelView { width: 3, height: 3, weights: floyd_steinberg_weights(), divisor: 16 };
    assert forall|kx: int, ky: int|
        k.covers(kx, ky) && (ky < k.center_y() || (ky == k.center_y() && kx
            <= k.center_x())) implies #[trigger] k.weight(kx, ky) == 0 by {
        assert(ky == 0 || ky == 1);
        assert(kx == 0 || kx == 1 || kx == 2);
    }
}

/// The reference palette of sixteen colors.
pub open spec fn palette16_colors() -> Seq<Color> {
    seq![
        Color::rgba(0x000000FF),
        Color::rgba(0x9D9D9DFF),
        Color::rgba(0xFFFFFFFF),
        Color::rgba(0xBE2633FF),
        Color::rgba(0xE06F8BFF),
        Color::rgba(0x493C2BFF),
        Color::rgba(0xA46422FF),
        Color::rgba(0xEB8931FF),
        Color::rgba(0xF7E26BFF),
        Color::rgba(0x2F484EFF),
        Color::rgba(0x44891AFF),
        Color::rgba(0xA3CE27FF),
        Color::rgba(0x1B2632FF),
        Color::rgba(0x005784FF),
        Color::rgba(0x31A2F2FF),
        Color::rgba(0xB2DCEFFF),
    ]
}

/// The reference palette of sixteen colors, in its fixed order.
pub fn palette16() -> (palette: Vec<Color>)
    ensures
        palette@ == palette16_colors(),
{
    let palette = vec![
        Color::from_u32_rgba(0x000000FF),
        Color::from_u32_rgba(0x9D9D9DFF),
        Color::from_u32_rgba(0xFFFFFFFF),
        Color::from_u32_rgba(0xBE2633FF),
        Color::from_u32_rgba(0xE06F8BFF),
        Color::from_u32_rgba(0x493C2BFF),
        Color::from_u32_rgba(0xA46422FF),
        Color::from_u32_rgba(0xEB8931FF),
        Color::from_u32_rgba(0xF7E26BFF),
        Color::from_u32_rgba(0x2F484EFF),
        Color::from_u32_rgba(0x44891AFF),
        Color::from_u32_rgba(0xA3CE27FF),
        Color::from_u32_rgba(0x1B2632FF),
        Color::from_u32_rgba(0x005784FF),
        Color::from_u32_rgba(0x31A2F2FF),
        Color::from_u32_rgba(0xB2DCEFFF),
    ];
    assert(palette@ =~= palette16_colors());
    palette
}

/// The residual of quantizing one pixel: original minus chosen, per channel.
#[derive(Clone, Copy, Debug, PartialEq, Eq, Structural)]
pub struct QuantizationError {
    pub r: i32,
    pub g: i32,
    pub b: i32,
}

/// The residual left when `chosen` stands in for `original`.
pub open spec fn quantization_error(original: Color, chosen: Color) -> QuantizationError {
    QuantizationError {
        r: (original.r - chosen.r) as i32,
        g: (original.g - chosen.g) as i32,
        b: (original.b - chosen.b) as i32,
    }
}

/// The index of the first entry among `palette[0..n]` that is nearest to
/// `color`; 0 when `n` is 0.
pub open spec fn nearest_upto(color: Color, palette: Seq<Color>, n: nat) -> int
    decreases n,
{
    if n <= 1 {
        0
    } else {
        let best = nearest_upto(color, palette, (n - 1) as nat);
        if color.distance(palette[n - 1]) < color.distance(palette[best]) {
            n - 1
        } else {
            best
        }
    }
}

/// The index of the palette entry that `color` maps to: the first one at
/// the least squared distance.
pub open spec fn nearest_index(color: Color, palette: Seq<Color>) -> int {
    nearest_upto(color, palette, palette.len())
}

/// Among the first `n` palette entries, `nearest_upto` names one at the
/// least distance from `color`, and every entry before it is strictly
/// farther away.
pub proof fn lemma_nearest_upto_is_first_minimum(color: Color, palette: Seq<Color>, n: nat)
    requires
        0 < n <= palette.len(),
    ensures
        0 <= nearest_upto(color, palette, n) < n,
        forall|j: int|
            0 <= j < n ==> color.distance(palette[nearest_upto(color, palette, n)])
                <= color.distance(#[trigger] palette[j]),
        forall|j: int|
            0 <= j < nearest_upto(color, palette, n) ==> color.distance(#[trigger] palette[j])
                > color.distance(palette[nearest_upto(color, palette, n)]),
    decreases n,
{
    if n > 1 {
        lemma_nearest_upto_is_first_minimum(color, palette, (n - 1) as nat);
    }
}

/// Nearest-color mapping never prefers a later entry: the chosen entry is at
/// the least distance from `color`, and among entries at that distance it is
/// the one with the smallest index.
pub proof fn lemma_nearest_index_breaks_ties_by_order(color: Color, palette: Seq<Color>)
    requires
        palette.len() > 0,
    ensures
        0 <= nearest_index(color, palette) < palette.len(),
        forall|j: int|
            0 <= j < palette.len() ==> color.distance(palette[nearest_index(color, palette)])
                <= color.distance(#[trigger] palette[j]),
        forall|j: int|
            0 <= j < palette.len() && color.distance(#[trigger] palette[j]) == color.distance(
                palette[nearest_index(color, palette)],
            ) ==> nearest_index(color, palette) <= j,
{
    lemma_nearest_upto_is_first_minimum(color, palette, palette.len());
}

/// A color that is in the palette maps to a palette entry equal to itself.
pub proof fn lemma_palette_color_maps_to_itself(color: Color, palette: Seq<Color>)
    requires
        palette.contains(color),
    ensures
        palette[nearest_index(color, palette)] == color,
{
    let j = choose|j: int| 0 <= j < palette.len() && palette[j] == color;
    lemma_nearest_upto_is_first_minimum(color, palette, palette.len());
    let chosen = palette[nearest_index(color, palette)];
    assert(color.distance(palette[j]) == 0);
    assert(color.distance(chosen) >= 0) by (nonlinear_arith);
    assert(color.distance(chosen) == 0);
    assert(chosen == color) by (nonlinear_arith)
        requires
            color.distance(chosen) == 0,
    ;
}

/// Maps `orig` to its nearest palette entry and tells the residual.
///
/// The entry is the first one, in palette order, at the least squared
/// distance from `orig`: a tie goes to the earlier entry.
pub fn map_to_palette(orig: &Color, palette: &[Color]) -> (r: (Color, QuantizationError))
    requires
        palette@.len() > 0,
    ensures
        0 <= nearest_index(*orig, palette@) < palette@.len(),
        r.0 == palette@[nearest_index(*orig, palette@)],
        r.1 == quantization_error(*orig, r.0),
        -255 <= r.1.r <= 255 && -255 <= r.1.g <= 255 && -255 <= r.1.b <= 255,
        forall|j: int|
            0 <= j < palette@.len() ==> orig.distance(r.0) <= orig.distance(#[trigger] palette@[j]),
        forall|j: int|
            0 <= j < palette@.len() && orig.distance(#[trigger] palette@[j]) == orig.distance(r.0)
                ==> nearest_index(*orig, palette@) <= j,
{
    let mut best: usize = 0;
    let mut min_distance: u32 = orig.distance_to(&palette[0]);
    let mut i: usize = 1;
    while i < palette.len()
        invariant
            1 <= i <= palette@.len(),
            best == nearest_upto(*orig, palette@, i as nat),
            0 <= best < i,
            min_distance == orig.distance(palette@[best as int]),
        decreases palette@.len() - i,
    {
        let distance = orig.distance_to(&palette[i]);
        if distance < min_distance {
            best = i;
            min_distance = distance;
        }
        i = i + 1;
    }
    proof {
        lemma_nearest_index_breaks_ties_by_order(*orig, palette@);
    }
    let color = palette[best];
    let qe = QuantizationError {
        r: orig.r as i32 - color.r as i32,
        g: orig.g as i32 - color.g as i32,
        b: orig.b as i32 - color.b as i32,
    };
    (color, qe)
}

/// `numerator / divisor` rounded to the nearest integer, a half going away
/// from zero.
pub open spec fn round_half_away(numerator: int, divisor: int) -> int
    recommends
        divisor > 0,
{
    if numerator >= 0 {
        (2 * numerator + divisor) / (2 * divisor)
    } else {
        -((-2 * numerator + divisor) / (2 * divisor))
    }
}

/// `value` brought into `[0, 255]`.
pub open spec fn clamp_channel(value: int) -> u8 {
    if value < 0 {
        0
    } else if value > 255 {
        255
    } else {
        value as u8
    }
}

/// A channel after `error * weight / divisor` has been added to it, rounded
/// and clamped.
pub open spec fn diffuse_channel(value: u8, error: int, weight: int, divisor: int) -> u8 {
    clamp_channel(round_half_away(value * divisor + error * weight, divisor))
}

/// A pixel after the share `weight / divisor` of `error` has been added to
/// each of its channels.
pub open spec fn diffuse_color(color: Color, error: QuantizationError, weight: int, divisor: int) -> Color {
    Color {
        r: diffuse_channel(color.r, error.r as int, weight, divisor),
        g: diffuse_channel(color.g, error.g as int, weight, divisor),
        b: diffuse_channel(color.b, error.b as int, weight, divisor),
    }
}

/// `round_half_away` gives an integer nearest to `numerator / divisor`: the
/// two differ by at most a half. Where they differ by exactly a half, the
/// result is the neighbour farther from zero.
pub proof fn lemma_round_half_away_is_nearest(numerator: int, divisor: int)
    requires
        divisor > 0,
    ensures
        -divisor <= 2 * (round_half_away(numerator, divisor) * divisor - numerator) <= divisor,
        numerator >= 0 ==> 2 * (round_half_away(numerator, divisor) * divisor - numerator)
            > -divisor,
        numerator < 0 ==> 2 * (round_half_away(numerator, divisor) * divisor - numerator)
            < divisor,
{
    if numerator >= 0 {
        let p = 2 * numerator + divisor;
        lemma_fundamental_div_mod(p, 2 * divisor);
        let q = p / (2 * divisor);
        assert((2 * divisor) * q == 2 * (q * divisor)) by (nonlinear_arith);
    } else {
        let p = -2 * numerator + divisor;
        lemma_fundamental_div_mod(p, 2 * divisor);
        let q = p / (2 * divisor);
        assert((2 * divisor) * q == 2 * (q * divisor)) by (nonlinear_arith);
        assert((-q) * divisor == -(q * divisor)) by (nonlinear_arith);
    }
}

/// Rounding is exact on whole numbers.
pub proof fn lemma_round_half_away_of_multiple(value: int, divisor: int)
    requires
        divisor > 0,
    ensures
        round_half_away(value * divisor, divisor) == value,
{
    if value >= 0 {
        assert(value * divisor >= 0) by (nonlinear_arith)
            requires
                value >= 0,
                divisor > 0,
        ;
        assert(2 * (value * divisor) + divisor == value * (2 * divisor) + divisor) by (nonlinear_arith);
        lemma_fundamental_div_mod_converse(
            2 * (value * divisor) + divisor,
            2 * divisor,
            value,
            divisor,
        );
    } else {
        assert(value * divisor < 0) by (nonlinear_arith)
            requires
                value < 0,
                divisor > 0,
        ;
        assert(-2 * (value * divisor) + divisor == (-value) * (2 * divisor) + divisor)
            by (nonlinear_arith);
        lemma_fundamental_div_mod_converse(
            -2 * (value * divisor) + divisor,
            2 * divisor,
            -value,
            divisor,
        );
    }
}

/// No error, or no weight, leaves a pixel as it is.
pub proof fn lemma_nothing_diffused(color: Color, error: QuantizationError, weight: int, divisor: int)
    requires
        divisor > 0,
        weight == 0 || (error.r == 0 && error.g == 0 && error.b == 0),
    ensures
        diffuse_color(color, error, weight, divisor) == color,
{
    assert(error.r * weight == 0 && error.g * weight == 0 && error.b * weight == 0)
        by (nonlinear_arith)
        requires
            weight == 0 || (error.r == 0 && error.g == 0 && error.b == 0),
    ;
    lemma_round_half_away_of_multiple(color.r as int, divisor);
    lemma_round_half_away_of_multiple(color.g as int, divisor);
    lemma_round_half_away_of_multiple(color.b as int, divisor);
}

/// Adds the share `weight / divisor` of `error` to one channel.
fn diffuse_into_channel(value: u8, error: i32, weight: i32, divisor: i32) -> (r: u8)
    requires
        divisor > 0,
        -255 <= error <= 255,
    ensures
        r == diffuse_channel(value, error as int, weight as int, divisor as int),
{
    assert(0 <= value * divisor <= 255 * 0x8000_0000) by (nonlinear_arith)
        requires
            0 <= value <= 255,
            0 < divisor < 0x8000_0000,
    ;
    let scaled: i64 = value as i64 * divisor as i64;
    assert(-255 * 0x8000_0000 <= error * weight <= 255 * 0x8000_0000) by (nonlinear_arith)
        requires
            -255 <= error <= 255,
            -0x8000_0000 <= weight < 0x8000_0000,
    ;
    let share: i64 = error as i64 * weight as i64;
    let numerator: i64 = scaled + share;
    if numerator < 0 {
        assert((-2 * numerator + divisor) / (2 * divisor as int) >= 0) by (nonlinear_arith)
            requires
                numerator < 0,
                divisor > 0,
        ;
        0
    } else {
        let rounded: u64 = (2 * numerator + divisor as i64) as u64 / (2 * divisor as i64) as u64;
        if rounded > 255 {
            255
        } else {
            rounded as u8
        }
    }
}

/// Adds the share `weight / divisor` of `error` to each channel of `color`.
fn diffuse_into(color: Color, error: &QuantizationError, weight: i32, divisor: i32) -> (r: Color)
    requires
        divisor > 0,
        -255 <= error.r <= 255 && -255 <= error.g <= 255 && -255 <= error.b <= 255,
    ensures
        r == diffuse_color(color, *error, weight as int, divisor as int),
{
    Color {
        r: diffuse_into_channel(color.r, error.r, weight, divisor),
        g: diffuse_into_channel(color.g, error.g, weight, divisor),
        b: diffuse_into_channel(color.b, error.b, weight, divisor),
    }
}

/// The kernel column that reaches pixel `target` from pixel `source`, in an
/// image `width` pixels wide. It is a column of the kernel only if the two
/// pixels are at most half a kernel apart.
pub open spec fn kernel_column(kernel: KernelView, width: int, source: int, target: int) -> int {
    target % width - source % width + kernel.center_x()
}

/// The kernel row that reaches pixel `target` from pixel `source`.
pub open spec fn kernel_row(kernel: KernelView, width: int, source: int, target: int) -> int {
    target / width - source / width + kernel.center_y()
}

/// Pixel `target` after the error of pixel `source` has been diffused: the
/// pixel gains its share if a kernel cell of nonzero weight reaches it from
/// `source`, and is untouched otherwise.
pub open spec fn spread_pixel(
    pixels: Seq<Color>,
    width: int,
    kernel: KernelView,
    source: int,
    error: QuantizationError,
    target: int,
) -> Color {
    let kx = kernel_column(kernel, width, source, target);
    let ky = kernel_row(kernel, width, source, target);
    if kernel.covers(kx, ky) && kernel.weight(kx, ky) != 0 {
        diffuse_color(pixels[target], error, kernel.weight(kx, ky), kernel.divisor)
    } else {
        pixels[target]
    }
}

/// The image after the error of pixel `source` has been diffused.
pub open spec fn spread(
    pixels: Seq<Color>,
    width: int,
    kernel: KernelView,
    source: int,
    error: QuantizationError,
) -> Seq<Color> {
    Seq::new(pixels.len(), |target: int| spread_pixel(pixels, width, kernel, source, error, target))
}

/// One step of the scan: pixel `source` becomes its nearest palette color,
/// and its residual is diffused to its neighbours.
pub open spec fn diffusion_step(
    pixels: Seq<Color>,
    width: int,
    kernel: KernelView,
    palette: Seq<Color>,
    source: int,
) -> Seq<Color> {
    let chosen = palette[nearest_index(pixels[source], palette)];
    let error = quantization_error(pixels[source], chosen);
    spread(pixels.update(source, chosen), width, kernel, source, error)
}

/// The image after the first `n` pixels, in row-major order, have been
/// quantized and their errors diffused.
pub open spec fn dither_scan(
    pixels: Seq<Color>,
    width: int,
    kernel: KernelView,
    palette: Seq<Color>,
    n: nat,
) -> Seq<Color>
    decreases n,
{
    if n == 0 {
        pixels
    } else {
        diffusion_step(dither_scan(pixels, width, kernel, palette, (n - 1) as nat), width, kernel, palette, n - 1)
    }
}

/// The dithered image: the scan carried through every pixel.
pub open spec fn dithered(pixels: Seq<Color>, width: int, kernel: KernelView, palette: Seq<Color>) -> Seq<Color> {
    dither_scan(pixels, width, kernel, palette, pixels.len())
}

/// `spread_pixel`, but only by the kernel cells that come before cell
/// `(kx_done, ky_done)` in row-major order.
spec fn spread_pixel_so_far(
    pixels: Seq<Color>,
    width: int,
    kernel: KernelView,
    source: int,
    error: QuantizationError,
    ky_done: int,
    kx_done: int,
    target: int,
) -> Color {
    let kx = kernel_column(kernel, width, source, target);
    let ky = kernel_row(kernel, width, source, target);
    if ky < ky_done || (ky == ky_done && kx < kx_done) {
        spread_pixel(pixels, width, kernel, source, error, target)
    } else {
        pixels[target]
    }
}

/// The row and column of a pixel index.
proof fn lemma_row_column(x: int, y: int, width: int)
    requires
        0 <= x < width,
        0 <= y,
    ensures
        (y * width + x) % width == x,
        (y * width + x) / width == y,
{
    lemma_fundamental_div_mod_converse(y * width + x, width, y, x);
}

/// A pixel index is made of its row and column.
proof fn lemma_index_of_row_column(index: int, width: int, height: int)
    requires
        0 < width,
        0 <= index < width * height,
    ensures
        0 <= index % width < width,
        0 <= index / width < height,
        index == (index / width) * width + index % width,
{
    lemma_fundamental_div_mod(index, width);
    assert(index / width < height) by (nonlinear_arith)
        requires
            0 < width,
            index < width * height,
            index == width * (index / width) + index % width,
            0 <= index % width,
    ;
    assert(0 <= index / width) by (nonlinear_arith)
        requires
            0 < width,
            0 <= index,
            index == width * (index / width) + index % width,
            index % width < width,
    ;
    assert(width * (index / width) == (index / width) * width) by (nonlinear_arith);
}

/// `position + cell - center`, if it lies in `[0, limit)`.
fn neighbour(position: usize, cell: usize, center: usize, limit: usize) -> (r: Option<usize>)
    requires
        position < limit,
    ensures
        r is Some <==> 0 <= position + cell - center < limit,
        r matches Some(at) ==> at == position + cell - center,
{
    if cell >= center {
        let ahead = cell - center;
        if ahead < limit - position {
            Some(position + ahead)
        } else {
            None
        }
    } else {
        let back = center - cell;
        if back <= position {
            Some(position - back)
        } else {
            None
        }
    }
}

/// Diffuses `error`, the residual of the pixel at column `cx` of row `cy`,
/// into `pixels`. Targets outside the image are dropped.
fn diffuse_error(
    pixels: &mut Vec<Color>,
    width: usize,
    height: usize,
    cx: usize,
    cy: usize,
    error: &QuantizationError,
    kernel: &DitheringKernel,
)
    requires
        old(pixels)@.len() == width * height,
        cx < width,
        cy < height,
        -255 <= error.r <= 255 && -255 <= error.g <= 255 && -255 <= error.b <= 255,
    ensures
        final(pixels)@ == spread(old(pixels)@, width as int, kernel@, cy * width + cx, *error),
{
    proof {
        use_type_invariant(kernel);
        lemma_row_column(cx as int, cy as int, width as int);
    }
    let ghost before = pixels@;
    let ghost source = cy * width + cx;
    let ghost view = kernel@;
    let center_x = kernel.width / 2;
    let center_y = kernel.height / 2;
    let mut ky: usize = 0;
    while ky < kernel.height
        invariant
            view == kernel@,
            view.wf(),
            center_x == view.center_x(),
            center_y == view.center_y(),
            before.len() == width * height,
            pixels@.len() == before.len(),
            cx < width,
            cy < height,
            source == cy * width + cx,
            source % (width as int) == cx,
            source / (width as int) == cy,
            -255 <= error.r <= 255 && -255 <= error.g <= 255 && -255 <= error.b <= 255,
            ky <= kernel.height,
            forall|t: int|
                0 <= t < before.len() ==> #[trigger] pixels@[t] == spread_pixel_so_far(
                    before,
                    width as int,
                    view,
                    source,
                    *error,
                    ky as int,
                    0,
                    t,
                ),
        decreases kernel.height - ky,
    {
        let mut kx: usize = 0;
        while kx < kernel.width
            invariant
                view == kernel@,
                view.wf(),
                center_x == view.center_x(),
                center_y == view.center_y(),
                before.len() == width * height,
                pixels@.len() == before.len(),
                cx < width,
                cy < height,
                source == cy * width + cx,
                source % (width as int) == cx,
                source / (width as int) == cy,
                -255 <= error.r <= 255 && -255 <= error.g <= 255 && -255 <= error.b <= 255,
                ky < kernel.height,
                kx <= kernel.width,
                forall|t: int|
                    0 <= t < before.len() ==> #[trigger] pixels@[t] == spread_pixel_so_far(
                        before,
                        width as int,
                        view,
                        source,
                        *error,
                        ky as int,
                        kx as int,
                        t,
                    ),
            decreases kernel.width - kx,
        {
            let cells = kernel.matrix.len();
            assert(0 <= ky * kernel.width && ky * kernel.width + kx < cells) by (nonlinear_arith)
                requires
                    kx < kernel.width,
                    ky < kernel.height,
                    cells == kernel.width * kernel.height,
            ;
            let weight = kernel.matrix[ky * kernel.width + kx];
            assert(weight == view.weight(kx as int, ky as int));
            let ghost earlier = pixels@;
            let mut reached: Ghost<Option<int>> = Ghost(None);
            if weight != 0 {
                match (neighbour(cx, kx, center_x, width), neighbour(cy, ky, center_y, height)) {
                    (Some(x), Some(y)) => {
                        let len = pixels.len();
                        assert(0 <= y * width && y * width + x < len) by (nonlinear_arith)
                            requires
                                x < width,
                                y < height,
                                len == width * height,
                        ;
                        let t = y * width + x;
                        proof {
                            lemma_row_column(x as int, y as int, width as int);
                            reached@ = Some(t as int);
                        }
                        let updated = diffuse_into(pixels[t], error, weight, kernel.divisor);
                        pixels[t] = updated;
                    },
                    _ => {},
                }
            }
            proof {
                assert forall|t: int| 0 <= t < before.len() implies #[trigger] pixels@[t]
                    == spread_pixel_so_far(
                    before,
                    width as int,
                    view,
                    source,
                    *error,
                    ky as int,
                    kx + 1,
                    t,
                ) by {
                    lemma_index_of_row_column(t, width as int, height as int);
                    let tkx = kernel_column(view, width as int, source, t);
                    let tky = kernel_row(view, width as int, source, t);
                    assert(earlier[t] == spread_pixel_so_far(
                        before,
                        width as int,
                        view,
                        source,
                        *error,
                        ky as int,
                        kx as int,
                        t,
                    ));
                    if tkx == kx && tky == ky {
                        assert(t % (width as int) == cx + kx - center_x);
                        assert(t / (width as int) == cy + ky - center_y);
                        if weight != 0 {
                            assert(reached@ == Some(t));
                        }
                    } else {
                        assert(reached@ != Some(t));
                    }
                }
            }
            kx = kx + 1;
        }
        proof {
            assert forall|t: int| 0 <= t < before.len() implies #[trigger] pixels@[t]
                == spread_pixel_so_far(
                before,
                width as int,
                view,
                source,
                *error,
                ky + 1,
                0,
                t,
            ) by {
                assert(pixels@[t] == spread_pixel_so_far(
                    before,
                    width as int,
                    view,
                    source,
                    *error,
                    ky as int,
                    kernel.width as int,
                    t,
                ));
            }
        }
        ky = ky + 1;
    }
    proof {
        assert forall|t: int| 0 <= t < before.len() implies #[trigger] pixels@[t] == spread_pixel(
            before,
            width as int,
            view,
            source,
            *error,
            t,
        ) by {
            assert(pixels@[t] == spread_pixel_so_far(
                before,
                width as int,
                view,
                source,
                *error,
                kernel.height as int,
                0,
                t,
            ));
        }
        assert(pixels@ =~= spread(before, width as int, view, source, *error));
    }
}

/// Diffusion is local and never wraps around an edge: the error of pixel
/// `source` leaves untouched every pixel whose column or row is more than
/// half a kernel away from that of `source`. In particular the error of a
/// pixel in the last column does not reach the first column, unless the
/// image is so narrow that the kernel spans it.
pub proof fn lemma_diffusion_is_local(
    pixels: Seq<Color>,
    width: int,
    kernel: KernelView,
    source: int,
    error: QuantizationError,
    target: int,
)
    requires
        kernel.wf(),
        0 <= target < pixels.len(),
        ({
            ||| target % width - source % width > kernel.center_x()
            ||| source % width - target % width > kernel.center_x()
            ||| target / width - source / width > kernel.center_y()
            ||| source / width - target / width > kernel.center_y()
        }),
    ensures
        spread(pixels, width, kernel, source, error)[target] == pixels[target],
{
}

/// A scan step is as local as the diffusion it ends with: it leaves
/// untouched every pixel whose column or row is more than half a kernel
/// away from that of `source`.
pub proof fn lemma_step_is_local(
    pixels: Seq<Color>,
    width: int,
    kernel: KernelView,
    palette: Seq<Color>,
    source: int,
    target: int,
)
    requires
        kernel.wf(),
        0 <= source < pixels.len(),
        0 <= target < pixels.len(),
        ({
            ||| target % width - source % width > kernel.center_x()
            ||| source % width - target % width > kernel.center_x()
            ||| target / width - source / width > kernel.center_y()
            ||| source / width - target / width > kernel.center_y()
        }),
    ensures
        diffusion_step(pixels, width, kernel, palette, source)[target] == pixels[target],
{
}

/// With a kernel that sends error forward only, a scan step leaves every
/// pixel before `source` as it was.
pub proof fn lemma_forward_step_keeps_earlier_pixels(
    pixels: Seq<Color>,
    width: int,
    kernel: KernelView,
    palette: Seq<Color>,
    source: int,
    target: int,
)
    requires
        width > 0,
        kernel.wf(),
        kernel.forward_only(),
        0 <= target < source < pixels.len(),
    ensures
        diffusion_step(pixels, width, kernel, palette, source)[target] == pixels[target],
{
    lemma_fundamental_div_mod(target, width);
    lemma_fundamental_div_mod(source, width);
    let kx = kernel_column(kernel, width, source, target);
    let ky = kernel_row(kernel, width, source, target);
    assert(target / width <= source / width) by (nonlinear_arith)
        requires
            width > 0,
            target < source,
            target == width * (target / width) + target % width,
            source == width * (source / width) + source % width,
            0 <= target % width < width,
            0 <= source % width < width,
    ;
    if target / width == source / width {
        assert(target % width < source % width);
    }
    if kernel.covers(kx, ky) {
        assert(kernel.weight(kx, ky) == 0);
    }
}

/// The scan keeps the number of pixels.
pub proof fn lemma_scan_keeps_length(
    pixels: Seq<Color>,
    width: int,
    kernel: KernelView,
    palette: Seq<Color>,
    n: nat,
)
    requires
        n <= pixels.len(),
    ensures
        dither_scan(pixels, width, kernel, palette, n).len() == pixels.len(),
    decreases n,
{
    if n > 0 {
        lemma_scan_keeps_length(pixels, width, kernel, palette, (n - 1) as nat);
    }
}

/// With a kernel that sends error forward only, the first `n` pixels of the
/// scan's state after `n` steps are palette colors.
pub proof fn lemma_scan_stays_in_palette(
    pixels: Seq<Color>,
    width: int,
    kernel: KernelView,
    palette: Seq<Color>,
    n: nat,
)
    requires
        width > 0,
        kernel.wf(),
        kernel.forward_only(),
        palette.len() > 0,
        n <= pixels.len(),
    ensures
        forall|j: int|
            0 <= j < n ==> palette.contains(
                #[trigger] dither_scan(pixels, width, kernel, palette, n)[j],
            ),
    decreases n,
{
    if n > 0 {
        let before = dither_scan(pixels, width, kernel, palette, (n - 1) as nat);
        let after = dither_scan(pixels, width, kernel, palette, n);
        lemma_scan_stays_in_palette(pixels, width, kernel, palette, (n - 1) as nat);
        lemma_scan_keeps_length(pixels, width, kernel, palette, (n - 1) as nat);
        assert forall|j: int| 0 <= j < n implies palette.contains(#[trigger] after[j]) by {
            if j < n - 1 {
                lemma_forward_step_keeps_earlier_pixels(before, width, kernel, palette, n - 1, j);
                assert(palette.contains(before[j]));
            } else {
                lemma_nearest_upto_is_first_minimum(before[j], palette, palette.len());
                let chosen = palette[nearest_index(before[j], palette)];
                lemma_fundamental_div_mod(j, width);
                assert(kernel_column(kernel, width, j, j) == kernel.center_x());
                assert(kernel_row(kernel, width, j, j) == kernel.center_y());
                assert(after[j] == chosen);
            }
        }
    }
}

/// Palette closure: with a kernel that sends error forward only, every
/// pixel of a dithered image is a color of the palette.
pub proof fn lemma_dithered_stays_in_palette(
    pixels: Seq<Color>,
    width: int,
    kernel: KernelView,
    palette: Seq<Color>,
)
    requires
        width > 0,
        kernel.wf(),
        kernel.forward_only(),
        palette.len() > 0,
    ensures
        dithered(pixels, width, kernel, palette).len() == pixels.len(),
        forall|j: int|
            0 <= j < pixels.len() ==> palette.contains(
                #[trigger] dithered(pixels, width, kernel, palette)[j],
            ),
{
    lemma_scan_keeps_length(pixels, width, kernel, palette, pixels.len());
    lemma_scan_stays_in_palette(pixels, width, kernel, palette, pixels.len());
}

/// An image whose colors are all in the palette has no quantization error
/// to diffuse: every step of the scan leaves it as it is.
pub proof fn lemma_scan_fixes_palette_image(
    pixels: Seq<Color>,
    width: int,
    kernel: KernelView,
    palette: Seq<Color>,
    n: nat,
)
    requires
        kernel.wf(),
        n <= pixels.len(),
        forall|j: int| 0 <= j < pixels.len() ==> palette.contains(#[trigger] pixels[j]),
    ensures
        dither_scan(pixels, width, kernel, palette, n) == pixels,
    decreases n,
{
    if n > 0 {
        lemma_scan_fixes_palette_image(pixels, width, kernel, palette, (n - 1) as nat);
        let source = n - 1;
        lemma_palette_color_maps_to_itself(pixels[source], palette);
        let chosen = palette[nearest_index(pixels[source], palette)];
        let error = quantization_error(pixels[source], chosen);
        assert(pixels.update(source, chosen) =~= pixels);
        assert forall|t: int| 0 <= t < pixels.len() implies spread_pixel(
            pixels,
            width,
            kernel,
            source,
            error,
            t,
        ) == pixels[t] by {
            let kx = kernel_column(kernel, width, source, t);
            let ky = kernel_row(kernel, width, source, t);
            lemma_nothing_diffused(pixels[t], error, kernel.weight(kx, ky), kernel.divisor);
        }
        assert(spread(pixels, width, kernel, source, error) =~= pixels);
    }
}

/// Dithering an image whose colors are all in the palette gives the image
/// back unchanged.
pub proof fn lemma_palette_image_is_unchanged(
    pixels: Seq<Color>,
    width: int,
    kernel: KernelView,
    palette: Seq<Color>,
)
    requires
        kernel.wf(),
        forall|j: int| 0 <= j < pixels.len() ==> palette.contains(#[trigger] pixels[j]),
    ensures
        dithered(pixels, width, kernel, palette) == pixels,
{
    lemma_scan_fixes_palette_image(pixels, width, kernel, palette, pixels.len());
}

/// Reduces `image` to the colors of `palette`, diffusing each pixel's
/// quantization error to its neighbours with `kernel`.
///
/// Pixels are visited row by row, left to right. Each is replaced by its
/// nearest palette color, and the residual is added, weighted, to the
/// neighbours that the kernel reaches inside the image. The source image is
/// left as it is; the result has its dimensions.
pub fn dither_image(image: &Image, kernel: &DitheringKernel, palette: &[Color]) -> (out: Image)
    requires
        palette@.len() > 0,
    ensures
        out@.width == image@.width,
        out@.height == image@.height,
        out@.pixels == dithered(image@.pixels, image@.width as int, kernel@, palette@),
        kernel@.forward_only() ==> forall|j: int|
            0 <= j < out@.pixels.len() ==> palette@.contains(#[trigger] out@.pixels[j]),
{
    let width = image.width();
    let height = image.height();
    let source = image.pixels();
    let mut working = slice_to_vec(source.as_slice());
    let ghost original = source@;
    proof {
        use_type_invariant(kernel);
    }
    let mut cy: usize = 0;
    while cy < height
        invariant
            width > 0,
            height > 0,
            original.len() == width * height,
            working@.len() == original.len(),
            palette@.len() > 0,
            cy <= height,
            0 <= cy * width <= original.len(),
            working@ == dither_scan(original, width as int, kernel@, palette@, (cy * width) as nat),
        decreases height - cy,
    {
        let mut cx: usize = 0;
        while cx < width
            invariant
                width > 0,
                height > 0,
                original.len() == width * height,
                working@.len() == original.len(),
                palette@.len() > 0,
                cy < height,
                cx <= width,
                0 <= cy * width,
                cy * width + cx <= original.len(),
                working@ == dither_scan(
                    original,
                    width as int,
                    kernel@,
                    palette@,
                    (cy * width + cx) as nat,
                ),
            decreases width - cx,
        {
            let len = working.len();
            assert(cy * width + cx < len && (cy + 1) * width <= len) by (nonlinear_arith)
                requires
                    cx < width,
                    cy < height,
                    len == width * height,
            ;
            let i = cy * width + cx;
            let (chosen, error) = map_to_palette(&working[i], palette);
            working[i] = chosen;
            diffuse_error(&mut working, width, height, cx, cy, &error, kernel);
            cx = cx + 1;
        }
        assert(cy * width + width == (cy + 1) * width) by (nonlinear_arith);
        cy = cy + 1;
    }
    proof {
        assert(cy * width == original.len()) by (nonlinear_arith)
            requires
                cy == height,
                original.len() == width * height,
        ;
        if kernel@.forward_only() {
            lemma_dithered_stays_in_palette(original, width as int, kernel@, palette@);
        }
    }
    Image::assemble(width, height, working)
}

} // verus!
