//! Windowed resampling: which source pixels each destination pixel draws
//! from, in which order they contribute, and the loops that build the
//! resized image from them.
//!
//! The reconstruction filter weighs and sums in floating point, which this
//! library does not hold. It is handed in as a [`Filter`]: a running sum of
//! a type of the caller's choice, a function that adds one source pixel to
//! it, and a function that turns the finished sum into a color. Where the
//! sites lie and which pixels contribute to each is fixed here.

use vstd::prelude::*;
use vstd::arithmetic::div_mod::{lemma_fundamental_div_mod, lemma_fundamental_div_mod_converse};
use crate::color::Color;
use crate::error::PipelineError;
use crate::image_handling::{Image, ImageView};

verus! {

/// Where one destination pixel draws from: the extents of source and
/// destination, the pixel's place in the destination grid, the number of
/// lobes of the window, the source pixel at the floor of its source
/// coordinates, and the window of source columns `[x_begin, x_end)` and rows
/// `[y_begin, y_end)` around that pixel, clipped to the source image.
#[derive(Clone, Copy, Debug, PartialEq, Eq, Structural)]
pub struct SampleSite {
    pub src_width: usize,
    pub src_height: usize,
    pub dst_width: usize,
    pub dst_height: usize,
    pub dst_x: usize,
    pub dst_y: usize,
    pub lobes: usize,
    pub origin_x: usize,
    pub origin_y: usize,
    pub x_begin: usize,
    pub x_end: usize,
    pub y_begin: usize,
    pub y_end: usize,
}

impl SampleSite {
    /// The number of source columns in the window.
    pub open spec fn window_width(self) -> int {
        self.x_end - self.x_begin
    }

    /// The number of source pixels in the window.
    pub open spec fn window_cells(self) -> int {
        (self.x_end - self.x_begin) * (self.y_end - self.y_begin)
    }

    /// The column of the `k`-th source pixel of the window, counting row by
    /// row from 0.
    pub open spec fn cell_x(self, k: int) -> int {
        self.x_begin + k % self.window_width()
    }

    /// The row of the `k`-th source pixel of the window.
    pub open spec fn cell_y(self, k: int) -> int {
        self.y_begin + k / self.window_width()
    }

    /// Whether the window is not empty and lies inside the source image.
    pub open spec fn in_source(self) -> bool {
        &&& self.x_begin < self.x_end <= self.src_width
        &&& self.y_begin < self.y_end <= self.src_height
    }
}

/// The floor of the source coordinate `n * src / dst` of destination
/// coordinate `n`: no half-pixel offset is applied.
pub open spec fn source_origin(n: int, src: int, dst: int) -> int {
    (n * src) / dst
}

/// The first source coordinate of the window of `lobes` lobes around
/// `origin`: `origin - lobes + 1`, clipped at 0.
pub open spec fn window_begin(origin: int, lobes: int) -> int {
    if origin - lobes + 1 > 0 {
        origin - lobes + 1
    } else {
        0
    }
}

/// The end (exclusive) of the window of `lobes` lobes around `origin`:
/// `origin + lobes`, clipped at `limit`.
pub open spec fn window_end(origin: int, lobes: int, limit: int) -> int {
    if origin + lobes < limit {
        origin + lobes
    } else {
        limit
    }
}

/// The site of destination pixel `(x, y)` when a `src_width x src_height`
/// image is resampled to `dst_width x dst_height` with `lobes` lobes.
pub open spec fn sample_site(
    src_width: int,
    src_height: int,
    dst_width: int,
    dst_height: int,
    lobes: int,
    x: int,
    y: int,
) -> SampleSite {
    let origin_x = source_origin(x, src_width, dst_width);
    let origin_y = source_origin(y, src_height, dst_height);
    SampleSite {
        src_width: src_width as usize,
        src_height: src_height as usize,
        dst_width: dst_width as usize,
        dst_height: dst_height as usize,
        dst_x: x as usize,
        dst_y: y as usize,
        lobes: lobes as usize,
        origin_x: origin_x as usize,
        origin_y: origin_y as usize,
        x_begin: window_begin(origin_x, lobes) as usize,
        x_end: window_end(origin_x, lobes, src_width) as usize,
        y_begin: window_begin(origin_y, lobes) as usize,
        y_end: window_end(origin_y, lobes, src_height) as usize,
    }
}

/// A destination coordinate maps into the source: its origin is a source
/// coordinate.
pub proof fn lemma_origin_in_source(n: int, src: int, dst: int)
    requires
        0 <= n < dst,
        0 < src,
    ensures
        0 <= source_origin(n, src, dst) < src,
{
    let p = n * src;
    lemma_fundamental_div_mod(p, dst);
    assert(0 <= p && p < dst * src) by (nonlinear_arith)
        requires
            0 <= n < dst,
            0 < src,
            p == n * src,
    ;
    assert(0 <= p / dst < src) by (nonlinear_arith)
        requires
            0 <= p < dst * src,
            0 < dst,
            p == dst * (p / dst) + p % dst,
            0 <= p % dst < dst,
    ;
}

/// A window of at least one lobe is never empty: it holds its origin.
pub proof fn lemma_window_holds_origin(origin: int, lobes: int, limit: int)
    requires
        0 <= origin < limit,
        lobes >= 1,
    ensures
        0 <= window_begin(origin, lobes) <= origin < window_end(origin, lobes, limit) <= limit,
{
}

/// At equal source and destination extents the mapping is the identity:
/// every destination coordinate has itself as origin, with nothing left
/// over, so the source coordinate falls exactly on a source pixel.
pub proof fn lemma_same_size_origin(n: int, extent: int)
    requires
        0 <= n,
        0 < extent,
    ensures
        source_origin(n, extent, extent) == n,
        (n * extent) % extent == 0,
{
    lemma_fundamental_div_mod_converse(n * extent, extent, n, 0);
}

/// A reconstruction filter.
///
/// `accumulate` takes the running sum, the site, and the column, row and
/// color of one source pixel of the site's window, and returns the sum with
/// that pixel's weighted contribution added. `finish` turns the sum over
/// the whole window into the destination color; it has none to give when
/// the weights sum to zero.
pub struct Filter<A, Acc, Fin> {
    /// The sum to which nothing has contributed yet.
    pub zero: A,
    pub accumulate: Acc,
    pub finish: Fin,
}

/// Whether both functions of `filter` can be called on everything.
pub open spec fn accepts_all<
    A,
    Acc: Fn(A, &SampleSite, usize, usize, Color) -> A,
    Fin: Fn(A) -> Option<Color>,
>(filter: &Filter<A, Acc, Fin>) -> bool {
    &&& forall|sum: A, site: &SampleSite, x: usize, y: usize, color: Color|
        call_requires(filter.accumulate, (sum, site, x, y, color))
    &&& forall|sum: A| call_requires(filter.finish, (sum,))
}

/// Whether `filter` has a color to give for every sum.
pub open spec fn never_fails<
    A,
    Acc: Fn(A, &SampleSite, usize, usize, Color) -> A,
    Fin: Fn(A) -> Option<Color>,
>(filter: &Filter<A, Acc, Fin>) -> bool {
    forall|sum: A| !call_ensures(filter.finish, (sum,), None::<Color>)
}

/// Whether `sums` are the running sums of `site`: the first is `zero`, and
/// each next one is what `accumulate` made of the one before and the next
/// source pixel of the window, row by row, left to right. Every pixel of
/// the window contributes once, and no other pixel does.
pub open spec fn accumulated<A, Acc: Fn(A, &SampleSite, usize, usize, Color) -> A>(
    image: ImageView,
    site: SampleSite,
    zero: A,
    accumulate: &Acc,
    sums: Seq<A>,
) -> bool {
    &&& sums.len() == site.window_cells() + 1
    &&& sums[0] == zero
    &&& forall|k: int|
        0 <= k < site.window_cells() ==> call_ensures(
            *accumulate,
            (
                #[trigger] sums[k],
                &site,
                site.cell_x(k) as usize,
                site.cell_y(k) as usize,
                image.at(site.cell_x(k), site.cell_y(k)),
            ),
            sums[k + 1],
        )
}

/// Whether `color` is what `filter` reconstructs at `site`: what `finish`
/// makes of the last of the site's running sums.
pub open spec fn reconstructed<
    A,
    Acc: Fn(A, &SampleSite, usize, usize, Color) -> A,
    Fin: Fn(A) -> Option<Color>,
>(image: ImageView, site: SampleSite, filter: &Filter<A, Acc, Fin>, color: Option<Color>) -> bool {
    exists|sums: Seq<A>|
        #[trigger] accumulated(image, site, filter.zero, &filter.accumulate, sums) && call_ensures(
            filter.finish,
            (sums.last(),),
            color,
        )
}

/// Whether no image of `width x height` pixels can be resampled with
/// `lobes` lobes: a zero extent, no lobe at all, or more pixels than the
/// machine can address.
pub open spec fn degenerate(width: usize, height: usize, lobes: usize) -> bool {
    width == 0 || height == 0 || lobes == 0 || width * height > usize::MAX
}

/// What `resize_lanczos` returns for `image`, given the filter `filter`.
///
/// On degenerate geometry it fails. Otherwise either every pixel of the
/// result, which has exactly the asked dimensions, is what `filter`
/// reconstructs at that pixel's site; or `filter` has no color for some
/// site, and it fails.
pub open spec fn resampled<
    A,
    Acc: Fn(A, &SampleSite, usize, usize, Color) -> A,
    Fin: Fn(A) -> Option<Color>,
>(
    image: ImageView,
    new_width: usize,
    new_height: usize,
    lobes: usize,
    filter: &Filter<A, Acc, Fin>,
    result: Result<Image, PipelineError>,
) -> bool {
    match result {
        Ok(out) => {
            &&& !degenerate(new_width, new_height, lobes)
            &&& out@.wf()
            &&& out@.width == new_width
            &&& out@.height == new_height
            &&& forall|x: int, y: int|
                0 <= x < new_width && 0 <= y < new_height ==> reconstructed(
                    image,
                    #[trigger] sample_site(
                        image.width as int,
                        image.height as int,
                        new_width as int,
                        new_height as int,
                        lobes as int,
                        x,
                        y,
                    ),
                    filter,
                    Some(out@.at(x, y)),
                )
        },
        Err(e) => {
            &&& e == PipelineError::DegenerateGeometry
            &&& degenerate(new_width, new_height, lobes) || exists|x: int, y: int|
                0 <= x < new_width && 0 <= y < new_height && reconstructed(
                    image,
                    #[trigger] sample_site(
                        image.width as int,
                        image.height as int,
                        new_width as int,
                        new_height as int,
                        lobes as int,
                        x,
                        y,
                    ),
                    filter,
                    None::<Color>,
                )
        },
    }
}

/// Resize exactness: for extents of at least 1 that the machine can
/// address and a window of at least one lobe, a resize whose filter has a
/// color for every site succeeds, and its result has exactly the asked
/// width and height and one pixel for each cell.
pub proof fn lemma_resize_is_exact<
    A,
    Acc: Fn(A, &SampleSite, usize, usize, Color) -> A,
    Fin: Fn(A) -> Option<Color>,
>(
    image: ImageView,
    new_width: usize,
    new_height: usize,
    lobes: usize,
    filter: &Filter<A, Acc, Fin>,
    r: Result<Image, PipelineError>,
)
    requires
        new_width >= 1,
        new_height >= 1,
        lobes >= 1,
        new_width * new_height <= usize::MAX,
        forall|x: int, y: int|
            0 <= x < new_width && 0 <= y < new_height ==> !reconstructed(
                image,
                #[trigger] sample_site(
                    image.width as int,
                    image.height as int,
                    new_width as int,
                    new_height as int,
                    lobes as int,
                    x,
                    y,
                ),
                filter,
                None::<Color>,
            ),
        resampled(image, new_width, new_height, lobes, filter, r),
    ensures
        r is Ok,
        r->Ok_0@.width == new_width,
        r->Ok_0@.height == new_height,
        r->Ok_0@.pixels.len() == new_width * new_height,
{
}

/// Computes the floor of `n * src / dst`.
fn origin_of(n: usize, src: usize, dst: usize) -> (origin: usize)
    requires
        n < dst,
        0 < src,
    ensures
        origin == source_origin(n as int, src as int, dst as int),
        origin < src,
{
    proof {
        lemma_origin_in_source(n as int, src as int, dst as int);
        assert(0 <= n * src <= 0xffff_ffff_ffff_ffff * 0xffff_ffff_ffff_ffff) by (nonlinear_arith)
            requires
                0 <= n <= 0xffff_ffff_ffff_ffff,
                0 <= src <= 0xffff_ffff_ffff_ffff,
        ;
    }
    let product: u128 = n as u128 * src as u128;
    (product / dst as u128) as usize
}

/// Computes the clipped window of `lobes` lobes around `origin`.
fn window_of(origin: usize, lobes: usize, limit: usize) -> (window: (usize, usize))
    requires
        origin < limit,
    ensures
        window.0 == window_begin(origin as int, lobes as int),
        window.1 == window_end(origin as int, lobes as int, limit as int),
{
    let begin = if origin + 1 > lobes {
        origin + 1 - lobes
    } else {
        0
    };
    let end = if lobes < limit - origin {
        origin + lobes
    } else {
        limit
    };
    (begin, end)
}

/// Computes the site of destination pixel `(x, y)`.
pub fn site_of(
    src_width: usize,
    src_height: usize,
    dst_width: usize,
    dst_height: usize,
    lobes: usize,
    x: usize,
    y: usize,
) -> (site: SampleSite)
    requires
        src_width > 0,
        src_height > 0,
        x < dst_width,
        y < dst_height,
    ensures
        site == sample_site(
            src_width as int,
            src_height as int,
            dst_width as int,
            dst_height as int,
            lobes as int,
            x as int,
            y as int,
        ),
        lobes > 0 ==> site.in_source(),
{
    let origin_x = origin_of(x, src_width, dst_width);
    let origin_y = origin_of(y, src_height, dst_height);
    let (x_begin, x_end) = window_of(origin_x, lobes, src_width);
    let (y_begin, y_end) = window_of(origin_y, lobes, src_height);
    SampleSite {
        src_width,
        src_height,
        dst_width,
        dst_height,
        dst_x: x,
        dst_y: y,
        lobes,
        origin_x,
        origin_y,
        x_begin,
        x_end,
        y_begin,
        y_end,
    }
}

/// Reconstructs the destination pixel at `site`: runs the sum through every
/// source pixel of the window, row by row, and finishes it.
fn reconstruct<
    A: Copy,
    Acc: Fn(A, &SampleSite, usize, usize, Color) -> A,
    Fin: Fn(A) -> Option<Color>,
>(image: &Image, site: &SampleSite, filter: &Filter<A, Acc, Fin>) -> (color: Option<Color>)
    requires
        accepts_all(filter),
        site.in_source(),
        site.src_width == image@.width,
        site.src_height == image@.height,
    ensures
        reconstructed(image@, *site, filter, color),
{
    let pixels = image.pixels();
    let width = image.width();
    let ghost columns = site.window_width();
    let mut sum = filter.zero;
    let ghost mut sums: Seq<A> = seq![filter.zero];
    let mut iy: usize = site.y_begin;
    assert((iy - site.y_begin) * columns == 0) by (nonlinear_arith)
        requires
            iy == site.y_begin,
    ;
    while iy < site.y_end
        invariant
            accepts_all(filter),
            site.in_source(),
            site.src_width == image@.width,
            site.src_height == image@.height,
            image@.wf(),
            pixels@ == image@.pixels,
            width == image@.width,
            columns == site.window_width(),
            site.y_begin <= iy <= site.y_end,
            sums.len() == (iy - site.y_begin) * columns + 1,
            sums[0] == filter.zero,
            sum == sums.last(),
            forall|k: int|
                0 <= k < (iy - site.y_begin) * columns ==> call_ensures(
                    filter.accumulate,
                    (
                        #[trigger] sums[k],
                        site,
                        site.cell_x(k) as usize,
                        site.cell_y(k) as usize,
                        image@.at(site.cell_x(k), site.cell_y(k)),
                    ),
                    sums[k + 1],
                ),
        decreases site.y_end - iy,
    {
        let ghost row_start = (iy - site.y_begin) * columns;
        let mut ix: usize = site.x_begin;
        while ix < site.x_end
            invariant
                accepts_all(filter),
                site.in_source(),
                site.src_width == image@.width,
                site.src_height == image@.height,
                image@.wf(),
                pixels@ == image@.pixels,
                width == image@.width,
                columns == site.window_width(),
                site.y_begin <= iy < site.y_end,
                site.x_begin <= ix <= site.x_end,
                row_start == (iy - site.y_begin) * columns,
                sums.len() == row_start + (ix - site.x_begin) + 1,
                sums[0] == filter.zero,
                sum == sums.last(),
                forall|k: int|
                    0 <= k < row_start + (ix - site.x_begin) ==> call_ensures(
                        filter.accumulate,
                        (
                            #[trigger] sums[k],
                            site,
                            site.cell_x(k) as usize,
                            site.cell_y(k) as usize,
                            image@.at(site.cell_x(k), site.cell_y(k)),
                        ),
                        sums[k + 1],
                    ),
            decreases site.x_end - ix,
        {
            let len = pixels.len();
            assert(0 <= iy * width && iy * width + ix < len) by (nonlinear_arith)
                requires
                    ix < width,
                    iy < image@.height,
                    len == width * image@.height,
            ;
            let color = pixels[iy * width + ix];
            let next = (filter.accumulate)(sum, site, ix, iy, color);
            proof {
                let k = row_start + (ix - site.x_begin);
                let before = sums;
                sums = sums.push(next);
                assert(row_start >= 0) by (nonlinear_arith)
                    requires
                        row_start == (iy - site.y_begin) * columns,
                        iy >= site.y_begin,
                        columns > 0,
                ;
                lemma_fundamental_div_mod_converse(
                    k,
                    columns,
                    iy - site.y_begin,
                    ix - site.x_begin,
                );
                assert(site.cell_x(k) == ix);
                assert(site.cell_y(k) == iy);
                assert forall|j: int| 0 <= j < k + 1 implies call_ensures(
                    filter.accumulate,
                    (
                        #[trigger] sums[j],
                        site,
                        site.cell_x(j) as usize,
                        site.cell_y(j) as usize,
                        image@.at(site.cell_x(j), site.cell_y(j)),
                    ),
                    sums[j + 1],
                ) by {
                    if j < k {
                        assert(sums[j] == before[j]);
                        assert(sums[j + 1] == before[j + 1]);
                    }
                }
            }
            sum = next;
            ix = ix + 1;
        }
        assert((iy - site.y_begin) * columns + columns == (iy + 1 - site.y_begin) * columns)
            by (nonlinear_arith);
        iy = iy + 1;
    }
    let color = (filter.finish)(sum);
    proof {
        assert(accumulated(image@, *site, filter.zero, &filter.accumulate, sums)) by {
            assert((site.y_end - site.y_begin) * columns == site.window_cells()) by (nonlinear_arith)
                requires
                    columns == site.x_end - site.x_begin,
                    site.window_cells() == (site.x_end - site.x_begin) * (site.y_end
                        - site.y_begin),
            ;
        }
    }
    color
}

/// Resizes `image` to `new_width x new_height` with a window of `lobes`
/// lobes, reconstructing every destination pixel with `filter`.
///
/// Destination pixels are visited row by row. Each one's source coordinates
/// are `x * width / new_width` and `y * height / new_height`; around their
/// floor lies the window of `2 * lobes - 1` columns and rows, clipped to the
/// image. The window's pixels go through the filter's sum, row by row, and
/// the finished sum gives the color. The first site for which the filter has
/// no color ends the resize with `DegenerateGeometry`, as does a zero
/// extent, a window of no lobes, or a size beyond the address space.
pub fn resize_lanczos<
    A: Copy,
    Acc: Fn(A, &SampleSite, usize, usize, Color) -> A,
    Fin: Fn(A) -> Option<Color>,
>(
    image: &Image,
    new_width: usize,
    new_height: usize,
    lobes: usize,
    filter: &Filter<A, Acc, Fin>,
) -> (r: Result<Image, PipelineError>)
    requires
        accepts_all(filter),
    ensures
        resampled(image@, new_width, new_height, lobes, filter, r),
        r matches Ok(out) ==> out@.width == new_width && out@.height == new_height,
        !degenerate(new_width, new_height, lobes) && never_fails(filter) ==> r is Ok,
{
    if new_width == 0 || new_height == 0 || lobes == 0 {
        return Err(PipelineError::DegenerateGeometry);
    }
    if new_width.checked_mul(new_height).is_none() {
        return Err(PipelineError::DegenerateGeometry);
    }
    let src_width = image.width();
    let src_height = image.height();
    proof {
        use_type_invariant(image);
    }
    let mut data: Vec<Color> = Vec::new();
    let mut ny: usize = 0;
    while ny < new_height
        invariant
            accepts_all(filter),
            src_width == image@.width,
            src_height == image@.height,
            src_width > 0,
            src_height > 0,
            new_width > 0,
            lobes > 0,
            ny <= new_height,
            data@.len() == ny * new_width,
            new_width * new_height <= usize::MAX,
            forall|x: int, y: int|
                0 <= x < new_width && 0 <= y < ny ==> reconstructed(
                    image@,
                    #[trigger] sample_site(
                        src_width as int,
                        src_height as int,
                        new_width as int,
                        new_height as int,
                        lobes as int,
                        x,
                        y,
                    ),
                    filter,
                    Some(data@[y * new_width + x]),
                ),
        decreases new_height - ny,
    {
        let mut nx: usize = 0;
        while nx < new_width
            invariant
                accepts_all(filter),
                src_width == image@.width,
                src_height == image@.height,
                src_width > 0,
                src_height > 0,
                new_width > 0,
                lobes > 0,
                ny < new_height,
                nx <= new_width,
                data@.len() == ny * new_width + nx,
                new_width * new_height <= usize::MAX,
                forall|x: int, y: int|
                    (0 <= x < new_width && 0 <= y < ny) || (0 <= x < nx && y == ny)
                        ==> reconstructed(
                        image@,
                        #[trigger] sample_site(
                            src_width as int,
                            src_height as int,
                            new_width as int,
                            new_height as int,
                            lobes as int,
                            x,
                            y,
                        ),
                        filter,
                        Some(data@[y * new_width + x]),
                    ),
            decreases new_width - nx,
        {
            let site = site_of(src_width, src_height, new_width, new_height, lobes, nx, ny);
            let ghost before = data@;
            match reconstruct(image, &site, filter) {
                Some(color) => {
                    data.push(color);
                },
                None => {
                    return Err(PipelineError::DegenerateGeometry);
                },
            }
            proof {
                assert forall|x: int, y: int|
                    (0 <= x < new_width && 0 <= y < ny) || (0 <= x < nx + 1 && y == ny)
                        implies reconstructed(
                    image@,
                    #[trigger] sample_site(
                        src_width as int,
                        src_height as int,
                        new_width as int,
                        new_height as int,
                        lobes as int,
                        x,
                        y,
                    ),
                    filter,
                    Some(data@[y * new_width + x]),
                ) by {
                    if y == ny && x == nx {
                        assert(data@[y * new_width + x] == data@[before.len() as int]);
                    } else {
                        assert(0 <= y * new_width + x < before.len()) by (nonlinear_arith)
                            requires
                                (0 <= x < new_width && 0 <= y < ny) || (0 <= x < nx && y == ny),
                                before.len() == ny * new_width + nx,
                        ;
                        assert(data@[y * new_width + x] == before[y * new_width + x]);
                    }
                }
            }
            nx = nx + 1;
        }
        assert(ny * new_width + new_width == (ny + 1) * new_width) by (nonlinear_arith);
        ny = ny + 1;
    }
    assert(ny * new_width == new_width * new_height) by (nonlinear_arith)
        requires
            ny == new_height,
    ;
    let out = Image::assemble(new_width, new_height, data);
    Ok(out)
}

} // verus!
