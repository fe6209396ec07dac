//! The image container, a `width x height` grid of colors in row-major
//! order, and its way in and out: from what the decoder hands back, and to
//! what the encoder takes.

use vstd::prelude::*;
use vstd::string::*;
use crate::color::Color;
use crate::error::{DecodeFailure, DecodeFailureView, ErrorView, PipelineError};

verus! {

/// A raster image. It always holds `width * height` pixels and neither
/// dimension is zero: a zero-area image cannot be built.
#[derive(Debug)]
pub struct Image {
    data: Vec<Color>,
    width: usize,
    height: usize,
}

/// The mathematical content of an [`Image`]: its dimensions and its pixels,
/// row by row.
pub struct ImageView {
    pub width: nat,
    pub height: nat,
    pub pixels: Seq<Color>,
}

impl ImageView {
    /// Both dimensions are positive and there is one pixel per cell.
    pub open spec fn wf(self) -> bool {
        &&& self.width > 0
        &&& self.height > 0
        &&& self.pixels.len() == self.width * self.height
    }

    /// The pixel at column `x` of row `y`.
    pub open spec fn at(self, x: int, y: int) -> Color
        recommends
            0 <= x < self.width,
            0 <= y < self.height,
    {
        self.pixels[y * self.width + x]
    }
}

impl View for Image {
    type V = ImageView;

    closed spec fn view(&self) -> ImageView {
        ImageView { width: self.width as nat, height: self.height as nat, pixels: self.data@ }
    }
}

impl Image {
    /// What holds of every image.
    #[verifier::type_invariant]
    pub open spec fn inv(&self) -> bool {
        self@.wf()
    }

    /// Builds an image from its pixels in row-major order. Fails with
    /// `DegenerateGeometry` when a dimension is zero or `data` does not hold
    /// exactly `width * height` pixels.
    pub fn from_pixels(width: usize, height: usize, data: Vec<Color>) -> (r: Result<Image, PipelineError>)
        ensures
            r is Ok <==> width > 0 && height > 0 && data@.len() == width * height,
            r matches Ok(image) ==> image@ == (ImageView { width: width as nat, height: height as nat, pixels: data@ }),
            r matches Err(e) ==> e == PipelineError::DegenerateGeometry,
    {
        if width == 0 || height == 0 {
            return Err(PipelineError::DegenerateGeometry);
        }
        let len = data.len();
        match width.checked_mul(height) {
            Some(area) => {
                if len == area {
                    Ok(Image { data, width, height })
                } else {
                    Err(PipelineError::DegenerateGeometry)
                }
            },
            None => Err(PipelineError::DegenerateGeometry),
        }
    }

    /// Builds an image from dimensions and pixels that are known to fit.
    pub(crate) fn assemble(width: usize, height: usize, data: Vec<Color>) -> (image: Image)
        requires
            width > 0,
            height > 0,
            data@.len() == width * height,
        ensures
            image@ == (ImageView { width: width as nat, height: height as nat, pixels: data@ }),
    {
        Image { data, width, height }
    }

    /// The pixels, row by row.
    pub fn pixels(&self) -> (data: &Vec<Color>)
        ensures
            data@ == self@.pixels,
            self@.wf(),
    {
        proof {
            use_type_invariant(self);
        }
        &self.data
    }

    /// The number of columns.
    pub fn width(&self) -> (w: usize)
        ensures
            w == self@.width,
    {
        self.width
    }

    /// The number of rows.
    pub fn height(&self) -> (h: usize)
        ensures
            h == self@.height,
    {
        self.height
    }

    /// Builds an image of one color. Fails with `DegenerateGeometry` when a
    /// dimension is zero or the image would hold more pixels than the
    /// machine can address.
    pub fn new(width: usize, height: usize, fill: Color) -> (r: Result<Image, PipelineError>)
        ensures
            r is Ok <==> width > 0 && height > 0 && width * height <= usize::MAX,
            r matches Ok(image) ==> image@ == (ImageView {
                width: width as nat,
                height: height as nat,
                pixels: Seq::new((width * height) as nat, |i: int| fill),
            }),
            r matches Err(e) ==> e == PipelineError::DegenerateGeometry,
    {
        if width == 0 || height == 0 {
            return Err(PipelineError::DegenerateGeometry);
        }
        let area = match width.checked_mul(height) {
            Some(area) => area,
            None => {
                return Err(PipelineError::DegenerateGeometry);
            },
        };
        let mut data: Vec<Color> = Vec::new();
        let mut i: usize = 0;
        while i < area
            invariant
                i <= area,
                data@.len() == i,
                forall|j: int| 0 <= j < i ==> data@[j] == fill,
            decreases area - i,
        {
            data.push(fill);
            i = i + 1;
        }
        assert(data@ =~= Seq::new((width * height) as nat, |i: int| fill));
        Ok(Image { data, width, height })
    }

    /// Reads the pixel at column `x` of row `y`. Fails with `OutOfRange`
    /// when the coordinate lies outside the image.
    pub fn get(&self, x: usize, y: usize) -> (r: Result<Color, PipelineError>)
        ensures
            r is Ok <==> x < self@.width && y < self@.height,
            r matches Ok(color) ==> color == self@.at(x as int, y as int),
            r matches Err(e) ==> e == PipelineError::OutOfRange,
    {
        proof {
            use_type_invariant(self);
        }
        if x >= self.width || y >= self.height {
            return Err(PipelineError::OutOfRange);
        }
        let len = self.data.len();
        assert(0 <= y * self.width && y * self.width + x < len) by (nonlinear_arith)
            requires
                x < self.width,
                y < self.height,
                len == self.width * self.height,
        ;
        Ok(self.data[y * self.width + x])
    }

    /// Writes the pixel at column `x` of row `y`, leaving every other pixel
    /// as it is. Fails with `OutOfRange`, changing nothing, when the
    /// coordinate lies outside the image.
    pub fn set(&mut self, x: usize, y: usize, color: Color) -> (r: Result<(), PipelineError>)
        ensures
            r is Ok <==> x < old(self)@.width && y < old(self)@.height,
            r is Ok ==> final(self)@ == (ImageView {
                pixels: old(self)@.pixels.update(y * old(self)@.width + x, color),
                ..old(self)@
            }),
            r matches Err(e) ==> e == PipelineError::OutOfRange && final(self)@ == old(self)@,
    {
        proof {
            use_type_invariant(&*self);
        }
        if x >= self.width || y >= self.height {
            return Err(PipelineError::OutOfRange);
        }
        let len = self.data.len();
        assert(0 <= y * self.width && y * self.width + x < len) by (nonlinear_arith)
            requires
                x < self.width,
                y < self.height,
                len == self.width * self.height,
        ;
        let index = y * self.width + x;
        self.data[index] = color;
        Ok(())
    }
}

/// What the decoder hands back for an 8-bit image: its dimensions, its
/// number of channels per pixel, and its samples, pixel by pixel.
#[derive(Debug)]
pub struct RawImage {
    pub width: usize,
    pub height: usize,
    pub depth: usize,
    pub data: Vec<u8>,
}

/// What the decoder made of a byte string.
#[derive(Debug)]
pub enum Decoded {
    /// The bytes are no image that the decoder can read; this is what the
    /// decoder says of them.
    Failed(String),
    /// The bytes hold a floating-point image.
    Floats,
    /// The bytes hold an 8-bit image.
    Bytes(RawImage),
}

/// The mathematical content of a [`Decoded`].
pub enum DecodedView {
    Failed { message: Seq<char> },
    Floats,
    Bytes { width: usize, height: usize, depth: usize, data: Seq<u8> },
}

impl View for Decoded {
    type V = DecodedView;

    open spec fn view(&self) -> DecodedView {
        match self {
            Decoded::Failed(message) => DecodedView::Failed { message: message@ },
            Decoded::Floats => DecodedView::Floats,
            Decoded::Bytes(raw) => DecodedView::Bytes {
                width: raw.width,
                height: raw.height,
                depth: raw.depth,
                data: raw.data@,
            },
        }
    }
}

/// Decodes an image file held in memory.
///
/// This calls `stb_image::image::load_from_memory` and is not verified.
/// Nothing is claimed of what it returns: on some inputs the decoder hands
/// back samples that it never wrote, and its process-wide settings change
/// what it makes of the same bytes. Of a floating-point image the samples
/// are dropped.
#[verifier::external_body]
fn decode(bytes: &[u8]) -> (decoded: Decoded) {
    match stb_image::image::load_from_memory(bytes) {
        stb_image::image::LoadResult::Error(message) => Decoded::Failed(message),
        stb_image::image::LoadResult::ImageF32(_) => Decoded::Floats,
        stb_image::image::LoadResult::ImageU8(image) => Decoded::Bytes(
            RawImage {
                width: image.width,
                height: image.height,
                depth: image.depth,
                data: image.data,
            },
        ),
    }
}

/// The pixels that interleaved RGB samples spell out.
pub open spec fn pixels_of_rgb(data: Seq<u8>) -> Seq<Color> {
    Seq::new(
        data.len() / 3,
        |i: int| Color { r: data[3 * i], g: data[3 * i + 1], b: data[3 * i + 2] },
    )
}

/// The image that a decoding stands for, or why it stands for none.
///
/// The decoder's failure is handed on with its message. Only 8-bit images
/// of exactly three channels are taken. An image without area is
/// degenerate, and a buffer that does not hold three samples for each pixel
/// is truncated.
pub open spec fn decoded_image(decoded: DecodedView) -> Result<ImageView, ErrorView> {
    match decoded {
        DecodedView::Failed { message } => Err(
            ErrorView::Decode(DecodeFailureView::Malformed(message)),
        ),
        DecodedView::Floats => Err(ErrorView::Decode(DecodeFailureView::HighDynamicRange)),
        DecodedView::Bytes { width, height, depth, data } => if depth != 3 {
            Err(ErrorView::Decode(DecodeFailureView::Depth(depth)))
        } else if width == 0 || height == 0 {
            Err(ErrorView::DegenerateGeometry)
        } else if data.len() != width * height * 3 {
            Err(ErrorView::Decode(DecodeFailureView::Truncated))
        } else {
            Ok(
                ImageView {
                    width: width as nat,
                    height: height as nat,
                    pixels: pixels_of_rgb(data),
                },
            )
        },
    }
}

/// Turns what the decoder handed back into an image.
pub fn image_from_decoded(decoded: Decoded) -> (r: Result<Image, PipelineError>)
    ensures
        r matches Ok(image) ==> decoded_image(decoded@) == Ok::<ImageView, ErrorView>(image@),
        r matches Err(e) ==> decoded_image(decoded@) == Err::<ImageView, ErrorView>(e@),
{
    let raw = match decoded {
        Decoded::Failed(message) => {
            return Err(PipelineError::Decode(DecodeFailure::Malformed(message)));
        },
        Decoded::Floats => {
            return Err(PipelineError::Decode(DecodeFailure::HighDynamicRange));
        },
        Decoded::Bytes(raw) => raw,
    };
    if raw.depth != 3 {
        return Err(PipelineError::Decode(DecodeFailure::Depth(raw.depth)));
    }
    if raw.width == 0 || raw.height == 0 {
        return Err(PipelineError::DegenerateGeometry);
    }
    let samples = raw.data.len();
    let area = match raw.width.checked_mul(raw.height) {
        Some(area) => area,
        None => {
            assert(raw.width * raw.height * 3 > samples) by (nonlinear_arith)
                requires
                    raw.width * raw.height > usize::MAX,
                    samples <= usize::MAX,
            ;
            return Err(PipelineError::Decode(DecodeFailure::Truncated));
        },
    };
    if samples / 3 != area || samples % 3 != 0 {
        return Err(PipelineError::Decode(DecodeFailure::Truncated));
    }
    let mut data: Vec<Color> = Vec::with_capacity(area);
    let mut i: usize = 0;
    while i < area
        invariant
            i <= area,
            samples == raw.data@.len(),
            samples == area * 3,
            data@.len() == i,
            forall|j: int| 0 <= j < i ==> data@[j] == pixels_of_rgb(raw.data@)[j],
        decreases area - i,
    {
        let color = Color::from_rgb(raw.data[3 * i], raw.data[3 * i + 1], raw.data[3 * i + 2]);
        data.push(color);
        i = i + 1;
    }
    assert(data@ =~= pixels_of_rgb(raw.data@));
    Ok(Image { data, width: raw.width, height: raw.height })
}

/// What `load_image_from_memory` returns: the image that some decoding
/// stands for, or the reason why that decoding stands for none.
pub open spec fn loaded(r: Result<Image, PipelineError>) -> bool {
    exists|decoded: DecodedView|
        match r {
            Ok(image) => #[trigger] decoded_image(decoded) == Ok::<ImageView, ErrorView>(image@),
            Err(e) => decoded_image(decoded) == Err::<ImageView, ErrorView>(e@),
        }
}

/// Decodes an image file held in memory.
///
/// The file must hold an 8-bit image of three channels, of any format that
/// `stb_image` reads. What the decoder makes of the bytes is its own
/// matter; the result is what `image_from_decoded` makes of that.
pub fn load_image_from_memory(bytes: &[u8]) -> (r: Result<Image, PipelineError>)
    ensures
        loaded(r),
{
    let decoded = decode(bytes);
    let ghost view = decoded@;
    let r = image_from_decoded(decoded);
    proof {
        if r is Ok {
            assert(decoded_image(view) == Ok::<ImageView, ErrorView>(r->Ok_0@));
        } else {
            assert(decoded_image(view) == Err::<ImageView, ErrorView>(r->Err_0@));
        }
    }
    r
}

/// What has to be written to save an image: the file's path, the image's
/// dimensions, and its samples as interleaved 8-bit RGB, row by row.
#[derive(Debug)]
pub struct PngJob {
    pub path: String,
    pub width: usize,
    pub height: usize,
    pub rgb: Vec<u8>,
}

/// The interleaved RGB samples of a row of pixels.
pub open spec fn rgb_of_pixels(pixels: Seq<Color>) -> Seq<u8> {
    Seq::new(
        3 * pixels.len(),
        |k: int|
            if k % 3 == 0 {
                pixels[k / 3].r
            } else if k % 3 == 1 {
                pixels[k / 3].g
            } else {
                pixels[k / 3].b
            },
    )
}

/// Prepares saving `image` as a PNG file at `output`: lays its pixels out as
/// the encoder takes them. The write itself is the caller's.
///
/// Fails with `Encode` only when the samples would not fit the address
/// space.
pub fn save_image_to_file(image: &Image, output: &str) -> (r: Result<PngJob, PipelineError>)
    ensures
        r is Ok <==> 3 * image@.pixels.len() <= usize::MAX,
        r matches Ok(job) ==> {
            &&& job.path@ == output@
            &&& job.width == image@.width
            &&& job.height == image@.height
            &&& job.rgb@ == rgb_of_pixels(image@.pixels)
        },
        r matches Err(e) ==> e@ == ErrorView::Encode(output@),
{
    let pixels = image.pixels();
    let count = pixels.len();
    let samples = match count.checked_mul(3) {
        Some(samples) => samples,
        None => {
            return Err(PipelineError::Encode(String::from_str(output)));
        },
    };
    let mut rgb: Vec<u8> = Vec::with_capacity(samples);
    let mut i: usize = 0;
    while i < count
        invariant
            i <= count,
            count == pixels@.len(),
            count * 3 <= usize::MAX,
            rgb@.len() == 3 * i,
            forall|k: int| 0 <= k < 3 * i ==> rgb@[k] == rgb_of_pixels(pixels@)[k],
        decreases count - i,
    {
        let color = pixels[i];
        rgb.push(color.r);
        rgb.push(color.g);
        rgb.push(color.b);
        i = i + 1;
    }
    assert(rgb@ =~= rgb_of_pixels(pixels@));
    Ok(PngJob { path: String::from_str(output), width: image.width(), height: image.height(), rgb })
}

} // verus!
