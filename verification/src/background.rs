//! Still pictures as backgrounds.

use vstd::prelude::*;

use crate::color::{ColorMatrix, Rgb, Yuv};
use crate::error::CoreError;
use crate::frame::{Dims, FrameSize, Nv12, Nv12Frame};
use crate::scale::{PlaneScaler, ScaleMode};

verus! {

/// What the picture in a file decodes to: its width, its height and three bytes
/// for each pixel, or the reason why it does not decode.
pub uninterp spec fn decoded_picture(bytes: Seq<u8>) -> Result<(u32, u32, Seq<u8>), Seq<char>>;

/// Decodes the bytes of a picture with `image::load_from_memory` and turns it
/// into 8-bit RGB with `DynamicImage::into_rgb8`. What comes out depends on the
/// bytes alone and has three bytes for each pixel.
#[verifier::external_body]
fn load_rgb8(bytes: &[u8]) -> (decoded: Result<(u32, u32, Vec<u8>), String>)
    ensures
        match decoded {
            Ok(picture) => decoded_picture(bytes@) == Ok::<(u32, u32, Seq<u8>), Seq<char>>(
                (picture.0, picture.1, picture.2@),
            ),
            Err(reason) => decoded_picture(bytes@) == Err::<(u32, u32, Seq<u8>), Seq<char>>(
                reason@,
            ),
        },
        decoded matches Ok(picture) ==> picture.2@.len() == picture.0 * picture.1 * 3,
{
    match image::load_from_memory(bytes) {
        Ok(decoded) => {
            let rgb = decoded.into_rgb8();
            let (width, height) = rgb.dimensions();
            Ok((width, height, rgb.into_raw()))
        },
        Err(error) => Err(error.to_string()),
    }
}

/// A picture of three bytes for each pixel.
#[verifier::ext_equal]
pub struct Picture {
    pub width: int,
    pub height: int,
    pub pixels: Seq<u8>,
}

impl Picture {
    pub open spec fn valid(self) -> bool {
        &&& 0 < self.width <= u32::MAX
        &&& 0 < self.height <= u32::MAX
        &&& self.pixels.len() == self.width * self.height * 3
        &&& self.pixels.len() <= usize::MAX
    }

    /// The picture of one colour.
    pub open spec fn solid(width: int, height: int, color: Rgb) -> Picture {
        Picture {
            width,
            height,
            pixels: Seq::new(
                (width * height * 3) as nat,
                |i: int| seq![color.r, color.g, color.b][i % 3],
            ),
        }
    }
}

/// A pixel of a plane of three bytes for each.
pub open spec fn rgb_at(plane: Seq<u8>, pixel: int) -> Rgb {
    Rgb { r: plane[pixel * 3], g: plane[pixel * 3 + 1], b: plane[pixel * 3 + 2] }
}

/// The rounded mean of four bytes.
pub open spec fn mean4(a: u8, b: u8, c: u8, d: u8) -> u8 {
    ((a + b + c + d + 2) / 4) as u8
}

/// The chroma sample of a square of four pixels: the mean of their chroma.
#[verifier::opaque]
pub open spec fn square_chroma(
    plane: Seq<u8>,
    width: int,
    matrix: ColorMatrix,
    column: int,
    row: int,
    second: bool,
) -> u8 {
    let at = |dx: int, dy: int|
        {
            let yuv = matrix.yuv_of(rgb_at(plane, (row * 2 + dy) * width + (column * 2 + dx)));
            if second {
                yuv.v
            } else {
                yuv.u
            }
        };
    mean4(at(0, 0), at(1, 0), at(0, 1), at(1, 1))
}

/// A plane of RGB pixels as a frame.
pub open spec fn frame_of_rgb(plane: Seq<u8>, size: Dims, matrix: ColorMatrix) -> Nv12 {
    Nv12 {
        size,
        luma: Seq::new(size.area() as nat, |i: int| matrix.yuv_of(rgb_at(plane, i)).y),
        chroma: Seq::new(
            (size.chroma_area() * 2) as nat,
            |i: int|
                square_chroma(
                    plane,
                    size.width,
                    matrix,
                    (i / 2) % size.chroma_width(),
                    (i / 2) / size.chroma_width(),
                    i % 2 == 1,
                ),
        ),
    }
}

/// A picture scaled to fill a frame.
pub open spec fn frame_of_picture(picture: Picture, size: Dims, matrix: ColorMatrix) -> Nv12 {
    frame_of_rgb(
        crate::scale::sampling(
            picture.width,
            picture.height,
            size.width,
            size.height,
            3,
            ScaleMode::Fill,
        ).scaled(picture.pixels),
        size,
        matrix,
    )
}

#[derive(Debug, PartialEq, Eq)]
pub struct RgbImage {
    width: u32,
    height: u32,
    pixels: Vec<u8>,
}

impl View for RgbImage {
    type V = Picture;

    closed spec fn view(&self) -> Picture {
        Picture { width: self.width as int, height: self.height as int, pixels: self.pixels@ }
    }
}

impl Clone for RgbImage {
    fn clone(&self) -> (image: Self)
        ensures
            image@ == self@,
    {
        RgbImage {
            width: self.width,
            height: self.height,
            pixels: crate::frame::copied(self.pixels.as_slice()),
        }
    }
}

/// What making a picture out of its pixels gives: the picture where the pixels
/// have the right number of bytes and there is at least one.
pub open spec fn picture_of(
    width: u32,
    height: u32,
    pixels: Seq<u8>,
    result: Result<RgbImage, CoreError>,
) -> bool {
    if width == 0 || height == 0 || pixels.len() != width * height * 3 {
        result == Err::<RgbImage, CoreError>(
            CoreError::PlaneSizeMismatch {
                expected: (width * height * 3) as usize,
                actual: pixels.len() as usize,
            },
        )
    } else {
        result matches Ok(image) && image.wf() && image@ == (Picture {
            width: width as int,
            height: height as int,
            pixels,
        })
    }
}

impl RgbImage {
    pub open spec fn wf(&self) -> bool {
        self@.valid()
    }

    pub fn from_pixels(width: u32, height: u32, pixels: Vec<u8>) -> (result: Result<
        Self,
        CoreError,
    >)
        requires
            width * height * 3 <= usize::MAX,
        ensures
            picture_of(width, height, pixels@, result),
    {
        proof {
            crate::scale::lemma_bytes_fit(width as int, height as int, 3);
        }
        let expected: usize = width as usize * height as usize * 3;
        if width == 0 || height == 0 || pixels.len() != expected {
            return Err(CoreError::PlaneSizeMismatch { expected, actual: pixels.len() });
        }
        Ok(RgbImage { width, height, pixels })
    }

    /// Decodes the bytes of a picture file.
    pub fn decode(bytes: &[u8]) -> (result: Result<Self, CoreError>)
        ensures
            match decoded_picture(bytes@) {
                Ok(picture) => picture_of(picture.0, picture.1, picture.2, result),
                Err(reason) => result matches Err(CoreError::Image(text)) && text@ == reason,
            },
    {
        let decoded = load_rgb8(bytes);
        proof {
            assert(decoded matches Ok(picture) ==> picture.2.len() == picture.2@.len());
        }
        Self::from_decoded(decoded)
    }

    /// Takes over what a decoder made of a picture file.
    pub fn from_decoded(decoded: Result<(u32, u32, Vec<u8>), String>) -> (result: Result<
        Self,
        CoreError,
    >)
        requires
            decoded matches Ok(picture) ==> picture.0 * picture.1 * 3 <= usize::MAX,
        ensures
            match decoded {
                Ok(picture) => picture_of(picture.0, picture.1, picture.2@, result),
                Err(reason) => result == Err::<RgbImage, CoreError>(CoreError::Image(reason)),
            },
    {
        match decoded {
            Ok((width, height, pixels)) => Self::from_pixels(width, height, pixels),
            Err(reason) => Err(CoreError::Image(reason)),
        }
    }

    pub fn width(&self) -> (width: u32)
        ensures
            width == self@.width,
    {
        self.width
    }

    pub fn height(&self) -> (height: u32)
        ensures
            height == self@.height,
    {
        self.height
    }

    pub fn pixels(&self) -> (pixels: &[u8])
        ensures
            pixels@ == self@.pixels,
    {
        self.pixels.as_slice()
    }

    /// The picture, scaled to fill a frame. It always fits.
    pub fn to_nv12(&self, target: FrameSize, matrix: ColorMatrix) -> (result: Result<
        Nv12Frame,
        CoreError,
    >)
        requires
            self.wf(),
            target@.addressable(3),
        ensures
            result matches Ok(frame) && frame.wf() && frame@ == frame_of_picture(
                self@,
                target@,
                matrix,
            ),
    {
        let scaler = PlaneScaler::new(
            self.width,
            self.height,
            target.width(),
            target.height(),
            3,
            ScaleMode::Fill,
        );
        proof {
            crate::frame::lemma_chroma_is_half(target@);
            crate::scale::lemma_bytes_fit(target@.width, target@.height, 3);
        }
        let mut scaled: Vec<u8> = vec![0; scaler.target_len()];
        match scaler.scale(self.pixels.as_slice(), scaled.as_mut_slice()) {
            Ok(()) => {},
            Err(error) => return Err(error),
        }
        let mut frame = Nv12Frame::new(target);
        let (luma, chroma) = frame.planes_mut();
        write_luma(scaled.as_slice(), matrix, luma);
        write_chroma(scaled.as_slice(), target, matrix, chroma);
        proof {
            assert(luma@ =~= frame_of_picture(self@, target@, matrix).luma);
            assert(chroma@ =~= frame_of_picture(self@, target@, matrix).chroma);
        }
        Ok(frame)
    }
}

fn read_rgb(plane: &[u8], pixel: usize) -> (rgb: Rgb)
    requires
        pixel * 3 + 2 < plane@.len(),
    ensures
        rgb == rgb_at(plane@, pixel as int),
{
    proof {
        assert(plane.len() == plane@.len());
    }
    Rgb::new(plane[pixel * 3], plane[pixel * 3 + 1], plane[pixel * 3 + 2])
}

fn write_luma(plane: &[u8], matrix: ColorMatrix, luma: &mut [u8])
    requires
        plane@.len() == old(luma)@.len() * 3,
    ensures
        final(luma)@ == Seq::new(
            old(luma)@.len(),
            |i: int| matrix.yuv_of(rgb_at(plane@, i)).y,
        ),
{
    let ghost len = luma@.len();
    let mut i: usize = 0;
    while i < luma.len()
        invariant
            i <= luma@.len(),
            luma@.len() == len,
            plane@.len() == luma@.len() * 3,
            forall|j: int| 0 <= j < i ==> luma@[j] == matrix.yuv_of(rgb_at(plane@, j)).y,
        decreases luma@.len() - i,
    {
        luma[i] = matrix.to_yuv(read_rgb(plane, i)).y;
        i = i + 1;
    }
    proof {
        assert(luma@ =~= Seq::new(len, |i: int| matrix.yuv_of(rgb_at(plane@, i)).y));
    }
}

#[verifier::spinoff_prover]
#[verifier::rlimit(60)]
fn square(plane: &[u8], size: FrameSize, matrix: ColorMatrix, column: usize, row: usize) -> (uv: (
    u8,
    u8,
))
    requires
        size@.valid(),
        size@.addressable(3),
        plane@.len() == size@.area() * 3,
        column < size@.chroma_width(),
        row < size@.chroma_height(),
    ensures
        uv.0 == square_chroma(plane@, size@.width, matrix, column as int, row as int, false),
        uv.1 == square_chroma(plane@, size@.width, matrix, column as int, row as int, true),
{
    let width: usize = size.width() as usize;
    let (x, y): (usize, usize) = (column * 2, row * 2);
    proof {
        reveal(square_chroma);
        let (w, h) = (size@.width, size@.height);
        crate::arith::lemma_cell_in_plane(y as int, x as int, w, h);
        crate::arith::lemma_cell_in_plane(y as int, x as int + 1, w, h);
        crate::arith::lemma_cell_in_plane(y as int + 1, x as int, w, h);
        crate::arith::lemma_cell_in_plane(y as int + 1, x as int + 1, w, h);
        crate::arith::lemma_product_nonnegative(y as int, w);
        crate::arith::lemma_product_nonnegative(y as int + 1, w);
    }
    let a: Yuv = matrix.to_yuv(read_rgb(plane, y * width + x));
    let b: Yuv = matrix.to_yuv(read_rgb(plane, y * width + (x + 1)));
    let c: Yuv = matrix.to_yuv(read_rgb(plane, (y + 1) * width + x));
    let d: Yuv = matrix.to_yuv(read_rgb(plane, (y + 1) * width + (x + 1)));
    let u: u32 = a.u as u32 + b.u as u32 + c.u as u32 + d.u as u32;
    let v: u32 = a.v as u32 + b.v as u32 + c.v as u32 + d.v as u32;
    (((u + 2) / 4) as u8, ((v + 2) / 4) as u8)
}

fn write_chroma(plane: &[u8], size: FrameSize, matrix: ColorMatrix, chroma: &mut [u8])
    requires
        size@.valid(),
        size@.addressable(3),
        plane@.len() == size@.area() * 3,
        old(chroma)@.len() == size@.chroma_area() * 2,
    ensures
        final(chroma)@ == frame_of_rgb(plane@, size@, matrix).chroma,
{
    let ghost whole = frame_of_rgb(plane@, size@, matrix).chroma;
    let ghost grid = Dims { width: size@.chroma_width(), height: size@.chroma_height() };
    let width: usize = size.chroma_width() as usize;
    let bytes: usize = chroma.len();
    let total: usize = bytes / 2;
    let mut sample: usize = 0;
    let mut column: usize = 0;
    let mut row: usize = 0;
    while sample < total
        invariant
            size@.valid(),
            size@.addressable(3),
            plane@.len() == size@.area() * 3,
            chroma@.len() == size@.chroma_area() * 2,
            chroma@.len() == bytes,
            whole == frame_of_rgb(plane@, size@, matrix).chroma,
            grid == (Dims { width: size@.chroma_width(), height: size@.chroma_height() }),
            width == grid.width,
            total == grid.area(),
            sample <= total,
            sample == row * width + column,
            column < width,
            sample < total ==> row < grid.height,
            forall|j: int| 0 <= j < sample * 2 ==> #[trigger] chroma@[j] == whole[j],
        decreases total - sample,
    {
        proof {
            crate::arith::lemma_row_column(row as int, column as int, width as int);
            crate::composite::lemma_next_cell(sample as int, column as int, row as int, grid);
        }
        let (u, v) = square(plane, size, matrix, column, row);
        chroma[sample * 2] = u;
        chroma[sample * 2 + 1] = v;
        proof {
            assert((sample * 2) / 2 == sample && (sample * 2 + 1) / 2 == sample);
            assert(whole[sample * 2] == u);
            assert(whole[sample * 2 + 1] == v);
        }
        sample = sample + 1;
        if column + 1 < width {
            column = column + 1;
        } else {
            column = 0;
            row = row + 1;
        }
    }
    proof {
        assert(chroma@ =~= whole);
    }
}

/// A picture of one colour becomes a frame of that colour, whatever the sizes.
pub proof fn law_solid_pictures_become_uniform_frames(
    width: int,
    height: int,
    color: Rgb,
    size: Dims,
    matrix: ColorMatrix,
)
    requires
        Picture::solid(width, height, color).valid(),
        size.valid(),
    ensures
        frame_of_picture(Picture::solid(width, height, color), size, matrix) == Nv12::uniform(
            size,
            matrix.yuv_of(color),
        ),
{
    let picture = Picture::solid(width, height, color);
    let s = crate::scale::sampling(width, height, size.width, size.height, 3, ScaleMode::Fill);
    let bytes = seq![color.r, color.g, color.b];
    crate::scale::lemma_sampling_valid(
        width,
        height,
        size.width,
        size.height,
        3,
        ScaleMode::Fill,
    );
    crate::scale::law_uniform_planes_stay_uniform(s, picture.pixels, bytes);
    crate::frame::lemma_chroma_is_half(size);
    let plane = s.scaled(picture.pixels);
    assert forall|pixel: int| 0 <= pixel < size.area() implies #[trigger] rgb_at(plane, pixel)
        == color by {
        assert(plane.len() == size.area() * 3);
        assert(plane[pixel * 3] == bytes[(pixel * 3) % 3]);
        assert(plane[pixel * 3 + 1] == bytes[(pixel * 3 + 1) % 3]);
        assert(plane[pixel * 3 + 2] == bytes[(pixel * 3 + 2) % 3]);
    }
    lemma_frame_of_one_color(plane, size, matrix, color);
}

/// Pixels of one colour make a frame of that colour.
proof fn lemma_frame_of_one_color(plane: Seq<u8>, size: Dims, matrix: ColorMatrix, color: Rgb)
    requires
        size.valid(),
        forall|pixel: int|
            0 <= pixel < size.area() ==> #[trigger] rgb_at(plane, pixel) == color,
    ensures
        frame_of_rgb(plane, size, matrix) == Nv12::uniform(size, matrix.yuv_of(color)),
{
    let frame = frame_of_rgb(plane, size, matrix);
    let yuv = matrix.yuv_of(color);
    let whole = Nv12::uniform(size, yuv);
    let (w, h) = (size.chroma_width(), size.chroma_height());
    assert(frame.luma =~= whole.luma);
    assert forall|i: int| 0 <= i < frame.chroma.len() implies #[trigger] frame.chroma[i]
        == whole.chroma[i] by {
        crate::arith::lemma_position_in_plane(i / 2, w, h);
        lemma_square_of_one_color(
            plane,
            size,
            matrix,
            color,
            (i / 2) % w,
            (i / 2) / w,
            i % 2 == 1,
        );
    }
    assert(frame.chroma =~= whole.chroma);
}

proof fn lemma_square_of_one_color(
    plane: Seq<u8>,
    size: Dims,
    matrix: ColorMatrix,
    color: Rgb,
    column: int,
    row: int,
    second: bool,
)
    requires
        size.valid(),
        0 <= column < size.chroma_width(),
        0 <= row < size.chroma_height(),
        forall|pixel: int|
            0 <= pixel < size.area() ==> #[trigger] rgb_at(plane, pixel) == color,
    ensures
        square_chroma(plane, size.width, matrix, column, row, second) == if second {
            matrix.yuv_of(color).v
        } else {
            matrix.yuv_of(color).u
        },
{
    reveal(square_chroma);
    let (x, y) = (column * 2, row * 2);
    crate::arith::lemma_cell_in_plane(y, x, size.width, size.height);
    crate::arith::lemma_cell_in_plane(y, x + 1, size.width, size.height);
    crate::arith::lemma_cell_in_plane(y + 1, x, size.width, size.height);
    crate::arith::lemma_cell_in_plane(y + 1, x + 1, size.width, size.height);
    assert(rgb_at(plane, (row * 2 + 0) * size.width + (column * 2 + 0)) == color);
    assert(rgb_at(plane, (row * 2 + 0) * size.width + (column * 2 + 1)) == color);
    assert(rgb_at(plane, (row * 2 + 1) * size.width + (column * 2 + 0)) == color);
    assert(rgb_at(plane, (row * 2 + 1) * size.width + (column * 2 + 1)) == color);
}

/// The luma of a picture's frame is pixel by pixel that of the picture, scaled to fill
/// the frame, and each chroma sample is, to within rounding, the mean of the chroma of
/// the four pixels that it lies over: those at twice its column and twice its row,
/// and at the next ones.
pub proof fn law_chroma_is_the_mean_of_the_four_pixels_there(
    picture: Picture,
    size: Dims,
    matrix: ColorMatrix,
    column: int,
    row: int,
)
    requires
        picture.valid(),
        size.valid(),
        0 <= column < size.width / 2,
        0 <= row < size.height / 2,
    ensures
        ({
            let plane = crate::scale::sampling(
                picture.width,
                picture.height,
                size.width,
                size.height,
                3,
                ScaleMode::Fill,
            ).scaled(picture.pixels);
            let at = |x: int, y: int|
                {
                    let start = (y * size.width + x) * 3;
                    matrix.yuv_of(
                        Rgb { r: plane[start], g: plane[start + 1], b: plane[start + 2] },
                    )
                };
            let (x, y) = (2 * column, 2 * row);
            let (a, b, c, d) = (at(x, y), at(x + 1, y), at(x, y + 1), at(x + 1, y + 1));
            let frame = frame_of_picture(picture, size, matrix);
            let (w, pair) = (size.width, (row * (size.width / 2) + column) * 2);
            &&& frame.luma[y * w + x] == a.y
            &&& frame.luma[y * w + x + 1] == b.y
            &&& frame.luma[(y + 1) * w + x] == c.y
            &&& frame.luma[(y + 1) * w + x + 1] == d.y
            &&& -2 <= a.u + b.u + c.u + d.u - 4 * frame.chroma[pair] <= 2
            &&& -2 <= a.v + b.v + c.v + d.v - 4 * frame.chroma[pair + 1] <= 2
        }),
{
    let plane = crate::scale::sampling(
        picture.width,
        picture.height,
        size.width,
        size.height,
        3,
        ScaleMode::Fill,
    ).scaled(picture.pixels);
    let (w, h) = (size.width, size.height);
    let (x, y) = (2 * column, 2 * row);
    crate::arith::lemma_cell_in_plane(y, x, w, h);
    crate::arith::lemma_cell_in_plane(y, x + 1, w, h);
    crate::arith::lemma_cell_in_plane(y + 1, x, w, h);
    crate::arith::lemma_cell_in_plane(y + 1, x + 1, w, h);
    crate::arith::lemma_cell_in_plane(row, column, w / 2, h / 2);
    crate::arith::lemma_row_column(row, column, w / 2);
    let sample = row * (w / 2) + column;
    let frame = frame_of_picture(picture, size, matrix);
    assert((sample * 2) / 2 == sample && (sample * 2 + 1) / 2 == sample);
    assert(frame.chroma[sample * 2] == square_chroma(plane, w, matrix, column, row, false));
    assert(frame.chroma[sample * 2 + 1] == square_chroma(plane, w, matrix, column, row, true));
    lemma_square_mean(plane, w, matrix, column, row, false);
    lemma_square_mean(plane, w, matrix, column, row, true);
    assert(y * w + x + 1 == y * w + (x + 1));
    assert((y + 1) * w + x + 1 == (y + 1) * w + (x + 1));
}

proof fn lemma_square_mean(
    plane: Seq<u8>,
    width: int,
    matrix: ColorMatrix,
    column: int,
    row: int,
    second: bool,
)
    ensures
        ({
            let at = |x: int, y: int|
                {
                    let yuv = matrix.yuv_of(rgb_at(plane, y * width + x));
                    if second {
                        yuv.v
                    } else {
                        yuv.u
                    }
                };
            let (x, y) = (2 * column, 2 * row);
            -2 <= at(x, y) + at(x + 1, y) + at(x, y + 1) + at(x + 1, y + 1) - 4 * square_chroma(
                plane,
                width,
                matrix,
                column,
                row,
                second,
            ) <= 2
        }),
{
    reveal(square_chroma);
    assert(row * 2 + 0 == 2 * row && column * 2 + 0 == 2 * column);
}

/// A picture's frame shows each of its colours in place, in luma and in chroma alike:
/// where every pixel of the picture near the four pixels that a chroma sample lies
/// over has one colour, those four and the sample have it, whatever the rest of the
/// picture is.
pub proof fn law_pictures_show_their_colours_in_place(
    picture: Picture,
    size: Dims,
    matrix: ColorMatrix,
    color: Rgb,
    column: int,
    row: int,
)
    requires
        picture.valid(),
        size.valid(),
        0 <= column < size.width / 2,
        0 <= row < size.height / 2,
        ({
            let (wn, wd) = crate::geometry::visible(
                ScaleMode::Fill,
                picture.width,
                size.width,
                picture.height,
                size.height,
            );
            let (hn, hd) = crate::geometry::visible(
                ScaleMode::Fill,
                picture.height,
                size.height,
                picture.width,
                size.width,
            );
            forall|a: int, b: int, x: int, y: int|
                #![trigger crate::geometry::near(a, x, picture.width, size.width, wn, wd), crate::geometry::near(b, y, picture.height, size.height, hn, hd)]
                2 * column <= a <= 2 * column + 1 && 2 * row <= b <= 2 * row + 1 && 0 <= x
                    < picture.width && 0 <= y < picture.height && crate::geometry::near(
                    a,
                    x,
                    picture.width,
                    size.width,
                    wn,
                    wd,
                ) && crate::geometry::near(b, y, picture.height, size.height, hn, hd) ==> {
                    let start = (y * picture.width + x) * 3;
                    &&& picture.pixels[start] == color.r
                    &&& picture.pixels[start + 1] == color.g
                    &&& picture.pixels[start + 2] == color.b
                }
        }),
    ensures
        ({
            let frame = frame_of_picture(picture, size, matrix);
            let yuv = matrix.yuv_of(color);
            let (x, y, w) = (2 * column, 2 * row, size.width);
            let pair = (row * (w / 2) + column) * 2;
            &&& frame.luma[y * w + x] == yuv.y
            &&& frame.luma[y * w + x + 1] == yuv.y
            &&& frame.luma[(y + 1) * w + x] == yuv.y
            &&& frame.luma[(y + 1) * w + x + 1] == yuv.y
            &&& frame.chroma[pair] == yuv.u
            &&& frame.chroma[pair + 1] == yuv.v
        }),
{
    law_chroma_is_the_mean_of_the_four_pixels_there(picture, size, matrix, column, row);
    let (x, y) = (2 * column, 2 * row);
    lemma_pixel_in_place(picture, size, matrix, color, column, row, x, y);
    lemma_pixel_in_place(picture, size, matrix, color, column, row, x + 1, y);
    lemma_pixel_in_place(picture, size, matrix, color, column, row, x, y + 1);
    lemma_pixel_in_place(picture, size, matrix, color, column, row, x + 1, y + 1);
}

/// One pixel of the scaled picture has the colour of the pixels near it.
proof fn lemma_pixel_in_place(
    picture: Picture,
    size: Dims,
    matrix: ColorMatrix,
    color: Rgb,
    column: int,
    row: int,
    a: int,
    b: int,
)
    requires
        picture.valid(),
        size.valid(),
        0 <= column < size.width / 2,
        0 <= row < size.height / 2,
        2 * column <= a <= 2 * column + 1,
        2 * row <= b <= 2 * row + 1,
        ({
            let (wn, wd) = crate::geometry::visible(
                ScaleMode::Fill,
                picture.width,
                size.width,
                picture.height,
                size.height,
            );
            let (hn, hd) = crate::geometry::visible(
                ScaleMode::Fill,
                picture.height,
                size.height,
                picture.width,
                size.width,
            );
            forall|a: int, b: int, x: int, y: int|
                #![trigger crate::geometry::near(a, x, picture.width, size.width, wn, wd), crate::geometry::near(b, y, picture.height, size.height, hn, hd)]
                2 * column <= a <= 2 * column + 1 && 2 * row <= b <= 2 * row + 1 && 0 <= x
                    < picture.width && 0 <= y < picture.height && crate::geometry::near(
                    a,
                    x,
                    picture.width,
                    size.width,
                    wn,
                    wd,
                ) && crate::geometry::near(b, y, picture.height, size.height, hn, hd) ==> {
                    let start = (y * picture.width + x) * 3;
                    &&& picture.pixels[start] == color.r
                    &&& picture.pixels[start + 1] == color.g
                    &&& picture.pixels[start + 2] == color.b
                }
        }),
    ensures
        ({
            let plane = crate::scale::sampling(
                picture.width,
                picture.height,
                size.width,
                size.height,
                3,
                ScaleMode::Fill,
            ).scaled(picture.pixels);
            let start = (b * size.width + a) * 3;
            Rgb { r: plane[start], g: plane[start + 1], b: plane[start + 2] } == color
        }),
{
    let bytes = seq![color.r, color.g, color.b];
    let solid = Picture::solid(picture.width, picture.height, color).pixels;
    let source = Dims { width: picture.width, height: picture.height };
    let s = crate::scale::sampling(
        picture.width,
        picture.height,
        size.width,
        size.height,
        3,
        ScaleMode::Fill,
    );
    crate::arith::lemma_product_nonnegative(picture.width, picture.height);
    crate::scale::lemma_sampling_valid(
        picture.width,
        picture.height,
        size.width,
        size.height,
        3,
        ScaleMode::Fill,
    );
    crate::scale::law_uniform_planes_stay_uniform(s, solid, bytes);
    crate::arith::lemma_cell_in_plane(b, a, size.width, size.height);
    let start = (b * size.width + a) * 3;
    assert(s.target_bytes() == size.area() * 3);
    assert forall|channel: int| 0 <= channel < 3 implies #[trigger] s.scaled(
        picture.pixels,
    )[start + channel] == bytes[channel] by {
        let (wn, wd) = crate::geometry::visible(
            ScaleMode::Fill,
            source.width,
            size.width,
            source.height,
            size.height,
        );
        let (hn, hd) = crate::geometry::visible(
            ScaleMode::Fill,
            source.height,
            size.height,
            source.width,
            size.width,
        );
        assert forall|x: int, y: int|
            #![trigger crate::geometry::near(a, x, source.width, size.width, wn, wd), crate::geometry::near(b, y, source.height, size.height, hn, hd)]
            0 <= x < source.width && 0 <= y < source.height && crate::geometry::near(
                a,
                x,
                source.width,
                size.width,
                wn,
                wd,
            ) && crate::geometry::near(b, y, source.height, size.height, hn, hd) implies
            picture.pixels[(y * source.width + x) * 3 + channel] == solid[(y * source.width + x)
            * 3 + channel] by {
            crate::arith::lemma_cell_in_plane(y, x, source.width, source.height);
            let from = (y * picture.width + x) * 3;
            assert((from + channel) % 3 == channel);
            assert(picture.pixels[from] == color.r && picture.pixels[from + 1] == color.g
                && picture.pixels[from + 2] == color.b);
        }
        crate::geometry::law_scaled_planes_show_what_lies_there(
            source,
            size,
            3,
            ScaleMode::Fill,
            picture.pixels,
            solid,
            a,
            b,
            channel,
        );
        assert((start + channel) % 3 == channel);
    }
    assert(s.scaled(picture.pixels)[start + 0] == color.r);
    assert(s.scaled(picture.pixels)[start + 1] == color.g);
    assert(s.scaled(picture.pixels)[start + 2] == color.b);
}

} // verus!
