//! The picture that the settings window shows.

use vstd::prelude::*;

use crate::color::{ColorMatrix, Rgb, Yuv};
use crate::frame::{Bgra, BgraFrame, Dims, Nv12, Nv12Frame};
use crate::pipeline::{PipelineOutput, Shown};

verus! {

/// The side of a square of the checkerboard behind transparent pixels.
pub const PREVIEW_CHECKER_SIZE: usize = 16;

pub const PREVIEW_CHECKER_LIGHT: u8 = 204;

pub const PREVIEW_CHECKER_DARK: u8 = 153;

/// A picture of four bytes for each pixel: red, green, blue and alpha.
#[derive(Debug, Default, PartialEq, Eq)]
pub struct PreviewFrame {
    pub width: u32,
    pub height: u32,
    pub rgba: Vec<u8>,
}

/// The grey of the checkerboard at a pixel.
pub open spec fn checker(column: int, row: int) -> u8 {
    if (column / 16 + row / 16) % 2 == 0 {
        PREVIEW_CHECKER_LIGHT
    } else {
        PREVIEW_CHECKER_DARK
    }
}

/// A byte over a grey, weighted by an opacity in 255ths.
pub open spec fn over(channel: u8, grey: u8, alpha: u8) -> u8 {
    ((channel * alpha + grey * (255 - alpha) + 127) / 255) as u8
}

/// A byte of an opaque RGBA pixel.
pub open spec fn opaque_byte(rgb: Rgb, channel: int) -> u8 {
    if channel == 0 {
        rgb.r
    } else if channel == 1 {
        rgb.g
    } else if channel == 2 {
        rgb.b
    } else {
        255
    }
}

/// The colour of a pixel of a BGRA frame over the checkerboard.
pub open spec fn over_checker(frame: Bgra, pixel: int) -> Rgb {
    let grey = checker(pixel % frame.size.width, pixel / frame.size.width);
    let alpha = frame.data[pixel * 4 + 3];
    Rgb {
        r: over(frame.data[pixel * 4 + 2], grey, alpha),
        g: over(frame.data[pixel * 4 + 1], grey, alpha),
        b: over(frame.data[pixel * 4], grey, alpha),
    }
}

/// The colour of a pixel as the window shows it.
pub open spec fn preview_color(output: Shown, matrix: ColorMatrix, pixel: int) -> Rgb {
    match output {
        Shown::Nv12(frame) => crate::model_input::color_at(frame, matrix, pixel),
        Shown::Bgra(frame) => over_checker(frame, pixel),
    }
}

/// The size of an output.
pub open spec fn shown_size(output: Shown) -> Dims {
    match output {
        Shown::Nv12(frame) => frame.size,
        Shown::Bgra(frame) => frame.size,
    }
}

/// The bytes of the picture in the window.
pub open spec fn preview_bytes(output: Shown, matrix: ColorMatrix) -> Seq<u8> {
    Seq::new(
        (shown_size(output).area() * 4) as nat,
        |i: int| opaque_byte(preview_color(output, matrix, i / 4), i % 4),
    )
}

impl<'a> PipelineOutput<'a> {
    /// The frame is whole and its preview can be addressed.
    pub open spec fn wf(&self) -> bool {
        match self {
            PipelineOutput::Nv12(frame) => frame.wf() && frame@.size.addressable(4),
            PipelineOutput::Bgra(frame) => frame.wf(),
        }
    }
}

fn blend_over(channel: u8, grey: u8, alpha: u8) -> (value: u8)
    ensures
        value == over(channel, grey, alpha),
{
    let (c, k, a): (u32, u32, u32) = (channel as u32, grey as u32, alpha as u32);
    proof {
        assert(0 <= c * a && 0 <= k * (255 - a) && c * a + k * (255 - a) <= 65_025)
            by (nonlinear_arith)
            requires
                0 <= c <= 255,
                0 <= k <= 255,
                0 <= a <= 255,
        ;
    }
    ((c * a + k * (255 - a) + 127) / 255) as u8
}

fn nv12_color(
    frame: &Nv12Frame,
    matrix: ColorMatrix,
    pixel: usize,
    column: usize,
    row: usize,
) -> (rgb: Rgb)
    requires
        frame.wf(),
        column < frame@.size.width,
        row < frame@.size.height,
        pixel == row * frame@.size.width + column,
    ensures
        rgb == crate::model_input::color_at(frame@, matrix, pixel as int),
{
    let size = frame.size();
    let chroma_width: usize = size.chroma_width() as usize;
    proof {
        crate::arith::lemma_row_column(row as int, column as int, size@.width);
        crate::arith::lemma_cell_in_plane(row as int, column as int, size@.width, size@.height);
        crate::composite::lemma_chroma_pair_in_plane(size@, column as int, row as int);
        crate::frame::lemma_chroma_is_half(size@);
        crate::arith::lemma_cell_in_plane(
            row as int / 2,
            column as int / 2,
            size@.chroma_width(),
            size@.chroma_height(),
        );
        crate::arith::lemma_product_nonnegative(row as int / 2, chroma_width as int);
    }
    let pair: usize = ((row / 2) * chroma_width + column / 2) * 2;
    let yuv = Yuv {
        y: frame.luma()[pixel],
        u: frame.chroma()[pair],
        v: frame.chroma()[pair + 1],
    };
    assert(yuv == crate::composite::pixel_yuv(frame@, column as int, row as int));
    matrix.to_rgb(yuv)
}

fn bgra_color(frame: &BgraFrame, pixel: usize, column: usize, row: usize) -> (rgb: Rgb)
    requires
        frame.wf(),
        column < frame@.size.width,
        row < frame@.size.height,
        pixel == row * frame@.size.width + column,
    ensures
        rgb == over_checker(frame@, pixel as int),
{
    proof {
        let size = frame@.size;
        crate::arith::lemma_row_column(row as int, column as int, size.width);
        crate::arith::lemma_cell_in_plane(row as int, column as int, size.width, size.height);
    }
    let data = frame.data();
    let grey: u8 = if (column / PREVIEW_CHECKER_SIZE + row / PREVIEW_CHECKER_SIZE) % 2 == 0 {
        PREVIEW_CHECKER_LIGHT
    } else {
        PREVIEW_CHECKER_DARK
    };
    let start: usize = pixel * 4;
    let alpha: u8 = data[start + 3];
    Rgb {
        r: blend_over(data[start + 2], grey, alpha),
        g: blend_over(data[start + 1], grey, alpha),
        b: blend_over(data[start], grey, alpha),
    }
}

/// Renders an output for the window, at its own resolution and over a
/// checkerboard where it is transparent.
pub fn render_preview(output: &PipelineOutput<'_>, matrix: ColorMatrix, preview: &mut PreviewFrame)
    requires
        output.wf(),
    ensures
        final(preview).width == shown_size(output@).width,
        final(preview).height == shown_size(output@).height,
        final(preview).rgba@ == preview_bytes(output@, matrix),
{
    let size = match output {
        PipelineOutput::Nv12(frame) => frame.size(),
        PipelineOutput::Bgra(frame) => frame.size(),
    };
    let width: usize = size.width() as usize;
    let pixels: usize = size.luma_len();
    let ghost whole = preview_bytes(output@, matrix);
    let mut rgba: Vec<u8> = Vec::with_capacity(pixels * 4);
    let mut pixel: usize = 0;
    let mut column: usize = 0;
    let mut row: usize = 0;
    while pixel < pixels
        invariant
            output.wf(),
            size@ == shown_size(output@),
            size@.valid(),
            width == size@.width,
            pixels == size@.area(),
            pixels * 4 <= usize::MAX,
            whole == preview_bytes(output@, matrix),
            pixel <= pixels,
            pixel == row * width + column,
            column < width,
            pixel < pixels ==> row < size@.height,
            rgba@.len() == pixel * 4,
            forall|j: int| 0 <= j < rgba@.len() ==> #[trigger] rgba@[j] == whole[j],
        decreases pixels - pixel,
    {
        proof {
            crate::composite::lemma_next_cell(pixel as int, column as int, row as int, size@);
        }
        let rgb: Rgb = match output {
            PipelineOutput::Nv12(frame) => nv12_color(frame, matrix, pixel, column, row),
            PipelineOutput::Bgra(frame) => bgra_color(frame, pixel, column, row),
        };
        assert(rgb == preview_color(output@, matrix, pixel as int));
        rgba.push(rgb.r);
        rgba.push(rgb.g);
        rgba.push(rgb.b);
        rgba.push(255);
        proof {
            let start = pixel * 4;
            assert(start / 4 == pixel && start % 4 == 0);
            assert((start + 1) / 4 == pixel && (start + 1) % 4 == 1);
            assert((start + 2) / 4 == pixel && (start + 2) % 4 == 2);
            assert((start + 3) / 4 == pixel && (start + 3) % 4 == 3);
            assert(whole[start] == rgb.r);
            assert(whole[start + 1] == rgb.g);
            assert(whole[start + 2] == rgb.b);
            assert(whole[start + 3] == 255);
        }
        pixel = pixel + 1;
        if column + 1 < width {
            column = column + 1;
        } else {
            column = 0;
            row = row + 1;
        }
    }
    proof {
        assert(rgba@ =~= whole);
    }
    preview.width = size.width();
    preview.height = size.height();
    preview.rgba = rgba;
}

/// Opaque pixels are shown as they are, and transparent ones show the
/// checkerboard.
pub proof fn law_opaque_pixels_hide_the_checkerboard(channel: u8, grey: u8)
    ensures
        over(channel, grey, 255) == channel,
        over(channel, grey, 0) == grey,
{
}

/// The preview of a frame is the same in both formats.
pub proof fn law_the_preview_does_not_depend_on_the_format(frame: Nv12, matrix: ColorMatrix)
    requires
        frame.valid(),
    ensures
        preview_bytes(Shown::Nv12(frame), matrix) == preview_bytes(
            Shown::Bgra(crate::composite::bgra_of(frame, None, matrix)),
            matrix,
        ),
{
    let bgra = crate::composite::bgra_of(frame, None, matrix);
    let (plain, carried) = (
        preview_bytes(Shown::Nv12(frame), matrix),
        preview_bytes(Shown::Bgra(bgra), matrix),
    );
    assert forall|i: int| 0 <= i < plain.len() implies #[trigger] plain[i] == carried[i] by {
        let pixel = i / 4;
        assert(0 <= pixel < frame.size.area());
        assert(bgra.data[pixel * 4 + 3] == 255);
        let grey = checker(pixel % frame.size.width, pixel / frame.size.width);
        law_opaque_pixels_hide_the_checkerboard(bgra.data[pixel * 4], grey);
        law_opaque_pixels_hide_the_checkerboard(bgra.data[pixel * 4 + 1], grey);
        law_opaque_pixels_hide_the_checkerboard(bgra.data[pixel * 4 + 2], grey);
        assert(over_checker(bgra, pixel) == crate::model_input::color_at(frame, matrix, pixel));
    }
    assert(plain =~= carried);
}

/// The window shows each pixel of an opaque frame in its own colour: that of its luma
/// byte and of the chroma pair of the square of four that it lies in, as red, green
/// and blue.
pub proof fn law_the_window_shows_each_pixel_in_its_own_colour(
    frame: Nv12,
    matrix: ColorMatrix,
    column: int,
    row: int,
)
    requires
        frame.valid(),
        0 <= column < frame.size.width,
        0 <= row < frame.size.height,
    ensures
        ({
            let width = frame.size.width;
            let pixel = row * width + column;
            let pair = ((row / 2) * (width / 2) + column / 2) * 2;
            let color = matrix.rgb_of(
                Yuv { y: frame.luma[pixel], u: frame.chroma[pair], v: frame.chroma[pair + 1] },
            );
            let rgba = preview_bytes(Shown::Nv12(frame), matrix);
            &&& rgba[pixel * 4] == color.r
            &&& rgba[pixel * 4 + 1] == color.g
            &&& rgba[pixel * 4 + 2] == color.b
            &&& rgba[pixel * 4 + 3] == 255
        }),
{
    let pixel = row * frame.size.width + column;
    crate::arith::lemma_row_column(row, column, frame.size.width);
    crate::arith::lemma_cell_in_plane(row, column, frame.size.width, frame.size.height);
    lemma_pixel_bytes(pixel);
}

/// The window lays each pixel of a frame with opacities over a square of the
/// checkerboard: each of its colours is mixed with the grey there, to within
/// rounding.
pub proof fn law_transparent_pixels_lie_over_the_checkerboard(
    frame: Bgra,
    matrix: ColorMatrix,
    column: int,
    row: int,
)
    requires
        frame.valid(),
        0 <= column < frame.size.width,
        0 <= row < frame.size.height,
    ensures
        ({
            let at = (row * frame.size.width + column) * 4;
            let rgba = preview_bytes(Shown::Bgra(frame), matrix);
            let grey = if (column / 16) % 2 == (row / 16) % 2 {
                204u8
            } else {
                153u8
            };
            let share = frame.data[at + 3];
            &&& crate::composite::mixes(rgba[at], frame.data[at + 2], grey, share)
            &&& crate::composite::mixes(rgba[at + 1], frame.data[at + 1], grey, share)
            &&& crate::composite::mixes(rgba[at + 2], frame.data[at], grey, share)
            &&& rgba[at + 3] == 255
        }),
{
    let pixel = row * frame.size.width + column;
    crate::arith::lemma_row_column(row, column, frame.size.width);
    crate::arith::lemma_cell_in_plane(row, column, frame.size.width, frame.size.height);
    lemma_pixel_bytes(pixel);
    let grey = checker(column, row);
    lemma_over(frame.data[pixel * 4], grey, frame.data[pixel * 4 + 3]);
    lemma_over(frame.data[pixel * 4 + 1], grey, frame.data[pixel * 4 + 3]);
    lemma_over(frame.data[pixel * 4 + 2], grey, frame.data[pixel * 4 + 3]);
}

proof fn lemma_pixel_bytes(pixel: int)
    ensures
        (pixel * 4) / 4 == pixel && (pixel * 4) % 4 == 0,
        (pixel * 4 + 1) / 4 == pixel && (pixel * 4 + 1) % 4 == 1,
        (pixel * 4 + 2) / 4 == pixel && (pixel * 4 + 2) % 4 == 2,
        (pixel * 4 + 3) / 4 == pixel && (pixel * 4 + 3) % 4 == 3,
{
}

proof fn lemma_over(channel: u8, grey: u8, alpha: u8)
    ensures
        crate::composite::mixes(over(channel, grey, alpha), channel, grey, alpha),
{
    let (c, k, a) = (channel as int, grey as int, alpha as int);
    assert(0 <= c * a && 0 <= k * (255 - a) && c * a + k * (255 - a) <= 65_025) by (nonlinear_arith)
        requires
            0 <= c <= 255,
            0 <= k <= 255,
            0 <= a <= 255,
    ;
}

} // verus!
