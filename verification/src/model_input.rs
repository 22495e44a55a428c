//! Laying a frame out as the input tensor of a segmentation model.

use vstd::prelude::*;

use crate::color::{ColorMatrix, Rgb, Yuv};
use crate::error::CoreError;
use crate::frame::{Dims, FrameSize, Nv12, Nv12Frame};
use crate::scale::{Nv12Scaler, ScaleMode};

verus! {

#[derive(Clone, Copy, Debug, PartialEq, Eq, Hash, Structural)]
pub enum TensorLayout {
    /// One plane for each channel.
    Nchw,
    /// The three channels of a pixel side by side.
    Nhwc,
}

impl TensorLayout {
    /// The pixel and the channel (red, green, blue) of an element of a tensor.
    pub open spec fn element(self, index: int, pixels: int) -> (int, int) {
        match self {
            TensorLayout::Nchw => (index % pixels, index / pixels),
            TensorLayout::Nhwc => (index / 3, index % 3),
        }
    }

    /// The shape of the tensor of a frame.
    pub open spec fn shape_of(self, size: Dims) -> Seq<int> {
        match self {
            TensorLayout::Nchw => seq![1, 3, size.height, size.width],
            TensorLayout::Nhwc => seq![1, size.height, size.width, 3],
        }
    }
}

/// A channel of a colour.
pub open spec fn channel_of_color(rgb: Rgb, channel: int) -> u8 {
    if channel == 0 {
        rgb.r
    } else if channel == 1 {
        rgb.g
    } else {
        rgb.b
    }
}

/// The colour of a pixel, counted row by row.
pub open spec fn color_at(frame: Nv12, matrix: ColorMatrix, pixel: int) -> Rgb {
    matrix.rgb_of(
        crate::composite::pixel_yuv(frame, pixel % frame.size.width, pixel / frame.size.width),
    )
}

/// A frame as a tensor, each byte of a colour replaced by the element that
/// stands for it.
pub open spec fn tensor_of<T>(
    frame: Nv12,
    layout: TensorLayout,
    matrix: ColorMatrix,
    lookup: Seq<T>,
) -> Seq<T> {
    Seq::new(
        (frame.size.area() * 3) as nat,
        |i: int|
            {
                let (pixel, channel) = layout.element(i, frame.size.area());
                lookup[channel_of_color(color_at(frame, matrix, pixel), channel) as int]
            },
    )
}

/// What a model of a size is given of a frame: the whole of it, as a tensor.
pub open spec fn model_tensor<T>(
    frame: Nv12,
    model: Dims,
    layout: TensorLayout,
    matrix: ColorMatrix,
    lookup: Seq<T>,
) -> Seq<T> {
    tensor_of(
        crate::scale::scaled_frame(frame, model, ScaleMode::Stretch),
        layout,
        matrix,
        lookup,
    )
}

/// Makes input tensors. The elements of the tensor are the caller's: the lookup
/// holds, for each byte of a colour, the element that stands for it.
pub struct ModelInputBuilder<T: Copy> {
    frame_size: FrameSize,
    model_size: FrameSize,
    layout: TensorLayout,
    matrix: ColorMatrix,
    scaler: Nv12Scaler,
    scaled: Nv12Frame,
    lookup: Vec<T>,
    tensor: Vec<T>,
}

impl<T: Copy> ModelInputBuilder<T> {
    pub closed spec fn wf(&self) -> bool {
        &&& self.scaler.wf()
        &&& self.scaler.source_size() == self.frame_size@
        &&& self.scaler.target_size() == self.model_size@
        &&& self.scaler.scale_mode() == ScaleMode::Stretch
        &&& self.scaled.wf()
        &&& self.scaled@.size == self.model_size@
        &&& self.model_size@.addressable(3)
        &&& self.lookup@.len() == 256
    }

    /// The size of the frames that it takes.
    pub closed spec fn frame_dims(&self) -> Dims {
        self.frame_size@
    }

    /// The size that the model works at.
    pub closed spec fn model_dims(&self) -> Dims {
        self.model_size@
    }

    pub closed spec fn tensor_layout(&self) -> TensorLayout {
        self.layout
    }

    pub closed spec fn color_matrix(&self) -> ColorMatrix {
        self.matrix
    }

    /// The element that stands for each byte.
    pub closed spec fn elements(&self) -> Seq<T> {
        self.lookup@
    }

    pub fn new(
        frame_size: FrameSize,
        model_size: FrameSize,
        layout: TensorLayout,
        matrix: ColorMatrix,
        lookup: Vec<T>,
    ) -> (builder: Self)
        requires
            model_size@.addressable(3),
            lookup@.len() == 256,
        ensures
            builder.wf(),
            builder.frame_dims() == frame_size@,
            builder.model_dims() == model_size@,
            builder.tensor_layout() == layout,
            builder.color_matrix() == matrix,
            builder.elements() == lookup@,
    {
        let _: u32 = model_size.width();
        proof {
            crate::frame::lemma_chroma_is_half(model_size@);
        }
        ModelInputBuilder {
            frame_size,
            model_size,
            layout,
            matrix,
            scaler: Nv12Scaler::new(frame_size, model_size, ScaleMode::Stretch),
            scaled: Nv12Frame::new(model_size),
            lookup,
            tensor: Vec::new(),
        }
    }

    pub fn frame_size(&self) -> (size: FrameSize)
        ensures
            size@ == self.frame_dims(),
    {
        self.frame_size
    }

    pub fn model_size(&self) -> (size: FrameSize)
        ensures
            size@ == self.model_dims(),
    {
        self.model_size
    }

    pub fn shape(&self) -> (shape: [i64; 4])
        ensures
            shape@.map_values(|n: i64| n as int) == self.tensor_layout().shape_of(
                self.model_dims(),
            ),
    {
        let w: i64 = self.model_size.width() as i64;
        let h: i64 = self.model_size.height() as i64;
        let shape: [i64; 4] = match self.layout {
            TensorLayout::Nchw => [1, 3, h, w],
            TensorLayout::Nhwc => [1, h, w, 3],
        };
        proof {
            assert(shape@.map_values(|n: i64| n as int) =~= self.layout.shape_of(
                self.model_size@,
            ));
        }
        shape
    }

    /// Scales a frame to the model's size and lays it out as a tensor.
    pub fn build<'a>(&'a mut self, frame: &Nv12Frame) -> (result: Result<&'a [T], CoreError>)
        requires
            old(self).wf(),
            frame.wf(),
        ensures
            final(self).wf(),
            final(self).frame_dims() == old(self).frame_dims(),
            final(self).model_dims() == old(self).model_dims(),
            final(self).tensor_layout() == old(self).tensor_layout(),
            final(self).color_matrix() == old(self).color_matrix(),
            final(self).elements() == old(self).elements(),
            match result {
                Ok(tensor) => {
                    &&& frame@.size == old(self).frame_dims()
                    &&& tensor@ == model_tensor(
                        frame@,
                        old(self).model_dims(),
                        old(self).tensor_layout(),
                        old(self).color_matrix(),
                        old(self).elements(),
                    )
                },
                Err(error) => {
                    &&& frame@.size != old(self).frame_dims()
                    &&& Err::<(), CoreError>(error) == crate::frame::size_check(
                        old(self).frame_dims(),
                        frame@.size,
                    )
                },
            },
    {
        match self.scaler.scale(frame, &mut self.scaled) {
            Ok(()) => {},
            Err(error) => return Err(error),
        }
        proof {
            crate::frame::lemma_chroma_is_half(self.model_size@);
        }
        let colors = pixel_colors(&self.scaled, self.matrix);
        self.tensor = lay_out(colors.as_slice(), self.layout, self.lookup.as_slice());
        proof {
            assert(self.tensor@ =~= tensor_of(
                self.scaled@,
                self.layout,
                self.matrix,
                self.lookup@,
            ));
        }
        Ok(self.tensor.as_slice())
    }
}

/// The colour of every pixel of a frame.
fn pixel_colors(frame: &Nv12Frame, matrix: ColorMatrix) -> (colors: Vec<Rgb>)
    requires
        frame.wf(),
    ensures
        colors@ == Seq::new(
            frame@.size.area() as nat,
            |i: int| color_at(frame@, matrix, i),
        ),
{
    let size = frame.size();
    let width: usize = size.width() as usize;
    let chroma_width: usize = size.chroma_width() as usize;
    let total: usize = size.luma_len();
    let luma = frame.luma();
    let chroma = frame.chroma();
    let mut colors: Vec<Rgb> = Vec::with_capacity(total);
    let mut pixel: usize = 0;
    let mut column: usize = 0;
    let mut row: usize = 0;
    while pixel < total
        invariant
            frame.wf(),
            total == frame@.size.area(),
            width == frame@.size.width,
            chroma_width == frame@.size.chroma_width(),
            luma@ == frame@.luma,
            chroma@ == frame@.chroma,
            pixel <= total,
            pixel == row * width + column,
            column < width,
            pixel < total ==> row < frame@.size.height,
            colors@.len() == pixel,
            forall|j: int|
                0 <= j < pixel ==> #[trigger] colors@[j] == color_at(frame@, matrix, j),
        decreases total - pixel,
    {
        proof {
            crate::arith::lemma_row_column(row as int, column as int, width as int);
            crate::composite::lemma_chroma_pair_in_plane(frame@.size, column as int, row as int);
            crate::frame::lemma_chroma_is_half(frame@.size);
            crate::arith::lemma_cell_in_plane(
                row as int / 2,
                column as int / 2,
                frame@.size.chroma_width(),
                frame@.size.chroma_height(),
            );
            crate::arith::lemma_product_nonnegative(row as int / 2, chroma_width as int);
            crate::composite::lemma_next_cell(
                pixel as int,
                column as int,
                row as int,
                frame@.size,
            );
        }
        let pair: usize = ((row / 2) * chroma_width + column / 2) * 2;
        let yuv = Yuv { y: luma[pixel], u: chroma[pair], v: chroma[pair + 1] };
        assert(yuv == crate::composite::pixel_yuv(frame@, column as int, row as int));
        colors.push(matrix.to_rgb(yuv));
        pixel = pixel + 1;
        if column + 1 < width {
            column = column + 1;
        } else {
            column = 0;
            row = row + 1;
        }
    }
    proof {
        assert(colors@ =~= Seq::new(
            frame@.size.area() as nat,
            |i: int| color_at(frame@, matrix, i),
        ));
    }
    colors
}

spec fn laid_out<T>(colors: Seq<Rgb>, layout: TensorLayout, lookup: Seq<T>) -> Seq<T> {
    Seq::new(
        colors.len() * 3,
        |i: int|
            {
                let (pixel, channel) = layout.element(i, colors.len() as int);
                lookup[channel_of_color(colors[pixel], channel) as int]
            },
    )
}

fn lay_out<T: Copy>(colors: &[Rgb], layout: TensorLayout, lookup: &[T]) -> (tensor: Vec<T>)
    requires
        0 < colors@.len(),
        colors@.len() * 3 <= usize::MAX,
        lookup@.len() == 256,
    ensures
        tensor@ == laid_out(colors@, layout, lookup@),
{
    let ghost whole = laid_out(colors@, layout, lookup@);
    let pixels: usize = colors.len();
    let mut tensor: Vec<T> = Vec::with_capacity(pixels * 3);
    match layout {
        TensorLayout::Nchw => {
            for channel in 0..3usize
                invariant
                    pixels == colors@.len(),
                    0 < pixels,
                    pixels * 3 <= usize::MAX,
                    lookup@.len() == 256,
                    layout == TensorLayout::Nchw,
                    whole == laid_out(colors@, layout, lookup@),
                    tensor@.len() == channel * pixels,
                    forall|j: int| 0 <= j < tensor@.len() ==> #[trigger] tensor@[j] == whole[j],
            {
                for pixel in 0..pixels
                    invariant
                        pixels == colors@.len(),
                        0 < pixels,
                        pixels * 3 <= usize::MAX,
                        channel < 3,
                        lookup@.len() == 256,
                        layout == TensorLayout::Nchw,
                        whole == laid_out(colors@, layout, lookup@),
                        tensor@.len() == channel * pixels + pixel,
                        forall|j: int|
                            0 <= j < tensor@.len() ==> #[trigger] tensor@[j] == whole[j],
                {
                    proof {
                        crate::arith::lemma_row_column(
                            channel as int,
                            pixel as int,
                            pixels as int,
                        );
                        assert(channel * pixels + pixel < 3 * pixels) by (nonlinear_arith)
                            requires
                                channel < 3,
                                pixel < pixels,
                        ;
                    }
                    let byte: u8 = color_channel(colors[pixel], channel);
                    tensor.push(lookup[byte as usize]);
                }
                proof {
                    assert((channel + 1) * pixels == channel * pixels + pixels)
                        by (nonlinear_arith);
                }
            }
        },
        TensorLayout::Nhwc => {
            for pixel in 0..pixels
                invariant
                    pixels == colors@.len(),
                    pixels * 3 <= usize::MAX,
                    lookup@.len() == 256,
                    layout == TensorLayout::Nhwc,
                    whole == laid_out(colors@, layout, lookup@),
                    tensor@.len() == pixel * 3,
                    forall|j: int| 0 <= j < tensor@.len() ==> #[trigger] tensor@[j] == whole[j],
            {
                let color = colors[pixel];
                tensor.push(lookup[color.r as usize]);
                tensor.push(lookup[color.g as usize]);
                tensor.push(lookup[color.b as usize]);
                proof {
                    let start = pixel * 3;
                    assert(start / 3 == pixel && start % 3 == 0);
                    assert((start + 1) / 3 == pixel && (start + 1) % 3 == 1);
                    assert((start + 2) / 3 == pixel && (start + 2) % 3 == 2);
                    assert(whole[start] == lookup@[color.r as int]);
                    assert(whole[start + 1] == lookup@[color.g as int]);
                    assert(whole[start + 2] == lookup@[color.b as int]);
                }
            }
        },
    }
    proof {
        assert(tensor@ =~= whole);
    }
    tensor
}

fn color_channel(color: Rgb, channel: usize) -> (byte: u8)
    ensures
        byte == channel_of_color(color, channel as int),
{
    if channel == 0 {
        color.r
    } else if channel == 1 {
        color.g
    } else {
        color.b
    }
}

/// Both layouts hold the same elements: what one has at a pixel and a channel,
/// the other has at the same pixel and channel.
pub proof fn law_layouts_hold_the_same_elements<T>(
    frame: Nv12,
    matrix: ColorMatrix,
    lookup: Seq<T>,
    pixel: int,
    channel: int,
)
    requires
        frame.valid(),
        0 <= pixel < frame.size.area(),
        0 <= channel < 3,
    ensures
        tensor_of(frame, TensorLayout::Nchw, matrix, lookup)[channel * frame.size.area() + pixel]
            == tensor_of(frame, TensorLayout::Nhwc, matrix, lookup)[pixel * 3 + channel],
{
    let pixels = frame.size.area();
    crate::arith::lemma_row_column(channel, pixel, pixels);
    crate::arith::lemma_row_column(pixel, channel, 3);
    crate::arith::lemma_cell_in_plane(channel, pixel, pixels, 3);
}

/// A tensor with the channels side by side holds for each pixel the elements that
/// stand for red, green and blue of its own colour: that of its luma byte and of the
/// chroma pair of the square of four that it lies in.
pub proof fn law_a_tensor_holds_each_pixel_in_its_own_colour<T>(
    frame: Nv12,
    matrix: ColorMatrix,
    lookup: Seq<T>,
    column: int,
    row: int,
)
    requires
        frame.valid(),
        0 <= column < frame.size.width,
        0 <= row < frame.size.height,
    ensures
        ({
            let width = frame.size.width;
            let pixel = row * width + column;
            let pair = ((row / 2) * (width / 2) + column / 2) * 2;
            let color = matrix.rgb_of(
                Yuv { y: frame.luma[pixel], u: frame.chroma[pair], v: frame.chroma[pair + 1] },
            );
            let tensor = tensor_of(frame, TensorLayout::Nhwc, matrix, lookup);
            &&& tensor[pixel * 3] == lookup[color.r as int]
            &&& tensor[pixel * 3 + 1] == lookup[color.g as int]
            &&& tensor[pixel * 3 + 2] == lookup[color.b as int]
        }),
{
    let pixel = row * frame.size.width + column;
    crate::arith::lemma_row_column(row, column, frame.size.width);
    crate::arith::lemma_cell_in_plane(row, column, frame.size.width, frame.size.height);
    assert((pixel * 3) / 3 == pixel && (pixel * 3) % 3 == 0);
    assert((pixel * 3 + 1) / 3 == pixel && (pixel * 3 + 1) % 3 == 1);
    assert((pixel * 3 + 2) / 3 == pixel && (pixel * 3 + 2) % 3 == 2);
}

/// What a model sees is what a viewer sees: the elements of a pixel stand for the
/// colours that the frame has in BGRA.
pub proof fn law_models_see_what_viewers_see<T>(
    frame: Nv12,
    matrix: ColorMatrix,
    lookup: Seq<T>,
    pixel: int,
    channel: int,
)
    requires
        frame.valid(),
        0 <= pixel < frame.size.area(),
        0 <= channel < 3,
    ensures
        tensor_of(frame, TensorLayout::Nhwc, matrix, lookup)[pixel * 3 + channel]
            == lookup[crate::composite::bgra_of(frame, None, matrix).data[pixel * 4 + 2
            - channel] as int],
        tensor_of(frame, TensorLayout::Nchw, matrix, lookup)[channel * frame.size.area() + pixel]
            == lookup[crate::composite::bgra_of(frame, None, matrix).data[pixel * 4 + 2
            - channel] as int],
{
    law_layouts_hold_the_same_elements(frame, matrix, lookup, pixel, channel);
    crate::arith::lemma_row_column(pixel, channel, 3);
    let at = pixel * 4 + 2 - channel;
    assert(at / 4 == pixel && at % 4 == 2 - channel);
}

/// A model is given the whole of a frame, in whatever shape: what it sees at a pixel lies
/// at the same part of the width and of the height of the frame. Frames of the same
/// chroma that agree there in luma look the same to it.
pub proof fn law_models_are_given_the_whole_frame<T>(
    frame: Nv12,
    other: Nv12,
    model: Dims,
    layout: TensorLayout,
    matrix: ColorMatrix,
    lookup: Seq<T>,
    column: int,
    row: int,
    channel: int,
)
    requires
        frame.valid(),
        other.valid(),
        frame.size == other.size,
        frame.chroma == other.chroma,
        model.valid(),
        model.addressable(1),
        0 <= column < model.width,
        0 <= row < model.height,
        0 <= channel < 3,
        ({
            let size = frame.size;
            forall|x: int, y: int|
                #![trigger crate::geometry::near(column, x, size.width, model.width, size.width, 1), crate::geometry::near(row, y, size.height, model.height, size.height, 1)]
                0 <= x < size.width && 0 <= y < size.height && crate::geometry::near(
                    column,
                    x,
                    size.width,
                    model.width,
                    size.width,
                    1,
                ) && crate::geometry::near(row, y, size.height, model.height, size.height, 1)
                    ==> frame.luma[y * size.width + x] == other.luma[y * size.width + x]
        }),
    ensures
        ({
            let pixel = row * model.width + column;
            let at = match layout {
                TensorLayout::Nchw => channel * (model.width * model.height) + pixel,
                TensorLayout::Nhwc => pixel * 3 + channel,
            };
            &&& model_tensor(frame, model, layout, matrix, lookup)[at] == model_tensor(
                other,
                model,
                layout,
                matrix,
                lookup,
            )[at]
            &&& model_tensor(frame, model, layout, matrix, lookup).len() == model.width
                * model.height * 3
        }),
{
    let size = frame.size;
    crate::geometry::law_scaled_luma_shows_what_lies_there(
        frame,
        other,
        model,
        ScaleMode::Stretch,
        column,
        row,
    );
    let (a, b) = (
        crate::scale::scaled_frame(frame, model, ScaleMode::Stretch),
        crate::scale::scaled_frame(other, model, ScaleMode::Stretch),
    );
    let pixel = row * model.width + column;
    crate::arith::lemma_cell_in_plane(row, column, model.width, model.height);
    crate::arith::lemma_row_column(row, column, model.width);
    assert(a.chroma == b.chroma);
    assert(a.luma[pixel] == b.luma[pixel]);
    assert(color_at(a, matrix, pixel) == color_at(b, matrix, pixel));
    let pixels = model.area();
    crate::arith::lemma_row_column(channel, pixel, pixels);
    crate::arith::lemma_row_column(pixel, channel, 3);
    crate::arith::lemma_cell_in_plane(channel, pixel, pixels, 3);
}

} // verus!
