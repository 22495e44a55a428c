//! Laying a foreground over a background, and turning frames into BGRA.

use vstd::prelude::*;

use crate::color::{ColorMatrix, Rgb, Yuv};
use crate::error::{check_len, CoreError};
use crate::frame::{Bgra, BgraFrame, Dims, Nv12, Nv12Frame};

verus! {

#[derive(Clone, Copy)]
pub enum Background<'a> {
    Solid(Yuv),
    Frame(&'a Nv12Frame),
}

/// What lies behind a foreground.
pub enum Backdrop {
    Solid(Yuv),
    Frame(Nv12),
}

impl Backdrop {
    /// The luma byte of a pixel.
    pub open spec fn luma_at(self, pixel: int) -> u8 {
        match self {
            Backdrop::Solid(color) => color.y,
            Backdrop::Frame(frame) => frame.luma[pixel],
        }
    }

    /// A byte of the chroma plane.
    pub open spec fn chroma_at(self, position: int) -> u8 {
        match self {
            Backdrop::Solid(color) => if position % 2 == 0 {
                color.u
            } else {
                color.v
            },
            Backdrop::Frame(frame) => frame.chroma[position],
        }
    }

    /// Whether the background fits a frame of a size.
    pub open spec fn size_check(self, size: Dims) -> Result<(), CoreError> {
        match self {
            Backdrop::Solid(_) => Ok(()),
            Backdrop::Frame(frame) => crate::frame::size_check(size, frame.size),
        }
    }
}

impl<'a> View for Background<'a> {
    type V = Backdrop;

    open spec fn view(&self) -> Backdrop {
        match self {
            Background::Solid(color) => Backdrop::Solid(*color),
            Background::Frame(frame) => Backdrop::Frame(frame@),
        }
    }
}

impl<'a> Background<'a> {
    pub open spec fn wf(&self) -> bool {
        match self {
            Background::Solid(_) => true,
            Background::Frame(frame) => frame.wf(),
        }
    }
}

/// The mean of two bytes, weighted by an opacity in 255ths and rounded to the
/// nearest byte.
pub open spec fn blended(foreground: u8, background: u8, alpha: u8) -> u8 {
    ((2 * (foreground * alpha + background * (255 - alpha)) + 255) / 510) as u8
}

/// A frame laid over a background, with an opacity for each pixel and one for
/// each chroma sample.
pub open spec fn blended_frame(
    foreground: Nv12,
    background: Backdrop,
    luma_mask: Seq<u8>,
    chroma_mask: Seq<u8>,
) -> Nv12 {
    Nv12 {
        size: foreground.size,
        luma: Seq::new(
            foreground.luma.len(),
            |i: int| blended(foreground.luma[i], background.luma_at(i), luma_mask[i]),
        ),
        chroma: Seq::new(
            foreground.chroma.len(),
            |i: int| blended(foreground.chroma[i], background.chroma_at(i), chroma_mask[i / 2]),
        ),
    }
}

/// Whether the parts of a blend fit together; the first misfit is reported.
pub open spec fn blend_check(
    foreground: Dims,
    background: Backdrop,
    luma_mask: nat,
    chroma_mask: nat,
    target: Dims,
) -> Result<(), CoreError> {
    if foreground != target {
        crate::frame::size_check(foreground, target)
    } else if luma_mask != foreground.area() {
        Err(
            CoreError::PlaneSizeMismatch {
                expected: foreground.area() as usize,
                actual: luma_mask as usize,
            },
        )
    } else if chroma_mask != foreground.chroma_area() {
        Err(
            CoreError::PlaneSizeMismatch {
                expected: foreground.chroma_area() as usize,
                actual: chroma_mask as usize,
            },
        )
    } else {
        background.size_check(foreground)
    }
}

/// Blends two bytes without dividing.
#[inline]
pub fn blend(foreground: u8, background: u8, alpha: u8) -> (value: u8)
    ensures
        value == blended(foreground, background, alpha),
{
    let a: u32 = alpha as u32;
    let (f, b): (u32, u32) = (foreground as u32, background as u32);
    proof {
        lemma_weighted_bound(f as int, b as int, a as int);
    }
    let value: u32 = f * a + b * (255 - a) + 128;
    proof {
        lemma_division_by_255(value as int - 128);
    }
    ((value + value / 256) / 256) as u8
}

proof fn lemma_weighted_bound(f: int, b: int, a: int)
    by (nonlinear_arith)
    requires
        0 <= f <= 255,
        0 <= b <= 255,
        0 <= a <= 255,
    ensures
        0 <= f * a <= 65_025,
        0 <= b * (255 - a) <= 65_025,
        0 <= f * a + b * (255 - a) <= 65_025,
{
}

/// Adding a 256th before dividing by 256 divides by 255.
proof fn lemma_division_by_255(sum: int)
    requires
        0 <= sum <= 65_025,
    ensures
        (sum + 128 + (sum + 128) / 256) / 256 == (2 * sum + 255) / 510,
        (2 * sum + 255) / 510 <= 255,
{
}

fn blend_luma(
    foreground: &[u8],
    background: &Background<'_>,
    mask: &[u8],
    target: &mut [u8],
)
    requires
        foreground@.len() == old(target)@.len(),
        mask@.len() == old(target)@.len(),
        background matches Background::Frame(frame) ==> frame@.luma.len() == old(target)@.len(),
    ensures
        final(target)@ == Seq::new(
            foreground@.len(),
            |i: int| blended(foreground@[i], background@.luma_at(i), mask@[i]),
        ),
{
    let mut i: usize = 0;
    while i < foreground.len()
        invariant
            i <= foreground@.len(),
            foreground@.len() == target@.len(),
            mask@.len() == target@.len(),
            background matches Background::Frame(frame) ==> frame@.luma.len() == target@.len(),
            forall|j: int|
                0 <= j < i ==> target@[j] == blended(
                    foreground@[j],
                    background@.luma_at(j),
                    mask@[j],
                ),
        decreases foreground@.len() - i,
    {
        let behind: u8 = match background {
            Background::Solid(color) => color.y,
            Background::Frame(frame) => frame.luma()[i],
        };
        target[i] = blend(foreground[i], behind, mask[i]);
        i = i + 1;
    }
    proof {
        assert(target@ =~= Seq::new(
            foreground@.len(),
            |i: int| blended(foreground@[i], background@.luma_at(i), mask@[i]),
        ));
    }
}

fn blend_chroma(
    foreground: &[u8],
    background: &Background<'_>,
    mask: &[u8],
    target: &mut [u8],
)
    requires
        foreground@.len() == old(target)@.len(),
        mask@.len() * 2 == old(target)@.len(),
        background matches Background::Frame(frame) ==> frame@.chroma.len() == old(target)@.len(),
    ensures
        final(target)@ == Seq::new(
            foreground@.len(),
            |i: int| blended(foreground@[i], background@.chroma_at(i), mask@[i / 2]),
        ),
{
    let mut i: usize = 0;
    while i < foreground.len()
        invariant
            i <= foreground@.len(),
            foreground@.len() == target@.len(),
            mask@.len() * 2 == target@.len(),
            background matches Background::Frame(frame) ==> frame@.chroma.len() == target@.len(),
            forall|j: int|
                0 <= j < i ==> target@[j] == blended(
                    foreground@[j],
                    background@.chroma_at(j),
                    mask@[j / 2],
                ),
        decreases foreground@.len() - i,
    {
        let behind: u8 = match background {
            Background::Solid(color) => if i % 2 == 0 {
                color.u
            } else {
                color.v
            },
            Background::Frame(frame) => frame.chroma()[i],
        };
        target[i] = blend(foreground[i], behind, mask[i / 2]);
        i = i + 1;
    }
    proof {
        assert(target@ =~= Seq::new(
            foreground@.len(),
            |i: int| blended(foreground@[i], background@.chroma_at(i), mask@[i / 2]),
        ));
    }
}

/// Lays a frame over a background.
pub fn blend_nv12(
    foreground: &Nv12Frame,
    background: Background<'_>,
    luma_mask: &[u8],
    chroma_mask: &[u8],
    target: &mut Nv12Frame,
) -> (result: Result<(), CoreError>)
    requires
        foreground.wf(),
        background.wf(),
        old(target).wf(),
    ensures
        result == blend_check(
            foreground@.size,
            background@,
            luma_mask@.len(),
            chroma_mask@.len(),
            old(target)@.size,
        ),
        final(target)@ == if result is Ok {
            blended_frame(foreground@, background@, luma_mask@, chroma_mask@)
        } else {
            old(target)@
        },
        final(target).wf(),
{
    let size = foreground.size();
    match size.ensure_eq(target.size()) {
        Ok(()) => {},
        Err(error) => return Err(error),
    }
    match check_len(size.luma_len(), luma_mask.len()) {
        Ok(()) => {},
        Err(error) => return Err(error),
    }
    match check_len(size.chroma_len() / 2, chroma_mask.len()) {
        Ok(()) => {},
        Err(error) => return Err(error),
    }
    match background {
        Background::Solid(_) => {},
        Background::Frame(frame) => match size.ensure_eq(frame.size()) {
            Ok(()) => {},
            Err(error) => return Err(error),
        },
    }
    let (luma, chroma) = target.planes_mut();
    blend_luma(foreground.luma(), &background, luma_mask, luma);
    blend_chroma(foreground.chroma(), &background, chroma_mask, chroma);
    Ok(())
}

/// The position of the chroma pair of a pixel.
pub open spec fn chroma_pair(size: Dims, column: int, row: int) -> int {
    ((row / 2) * size.chroma_width() + column / 2) * 2
}

/// The YUV colour of a pixel.
pub open spec fn pixel_yuv(frame: Nv12, column: int, row: int) -> Yuv {
    let pair = chroma_pair(frame.size, column, row);
    Yuv {
        y: frame.luma[row * frame.size.width + column],
        u: frame.chroma[pair],
        v: frame.chroma[pair + 1],
    }
}

/// The chroma pair of a pixel lies inside the chroma plane.
pub proof fn lemma_chroma_pair_in_plane(size: Dims, column: int, row: int)
    requires
        size.valid(),
        0 <= column < size.width,
        0 <= row < size.height,
    ensures
        0 <= chroma_pair(size, column, row),
        chroma_pair(size, column, row) + 1 < size.chroma_area() * 2,
{
    crate::arith::lemma_cell_in_plane(row / 2, column / 2, size.chroma_width(), size.chroma_height());
}

/// One byte of a BGRA pixel.
pub open spec fn bgra_byte(rgb: Rgb, alpha: u8, channel: int) -> u8 {
    if channel == 0 {
        rgb.b
    } else if channel == 1 {
        rgb.g
    } else if channel == 2 {
        rgb.r
    } else {
        alpha
    }
}

/// The opacity of a pixel: opaque where there is no mask.
pub open spec fn alpha_at(alpha: Option<Seq<u8>>, pixel: int) -> u8 {
    match alpha {
        Some(mask) => mask[pixel],
        None => 255,
    }
}

/// The bytes of an optional mask.
pub open spec fn mask_bytes(alpha: Option<&[u8]>) -> Option<Seq<u8>> {
    match alpha {
        Some(mask) => Some(mask@),
        None => None,
    }
}

/// A frame as BGRA, with the mask as its alpha channel.
pub open spec fn bgra_of(frame: Nv12, alpha: Option<Seq<u8>>, matrix: ColorMatrix) -> Bgra {
    Bgra {
        size: frame.size,
        data: Seq::new(
            (frame.size.area() * 4) as nat,
            |i: int|
                bgra_byte(
                    matrix.rgb_of(
                        pixel_yuv(
                            frame,
                            (i / 4) % frame.size.width,
                            (i / 4) / frame.size.width,
                        ),
                    ),
                    alpha_at(alpha, i / 4),
                    i % 4,
                ),
        ),
    }
}

/// Whether the parts of a conversion to BGRA fit together.
pub open spec fn bgra_check(frame: Dims, alpha: Option<Seq<u8>>, target: Dims) -> Result<
    (),
    CoreError,
> {
    if frame != target {
        crate::frame::size_check(frame, target)
    } else {
        match alpha {
            Some(mask) if mask.len() != frame.area() => Err(
                CoreError::PlaneSizeMismatch {
                    expected: frame.area() as usize,
                    actual: mask.len() as usize,
                },
            ),
            _ => Ok(()),
        }
    }
}

/// Converts a frame to BGRA.
pub fn nv12_to_bgra(
    frame: &Nv12Frame,
    alpha: Option<&[u8]>,
    matrix: ColorMatrix,
    target: &mut BgraFrame,
) -> (result: Result<(), CoreError>)
    requires
        frame.wf(),
        old(target).wf(),
    ensures
        result == bgra_check(frame@.size, mask_bytes(alpha), old(target)@.size),
        final(target)@ == if result is Ok {
            bgra_of(frame@, mask_bytes(alpha), matrix)
        } else {
            old(target)@
        },
        final(target).wf(),
{
    let size = frame.size();
    match size.ensure_eq(target.size()) {
        Ok(()) => {},
        Err(error) => return Err(error),
    }
    if let Some(mask) = alpha {
        match check_len(size.luma_len(), mask.len()) {
            Ok(()) => {},
            Err(error) => return Err(error),
        }
    }
    let width: usize = size.width() as usize;
    let chroma_width: usize = size.chroma_width() as usize;
    let pixels: usize = size.luma_len();
    let luma = frame.luma();
    let chroma = frame.chroma();
    let data = target.data_mut();
    let ghost mask = mask_bytes(alpha);
    let mut pixel: usize = 0;
    let mut column: usize = 0;
    let mut row: usize = 0;
    while pixel < pixels
        invariant
            frame.wf(),
            pixels == frame@.size.area(),
            width == frame@.size.width,
            chroma_width == frame@.size.chroma_width(),
            luma@ == frame@.luma,
            chroma@ == frame@.chroma,
            mask == mask_bytes(alpha),
            mask matches Some(bytes) ==> bytes.len() == frame@.size.area(),
            data@.len() == frame@.size.area() * 4,
            data@.len() <= usize::MAX,
            pixel <= pixels,
            pixel == row * width + column,
            column < width,
            pixel < pixels ==> row < frame@.size.height,
            forall|j: int|
                #![auto]
                0 <= j < pixel * 4 ==> data@[j] == bgra_of(frame@, mask, matrix).data[j],
        decreases pixels - pixel,
    {
        proof {
            crate::arith::lemma_row_column(row as int, column as int, width as int);
            lemma_chroma_pair_in_plane(frame@.size, column as int, row as int);
            crate::frame::lemma_chroma_is_half(frame@.size);
            crate::arith::lemma_cell_in_plane(
                row as int / 2,
                column as int / 2,
                frame@.size.chroma_width(),
                frame@.size.chroma_height(),
            );
            crate::arith::lemma_product_nonnegative(row as int / 2, chroma_width as int);
        }
        let pair: usize = ((row / 2) * chroma_width + column / 2) * 2;
        let yuv = Yuv { y: luma[pixel], u: chroma[pair], v: chroma[pair + 1] };
        let rgb = matrix.to_rgb(yuv);
        let opacity: u8 = match alpha {
            Some(mask) => mask[pixel],
            None => 255,
        };
        let start: usize = pixel * 4;
        data[start] = rgb.b;
        data[start + 1] = rgb.g;
        data[start + 2] = rgb.r;
        data[start + 3] = opacity;
        proof {
            assert(yuv == pixel_yuv(frame@, column as int, row as int));
            assert forall|j: int| #![auto] 0 <= j < (pixel + 1) * 4 implies data@[j] == bgra_of(
                frame@,
                mask,
                matrix,
            ).data[j] by {
                if j >= pixel * 4 {
                    assert(j / 4 == pixel && j % 4 == j - start);
                }
            }
            lemma_next_cell(pixel as int, column as int, row as int, frame@.size);
        }
        pixel = pixel + 1;
        if column + 1 < width {
            column = column + 1;
        } else {
            column = 0;
            row = row + 1;
        }
    }
    proof {
        assert(data@ =~= bgra_of(frame@, mask, matrix).data);
    }
    Ok(())
}

/// Walking through a plane cell by cell keeps the row and the column in step
/// with the position.
pub proof fn lemma_next_cell(position: int, column: int, row: int, size: Dims)
    requires
        0 <= column < size.width,
        0 <= row < size.height,
        position == row * size.width + column,
    ensures
        column + 1 < size.width ==> position + 1 == row * size.width + (column + 1),
        column + 1 == size.width ==> position + 1 == (row + 1) * size.width,
        position + 1 < size.area() && column + 1 == size.width ==> row + 1 < size.height,
{
    assert((row + 1) * size.width == row * size.width + size.width) by (nonlinear_arith);
    if column + 1 == size.width && row + 1 >= size.height {
        assert(size.width * size.height <= (row + 1) * size.width) by (nonlinear_arith)
            requires
                row + 1 >= size.height,
                size.width > 0,
        ;
    }
}

/// At full opacity a blend is its foreground, at none it is its background, and
/// blending a byte with itself changes nothing.
pub proof fn law_blend_endpoints_are_exact(foreground: u8, background: u8, alpha: u8)
    ensures
        blended(foreground, background, 255) == foreground,
        blended(foreground, background, 0) == background,
        blended(foreground, foreground, alpha) == foreground,
{
    let (f, a) = (foreground as int, alpha as int);
    assert(f * a + f * (255 - a) == 255 * f) by (nonlinear_arith);
}

/// A blend lies between its foreground and its background.
pub proof fn law_blend_stays_between(foreground: u8, background: u8, alpha: u8)
    ensures
        foreground <= background ==> foreground <= blended(foreground, background, alpha)
            <= background,
        background <= foreground ==> background <= blended(foreground, background, alpha)
            <= foreground,
{
    let (f, b, a) = (foreground as int, background as int, alpha as int);
    let sum = f * a + b * (255 - a);
    assert(f <= b ==> 255 * f <= sum <= 255 * b) by (nonlinear_arith)
        requires
            sum == f * a + b * (255 - a),
            0 <= a <= 255,
    ;
    assert(b <= f ==> 255 * b <= sum <= 255 * f) by (nonlinear_arith)
        requires
            sum == f * a + b * (255 - a),
            0 <= a <= 255,
    ;
}

/// Where both masks are opaque everywhere a blend is its foreground, and where
/// they cover nothing it is its background.
pub proof fn law_full_masks_select_a_side(
    foreground: Nv12,
    background: Nv12,
    luma_mask: Seq<u8>,
    chroma_mask: Seq<u8>,
)
    requires
        foreground.valid(),
        background.valid(),
        background.size == foreground.size,
        luma_mask.len() == foreground.size.area(),
        chroma_mask.len() == foreground.size.chroma_area(),
    ensures
        (forall|i: int| 0 <= i < luma_mask.len() ==> luma_mask[i] == 255) && (forall|i: int|
            0 <= i < chroma_mask.len() ==> chroma_mask[i] == 255) ==> blended_frame(
            foreground,
            Backdrop::Frame(background),
            luma_mask,
            chroma_mask,
        ) == foreground,
        (forall|i: int| 0 <= i < luma_mask.len() ==> luma_mask[i] == 0) && (forall|i: int|
            0 <= i < chroma_mask.len() ==> chroma_mask[i] == 0) ==> blended_frame(
            foreground,
            Backdrop::Frame(background),
            luma_mask,
            chroma_mask,
        ) == background,
{
    let result = blended_frame(foreground, Backdrop::Frame(background), luma_mask, chroma_mask);
    assert forall|f: u8, b: u8| #![trigger blended(f, b, 255)] blended(f, b, 255) == f by {
        law_blend_endpoints_are_exact(f, b, 255);
    }
    assert forall|f: u8, b: u8| #![trigger blended(f, b, 0)] blended(f, b, 0) == b by {
        law_blend_endpoints_are_exact(f, b, 0);
    }
    if (forall|i: int| 0 <= i < luma_mask.len() ==> luma_mask[i] == 255) && (forall|i: int|
        0 <= i < chroma_mask.len() ==> chroma_mask[i] == 255) {
        assert(result.luma =~= foreground.luma);
        assert(result.chroma =~= foreground.chroma);
    }
    if (forall|i: int| 0 <= i < luma_mask.len() ==> luma_mask[i] == 0) && (forall|i: int|
        0 <= i < chroma_mask.len() ==> chroma_mask[i] == 0) {
        assert(result.luma =~= background.luma);
        assert(result.chroma =~= background.chroma);
    }
}

/// The colour of a pixel in BGRA is that of its own luma byte and of the chroma pair
/// of the square of four that it lies in: blue, green and red come out in this order,
/// and the opacity is the mask's byte for the pixel.
pub proof fn law_a_pixel_has_its_own_colour(
    frame: Nv12,
    alpha: Option<Seq<u8>>,
    matrix: ColorMatrix,
    column: int,
    row: int,
)
    requires
        frame.valid(),
        0 <= column < frame.size.width,
        0 <= row < frame.size.height,
    ensures
        ({
            let width = frame.size.width;
            let pixel = row * width + column;
            let pair = ((row / 2) * (width / 2) + column / 2) * 2;
            let color = matrix.rgb_of(
                Yuv { y: frame.luma[pixel], u: frame.chroma[pair], v: frame.chroma[pair + 1] },
            );
            let data = bgra_of(frame, alpha, matrix).data;
            &&& 0 <= pixel * 4 && pixel * 4 + 3 < data.len()
            &&& 0 <= pair && pair + 1 < frame.chroma.len()
            &&& data[pixel * 4] == color.b
            &&& data[pixel * 4 + 1] == color.g
            &&& data[pixel * 4 + 2] == color.r
            &&& data[pixel * 4 + 3] == match alpha {
                Some(mask) => mask[pixel],
                None => 255,
            }
        }),
{
    let pixel = row * frame.size.width + column;
    crate::arith::lemma_row_column(row, column, frame.size.width);
    crate::arith::lemma_cell_in_plane(row, column, frame.size.width, frame.size.height);
    lemma_chroma_pair_in_plane(frame.size, column, row);
    assert((pixel * 4) / 4 == pixel && (pixel * 4) % 4 == 0);
    assert((pixel * 4 + 1) / 4 == pixel && (pixel * 4 + 1) % 4 == 1);
    assert((pixel * 4 + 2) / 4 == pixel && (pixel * 4 + 2) % 4 == 2);
    assert((pixel * 4 + 3) / 4 == pixel && (pixel * 4 + 3) % 4 == 3);
}

/// A pixel of a frame in BGRA looks as it does in any other frame that has the same
/// luma byte and the same chroma pair there, whatever the rest of the two is.
pub proof fn law_other_chroma_leaves_a_pixel_alone(
    frame: Nv12,
    other: Nv12,
    alpha: Option<Seq<u8>>,
    matrix: ColorMatrix,
    column: int,
    row: int,
)
    requires
        frame.valid(),
        other.valid(),
        frame.size == other.size,
        0 <= column < frame.size.width,
        0 <= row < frame.size.height,
        ({
            let width = frame.size.width;
            let pixel = row * width + column;
            let pair = ((row / 2) * (width / 2) + column / 2) * 2;
            &&& frame.luma[pixel] == other.luma[pixel]
            &&& frame.chroma[pair] == other.chroma[pair]
            &&& frame.chroma[pair + 1] == other.chroma[pair + 1]
        }),
    ensures
        ({
            let start = (row * frame.size.width + column) * 4;
            bgra_of(frame, alpha, matrix).data.subrange(start, start + 4) == bgra_of(
                other,
                alpha,
                matrix,
            ).data.subrange(start, start + 4)
        }),
{
    law_a_pixel_has_its_own_colour(frame, alpha, matrix, column, row);
    law_a_pixel_has_its_own_colour(other, alpha, matrix, column, row);
    let start = (row * frame.size.width + column) * 4;
    let (a, b) = (
        bgra_of(frame, alpha, matrix).data.subrange(start, start + 4),
        bgra_of(other, alpha, matrix).data.subrange(start, start + 4),
    );
    assert(a =~= b);
}

/// A frame with one colour in its upper left part, which may reach across or down all
/// of it, and another colour elsewhere turns into BGRA with the same parts.
pub proof fn law_parts_keep_their_colours(
    frame: Nv12,
    first: Yuv,
    second: Yuv,
    columns: int,
    rows: int,
    matrix: ColorMatrix,
    column: int,
    row: int,
)
    requires
        frame.valid(),
        0 <= column < frame.size.width,
        0 <= row < frame.size.height,
        forall|x: int, y: int|
            #![trigger frame.luma[y * frame.size.width + x]]
            0 <= x < frame.size.width && 0 <= y < frame.size.height ==> frame.luma[y
                * frame.size.width + x] == if x < 2 * columns && y < 2 * rows {
                first.y
            } else {
                second.y
            },
        forall|x: int, y: int|
            #![trigger frame.chroma[(y * (frame.size.width / 2) + x) * 2]]
            0 <= x < frame.size.width / 2 && 0 <= y < frame.size.height / 2 ==> {
                let color = if x < columns && y < rows {
                    first
                } else {
                    second
                };
                &&& frame.chroma[(y * (frame.size.width / 2) + x) * 2] == color.u
                &&& frame.chroma[(y * (frame.size.width / 2) + x) * 2 + 1] == color.v
            },
    ensures
        ({
            let data = bgra_of(frame, None, matrix).data;
            let at = (row * frame.size.width + column) * 4;
            let color = matrix.rgb_of(
                if column < 2 * columns && row < 2 * rows {
                    first
                } else {
                    second
                },
            );
            &&& data[at] == color.b
            &&& data[at + 1] == color.g
            &&& data[at + 2] == color.r
            &&& data[at + 3] == 255
        }),
{
    law_a_pixel_has_its_own_colour(frame, None, matrix, column, row);
    let (x, y) = (column / 2, row / 2);
    assert(frame.luma[row * frame.size.width + column] == frame.luma[row * frame.size.width
        + column]);
    assert(frame.chroma[(y * (frame.size.width / 2) + x) * 2] == frame.chroma[(y * (
    frame.size.width / 2) + x) * 2]);
}

/// Each pixel of a blend is mixed from its own luma bytes by its own opacity, to
/// within rounding: the foreground where it is opaque, what lies behind where it is
/// not covered, be that a frame or a colour.
pub proof fn law_luma_is_blended_pixel_by_pixel(
    foreground: Nv12,
    background: Backdrop,
    luma_mask: Seq<u8>,
    chroma_mask: Seq<u8>,
    pixel: int,
)
    requires
        foreground.valid(),
        0 <= pixel < foreground.luma.len(),
    ensures
        ({
            let value = blended_frame(foreground, background, luma_mask, chroma_mask).luma[pixel];
            let (front, share) = (foreground.luma[pixel], luma_mask[pixel]);
            let behind = match background {
                Backdrop::Solid(color) => color.y,
                Backdrop::Frame(frame) => frame.luma[pixel],
            };
            mixes(value, front, behind, share)
        }),
{
    law_blends_are_rounded_means(
        foreground.luma[pixel],
        background.luma_at(pixel),
        luma_mask[pixel],
    );
}

/// Each chroma sample of a blend is mixed from its own pairs by its own opacity, one
/// for both bytes, to within rounding.
pub proof fn law_chroma_is_blended_pair_by_pair(
    foreground: Nv12,
    background: Backdrop,
    luma_mask: Seq<u8>,
    chroma_mask: Seq<u8>,
    sample: int,
)
    requires
        foreground.valid(),
        0 <= sample < foreground.size.chroma_area(),
    ensures
        ({
            let chroma = blended_frame(foreground, background, luma_mask, chroma_mask).chroma;
            let (u, v) = match background {
                Backdrop::Solid(color) => (color.u, color.v),
                Backdrop::Frame(frame) => (frame.chroma[sample * 2], frame.chroma[sample * 2 + 1]),
            };
            &&& mixes(
                chroma[sample * 2],
                foreground.chroma[sample * 2],
                u,
                chroma_mask[sample],
            )
            &&& mixes(
                chroma[sample * 2 + 1],
                foreground.chroma[sample * 2 + 1],
                v,
                chroma_mask[sample],
            )
        }),
{
    let (a, b) = (sample * 2, sample * 2 + 1);
    assert(a / 2 == sample && b / 2 == sample && a % 2 == 0 && b % 2 == 1);
    law_blends_are_rounded_means(
        foreground.chroma[a],
        background.chroma_at(a),
        chroma_mask[sample],
    );
    law_blends_are_rounded_means(
        foreground.chroma[b],
        background.chroma_at(b),
        chroma_mask[sample],
    );
}

/// A byte is the nearest to the mean of two others, weighted by an opacity in 255ths.
pub open spec fn mixes(value: u8, front: u8, behind: u8, share: u8) -> bool {
    -255 <= 2 * (255 * value - front * share - behind * (255 - share)) <= 255
}

/// A blend is the byte nearest to the weighted mean.
pub proof fn law_blends_are_rounded_means(foreground: u8, background: u8, alpha: u8)
    ensures
        mixes(blended(foreground, background, alpha), foreground, background, alpha),
{
    let (f, b, a) = (foreground as int, background as int, alpha as int);
    lemma_weighted_bound(f, b, a);
    lemma_division_by_255(f * a + b * (255 - a));
}

} // verus!
