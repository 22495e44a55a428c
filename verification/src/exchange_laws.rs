//! How the bytes of frames stand in buffers, at either end of the application.

use vstd::prelude::*;

use crate::frame::{Dims, Nv12};

verus! {

/// A row of a frame stands in a camera's buffer at the distance of its rows from the
/// first, upwards where the distance is negative. The rows of chroma go on where
/// those of luma end: one for each two rows of pixels, with the two bytes of each
/// two pixels in the columns that those have in luma.
pub proof fn law_rows_are_taken_over_in_order(
    size: Dims,
    bytes: Seq<u8>,
    origin: int,
    pitch: int,
    column: int,
    row: int,
)
    requires
        size.valid(),
        0 <= column < size.width,
        0 <= row < size.height,
    ensures
        ({
            let frame = crate::source::pitched_frame(size, bytes, origin, pitch);
            let pair = ((row / 2) * (size.width / 2) + column / 2) * 2;
            let chroma_row = origin + pitch * (size.height + row / 2);
            &&& frame.size == size
            &&& frame.luma.len() == size.area()
            &&& frame.chroma.len() == size.chroma_area() * 2
            &&& frame.luma[row * size.width + column] == bytes[origin + pitch * row + column]
            &&& frame.chroma[pair] == bytes[chroma_row + 2 * (column / 2)]
            &&& frame.chroma[pair + 1] == bytes[chroma_row + 2 * (column / 2) + 1]
        }),
{
    let (w, h) = (size.width / 2, size.height / 2);
    crate::frame::lemma_chroma_is_half(size);
    lemma_planes(size);
    let (x, y) = (column / 2, row / 2);
    crate::arith::lemma_row_column(row, column, size.width);
    crate::arith::lemma_cell_in_plane(row, column, size.width, size.height);
    crate::arith::lemma_row_column(y, 2 * x, size.width);
    crate::arith::lemma_row_column(y, 2 * x + 1, size.width);
    crate::arith::lemma_cell_in_plane(y, 2 * x, size.width, h);
    crate::arith::lemma_cell_in_plane(y, 2 * x + 1, size.width, h);
    assert((y * w + x) * 2 == y * size.width + 2 * x) by (nonlinear_arith)
        requires
            size.width == 2 * w,
    ;
    let frame = crate::source::pitched_frame(size, bytes, origin, pitch);
    let (first, second) = (y * size.width + 2 * x, y * size.width + 2 * x + 1);
    assert(frame.luma.len() == size.area());
    assert(frame.chroma.len() == size.chroma_area() * 2);
    assert(frame.luma[row * size.width + column] == crate::source::pitched_byte(
        bytes,
        origin,
        pitch,
        0 + row,
        column,
    ));
    assert(frame.chroma[first] == crate::source::pitched_byte(
        bytes,
        origin,
        pitch,
        size.height + y,
        2 * x,
    ));
    assert(frame.chroma[second] == crate::source::pitched_byte(
        bytes,
        origin,
        pitch,
        size.height + y,
        2 * x + 1,
    ));
}

/// The lengths of the planes, counted by rows.
proof fn lemma_planes(size: Dims)
    requires
        size.valid(),
    ensures
        size.width == 2 * (size.width / 2),
        size.height == 2 * (size.height / 2),
        size.width * (size.height / 2) == size.chroma_area() * 2,
        0 <= size.width * size.height,
        0 <= size.width * (size.height / 2),
{
    crate::frame::lemma_chroma_is_half(size);
    let (w, h) = (size.width / 2, size.height / 2);
    assert((2 * w) * h == (w * h) * 2) by (nonlinear_arith);
    crate::arith::lemma_product_nonnegative(size.width, size.height);
    crate::arith::lemma_product_nonnegative(size.width, h);
}

/// A buffer without gaps between its rows holds the same frame, however it is taken
/// over.
pub proof fn law_rows_without_gaps_are_contiguous(size: Dims, bytes: Seq<u8>)
    requires
        size.valid(),
        bytes.len() >= size.area() + size.chroma_area() * 2,
    ensures
        crate::source::contiguous_frame(size, bytes) == crate::source::pitched_frame(
            size,
            bytes,
            0,
            size.width,
        ),
{
    lemma_planes(size);
    let h = size.height / 2;
    let whole = crate::source::contiguous_frame(size, bytes);
    let rows = crate::source::pitched_frame(size, bytes, 0, size.width);
    assert forall|i: int| 0 <= i < whole.luma.len() implies #[trigger] whole.luma[i]
        == rows.luma[i] by {
        crate::arith::lemma_position_in_plane(i, size.width, size.height);
        assert(size.width * (i / size.width) == (i / size.width) * size.width) by (nonlinear_arith);
    }
    assert forall|i: int| 0 <= i < whole.chroma.len() implies #[trigger] whole.chroma[i]
        == rows.chroma[i] by {
        crate::arith::lemma_position_in_plane(i, size.width, h);
        let row = i / size.width;
        assert(size.width * (size.height + row) == size.width * size.height + row * size.width)
            by (nonlinear_arith);
    }
    assert(whole.luma =~= rows.luma);
    assert(whole.chroma =~= rows.chroma);
}

/// A frame that is written part by part, luma before chroma, is the frame that is read
/// from the bytes.
pub proof fn law_published_frames_are_read_again(frame: Nv12, parts: Seq<&[u8]>, rest: Seq<u8>)
    requires
        frame.valid(),
        parts.len() == 2,
        parts[0]@ == frame.luma,
        parts[1]@ == frame.chroma,
    ensures
        crate::region::joined(parts).len() == frame.size.area() + frame.size.chroma_area() * 2,
        crate::source::contiguous_frame(frame.size, crate::region::joined(parts) + rest) == frame,
{
    let first = parts.drop_last();
    assert(first.drop_last().len() == 0);
    assert(crate::region::joined(first.drop_last()) =~= Seq::<u8>::empty());
    assert(first.last() == parts[0]);
    assert(crate::region::joined(first) =~= frame.luma);
    let bytes = crate::region::joined(parts);
    assert(bytes =~= frame.luma + frame.chroma);
    lemma_planes(frame.size);
    let again = crate::source::contiguous_frame(frame.size, bytes + rest);
    assert(again.luma =~= frame.luma);
    assert(again.chroma =~= frame.chroma);
}

/// The test picture brightens from left to right, is alike in all rows and has no
/// colour; a bar in it is brighter than the rest.
pub proof fn law_the_test_picture_is_a_ramp_with_a_bar(
    size: Dims,
    frame_number: int,
    column: int,
    row: int,
)
    requires
        size.valid(),
        0 <= frame_number,
        0 <= column < size.width,
        0 <= row < size.height,
    ensures
        ({
            let frame = crate::source::test_picture(size, frame_number);
            let value = frame.luma[row * size.width + column];
            let start = (8 * frame_number) % size.width;
            let pair = ((row / 2) * (size.width / 2) + column / 2) * 2;
            &&& frame.size == size
            &&& frame.luma.len() == size.area()
            &&& frame.chroma.len() == size.chroma_area() * 2
            &&& value == 235 <==> start <= column && 16 * (column - start + 1) <= size.width
            &&& value != 235 ==> 200 * column - size.width < (value - 16) * size.width <= 200
                * column
            &&& value <= 235
            &&& frame.chroma[pair] == 128
            &&& frame.chroma[pair + 1] == 128
        }),
{
    lemma_planes(size);
    crate::arith::lemma_row_column(row, column, size.width);
    crate::arith::lemma_cell_in_plane(row, column, size.width, size.height);
    crate::composite::lemma_chroma_pair_in_plane(size, column, row);
    let w = size.width;
    let ramp = (column * 200) / w;
    vstd::arithmetic::div_mod::lemma_fundamental_div_mod(column * 200, w);
    assert(0 <= ramp < 200) by (nonlinear_arith)
        requires
            column * 200 == w * ramp + (column * 200) % w,
            0 <= (column * 200) % w < w,
            0 <= column < w,
    ;
    assert(w * ramp == ramp * w) by (nonlinear_arith);
    let frame = crate::source::test_picture(size, frame_number);
    let value = frame.luma[row * w + column];
    assert(value == crate::source::test_luma(w, frame_number, column));
    let start = (8 * frame_number) % w;
    assert(start == (frame_number * 8) % w);
    assert(column < start + w / 16 <==> 16 * (column - start + 1) <= w);
    if value != 235 {
        assert(value - 16 == ramp);
        assert((value - 16) * w == ramp * w);
    }
}

} // verus!
