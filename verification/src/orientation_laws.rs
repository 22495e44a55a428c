//! Where the pixels of a frame go when it is turned and mirrored.

use vstd::prelude::*;

use crate::color::ColorMatrix;
use crate::frame::Nv12;
use crate::orientation::{Cell, Orientation, Rotation};

verus! {

/// A cell of a grid of `width` by `height` cells that is mirrored and then
/// turned stands here.
pub open spec fn place(
    orientation: Orientation,
    column: int,
    row: int,
    width: int,
    height: int,
) -> (int, int) {
    let x = if orientation.mirror_horizontal {
        width - 1 - column
    } else {
        column
    };
    let y = if orientation.mirror_vertical {
        height - 1 - row
    } else {
        row
    };
    match orientation.rotation {
        Rotation::Upright => (x, y),
        Rotation::Clockwise90 => (height - 1 - y, x),
        Rotation::Clockwise180 => (width - 1 - x, height - 1 - y),
        Rotation::Clockwise270 => (y, width - 1 - x),
    }
}

/// The place of a cell is the one that shows it.
proof fn lemma_place(orientation: Orientation, column: int, row: int, width: int, height: int)
    requires
        0 <= column < width,
        0 <= row < height,
    ensures
        ({
            let (x, y) = place(orientation, column, row, width, height);
            &&& 0 <= x < if orientation.swaps() { height } else { width }
            &&& 0 <= y < if orientation.swaps() { width } else { height }
            &&& orientation.source_cell(x, y, width, height) == (Cell { x: column, y: row })
        }),
{
}

/// A quarter turn clockwise takes the left column of a frame to its top row,
/// one anticlockwise takes it to the bottom row, half a turn takes it to the
/// right; mirroring comes first. Each pixel goes there with its luma, and with
/// the chroma of the two by two pixels that it stands in.
pub proof fn law_pixels_keep_their_colour_when_turned(
    orientation: Orientation,
    frame: Nv12,
    column: int,
    row: int,
)
    requires
        frame.valid(),
        0 <= column < frame.size.width,
        0 <= row < frame.size.height,
    ensures
        ({
            let (width, height) = (frame.size.width, frame.size.height);
            let x = if orientation.mirror_horizontal {
                width - 1 - column
            } else {
                column
            };
            let y = if orientation.mirror_vertical {
                height - 1 - row
            } else {
                row
            };
            let (to_column, to_row) = match orientation.rotation {
                Rotation::Upright => (x, y),
                Rotation::Clockwise90 => (height - 1 - y, x),
                Rotation::Clockwise180 => (width - 1 - x, height - 1 - y),
                Rotation::Clockwise270 => (y, width - 1 - x),
            };
            let on_its_side = orientation.rotation == Rotation::Clockwise90 || orientation.rotation
                == Rotation::Clockwise270;
            let turned = orientation.oriented(frame);
            let (to_width, to_height) = (turned.size.width, turned.size.height);
            let pair = ((row / 2) * (width / 2) + column / 2) * 2;
            let to_pair = ((to_row / 2) * (to_width / 2) + to_column / 2) * 2;
            &&& (to_width, to_height) == if on_its_side {
                (height, width)
            } else {
                (width, height)
            }
            &&& 0 <= to_column < to_width
            &&& 0 <= to_row < to_height
            &&& turned.luma[to_row * to_width + to_column] == frame.luma[row * width + column]
            &&& turned.chroma[to_pair] == frame.chroma[pair]
            &&& turned.chroma[to_pair + 1] == frame.chroma[pair + 1]
        }),
{
    let (width, height) = (frame.size.width, frame.size.height);
    let (half_width, half_height) = (frame.size.chroma_width(), frame.size.chroma_height());
    crate::frame::lemma_chroma_is_half(frame.size);
    let (x, y) = place(orientation, column, row, width, height);
    lemma_place(orientation, column, row, width, height);
    crate::orientation::lemma_oriented_byte(
        orientation,
        frame.luma,
        width,
        height,
        1,
        x,
        y,
        0,
    );
    let (u, v) = place(orientation, column / 2, row / 2, half_width, half_height);
    lemma_place(orientation, column / 2, row / 2, half_width, half_height);
    assert(u == x / 2 && v == y / 2);
    crate::orientation::lemma_oriented_byte(
        orientation,
        frame.chroma,
        half_width,
        half_height,
        2,
        u,
        v,
        0,
    );
    crate::orientation::lemma_oriented_byte(
        orientation,
        frame.chroma,
        half_width,
        half_height,
        2,
        u,
        v,
        1,
    );
}

/// A frame that is turned and mirrored shows the same pixels in the same
/// colours, each where it went.
pub proof fn law_turned_frames_show_the_same_pixels(
    orientation: Orientation,
    frame: Nv12,
    matrix: ColorMatrix,
    column: int,
    row: int,
)
    requires
        frame.valid(),
        0 <= column < frame.size.width,
        0 <= row < frame.size.height,
    ensures
        ({
            let (width, height) = (frame.size.width, frame.size.height);
            let (to_column, to_row) = place(orientation, column, row, width, height);
            let turned = orientation.oriented(frame);
            let from = crate::composite::bgra_of(frame, None, matrix).data;
            let to = crate::composite::bgra_of(turned, None, matrix).data;
            let at = (row * width + column) * 4;
            let to_at = (to_row * turned.size.width + to_column) * 4;
            &&& from.len() == to.len()
            &&& to[to_at] == from[at]
            &&& to[to_at + 1] == from[at + 1]
            &&& to[to_at + 2] == from[at + 2]
            &&& to[to_at + 3] == from[at + 3]
        }),
{
    let turned = orientation.oriented(frame);
    let (x, y) = place(orientation, column, row, frame.size.width, frame.size.height);
    lemma_place(orientation, column, row, frame.size.width, frame.size.height);
    crate::orientation::law_oriented_frames_are_valid(orientation, frame);
    crate::frame::lemma_swapped_area(frame.size);
    law_pixels_keep_their_colour_when_turned(orientation, frame, column, row);
    crate::composite::law_a_pixel_has_its_own_colour(frame, None, matrix, column, row);
    crate::composite::law_a_pixel_has_its_own_colour(turned, None, matrix, x, y);
}

} // verus!
