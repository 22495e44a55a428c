//! Arithmetic facts and small integer helpers shared by the image modules.

use vstd::prelude::*;

verus! {

/// A position in row-major order splits back into its row and its column.
pub proof fn lemma_row_column(row: int, column: int, width: int)
    requires
        0 <= column < width,
        0 <= row,
    ensures
        (row * width + column) / width == row,
        (row * width + column) % width == column,
        0 <= row * width + column,
{
    vstd::arithmetic::div_mod::lemma_fundamental_div_mod_converse(
        row * width + column,
        width,
        row,
        column,
    );
    assert(0 <= row * width) by (nonlinear_arith)
        requires
            0 <= row,
            0 < width,
    ;
}

/// The row and the column of a position inside a plane are inside the plane.
pub proof fn lemma_position_in_plane(position: int, width: int, height: int)
    requires
        0 < width,
        0 <= position < width * height,
    ensures
        0 <= position / width < height,
        0 <= position % width < width,
        position == (position / width) * width + position % width,
{
    vstd::arithmetic::div_mod::lemma_fundamental_div_mod(position, width);
    assert(0 <= position / width < height && width * (position / width) == (position / width)
        * width) by (nonlinear_arith)
        requires
            0 < width,
            0 <= position < width * height,
            position == width * (position / width) + position % width,
            0 <= position % width < width,
    ;
}

/// A cell inside a plane has its row-major position inside the plane.
pub proof fn lemma_cell_in_plane(row: int, column: int, width: int, height: int)
    requires
        0 <= column < width,
        0 <= row < height,
    ensures
        0 <= row * width + column < width * height,
{
    assert(0 <= row * width + column < width * height) by (nonlinear_arith)
        requires
            0 <= column < width,
            0 <= row < height,
    ;
}

/// A product of two naturals is a natural.
pub proof fn lemma_product_nonnegative(a: int, b: int)
    requires
        0 <= a,
        0 <= b,
    ensures
        0 <= a * b,
{
    assert(0 <= a * b) by (nonlinear_arith)
        requires
            0 <= a,
            0 <= b,
    ;
}

/// A product grows with its factors.
pub proof fn lemma_product_monotone(a: int, b: int, c: int, d: int)
    requires
        0 <= a <= c,
        0 <= b <= d,
    ensures
        0 <= a * b <= c * d,
{
    assert(0 <= a * b <= c * d) by (nonlinear_arith)
        requires
            0 <= a <= c,
            0 <= b <= d,
    ;
}

/// Divides by 256, rounding towards negative infinity.
pub fn floor_256(value: i32) -> (quotient: i32)
    requires
        value > i32::MIN + 256,
    ensures
        quotient == value as int / 256,
{
    if value >= 0 {
        value / 256
    } else {
        -((255 - value) / 256)
    }
}

} // verus!
