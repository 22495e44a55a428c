//! Walking over the bytes of a plane row by row.

use vstd::prelude::*;

verus! {

/// The column of a byte of a plane.
pub open spec fn column_of(position: int, width: int, channels: int) -> int {
    (position / channels) % width
}

/// The row of a byte of a plane.
pub open spec fn row_of(position: int, width: int, channels: int) -> int {
    (position / channels) / width
}

/// The channel of a byte of a plane.
pub open spec fn channel_of(position: int, channels: int) -> int {
    position % channels
}

/// The position of the byte of a cell.
pub open spec fn byte_at(column: int, row: int, channel: int, width: int, channels: int) -> int {
    (row * width + column) * channels + channel
}

/// A byte of a plane, known by its position and by its row, column and channel.
pub struct Cursor {
    pub position: usize,
    pub column: usize,
    pub row: usize,
    pub channel: usize,
    pub width: usize,
    pub channels: usize,
}

impl Cursor {
    pub open spec fn wf(&self) -> bool {
        &&& self.column < self.width
        &&& self.channel < self.channels
        &&& self.position == byte_at(
            self.column as int,
            self.row as int,
            self.channel as int,
            self.width as int,
            self.channels as int,
        )
    }

    /// The first byte of a plane.
    pub fn start(width: usize, channels: usize) -> (cursor: Self)
        requires
            0 < width,
            0 < channels,
        ensures
            cursor.wf(),
            cursor.position == 0,
            cursor.width == width,
            cursor.channels == channels,
    {
        proof {
            assert(0 * width == 0 && 0 * channels == 0) by (nonlinear_arith);
        }
        Cursor { position: 0, column: 0, row: 0, channel: 0, width, channels }
    }

    /// The next byte.
    pub fn advance(&mut self)
        requires
            old(self).wf(),
            old(self).position < usize::MAX,
        ensures
            final(self).wf(),
            final(self).position == old(self).position + 1,
            final(self).width == old(self).width,
            final(self).channels == old(self).channels,
    {
        proof {
            let (w, c) = (self.width as int, self.channels as int);
            let pixel = self.row * w + self.column;
            assert((pixel + 1) * c == pixel * c + c) by (nonlinear_arith);
            assert((self.row + 1) * w == self.row * w + w) by (nonlinear_arith);
            assert(self.row <= self.row * w) by (nonlinear_arith)
                requires
                    0 < w,
                    0 <= self.row,
            ;
            assert(pixel <= pixel * c) by (nonlinear_arith)
                requires
                    0 < c,
                    0 <= pixel,
            ;
        }
        self.position = self.position + 1;
        if self.channel + 1 < self.channels {
            self.channel = self.channel + 1;
        } else {
            self.channel = 0;
            if self.column + 1 < self.width {
                self.column = self.column + 1;
            } else {
                self.column = 0;
                self.row = self.row + 1;
            }
        }
    }

    /// The position splits into the row, the column and the channel, and inside
    /// a plane the row is one of the plane's.
    pub proof fn lemma_cell(&self, height: int)
        requires
            self.wf(),
        ensures
            column_of(self.position as int, self.width as int, self.channels as int)
                == self.column,
            row_of(self.position as int, self.width as int, self.channels as int) == self.row,
            channel_of(self.position as int, self.channels as int) == self.channel,
            self.position < self.width * height * self.channels ==> self.row < height,
    {
        let (w, c) = (self.width as int, self.channels as int);
        let pixel = self.row * w + self.column;
        crate::arith::lemma_row_column(self.row as int, self.column as int, w);
        crate::arith::lemma_row_column(pixel, self.channel as int, c);
        if self.row >= height && 0 <= height {
            assert(self.row * w >= w * height) by (nonlinear_arith)
                requires
                    self.row >= height,
                    0 < w,
            ;
            assert(pixel * c >= w * height * c) by (nonlinear_arith)
                requires
                    pixel >= w * height,
                    0 < c,
            ;
        }
        if height < 0 {
            assert(w * height * c < 0) by (nonlinear_arith)
                requires
                    height < 0,
                    0 < w,
                    0 < c,
            ;
        }
    }
}

/// A byte of a plane belongs to a cell of the plane.
pub proof fn lemma_byte_in_plane(position: int, width: int, height: int, channels: int)
    requires
        0 < channels,
        0 <= width,
        0 <= position < width * height * channels,
    ensures
        0 < width,
        0 <= column_of(position, width, channels) < width,
        0 <= row_of(position, width, channels) < height,
        0 <= channel_of(position, channels) < channels,
        position == byte_at(
            column_of(position, width, channels),
            row_of(position, width, channels),
            channel_of(position, channels),
            width,
            channels,
        ),
{
    assert(channels * (width * height) == width * height * channels) by (nonlinear_arith);
    crate::arith::lemma_position_in_plane(position, channels, width * height);
    let pixel = position / channels;
    assert(0 < width) by (nonlinear_arith)
        requires
            0 <= pixel < width * height,
            0 <= width,
    ;
    crate::arith::lemma_position_in_plane(pixel, width, height);
}

/// A cell of a plane has its bytes in the plane.
pub proof fn lemma_cell_in_plane(
    column: int,
    row: int,
    channel: int,
    width: int,
    height: int,
    channels: int,
)
    requires
        0 <= column < width,
        0 <= row < height,
        0 <= channel < channels,
    ensures
        0 <= row * width,
        0 <= row * width + column < width * height,
        0 <= row * width + column <= (row * width + column) * channels,
        0 <= byte_at(column, row, channel, width, channels) < width * height * channels,
        channel_of(byte_at(column, row, channel, width, channels), channels) == channel,
        column_of(byte_at(column, row, channel, width, channels), width, channels) == column,
        row_of(byte_at(column, row, channel, width, channels), width, channels) == row,
{
    crate::arith::lemma_product_nonnegative(row, width);
    crate::arith::lemma_cell_in_plane(row, column, width, height);
    let cell = row * width + column;
    crate::arith::lemma_cell_in_plane(cell, channel, channels, width * height);
    assert(channels * (width * height) == width * height * channels) by (nonlinear_arith);
    assert(cell <= cell * channels) by (nonlinear_arith)
        requires
            0 <= cell,
            0 < channels,
    ;
    crate::arith::lemma_row_column(row, column, width);
    crate::arith::lemma_row_column(cell, channel, channels);
}

} // verus!
