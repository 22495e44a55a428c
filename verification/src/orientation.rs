//! Turning and mirroring frames.

use vstd::prelude::*;

use crate::error::CoreError;
use crate::frame::{Dims, FrameSize, Nv12, Nv12Frame};

verus! {

#[derive(Clone, Copy, Debug, Default, PartialEq, Eq, Hash, Structural)]
pub enum Rotation {
    #[default]
    Upright,
    Clockwise90,
    Clockwise180,
    Clockwise270,
}

#[derive(Clone, Copy, Debug, Default, PartialEq, Eq, Hash, Structural)]
pub struct Orientation {
    pub rotation: Rotation,
    pub mirror_horizontal: bool,
    pub mirror_vertical: bool,
}

/// A cell of a grid by its column and its row.
pub struct Cell {
    pub x: int,
    pub y: int,
}

/// The orientation that leaves a frame as it is.
pub open spec fn upright() -> Orientation {
    Orientation {
        rotation: Rotation::Upright,
        mirror_horizontal: false,
        mirror_vertical: false,
    }
}

/// A turn without mirroring.
pub open spec fn turn(rotation: Rotation) -> Orientation {
    Orientation { rotation, mirror_horizontal: false, mirror_vertical: false }
}

impl Orientation {
    /// Whether the orientation turns a frame on its side.
    pub open spec fn swaps(self) -> bool {
        self.rotation == Rotation::Clockwise90 || self.rotation == Rotation::Clockwise270
    }

    /// The mirroring of the orientation, without its turn.
    pub open spec fn mirroring(self) -> Orientation {
        Orientation { rotation: Rotation::Upright, ..self }
    }

    /// The size of a frame of a size, oriented.
    pub open spec fn oriented_size(self, size: Dims) -> Dims {
        if self.swaps() {
            size.swapped()
        } else {
            size
        }
    }

    /// The cell of a `width` by `height` grid that is shown at a cell of the
    /// oriented grid. The source is mirrored first and turned afterwards.
    pub open spec fn source_cell(self, x: int, y: int, width: int, height: int) -> Cell {
        let turned = match self.rotation {
            Rotation::Upright => Cell { x, y },
            Rotation::Clockwise90 => Cell { x: y, y: height - 1 - x },
            Rotation::Clockwise180 => Cell { x: width - 1 - x, y: height - 1 - y },
            Rotation::Clockwise270 => Cell { x: width - 1 - y, y: x },
        };
        Cell {
            x: if self.mirror_horizontal {
                width - 1 - turned.x
            } else {
                turned.x
            },
            y: if self.mirror_vertical {
                height - 1 - turned.y
            } else {
                turned.y
            },
        }
    }

    /// A plane of cells of some bytes each, oriented.
    pub open spec fn oriented_plane(
        self,
        plane: Seq<u8>,
        width: int,
        height: int,
        bytes: int,
    ) -> Seq<u8> {
        let out_width = if self.swaps() {
            height
        } else {
            width
        };
        Seq::new(
            (width * height * bytes) as nat,
            |i: int|
                {
                    let pixel = i / bytes;
                    let cell = self.source_cell(pixel % out_width, pixel / out_width, width, height);
                    plane[(cell.y * width + cell.x) * bytes + i % bytes]
                },
        )
    }

    /// A frame, oriented.
    pub open spec fn oriented(self, frame: Nv12) -> Nv12 {
        let size = frame.size;
        Nv12 {
            size: self.oriented_size(size),
            luma: self.oriented_plane(frame.luma, size.width, size.height, 1),
            chroma: self.oriented_plane(
                frame.chroma,
                size.chroma_width(),
                size.chroma_height(),
                2,
            ),
        }
    }

    pub fn is_identity(self) -> (identity: bool)
        ensures
            identity <==> self == upright(),
    {
        self.rotation == Rotation::Upright && !self.mirror_horizontal && !self.mirror_vertical
    }

    pub fn output_size(self, input: FrameSize) -> (size: FrameSize)
        ensures
            size@ == self.oriented_size(input@),
    {
        match self.rotation {
            Rotation::Clockwise90 | Rotation::Clockwise270 => input.swapped(),
            Rotation::Upright | Rotation::Clockwise180 => input,
        }
    }

    /// Writes a frame, oriented, to a frame of the oriented size.
    pub fn apply(self, source: &Nv12Frame, destination: &mut Nv12Frame) -> (result: Result<
        (),
        CoreError,
    >)
        requires
            source.wf(),
            old(destination).wf(),
        ensures
            result == crate::frame::size_check(
                self.oriented_size(source@.size),
                old(destination)@.size,
            ),
            final(destination)@ == if result is Ok {
                self.oriented(source@)
            } else {
                old(destination)@
            },
            final(destination).wf(),
    {
        let input = source.size();
        match self.output_size(input).ensure_eq(destination.size()) {
            Ok(()) => {},
            Err(error) => return Err(error),
        }
        proof {
            crate::frame::lemma_swapped_area(source@.size);
            crate::frame::lemma_chroma_is_half(source@.size);
        }
        if self.is_identity() {
            proof {
                law_upright_changes_nothing(source@);
            }
            return destination.copy_from(source);
        }
        let width: u32 = input.width();
        let height: u32 = input.height();
        let chroma_width: u32 = input.chroma_width();
        let chroma_height: u32 = input.chroma_height();
        let (luma, chroma) = destination.planes_mut();
        self.transform_plane(source.luma(), width, height, 1, luma);
        self.transform_plane(source.chroma(), chroma_width, chroma_height, 2, chroma);
        Ok(())
    }

    fn source_coordinate(self, x: i64, y: i64, width: i64, height: i64) -> (cell: (i64, i64))
        requires
            0 < width <= u32::MAX,
            0 < height <= u32::MAX,
            0 <= x < if self.swaps() { height } else { width },
            0 <= y < if self.swaps() { width } else { height },
        ensures
            self.source_cell(x as int, y as int, width as int, height as int) == (Cell {
                x: cell.0 as int,
                y: cell.1 as int,
            }),
            0 <= cell.0 < width,
            0 <= cell.1 < height,
    {
        let (rx, ry): (i64, i64) = match self.rotation {
            Rotation::Upright => (x, y),
            Rotation::Clockwise90 => (y, height - 1 - x),
            Rotation::Clockwise180 => (width - 1 - x, height - 1 - y),
            Rotation::Clockwise270 => (width - 1 - y, x),
        };
        let sx: i64 = if self.mirror_horizontal {
            width - 1 - rx
        } else {
            rx
        };
        let sy: i64 = if self.mirror_vertical {
            height - 1 - ry
        } else {
            ry
        };
        (sx, sy)
    }

    fn transform_plane(
        self,
        source: &[u8],
        width: u32,
        height: u32,
        bytes_per_pixel: usize,
        destination: &mut [u8],
    )
        requires
            0 < width,
            0 < height,
            bytes_per_pixel == 1 || bytes_per_pixel == 2,
            source@.len() == width * height * bytes_per_pixel,
            old(destination)@.len() == source@.len(),
        ensures
            final(destination)@ == self.oriented_plane(
                source@,
                width as int,
                height as int,
                bytes_per_pixel as int,
            ),
    {
        let swaps: bool = match self.rotation {
            Rotation::Clockwise90 | Rotation::Clockwise270 => true,
            Rotation::Upright | Rotation::Clockwise180 => false,
        };
        let out_width: usize = if swaps {
            height as usize
        } else {
            width as usize
        };
        let ghost out_size = Dims {
            width: out_width as int,
            height: if swaps {
                width as int
            } else {
                height as int
            },
        };
        let ghost whole = self.oriented_plane(
            source@,
            width as int,
            height as int,
            bytes_per_pixel as int,
        );
        proof {
            assert(width * height == out_size.area()) by (nonlinear_arith)
                requires
                    out_size.area() == out_size.width * out_size.height,
                    (out_size.width == width && out_size.height == height) || (out_size.width
                        == height && out_size.height == width),
            ;
        }
        let total: usize = source.len() / bytes_per_pixel;
        let mut pixel: usize = 0;
        let mut column: usize = 0;
        let mut row: usize = 0;
        while pixel < total
            invariant
                0 < width,
                0 < height,
                bytes_per_pixel == 1 || bytes_per_pixel == 2,
                source@.len() == width * height * bytes_per_pixel,
                destination@.len() == source@.len(),
                total == width * height,
                total == out_size.area(),
                out_size.width == out_width,
                swaps == self.swaps(),
                out_width == if swaps { height } else { width },
                out_size.height == if swaps { width } else { height },
                whole == self.oriented_plane(
                    source@,
                    width as int,
                    height as int,
                    bytes_per_pixel as int,
                ),
                pixel <= total,
                pixel == row * out_width + column,
                column < out_width,
                pixel < total ==> row < out_size.height,
                forall|j: int|
                    0 <= j < pixel * bytes_per_pixel ==> #[trigger] destination@[j] == whole[j],
            decreases total - pixel,
        {
            let (sx, sy) = self.source_coordinate(
                column as i64,
                row as i64,
                width as i64,
                height as i64,
            );
            proof {
                crate::arith::lemma_row_column(row as int, column as int, out_width as int);
                crate::arith::lemma_cell_in_plane(
                    sy as int,
                    sx as int,
                    width as int,
                    height as int,
                );
                crate::arith::lemma_product_nonnegative(sy as int, width as int);
                let cell = sy * width + sx;
                assert(0 <= cell * bytes_per_pixel <= (width * height - 1) * bytes_per_pixel)
                    by (nonlinear_arith)
                    requires
                        0 <= cell < width * height,
                        0 < bytes_per_pixel,
                ;
                assert(0 <= pixel * bytes_per_pixel <= (width * height - 1) * bytes_per_pixel)
                    by (nonlinear_arith)
                    requires
                        0 <= pixel < width * height,
                        0 < bytes_per_pixel,
                ;
                assert((width * height - 1) * bytes_per_pixel == width * height * bytes_per_pixel
                    - bytes_per_pixel) by (nonlinear_arith);
                crate::composite::lemma_next_cell(
                    pixel as int,
                    column as int,
                    row as int,
                    out_size,
                );
            }
            let from: usize = (sy as usize * width as usize + sx as usize) * bytes_per_pixel;
            let to: usize = pixel * bytes_per_pixel;
            if bytes_per_pixel == 1 {
                destination[to] = source[from];
            } else {
                destination[to] = source[from];
                destination[to + 1] = source[from + 1];
            }
            proof {
                assert((pixel + 1) * bytes_per_pixel == pixel * bytes_per_pixel
                    + bytes_per_pixel) by (nonlinear_arith);
                assert forall|j: int| 0 <= j < (pixel + 1) * bytes_per_pixel implies
                    #[trigger] destination@[j] == whole[j] by {
                    if j >= pixel * bytes_per_pixel {
                        crate::arith::lemma_row_column(
                            pixel as int,
                            j - to,
                            bytes_per_pixel as int,
                        );
                    }
                }
            }
            pixel = pixel + 1;
            if column + 1 < out_width {
                column = column + 1;
            } else {
                column = 0;
                row = row + 1;
            }
        }
        proof {
            assert(destination@ =~= whole);
        }
    }
}

/// The byte of a cell of an oriented plane is the byte of its source cell.
pub proof fn lemma_oriented_byte(
    orientation: Orientation,
    plane: Seq<u8>,
    width: int,
    height: int,
    bytes: int,
    x: int,
    y: int,
    byte: int,
)
    requires
        0 < width,
        0 < height,
        0 < bytes,
        plane.len() == width * height * bytes,
        0 <= x < if orientation.swaps() { height } else { width },
        0 <= y < if orientation.swaps() { width } else { height },
        0 <= byte < bytes,
    ensures
        ({
            let out_width = if orientation.swaps() {
                height
            } else {
                width
            };
            let cell = orientation.source_cell(x, y, width, height);
            let position = (y * out_width + x) * bytes + byte;
            &&& 0 <= position < width * height * bytes
            &&& orientation.oriented_plane(plane, width, height, bytes)[position] == plane[(cell.y
                * width + cell.x) * bytes + byte]
        }),
{
    let out_width = if orientation.swaps() {
        height
    } else {
        width
    };
    let out_height = if orientation.swaps() {
        width
    } else {
        height
    };
    let pixel = y * out_width + x;
    assert(out_width * out_height == width * height) by (nonlinear_arith)
        requires
            (out_width == width && out_height == height) || (out_width == height && out_height
                == width),
    ;
    crate::arith::lemma_row_column(y, x, out_width);
    crate::arith::lemma_cell_in_plane(y, x, out_width, out_height);
    crate::arith::lemma_row_column(pixel, byte, bytes);
    crate::arith::lemma_cell_in_plane(pixel, byte, bytes, width * height);
    assert(bytes * (width * height) == width * height * bytes) by (nonlinear_arith);
}

/// Two orientations, one after the other, show the source cell of the source
/// cell.
proof fn lemma_oriented_twice(
    first: Orientation,
    second: Orientation,
    plane: Seq<u8>,
    width: int,
    height: int,
    bytes: int,
    position: int,
)
    requires
        0 < width,
        0 < height,
        0 < bytes,
        plane.len() == width * height * bytes,
        0 <= position < plane.len(),
    ensures
        ({
            let w1 = if first.swaps() {
                height
            } else {
                width
            };
            let h1 = if first.swaps() {
                width
            } else {
                height
            };
            let w2 = if second.swaps() {
                h1
            } else {
                w1
            };
            let once = first.oriented_plane(plane, width, height, bytes);
            let pixel = position / bytes;
            let middle = second.source_cell(pixel % w2, pixel / w2, w1, h1);
            let cell = first.source_cell(middle.x, middle.y, width, height);
            &&& once.len() == plane.len()
            &&& 0 <= cell.x < width
            &&& 0 <= cell.y < height
            &&& second.oriented_plane(once, w1, h1, bytes)[position] == plane[(cell.y * width
                + cell.x) * bytes + position % bytes]
            &&& second.oriented_plane(once, w1, h1, bytes).len() == plane.len()
        }),
{
    let w1 = if first.swaps() {
        height
    } else {
        width
    };
    let h1 = if first.swaps() {
        width
    } else {
        height
    };
    let w2 = if second.swaps() {
        h1
    } else {
        w1
    };
    let h2 = if second.swaps() {
        w1
    } else {
        h1
    };
    assert(w1 * h1 == width * height) by (nonlinear_arith)
        requires
            (w1 == width && h1 == height) || (w1 == height && h1 == width),
    ;
    assert(w2 * h2 == w1 * h1) by (nonlinear_arith)
        requires
            (w2 == w1 && h2 == h1) || (w2 == h1 && h2 == w1),
    ;
    let pixel = position / bytes;
    assert(bytes * (w2 * h2) == w2 * h2 * bytes) by (nonlinear_arith);
    crate::arith::lemma_position_in_plane(position, bytes, w2 * h2);
    crate::arith::lemma_position_in_plane(pixel, w2, h2);
    crate::arith::lemma_product_nonnegative(width, height);
    crate::arith::lemma_product_nonnegative(width * height, bytes);
    let once = first.oriented_plane(plane, width, height, bytes);
    let (x, y) = (pixel % w2, pixel / w2);
    lemma_oriented_byte(second, once, w1, h1, bytes, x, y, position % bytes);
    let middle = second.source_cell(x, y, w1, h1);
    lemma_oriented_byte(first, plane, width, height, bytes, middle.x, middle.y, position % bytes);
}

/// The upright orientation leaves a frame as it is.
pub proof fn law_upright_changes_nothing(frame: Nv12)
    requires
        frame.valid(),
    ensures
        upright().oriented(frame) == frame,
{
    crate::frame::lemma_chroma_is_half(frame.size);
    let size = frame.size;
    let result = upright().oriented(frame);
    assert forall|i: int| 0 <= i < frame.luma.len() implies result.luma[i] == frame.luma[i] by {
        crate::arith::lemma_position_in_plane(i, size.width, size.height);
    }
    assert forall|i: int| 0 <= i < frame.chroma.len() implies result.chroma[i]
        == frame.chroma[i] by {
        crate::arith::lemma_position_in_plane(i / 2, size.chroma_width(), size.chroma_height());
    }
    assert(result.luma =~= frame.luma);
    assert(result.chroma =~= frame.chroma);
}

/// Two orientations whose source cells lead back to where they started undo
/// each other on a whole plane.
proof fn lemma_undone(
    first: Orientation,
    second: Orientation,
    plane: Seq<u8>,
    width: int,
    height: int,
    w1: int,
    h1: int,
    bytes: int,
)
    requires
        0 < width,
        0 < height,
        0 < bytes,
        plane.len() == width * height * bytes,
        first.swaps() == second.swaps(),
        w1 == if first.swaps() { height } else { width },
        h1 == if first.swaps() { width } else { height },
        forall|x: int, y: int|
            #![trigger second.source_cell(x, y, w1, h1)]
            0 <= x < width && 0 <= y < height ==> {
                let middle = second.source_cell(x, y, w1, h1);
                first.source_cell(middle.x, middle.y, width, height) == (Cell { x, y })
            },
    ensures
        second.oriented_plane(first.oriented_plane(plane, width, height, bytes), w1, h1, bytes)
            == plane,
{
    let twice = second.oriented_plane(
        first.oriented_plane(plane, width, height, bytes),
        w1,
        h1,
        bytes,
    );
    assert forall|i: int| 0 <= i < plane.len() implies #[trigger] twice[i] == plane[i] by {
        lemma_oriented_twice(first, second, plane, width, height, bytes, i);
        assert(bytes * (width * height) == width * height * bytes) by (nonlinear_arith);
        crate::arith::lemma_position_in_plane(i, bytes, width * height);
        crate::arith::lemma_position_in_plane(i / bytes, width, height);
    }
    crate::arith::lemma_product_nonnegative(width, height);
    crate::arith::lemma_product_nonnegative(width * height, bytes);
    assert(w1 * h1 == width * height) by (nonlinear_arith)
        requires
            (w1 == width && h1 == height) || (w1 == height && h1 == width),
    ;
    assert(twice =~= plane);
}

/// An orientation followed by one that leads every cell back restores a frame.
proof fn lemma_frame_restored(first: Orientation, second: Orientation, frame: Nv12)
    requires
        frame.valid(),
        first.swaps() == second.swaps(),
        forall|x: int, y: int, width: int, height: int|
            #![trigger second.source_cell(x, y, width, height)]
            {
                let middle = second.source_cell(x, y, width, height);
                first.source_cell(
                    middle.x,
                    middle.y,
                    if first.swaps() {
                        height
                    } else {
                        width
                    },
                    if first.swaps() {
                        width
                    } else {
                        height
                    },
                ) == (Cell { x, y })
            },
    ensures
        second.oriented(first.oriented(frame)) == frame,
{
    let size = frame.size;
    crate::frame::lemma_chroma_is_half(size);
    crate::frame::lemma_swapped_area(size);
    let shown = first.oriented_size(size);
    lemma_undone(
        first,
        second,
        frame.luma,
        size.width,
        size.height,
        shown.width,
        shown.height,
        1,
    );
    lemma_undone(
        first,
        second,
        frame.chroma,
        size.chroma_width(),
        size.chroma_height(),
        shown.chroma_width(),
        shown.chroma_height(),
        2,
    );
}

/// A quarter turn anticlockwise undoes a quarter turn clockwise, and the other
/// way round.
pub proof fn law_clockwise_270_inverts_clockwise_90(frame: Nv12)
    requires
        frame.valid(),
    ensures
        turn(Rotation::Clockwise270).oriented(turn(Rotation::Clockwise90).oriented(frame))
            == frame,
        turn(Rotation::Clockwise90).oriented(turn(Rotation::Clockwise270).oriented(frame))
            == frame,
{
    lemma_frame_restored(turn(Rotation::Clockwise90), turn(Rotation::Clockwise270), frame);
    lemma_frame_restored(turn(Rotation::Clockwise270), turn(Rotation::Clockwise90), frame);
}

/// Half a turn, and mirroring along either axis or both, undo themselves.
pub proof fn law_half_turns_and_mirrors_undo_themselves(
    frame: Nv12,
    horizontal: bool,
    vertical: bool,
    half_turn: bool,
)
    requires
        frame.valid(),
    ensures
        ({
            let orientation = Orientation {
                rotation: if half_turn {
                    Rotation::Clockwise180
                } else {
                    Rotation::Upright
                },
                mirror_horizontal: horizontal,
                mirror_vertical: vertical,
            };
            orientation.oriented(orientation.oriented(frame)) == frame
        }),
{
    let orientation = Orientation {
        rotation: if half_turn {
            Rotation::Clockwise180
        } else {
            Rotation::Upright
        },
        mirror_horizontal: horizontal,
        mirror_vertical: vertical,
    };
    lemma_frame_restored(orientation, orientation, frame);
}

/// Orienting a valid frame gives a valid frame.
pub proof fn law_oriented_frames_are_valid(orientation: Orientation, frame: Nv12)
    requires
        frame.valid(),
    ensures
        orientation.oriented(frame).valid(),
{
    crate::frame::lemma_swapped_area(frame.size);
    crate::frame::lemma_chroma_is_half(frame.size);
}

/// Two quarter turns make half a turn.
pub proof fn law_two_quarter_turns_make_half_a_turn(frame: Nv12)
    requires
        frame.valid(),
    ensures
        turn(Rotation::Clockwise90).oriented(turn(Rotation::Clockwise90).oriented(frame))
            == turn(Rotation::Clockwise180).oriented(frame),
{
    let quarter = turn(Rotation::Clockwise90);
    let half = turn(Rotation::Clockwise180);
    let size = frame.size;
    crate::frame::lemma_chroma_is_half(size);
    crate::frame::lemma_swapped_area(size);
    let left = quarter.oriented(quarter.oriented(frame));
    let right = half.oriented(frame);
    assert forall|i: int| 0 <= i < frame.luma.len() implies #[trigger] left.luma[i]
        == right.luma[i] by {
        lemma_oriented_twice(quarter, quarter, frame.luma, size.width, size.height, 1, i);
        crate::arith::lemma_position_in_plane(i, size.width, size.height);
    }
    assert forall|i: int| 0 <= i < frame.chroma.len() implies #[trigger] left.chroma[i]
        == right.chroma[i] by {
        lemma_oriented_twice(
            quarter,
            quarter,
            frame.chroma,
            size.chroma_width(),
            size.chroma_height(),
            2,
            i,
        );
        crate::arith::lemma_position_in_plane(i / 2, size.chroma_width(), size.chroma_height());
    }
    assert(left.luma =~= right.luma);
    assert(left.chroma =~= right.chroma);
}

/// Four quarter turns restore a frame.
pub proof fn law_four_quarter_turns_restore_the_frame(frame: Nv12)
    requires
        frame.valid(),
    ensures
        ({
            let quarter = turn(Rotation::Clockwise90);
            quarter.oriented(quarter.oriented(quarter.oriented(quarter.oriented(frame)))) == frame
        }),
{
    let quarter = turn(Rotation::Clockwise90);
    let half = turn(Rotation::Clockwise180);
    law_two_quarter_turns_make_half_a_turn(frame);
    law_oriented_frames_are_valid(quarter, frame);
    law_oriented_frames_are_valid(quarter, quarter.oriented(frame));
    law_two_quarter_turns_make_half_a_turn(quarter.oriented(quarter.oriented(frame)));
    law_half_turns_and_mirrors_undo_themselves(frame, false, false, true);
    assert(half == (Orientation {
        rotation: Rotation::Clockwise180,
        mirror_horizontal: false,
        mirror_vertical: false,
    }));
}

/// A plane that is mirrored and then turned shows at each position what the whole
/// orientation shows there.
proof fn lemma_mirrored_and_turned(
    orientation: Orientation,
    plane: Seq<u8>,
    width: int,
    height: int,
    bytes: int,
    position: int,
)
    requires
        0 < width,
        0 < height,
        0 < bytes,
        plane.len() == width * height * bytes,
        0 <= position < plane.len(),
    ensures
        turn(orientation.rotation).oriented_plane(
            orientation.mirroring().oriented_plane(plane, width, height, bytes),
            width,
            height,
            bytes,
        )[position] == orientation.oriented_plane(plane, width, height, bytes)[position],
{
    let mirror = orientation.mirroring();
    let turned = turn(orientation.rotation);
    lemma_oriented_twice(mirror, turned, plane, width, height, bytes, position);
    let out_width = if orientation.swaps() {
        height
    } else {
        width
    };
    let (x, y) = ((position / bytes) % out_width, (position / bytes) / out_width);
    let middle = turned.source_cell(x, y, width, height);
    assert(mirror.source_cell(middle.x, middle.y, width, height) == orientation.source_cell(
        x,
        y,
        width,
        height,
    ));
}

/// An orientation is its mirroring, followed by its turn.
pub proof fn law_an_orientation_mirrors_and_then_turns(orientation: Orientation, frame: Nv12)
    requires
        frame.valid(),
    ensures
        turn(orientation.rotation).oriented(orientation.mirroring().oriented(frame))
            == orientation.oriented(frame),
{
    let size = frame.size;
    crate::frame::lemma_chroma_is_half(size);
    let left = turn(orientation.rotation).oriented(orientation.mirroring().oriented(frame));
    let right = orientation.oriented(frame);
    assert forall|i: int| 0 <= i < frame.luma.len() implies #[trigger] left.luma[i]
        == right.luma[i] by {
        lemma_mirrored_and_turned(orientation, frame.luma, size.width, size.height, 1, i);
    }
    assert forall|i: int| 0 <= i < frame.chroma.len() implies #[trigger] left.chroma[i]
        == right.chroma[i] by {
        lemma_mirrored_and_turned(
            orientation,
            frame.chroma,
            size.chroma_width(),
            size.chroma_height(),
            2,
            i,
        );
    }
    assert(left.luma =~= right.luma);
    assert(left.chroma =~= right.chroma);
}

} // verus!
