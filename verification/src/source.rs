//! Where camera frames come from: samples of a camera, and a test picture.

use vstd::prelude::*;

use crate::device::CaptureError;
use crate::frame::{Dims, FrameSize, Nv12, Nv12Frame};

verus! {

/// The frame in a buffer of bytes: the rows of luma, then the rows of chroma.
pub open spec fn contiguous_frame(size: Dims, bytes: Seq<u8>) -> Nv12 {
    Nv12 {
        size,
        luma: bytes.take(size.area()),
        chroma: bytes.subrange(size.area(), size.area() + size.chroma_area() * 2),
    }
}

/// Takes over a frame whose rows follow each other without gaps.
pub fn copy_contiguous(frame: &mut Nv12Frame, bytes: &[u8]) -> (result: Result<(), CaptureError>)
    requires
        old(frame).wf(),
        old(frame)@.size.addressable(2),
    ensures
        final(frame).wf(),
        ({
            let size = old(frame)@.size;
            let expected = size.area() + size.chroma_area() * 2;
            if bytes@.len() < expected {
                &&& result == Err::<(), CaptureError>(
                    CaptureError::ShortBuffer {
                        expected: expected as usize,
                        actual: bytes@.len() as usize,
                    },
                )
                &&& final(frame)@ == old(frame)@
            } else {
                &&& result is Ok
                &&& final(frame)@ == contiguous_frame(size, bytes@)
            }
        }),
{
    let size = frame.size();
    let luma_len: usize = size.luma_len();
    let chroma_len: usize = size.chroma_len();
    let expected: usize = luma_len + chroma_len;
    if bytes.len() < expected {
        return Err(CaptureError::ShortBuffer { expected, actual: bytes.len() });
    }
    let (luma, chroma) = frame.planes_mut();
    copy_part(bytes, 0, luma);
    copy_part(bytes, luma_len, chroma);
    proof {
        assert(luma@ =~= contiguous_frame(size@, bytes@).luma);
        assert(chroma@ =~= contiguous_frame(size@, bytes@).chroma);
    }
    Ok(())
}

fn copy_part(bytes: &[u8], from: usize, target: &mut [u8])
    requires
        from + old(target)@.len() <= bytes@.len(),
    ensures
        final(target)@ == bytes@.subrange(from as int, from + old(target)@.len()),
{
    let len: usize = target.len();
    proof {
        assert(bytes.len() == bytes@.len());
    }
    let mut i: usize = 0;
    while i < len
        invariant
            i <= len,
            len == target@.len(),
            from + len <= bytes@.len(),
            from + len <= usize::MAX,
            forall|j: int| 0 <= j < i ==> #[trigger] target@[j] == bytes@[from + j],
        decreases len - i,
    {
        target[i] = bytes[from + i];
        i = i + 1;
    }
    proof {
        assert(target@ =~= bytes@.subrange(from as int, from + len));
    }
}

/// A byte of a buffer whose rows start at a distance from each other, which is
/// negative where the rows stand from the bottom up.
pub open spec fn pitched_byte(bytes: Seq<u8>, origin: int, pitch: int, row: int, column: int) -> u8 {
    bytes[origin + pitch * row + column]
}

/// Rows of a buffer, one after the other.
pub open spec fn pitched_rows(
    bytes: Seq<u8>,
    origin: int,
    pitch: int,
    width: int,
    first_row: int,
    rows: int,
) -> Seq<u8> {
    Seq::new(
        (width * rows) as nat,
        |i: int| pitched_byte(bytes, origin, pitch, first_row + i / width, i % width),
    )
}

/// The frame in a buffer whose rows start at a distance from each other: the rows of
/// luma, then the rows of chroma.
pub open spec fn pitched_frame(size: Dims, bytes: Seq<u8>, origin: int, pitch: int) -> Nv12 {
    Nv12 {
        size,
        luma: pitched_rows(bytes, origin, pitch, size.width, 0, size.height),
        chroma: pitched_rows(
            bytes,
            origin,
            pitch,
            size.width,
            size.height,
            size.chroma_height(),
        ),
    }
}

/// The rows of a frame all lie inside a buffer.
pub open spec fn rows_inside(
    len: int,
    origin: int,
    pitch: int,
    width: int,
    rows: int,
) -> bool {
    forall|row: int|
        0 <= row < rows ==> 0 <= #[trigger] (pitch * row) + origin && origin + pitch * row + width
            <= len
}

/// Takes over a frame whose rows start at a distance from each other; the rows
/// of chroma follow those of luma.
pub fn copy_pitched(frame: &mut Nv12Frame, bytes: &[u8], origin: usize, pitch: i64)
    requires
        old(frame).wf(),
        rows_inside(
            bytes@.len() as int,
            origin as int,
            pitch as int,
            old(frame)@.size.width,
            old(frame)@.size.height + old(frame)@.size.chroma_height(),
        ),
    ensures
        final(frame).wf(),
        final(frame)@ == pitched_frame(
            old(frame)@.size,
            bytes@,
            origin as int,
            pitch as int,
        ),
{
    let size = frame.size();
    let width: u32 = size.width();
    let height: u32 = size.height();
    let chroma_height: u32 = size.chroma_height();
    proof {
        crate::frame::lemma_chroma_is_half(size@);
        let (w, h) = (size@.chroma_width(), size@.chroma_height());
        assert((2 * w) * h == (w * h) * 2) by (nonlinear_arith);
    }
    let (luma, chroma) = frame.planes_mut();
    copy_rows(bytes, origin, pitch, width, 0, height, luma);
    copy_rows(bytes, origin, pitch, width, height, chroma_height, chroma);
}

fn copy_rows(
    bytes: &[u8],
    origin: usize,
    pitch: i64,
    width: u32,
    first_row: u32,
    rows: u32,
    target: &mut [u8],
)
    requires
        0 < width,
        first_row + rows <= 2 * u32::MAX,
        old(target)@.len() == width * rows,
        rows_inside(
            bytes@.len() as int,
            origin as int,
            pitch as int,
            width as int,
            first_row + rows,
        ),
    ensures
        final(target)@ == pitched_rows(
            bytes@,
            origin as int,
            pitch as int,
            width as int,
            first_row as int,
            rows as int,
        ),
{
    let ghost whole = pitched_rows(
        bytes@,
        origin as int,
        pitch as int,
        width as int,
        first_row as int,
        rows as int,
    );
    let ghost grid = Dims { width: width as int, height: rows as int };
    let total: usize = target.len();
    proof {
        assert(bytes.len() == bytes@.len());
        assert(width * 0 == 0 && 0 * width == 0);
    }
    let mut position: usize = 0;
    let mut column: u32 = 0;
    let mut row: u32 = 0;
    while position < total
        invariant
            0 < width,
            first_row + rows <= 2 * u32::MAX,
            total == width * rows,
            target@.len() == total,
            bytes@.len() <= usize::MAX,
            grid == (Dims { width: width as int, height: rows as int }),
            whole == pitched_rows(
                bytes@,
                origin as int,
                pitch as int,
                width as int,
                first_row as int,
                rows as int,
            ),
            rows_inside(
                bytes@.len() as int,
                origin as int,
                pitch as int,
                width as int,
                first_row + rows,
            ),
            position <= total,
            position == row * width + column,
            column < width,
            row <= rows,
            position < total ==> row < rows,
            forall|j: int| 0 <= j < position ==> #[trigger] target@[j] == whole[j],
        decreases total - position,
    {
        proof {
            crate::arith::lemma_row_column(row as int, column as int, width as int);
            crate::composite::lemma_next_cell(position as int, column as int, row as int, grid);
            let at = first_row + row;
            assert(0 <= (pitch * at) + origin);
            assert(-0x8000_0000_0000_0000 * 0x2_0000_0000 <= pitch * at
                <= 0x8000_0000_0000_0000 * 0x2_0000_0000) by (nonlinear_arith)
                requires
                    -0x8000_0000_0000_0000 <= pitch <= 0x8000_0000_0000_0000,
                    0 <= at <= 0x2_0000_0000,
            ;
        }
        let line: i128 = pitch as i128 * (first_row as i128 + row as i128) + origin as i128;
        let at: usize = (line + column as i128) as usize;
        target[position] = bytes[at];
        position = position + 1;
        if column + 1 < width {
            column = column + 1;
        } else {
            column = 0;
            row = row + 1;
        }
    }
    proof {
        assert(target@ =~= whole);
    }
}

/// How long ago a frame was captured, in nanoseconds, out of two times in
/// tenths of microseconds. Nothing for a frame without a time or one from the
/// future.
pub fn capture_age(now: i64, timestamp: Option<i64>) -> (age: Option<u64>)
    requires
        timestamp matches Some(then) ==> i64::MIN <= now - then && (now - then) * 100 <= u64::MAX,
    ensures
        age == match timestamp {
            Some(then) => if now >= then {
                Some(((now - then) * 100) as u64)
            } else {
                None
            },
            None => None,
        },
{
    match timestamp {
        Some(then) => if now >= then {
            Some((now as i128 - then as i128) as u64 * 100)
        } else {
            None
        },
        None => None,
    }
}

/// The luma of the test picture: a ramp from left to right with a bright bar
/// that moves eight pixels from frame to frame.
pub open spec fn test_luma(width: int, frame_number: int, column: int) -> u8 {
    let bar = (frame_number * 8) % width;
    if bar <= column < bar + width / 16 {
        235
    } else {
        (16 + column * 200 / width) as u8
    }
}

/// The test picture of a frame.
pub open spec fn test_picture(size: Dims, frame_number: int) -> Nv12 {
    Nv12 {
        size,
        luma: Seq::new(
            size.area() as nat,
            |i: int| test_luma(size.width, frame_number, i % size.width),
        ),
        chroma: Seq::new((size.chroma_area() * 2) as nat, |i: int| 128u8),
    }
}

/// A source of test pictures. Times are in nanoseconds of one clock.
pub struct SyntheticSource {
    frame: Nv12Frame,
    period: u64,
    next_frame: u64,
    frame_number: u64,
}

impl SyntheticSource {
    pub closed spec fn wf(&self) -> bool {
        self.frame.wf()
    }

    /// The last picture.
    pub closed spec fn picture(&self) -> Nv12 {
        self.frame@
    }

    /// The time between two pictures.
    pub closed spec fn interval(&self) -> u64 {
        self.period
    }

    /// When the next picture is due.
    pub closed spec fn due(&self) -> u64 {
        self.next_frame
    }

    /// How many pictures were made.
    pub closed spec fn count(&self) -> u64 {
        self.frame_number
    }

    /// A source that starts now.
    pub fn new(size: FrameSize, fps: u32, now: u64) -> (source: Self)
        requires
            size@.addressable(1),
        ensures
            source.wf(),
            source.picture() == Nv12::uniform(size@, crate::color::yuv_black()),
            source.interval() == 1_000_000_000u64 / (if fps == 0 {
                1u64
            } else {
                fps as u64
            }),
            source.due() == now,
            source.count() == 0,
    {
        let rate: u64 = if fps == 0 {
            1
        } else {
            fps as u64
        };
        SyntheticSource {
            frame: Nv12Frame::new(size),
            period: 1_000_000_000 / rate,
            next_frame: now,
            frame_number: 0,
        }
    }

    pub fn size(&self) -> (size: FrameSize)
        ensures
            size@ == self.picture().size,
    {
        self.frame.size()
    }

    pub fn frame_number(&self) -> (number: u64)
        ensures
            number == self.count(),
    {
        self.frame_number
    }

    /// How long to wait for the next picture.
    pub fn wait(&self, now: u64) -> (nanoseconds: u64)
        ensures
            nanoseconds == if self.due() > now {
                self.due() - now
            } else {
                0
            },
    {
        if self.next_frame > now {
            self.next_frame - now
        } else {
            0
        }
    }

    /// The next picture, after the wait. The one after it is due a period later,
    /// or now if that has passed.
    pub fn read<'a>(&'a mut self, now: u64) -> (frame: &'a Nv12Frame)
        requires
            old(self).wf(),
            old(self).count() < u64::MAX,
            old(self).due() + old(self).interval() <= u64::MAX,
        ensures
            final(self).wf(),
            final(self).count() == old(self).count() + 1,
            final(self).interval() == old(self).interval(),
            final(self).due() == if old(self).due() + old(self).interval() > now {
                old(self).due() + old(self).interval()
            } else {
                now as int
            },
            frame@ == test_picture(old(self).picture().size, final(self).count() as int),
            frame@ == final(self).picture(),
    {
        let due: u64 = self.next_frame + self.period;
        self.next_frame = if due > now {
            due
        } else {
            now
        };
        self.frame_number = self.frame_number + 1;
        self.draw();
        &self.frame
    }

    fn draw(&mut self)
        requires
            old(self).wf(),
        ensures
            final(self).wf(),
            final(self).picture() == test_picture(
                old(self).picture().size,
                old(self).count() as int,
            ),
            final(self).count() == old(self).count(),
            final(self).interval() == old(self).interval(),
            final(self).due() == old(self).due(),
    {
        let size = self.frame.size();
        let width: usize = size.width() as usize;
        let number: u128 = self.frame_number as u128;
        let bar: usize = ((number * 8) % (width as u128)) as usize;
        let ghost picture = test_picture(size@, number as int);
        let (luma, chroma) = self.frame.planes_mut();
        let total: usize = luma.len();
        let mut position: usize = 0;
        let mut column: usize = 0;
        let ghost mut row: int = 0;
        proof {
            assert(0 * width == 0) by (nonlinear_arith);
        }
        while position < total
            invariant
                0 < width <= u32::MAX,
                width == size@.width,
                luma@.len() == total,
                bar == (number * 8) % (width as int),
                picture == test_picture(size@, number as int),
                picture.luma.len() == total,
                position <= total,
                position == row * width + column,
                0 <= row,
                column < width,
                forall|j: int| 0 <= j < position ==> #[trigger] luma@[j] == picture.luma[j],
            decreases total - position,
        {
            proof {
                crate::arith::lemma_row_column(row, column as int, width as int);
                assert(column * 200 / width as int <= 200) by (nonlinear_arith)
                    requires
                        0 <= column < width,
                ;
                assert((row + 1) * width == row * width + width) by (nonlinear_arith);
            }
            let value: u8 = if bar <= column && column - bar < width / 16 {
                235
            } else {
                (16 + column as u64 * 200 / width as u64) as u8
            };
            luma[position] = value;
            position = position + 1;
            if column + 1 < width {
                column = column + 1;
            } else {
                column = 0;
                proof {
                    row = row + 1;
                }
            }
        }
        let chroma_total: usize = chroma.len();
        let mut k: usize = 0;
        while k < chroma_total
            invariant
                chroma@.len() == chroma_total,
                k <= chroma_total,
                forall|j: int| 0 <= j < k ==> #[trigger] chroma@[j] == 128,
            decreases chroma_total - k,
        {
            chroma[k] = 128;
            k = k + 1;
        }
        proof {
            assert(luma@ =~= picture.luma);
            assert(chroma@ =~= picture.chroma);
        }
    }
}

/// The bar of the test picture moves: it starts eight pixels further to the
/// right in the next frame, and comes in again on the left.
pub proof fn law_the_test_picture_moves(width: int, frame_number: int)
    requires
        0 < width,
        0 <= frame_number,
    ensures
        ((frame_number + 1) * 8) % width == ((frame_number * 8) % width + 8) % width,
{
    vstd::arithmetic::div_mod::lemma_add_mod_noop(frame_number * 8, 8, width);
    vstd::arithmetic::div_mod::lemma_add_mod_noop((frame_number * 8) % width, 8, width);
    vstd::arithmetic::div_mod::lemma_mod_twice(frame_number * 8, width);
}

} // verus!
