//! Blurring a background: planes are halved a number of times, smoothed and
//! scaled back up.

use vstd::prelude::*;

use crate::color::Yuv;
use crate::error::CoreError;
use crate::frame::{Dims, FrameSize, Nv12, Nv12Frame};
use crate::precision::{round_to_digits, ONE, SINGLE};
use crate::scale::{PlaneScaler, ScaleMode};
use crate::walk::Cursor;

verus! {

/// One, in the unit of [`BlurStrength::factor`].
pub const FACTOR_ONE: u32 = 8_388_608;

/// The least number of times that luma is halved.
pub const MIN_LUMA_LEVELS: u64 = 0x1000_0000_0000_0000;

/// The greatest number of times that luma is halved.
pub const MAX_LUMA_LEVELS: u64 = 0x6000_0000_0000_0000;

/// A fraction of a halving up to this one is left out: a hundredth in single
/// precision.
pub const LEAST_FRACTION: u64 = 0x28_F5C2_8000_0000;

/// A power of two whose exponent is more than a hundredth is more than this.
pub const LEAST_FACTOR: u32 = 8_446_000;

/// How strong a blur is.
#[derive(Clone, Copy, Debug, PartialEq, Eq, Structural)]
pub struct BlurStrength {
    /// The strength, a number of single precision in units of 2^-60; more than one
    /// counts as one.
    pub amount: u64,
    /// Two to the power of the fractional part of the number of halvings, in
    /// units of 2^-23. A power of two is not a rational number, so whoever picks
    /// the strength brings it along.
    pub factor: u32,
}

impl BlurStrength {
    pub open spec fn wf(self) -> bool {
        &&& FACTOR_ONE <= self.factor <= 2 * FACTOR_ONE
        &&& self.levels() % (ONE as int) > LEAST_FRACTION ==> self.factor >= LEAST_FACTOR
    }

    /// The strength with its amount cut off at one.
    pub open spec fn limited(self) -> BlurStrength {
        BlurStrength {
            amount: if self.amount > ONE {
                ONE
            } else {
                self.amount
            },
            factor: self.factor,
        }
    }

    /// How often luma is halved: once and five times the strength more, in single
    /// precision and in units of 2^-60. Chroma is halved once less.
    pub open spec fn levels(self) -> int {
        let single = crate::precision::SINGLE as int;
        crate::precision::nearest(
            MIN_LUMA_LEVELS + crate::precision::nearest(
                self.limited().amount * 5,
                1,
                single,
            ),
            1,
            single,
        )
    }

    /// Half of the greatest strength: three and a half halvings.
    pub fn half() -> (strength: Self)
        ensures
            strength.wf(),
            strength == (BlurStrength { amount: 0x800_0000_0000_0000, factor: 11_863_283 }),
    {
        BlurStrength { amount: 0x800_0000_0000_0000, factor: 11_863_283 }
    }

    /// Cuts off the amount at one.
    pub fn clamped(self) -> (strength: Self)
        ensures
            strength == self.limited(),
    {
        if self.amount > ONE {
            BlurStrength { amount: ONE, factor: self.factor }
        } else {
            self
        }
    }

    /// How often luma is halved, in units of 2^-60.
    pub fn luma_levels(self) -> (levels: u64)
        ensures
            levels == self.levels(),
            MIN_LUMA_LEVELS <= levels <= MAX_LUMA_LEVELS,
    {
        let amount: u64 = self.clamped().amount;
        let steps: u128 = round_to_digits(amount as u128 * 5, 1, SINGLE);
        let sum: u128 = MIN_LUMA_LEVELS as u128 + steps;
        let levels: u128 = round_to_digits(sum, 1, SINGLE);
        proof {
            let single = SINGLE as int;
            vstd::arithmetic::power2::lemma2_to64_rest();
            crate::precision::lemma_nearest_kept(5, 60, 1, single);
            crate::precision::lemma_nearest_kept(6, 60, 1, single);
            crate::precision::lemma_nearest_kept(1, 60, 1, single);
            crate::precision::lemma_nearest_order(amount * 5, 1, 5 * ONE, 1, single);
            crate::precision::lemma_nearest_order(sum as int, 1, 6 * ONE, 1, single);
            crate::precision::lemma_nearest_order(ONE as int, 1, sum as int, 1, single);
        }
        levels as u64
    }
}

/// Half of a length, rounded up.
pub open spec fn half_up(length: int) -> int {
    (length + 1) / 2
}

/// A length after a number of halvings.
pub open spec fn halvings(length: int, times: nat) -> int
    decreases times,
{
    if times == 0 {
        length
    } else {
        half_up(halvings(length, (times - 1) as nat))
    }
}

/// How often a plane is halved: as often as asked for, but no more once it is
/// narrower or lower than four pixels.
pub open spec fn level_count(width: int, height: int, depth: nat) -> nat
    decreases depth,
{
    if depth == 0 || width < 4 || height < 4 {
        0
    } else {
        1 + level_count(half_up(width), half_up(height), (depth - 1) as nat)
    }
}

/// The size of a plane between two halvings.
#[derive(Clone, Copy, Debug, PartialEq, Eq, Structural)]
pub struct Grid {
    pub width: u32,
    pub height: u32,
}

/// A length divided by a factor in single precision, in units of 2^-24.
pub open spec fn quotient(length: int, factor: int) -> int {
    let single = crate::precision::SINGLE as int;
    crate::precision::nearest(
        crate::precision::nearest(length, 1, single) * (FACTOR_ONE * single),
        factor,
        single,
    )
}

/// A length divided by a factor in single precision and rounded to the nearest,
/// at least two.
pub open spec fn shrunk(length: int, factor: int) -> int {
    let single = crate::precision::SINGLE as int;
    let rounded = (quotient(length, factor) + single / 2) / single;
    if rounded < 2 {
        2
    } else if rounded > u32::MAX {
        u32::MAX as int
    } else {
        rounded
    }
}

/// What is left of the number of halvings, as a last step of its own: the size
/// that the most halved plane is scaled to and back.
pub open spec fn fractional_step(
    width: int,
    height: int,
    levels: int,
    factor: int,
) -> Option<Grid> {
    let depth = (levels / ONE as int) as nat;
    let count = level_count(width, height, depth);
    let (base_width, base_height) = (halvings(width, count), halvings(height, count));
    let (w, h) = (shrunk(base_width, factor), shrunk(base_height, factor));
    if count == depth && levels % ONE as int > LEAST_FRACTION && (w != base_width || h
        != base_height) {
        Some(Grid { width: w as u32, height: h as u32 })
    } else {
        None
    }
}

/// The larger of two lengths.
pub open spec fn larger(a: int, b: int) -> int {
    if a > b {
        a
    } else {
        b
    }
}

/// The smaller of two lengths.
pub open spec fn smaller(a: int, b: int) -> int {
    if a < b {
        a
    } else {
        b
    }
}

/// A byte of a plane.
pub open spec fn sample(
    plane: Seq<u8>,
    width: int,
    channels: int,
    column: int,
    row: int,
    channel: int,
) -> u8 {
    plane[crate::walk::byte_at(column, row, channel, width, channels)]
}

/// One byte of a halved plane: the mean of a square of four, where a square
/// that hangs over the edge repeats what is inside.
pub open spec fn halved_byte(
    plane: Seq<u8>,
    width: int,
    height: int,
    channels: int,
    column: int,
    row: int,
    channel: int,
) -> u8 {
    let right = smaller(2 * column + 1, width - 1);
    let below = smaller(2 * row + 1, height - 1);
    crate::background::mean4(
        sample(plane, width, channels, 2 * column, 2 * row, channel),
        sample(plane, width, channels, right, 2 * row, channel),
        sample(plane, width, channels, 2 * column, below, channel),
        sample(plane, width, channels, right, below, channel),
    )
}

/// A plane of half the width and half the height.
pub open spec fn halved_plane(plane: Seq<u8>, width: int, height: int, channels: int) -> Seq<u8> {
    Seq::new(
        (half_up(width) * half_up(height) * channels) as nat,
        |i: int|
            halved_byte(
                plane,
                width,
                height,
                channels,
                crate::walk::column_of(i, half_up(width), channels),
                crate::walk::row_of(i, half_up(width), channels),
                crate::walk::channel_of(i, channels),
            ),
    )
}

/// A byte and its two neighbours, the byte counting twice.
pub open spec fn tent3(before: u8, middle: u8, after: u8) -> u8 {
    ((before + 2 * middle + after + 2) / 4) as u8
}

/// A plane smoothed along its rows; the outermost pixels repeat.
pub open spec fn smoothed_rows(plane: Seq<u8>, width: int, height: int, channels: int) -> Seq<u8> {
    Seq::new(
        (width * height * channels) as nat,
        |i: int|
            {
                let column = crate::walk::column_of(i, width, channels);
                let row = crate::walk::row_of(i, width, channels);
                let channel = crate::walk::channel_of(i, channels);
                tent3(
                    sample(plane, width, channels, larger(column - 1, 0), row, channel),
                    sample(plane, width, channels, column, row, channel),
                    sample(plane, width, channels, smaller(column + 1, width - 1), row, channel),
                )
            },
    )
}

/// A plane smoothed along its columns; the outermost pixels repeat.
pub open spec fn smoothed_columns(
    plane: Seq<u8>,
    width: int,
    height: int,
    channels: int,
) -> Seq<u8> {
    Seq::new(
        (width * height * channels) as nat,
        |i: int|
            {
                let column = crate::walk::column_of(i, width, channels);
                let row = crate::walk::row_of(i, width, channels);
                let channel = crate::walk::channel_of(i, channels);
                tent3(
                    sample(plane, width, channels, column, larger(row - 1, 0), channel),
                    sample(plane, width, channels, column, row, channel),
                    sample(plane, width, channels, column, smaller(row + 1, height - 1), channel),
                )
            },
    )
}

/// A plane smoothed along both axes.
pub open spec fn tented(plane: Seq<u8>, width: int, height: int, channels: int) -> Seq<u8> {
    smoothed_columns(smoothed_rows(plane, width, height, channels), width, height, channels)
}

/// A plane scaled to another size.
pub open spec fn stretched(
    plane: Seq<u8>,
    width: int,
    height: int,
    to_width: int,
    to_height: int,
    channels: int,
) -> Seq<u8> {
    crate::scale::sampling(
        width,
        height,
        to_width,
        to_height,
        channels,
        ScaleMode::Stretch,
    ).scaled(plane)
}

/// A plane halved a number of times and scaled back up, smoothed after each
/// step; a fractional step comes below the last halving.
pub open spec fn blurred_plane(
    plane: Seq<u8>,
    width: int,
    height: int,
    channels: int,
    count: nat,
    fractional: Option<Grid>,
) -> Seq<u8>
    decreases count,
{
    if count == 0 {
        match fractional {
            Some(grid) => {
                let (w, h) = (grid.width as int, grid.height as int);
                stretched(
                    tented(stretched(plane, width, height, w, h, channels), w, h, channels),
                    w,
                    h,
                    width,
                    height,
                    channels,
                )
            },
            None => plane,
        }
    } else {
        let (w, h) = (half_up(width), half_up(height));
        stretched(
            tented(
                blurred_plane(
                    halved_plane(plane, width, height, channels),
                    w,
                    h,
                    channels,
                    (count - 1) as nat,
                    fractional,
                ),
                w,
                h,
                channels,
            ),
            w,
            h,
            width,
            height,
            channels,
        )
    }
}

/// A plane blurred by a number of halvings in units of 2^-60.
pub open spec fn blurred_by_levels(
    plane: Seq<u8>,
    width: int,
    height: int,
    channels: int,
    levels: int,
    factor: int,
) -> Seq<u8> {
    blurred_plane(
        plane,
        width,
        height,
        channels,
        level_count(width, height, (levels / ONE as int) as nat),
        fractional_step(width, height, levels, factor),
    )
}

/// A frame, blurred.
pub open spec fn blurred(frame: Nv12, strength: BlurStrength) -> Nv12 {
    let size = frame.size;
    Nv12 {
        size,
        luma: blurred_by_levels(
            frame.luma,
            size.width,
            size.height,
            1,
            strength.levels(),
            strength.factor as int,
        ),
        chroma: blurred_by_levels(
            frame.chroma,
            size.chroma_width(),
            size.chroma_height(),
            2,
            strength.levels() - ONE,
            strength.factor as int,
        ),
    }
}

/// A plane with room for the smallest step: two pixels in each direction.
pub open spec fn roomy(width: int, height: int, channels: int) -> bool {
    &&& 0 < width <= u32::MAX
    &&& 0 < height <= u32::MAX
    &&& 0 < channels
    &&& larger(width, 2) * larger(height, 2) * channels <= usize::MAX
}

proof fn lemma_roomy(width: int, height: int, channels: int, w: int, h: int)
    requires
        roomy(width, height, channels),
        0 < w <= larger(width, 2),
        0 < h <= larger(height, 2),
    ensures
        roomy(w, h, channels),
        0 < w * h * channels <= usize::MAX,
        w * h <= usize::MAX,
{
    let (lw, lh) = (larger(width, 2), larger(height, 2));
    let (mw, mh) = (larger(w, 2), larger(h, 2));
    crate::arith::lemma_product_monotone(mw, mh, lw, lh);
    crate::arith::lemma_product_monotone(mw * mh, channels, lw * lh, channels);
    crate::arith::lemma_product_monotone(w, h, mw, mh);
    crate::arith::lemma_product_monotone(w * h, channels, mw * mh, channels);
    assert(0 < w * h) by (nonlinear_arith)
        requires
            0 < w,
            0 < h,
    ;
    crate::scale::lemma_bytes_fit(w, h, channels);
}

struct Level {
    width: u32,
    height: u32,
    upscaler: PlaneScaler,
}

struct FractionalLevel {
    width: u32,
    height: u32,
    downscaler: PlaneScaler,
    upscaler: PlaneScaler,
}

/// The halvings of one plane.
struct PlanePyramid {
    width: u32,
    height: u32,
    channels: usize,
    levels: Vec<Level>,
    fractional: Option<FractionalLevel>,
}

impl PlanePyramid {
    spec fn level_wf(&self, i: int) -> bool {
        let level = self.levels@[i];
        let (w, h) = (self.width as int, self.height as int);
        &&& level.width == halvings(w, (i + 1) as nat)
        &&& level.height == halvings(h, (i + 1) as nat)
        &&& 1 < level.width
        &&& 1 < level.height
        &&& level.width < halvings(w, i as nat)
        &&& level.height < halvings(h, i as nat)
        &&& level.upscaler.wf()
        &&& level.upscaler@ == crate::scale::sampling(
            level.width as int,
            level.height as int,
            halvings(w, i as nat),
            halvings(h, i as nat),
            self.channels as int,
            ScaleMode::Stretch,
        )
    }

    spec fn fractional_wf(&self) -> bool {
        let count = self.levels@.len();
        let (w, h) = (halvings(self.width as int, count), halvings(self.height as int, count));
        match self.fractional {
            Some(step) => {
                let (fw, fh) = (step.width as int, step.height as int);
                &&& 0 < fw <= larger(w, 2)
                &&& 0 < fh <= larger(h, 2)
                &&& step.downscaler.wf()
                &&& step.upscaler.wf()
                &&& step.downscaler@ == crate::scale::sampling(
                    w,
                    h,
                    fw,
                    fh,
                    self.channels as int,
                    ScaleMode::Stretch,
                )
                &&& step.upscaler@ == crate::scale::sampling(
                    fw,
                    fh,
                    w,
                    h,
                    self.channels as int,
                    ScaleMode::Stretch,
                )
            },
            None => true,
        }
    }

    spec fn wf(&self) -> bool {
        &&& roomy(self.width as int, self.height as int, self.channels as int)
        &&& forall|i: int| 0 <= i < self.levels@.len() ==> #[trigger] self.level_wf(i)
        &&& self.fractional_wf()
    }

    spec fn step(&self) -> Option<Grid> {
        match self.fractional {
            Some(step) => Some(Grid { width: step.width, height: step.height }),
            None => None,
        }
    }

    /// What the pyramid makes of a plane.
    spec fn blurs(&self, plane: Seq<u8>) -> Seq<u8> {
        blurred_plane(
            plane,
            self.width as int,
            self.height as int,
            self.channels as int,
            self.levels@.len(),
            self.step(),
        )
    }

    fn new(width: u32, height: u32, channels: usize, levels: u64, factor: u32) -> (pyramid: Self)
        requires
            roomy(width as int, height as int, channels as int),
            levels <= MAX_LUMA_LEVELS,
            FACTOR_ONE <= factor <= 2 * FACTOR_ONE,
            levels % ONE > LEAST_FRACTION ==> factor >= LEAST_FACTOR,
        ensures
            pyramid.wf(),
            pyramid.width == width,
            pyramid.height == height,
            pyramid.channels == channels,
            pyramid.levels@.len() == level_count(
                width as int,
                height as int,
                (levels / ONE) as nat,
            ),
            pyramid.step() == fractional_step(
                width as int,
                height as int,
                levels as int,
                factor as int,
            ),
    {
        let depth: u32 = (levels / ONE) as u32;
        let mut list: Vec<Level> = Vec::new();
        let mut w: u32 = width;
        let mut h: u32 = height;
        let mut left: u32 = depth;
        let ghost total = level_count(width as int, height as int, depth as nat);
        while left > 0 && w >= 4 && h >= 4
            invariant
                roomy(width as int, height as int, channels as int),
                0 < w <= width,
                0 < h <= height,
                left <= depth,
                w == halvings(width as int, list@.len()),
                h == halvings(height as int, list@.len()),
                depth - left == list@.len(),
                total == list@.len() + level_count(w as int, h as int, left as nat),
                forall|i: int|
                    0 <= i < list@.len() ==> #[trigger] (PlanePyramid {
                        width,
                        height,
                        channels,
                        levels: list,
                        fractional: None::<FractionalLevel>,
                    }).level_wf(i),
            decreases left,
        {
            let next_w: u32 = w / 2 + w % 2;
            let next_h: u32 = h / 2 + h % 2;
            assert(next_w == half_up(w as int) && next_h == half_up(h as int));
            let ghost before = list;
            let upscaler = PlaneScaler::new(next_w, next_h, w, h, channels, ScaleMode::Stretch);
            list.push(Level { width: next_w, height: next_h, upscaler });
            proof {
                let now = PlanePyramid {
                    width,
                    height,
                    channels,
                    levels: list,
                    fractional: None::<FractionalLevel>,
                };
                let then = PlanePyramid {
                    width,
                    height,
                    channels,
                    levels: before,
                    fractional: None::<FractionalLevel>,
                };
                assert forall|i: int| 0 <= i < list@.len() implies #[trigger] now.level_wf(i) by {
                    if i < before@.len() {
                        assert(then.level_wf(i));
                    }
                }
            }
            w = next_w;
            h = next_h;
            left = left - 1;
        }
        assert(level_count(w as int, h as int, left as nat) == 0);
        let (frac_w, frac_h): (u32, u32) = (shrink(w, factor), shrink(h, factor));
        let fraction: u64 = levels % ONE;
        let fractional: Option<FractionalLevel> = if left == 0 && fraction > LEAST_FRACTION && (
        frac_w != w || frac_h != h) {
            Some(
                FractionalLevel {
                    width: frac_w,
                    height: frac_h,
                    downscaler: PlaneScaler::new(
                        w,
                        h,
                        frac_w,
                        frac_h,
                        channels,
                        ScaleMode::Stretch,
                    ),
                    upscaler: PlaneScaler::new(
                        frac_w,
                        frac_h,
                        w,
                        h,
                        channels,
                        ScaleMode::Stretch,
                    ),
                },
            )
        } else {
            None
        };
        let pyramid = PlanePyramid { width, height, channels, levels: list, fractional };
        proof {
            let plain = PlanePyramid {
                width,
                height,
                channels,
                levels: list,
                fractional: None::<FractionalLevel>,
            };
            assert forall|i: int| 0 <= i < pyramid.levels@.len() implies #[trigger] pyramid.level_wf(
                i,
            ) by {
                assert(plain.level_wf(i));
            }
        }
        pyramid
    }

    /// The plane after the halvings from `level` on and back up to that level.
    fn settle(&self, level: usize, plane: &[u8], w: u32, h: u32) -> (result: Vec<u8>)
        requires
            self.wf(),
            level <= self.levels@.len(),
            w == halvings(self.width as int, level as nat),
            h == halvings(self.height as int, level as nat),
            roomy(w as int, h as int, self.channels as int),
            plane@.len() == w * h * self.channels,
        ensures
            result@ == blurred_plane(
                plane@,
                w as int,
                h as int,
                self.channels as int,
                (self.levels@.len() - level) as nat,
                self.step(),
            ),
            result@.len() == plane@.len(),
        decreases self.levels@.len() - level,
    {
        let channels = self.channels;
        proof {
            lemma_roomy(w as int, h as int, channels as int, w as int, h as int);
        }
        if level == self.levels.len() {
            match &self.fractional {
                Some(step) => {
                    proof {
                        lemma_roomy(
                            w as int,
                            h as int,
                            channels as int,
                            step.width as int,
                            step.height as int,
                        );
                    }
                    let small = rescaled(&step.downscaler, plane);
                    let smooth = tent(small.as_slice(), step.width, step.height, channels);
                    rescaled(&step.upscaler, smooth.as_slice())
                },
                None => crate::frame::copied(plane),
            }
        } else {
            let next = &self.levels[level];
            assert(self.level_wf(level as int));
            proof {
                lemma_roomy(
                    w as int,
                    h as int,
                    channels as int,
                    next.width as int,
                    next.height as int,
                );
            }
            let small = downsample(plane, w, h, channels);
            let settled = self.settle(level + 1, small.as_slice(), next.width, next.height);
            let smooth = tent(settled.as_slice(), next.width, next.height, channels);
            rescaled(&next.upscaler, smooth.as_slice())
        }
    }

    /// Blurs a plane.
    fn blur(&self, source: &[u8], target: &mut [u8])
        requires
            self.wf(),
            source@.len() == self.width * self.height * self.channels,
            old(target)@.len() == source@.len(),
        ensures
            final(target)@ == self.blurs(source@),
            final(target)@.len() == old(target)@.len(),
    {
        let settled = self.settle(0, source, self.width, self.height);
        crate::frame::copy_bytes(settled.as_slice(), target);
    }
}

pub(crate) fn shrink(length: u32, factor: u32) -> (short: u32)
    requires
        0 < length,
        FACTOR_ONE <= factor <= 2 * FACTOR_ONE,
    ensures
        short == shrunk(length as int, factor as int),
        0 < short,
        factor >= LEAST_FACTOR ==> short <= larger(length as int, 2),
{
    let l: u128 = round_to_digits(length as u128, 1, SINGLE);
    assert(l * (FACTOR_ONE as u128 * SINGLE) <= 0x2_0000_0000 * (FACTOR_ONE * SINGLE));
    let scaled: u128 = l * (FACTOR_ONE as u128 * SINGLE);
    let part: u128 = round_to_digits(scaled, factor as u128, SINGLE);
    proof {
        assert(part <= 2 * scaled) by (nonlinear_arith)
            requires
                part * factor <= 2 * scaled,
                1 <= factor,
                0 <= part,
        ;
        if factor >= LEAST_FACTOR {
            lemma_shrunk_range(length as int, factor as int);
        }
    }
    let rounded: u128 = (part + SINGLE / 2) / SINGLE;
    if rounded < 2 {
        2
    } else if rounded > u32::MAX as u128 {
        u32::MAX
    } else {
        rounded as u32
    }
}

fn rescaled(scaler: &PlaneScaler, plane: &[u8]) -> (result: Vec<u8>)
    requires
        scaler.wf(),
        scaler@.addressable(),
        0 < scaler@.channels,
        0 < scaler@.target_width,
        plane@.len() == scaler@.source_bytes(),
    ensures
        result@ == scaler@.scaled(plane@),
        result@.len() == scaler@.target_bytes(),
{
    proof {
        scaler.lemma_wf();
        crate::scale::lemma_bytes_fit(
            scaler@.target_width,
            scaler@.target_height,
            scaler@.channels,
        );
    }
    let mut result: Vec<u8> = vec![0; scaler.target_len()];
    let _ = scaler.scale(plane, result.as_mut_slice());
    result
}

/// Halves a plane.
pub fn downsample(plane: &[u8], width: u32, height: u32, channels: usize) -> (half: Vec<u8>)
    requires
        1 < width,
        1 < height,
        0 < channels,
        plane@.len() == width * height * channels,
    ensures
        half@ == halved_plane(plane@, width as int, height as int, channels as int),
        half@.len() == half_up(width as int) * half_up(height as int) * channels,
{
    let half_width: u32 = width / 2 + width % 2;
    let half_height: u32 = height / 2 + height % 2;
    let ghost (w, h, c) = (width as int, height as int, channels as int);
    let ghost whole = halved_plane(plane@, w, h, c);
    assert(half_width == half_up(w) && half_height == half_up(h));
    proof {
        assert(plane.len() == plane@.len());
        crate::arith::lemma_product_monotone(half_up(w), half_up(h), w, h);
        crate::arith::lemma_product_monotone(half_up(w) * half_up(h), c, w * h, c);
        crate::scale::lemma_bytes_fit(half_up(w), half_up(h), c);
    }
    let total: usize = half_width as usize * half_height as usize * channels;
    let mut half: Vec<u8> = Vec::with_capacity(total);
    let mut cursor = Cursor::start(half_width as usize, channels);
    while cursor.position < total
        invariant
            cursor.wf(),
            cursor.width == half_width,
            cursor.channels == channels,
            half_width == half_up(w),
            half_height == half_up(h),
            w == width,
            h == height,
            c == channels,
            1 < width,
            1 < height,
            plane@.len() == w * h * c,
            plane@.len() <= usize::MAX,
            total == half_width * half_height * channels,
            half@.len() == cursor.position,
            cursor.position <= total,
            whole == halved_plane(plane@, w, h, c),
            forall|j: int| 0 <= j < half@.len() ==> #[trigger] half@[j] == whole[j],
        decreases total - cursor.position,
    {
        proof {
            cursor.lemma_cell(half_height as int);
        }
        let left: usize = cursor.column * 2;
        let right: usize = if left + 1 < width as usize {
            left + 1
        } else {
            width as usize - 1
        };
        let top: usize = cursor.row * 2;
        let bottom: usize = if top + 1 < height as usize {
            top + 1
        } else {
            height as usize - 1
        };
        let sum: u16 = read(plane, width, height, channels, left, top, cursor.channel) as u16
            + read(plane, width, height, channels, right, top, cursor.channel) as u16 + read(
            plane,
            width,
            height,
            channels,
            left,
            bottom,
            cursor.channel,
        ) as u16 + read(plane, width, height, channels, right, bottom, cursor.channel) as u16;
        half.push(((sum + 2) / 4) as u8);
        cursor.advance();
    }
    proof {
        assert(half@ =~= whole);
    }
    half
}

fn read(
    plane: &[u8],
    width: u32,
    height: u32,
    channels: usize,
    column: usize,
    row: usize,
    channel: usize,
) -> (byte: u8)
    requires
        plane@.len() == width * height * channels,
        plane@.len() <= usize::MAX,
        column < width,
        row < height,
        channel < channels,
    ensures
        byte == sample(
            plane@,
            width as int,
            channels as int,
            column as int,
            row as int,
            channel as int,
        ),
{
    proof {
        crate::walk::lemma_cell_in_plane(
            column as int,
            row as int,
            channel as int,
            width as int,
            height as int,
            channels as int,
        );
    }
    plane[(row * width as usize + column) * channels + channel]
}

fn mean3(before: u8, middle: u8, after: u8) -> (mean: u8)
    ensures
        mean == tent3(before, middle, after),
{
    let sum: u16 = before as u16 + 2 * middle as u16 + after as u16;
    ((sum + 2) / 4) as u8
}

fn smooth_rows(plane: &[u8], width: u32, height: u32, channels: usize) -> (smooth: Vec<u8>)
    requires
        0 < width,
        0 < height,
        0 < channels,
        plane@.len() == width * height * channels,
    ensures
        smooth@ == smoothed_rows(plane@, width as int, height as int, channels as int),
{
    let total: usize = plane.len();
    let ghost whole = smoothed_rows(plane@, width as int, height as int, channels as int);
    let mut smooth: Vec<u8> = Vec::with_capacity(total);
    let mut cursor = Cursor::start(width as usize, channels);
    while cursor.position < total
        invariant
            cursor.wf(),
            cursor.width == width,
            cursor.channels == channels,
            0 < width,
            0 < height,
            plane@.len() == width * height * channels,
            total == plane@.len(),
            smooth@.len() == cursor.position,
            cursor.position <= total,
            whole == smoothed_rows(plane@, width as int, height as int, channels as int),
            forall|j: int| 0 <= j < smooth@.len() ==> #[trigger] smooth@[j] == whole[j],
        decreases total - cursor.position,
    {
        proof {
            cursor.lemma_cell(height as int);
        }
        let (x, y, c): (usize, usize, usize) = (cursor.column, cursor.row, cursor.channel);
        let left: usize = if x > 0 {
            x - 1
        } else {
            0
        };
        let right: usize = if x + 1 < width as usize {
            x + 1
        } else {
            x
        };
        let value: u8 = mean3(
            read(plane, width, height, channels, left, y, c),
            read(plane, width, height, channels, x, y, c),
            read(plane, width, height, channels, right, y, c),
        );
        smooth.push(value);
        cursor.advance();
    }
    proof {
        assert(smooth@ =~= whole);
    }
    smooth
}

fn smooth_columns(plane: &[u8], width: u32, height: u32, channels: usize) -> (smooth: Vec<u8>)
    requires
        0 < width,
        0 < height,
        0 < channels,
        plane@.len() == width * height * channels,
    ensures
        smooth@ == smoothed_columns(plane@, width as int, height as int, channels as int),
{
    let total: usize = plane.len();
    let ghost whole = smoothed_columns(plane@, width as int, height as int, channels as int);
    let mut smooth: Vec<u8> = Vec::with_capacity(total);
    let mut cursor = Cursor::start(width as usize, channels);
    while cursor.position < total
        invariant
            cursor.wf(),
            cursor.width == width,
            cursor.channels == channels,
            0 < width,
            0 < height,
            plane@.len() == width * height * channels,
            total == plane@.len(),
            smooth@.len() == cursor.position,
            cursor.position <= total,
            whole == smoothed_columns(plane@, width as int, height as int, channels as int),
            forall|j: int| 0 <= j < smooth@.len() ==> #[trigger] smooth@[j] == whole[j],
        decreases total - cursor.position,
    {
        proof {
            cursor.lemma_cell(height as int);
        }
        let (x, y, c): (usize, usize, usize) = (cursor.column, cursor.row, cursor.channel);
        let up: usize = if y > 0 {
            y - 1
        } else {
            0
        };
        let down: usize = if y + 1 < height as usize {
            y + 1
        } else {
            y
        };
        let value: u8 = mean3(
            read(plane, width, height, channels, x, up, c),
            read(plane, width, height, channels, x, y, c),
            read(plane, width, height, channels, x, down, c),
        );
        smooth.push(value);
        cursor.advance();
    }
    proof {
        assert(smooth@ =~= whole);
    }
    smooth
}

/// Smooths a plane along both axes.
pub fn tent(plane: &[u8], width: u32, height: u32, channels: usize) -> (smooth: Vec<u8>)
    requires
        0 < width,
        0 < height,
        0 < channels,
        plane@.len() == width * height * channels,
    ensures
        smooth@ == tented(plane@, width as int, height as int, channels as int),
        smooth@.len() == plane@.len(),
{
    let rows = smooth_rows(plane, width, height, channels);
    smooth_columns(rows.as_slice(), width, height, channels)
}

pub struct BackgroundBlur {
    size: FrameSize,
    strength: BlurStrength,
    luma: PlanePyramid,
    chroma: PlanePyramid,
}

impl BackgroundBlur {
    pub closed spec fn wf(&self) -> bool {
        let size = self.size@;
        &&& size.valid()
        &&& self.luma.wf()
        &&& self.luma.width == size.width
        &&& self.luma.height == size.height
        &&& self.luma.channels == 1
        &&& self.luma.levels@.len() == level_count(
            size.width,
            size.height,
            (self.strength.levels() / ONE as int) as nat,
        )
        &&& self.luma.step() == fractional_step(
            size.width,
            size.height,
            self.strength.levels(),
            self.strength.factor as int,
        )
        &&& self.chroma.wf()
        &&& self.chroma.width == size.chroma_width()
        &&& self.chroma.height == size.chroma_height()
        &&& self.chroma.channels == 2
        &&& self.chroma.levels@.len() == level_count(
            size.chroma_width(),
            size.chroma_height(),
            ((self.strength.levels() - ONE) / ONE as int) as nat,
        )
        &&& self.chroma.step() == fractional_step(
            size.chroma_width(),
            size.chroma_height(),
            self.strength.levels() - ONE,
            self.strength.factor as int,
        )
    }

    /// The size of the frames that are blurred.
    pub closed spec fn frame_size(&self) -> Dims {
        self.size@
    }

    /// The strength of the blur.
    pub closed spec fn blur_strength(&self) -> BlurStrength {
        self.strength
    }

    pub fn new(size: FrameSize, strength: BlurStrength) -> (blur: Self)
        requires
            size@.addressable(1),
            strength.wf(),
        ensures
            blur.wf(),
            blur.frame_size() == size@,
            blur.blur_strength() == strength.limited(),
    {
        let strength = strength.clamped();
        let levels: u64 = strength.luma_levels();
        let width: u32 = size.width();
        let height: u32 = size.height();
        let chroma_width: u32 = size.chroma_width();
        let chroma_height: u32 = size.chroma_height();
        proof {
            lemma_frame_is_roomy(size@);
        }
        BackgroundBlur {
            size,
            strength,
            luma: PlanePyramid::new(width, height, 1, levels, strength.factor),
            chroma: PlanePyramid::new(
                chroma_width,
                chroma_height,
                2,
                levels - ONE,
                strength.factor,
            ),
        }
    }

    pub fn size(&self) -> (size: FrameSize)
        ensures
            size@ == self.frame_size(),
    {
        self.size
    }

    pub fn strength(&self) -> (strength: BlurStrength)
        ensures
            strength == self.blur_strength(),
    {
        self.strength
    }

    /// Writes a frame, blurred, to another.
    pub fn apply(&self, source: &Nv12Frame, target: &mut Nv12Frame) -> (result: Result<
        (),
        CoreError,
    >)
        requires
            self.wf(),
            source.wf(),
            old(target).wf(),
        ensures
            result == blur_check(self.frame_size(), source@.size, old(target)@.size),
            final(target)@ == if result is Ok {
                blurred(source@, self.blur_strength())
            } else {
                old(target)@
            },
            final(target).wf(),
    {
        match self.size.ensure_eq(source.size()) {
            Ok(()) => {},
            Err(error) => return Err(error),
        }
        match self.size.ensure_eq(target.size()) {
            Ok(()) => {},
            Err(error) => return Err(error),
        }
        let (luma, chroma) = target.planes_mut();
        self.luma.blur(source.luma(), luma);
        self.chroma.blur(source.chroma(), chroma);
        Ok(())
    }
}

/// Whether both frames of a blur have the size that it is for.
pub open spec fn blur_check(size: Dims, source: Dims, target: Dims) -> Result<(), CoreError> {
    if size != source {
        crate::frame::size_check(size, source)
    } else {
        crate::frame::size_check(size, target)
    }
}

proof fn lemma_frame_is_roomy(size: Dims)
    requires
        size.valid(),
        size.addressable(1),
    ensures
        roomy(size.width, size.height, 1),
        roomy(size.chroma_width(), size.chroma_height(), 2),
{
    let (w, h) = (size.chroma_width(), size.chroma_height());
    assert(size.width == 2 * w && size.height == 2 * h);
    let (lw, lh) = (larger(w, 2), larger(h, 2));
    if w >= 2 && h >= 2 {
        assert(w * h * 2 <= (2 * w) * (2 * h)) by (nonlinear_arith)
            requires
                0 < w,
                0 < h,
        ;
    } else if w >= 2 {
        assert(h == 1);
        assert(w * 2 * 2 == (2 * w) * (2 * 1)) by (nonlinear_arith);
    } else if h >= 2 {
        assert(w == 1);
        assert(2 * h * 2 == (2 * 1) * (2 * h)) by (nonlinear_arith);
    }
}

/// Every byte of a plane is that of one colour.
pub open spec fn uniform_plane(plane: Seq<u8>, color: Seq<u8>) -> bool {
    forall|i: int| 0 <= i < plane.len() ==> #[trigger] plane[i] == color[i % color.len() as int]
}

proof fn lemma_uniform_sample(
    plane: Seq<u8>,
    color: Seq<u8>,
    width: int,
    height: int,
    channels: int,
)
    requires
        color.len() == channels,
        0 < channels,
        plane.len() == width * height * channels,
        uniform_plane(plane, color),
    ensures
        forall|column: int, row: int, channel: int|
            0 <= column < width && 0 <= row < height && 0 <= channel < channels
                ==> #[trigger] sample(plane, width, channels, column, row, channel)
                == color[channel],
{
    assert forall|column: int, row: int, channel: int|
        0 <= column < width && 0 <= row < height && 0 <= channel < channels implies
        #[trigger] sample(plane, width, channels, column, row, channel) == color[channel] by {
        crate::walk::lemma_cell_in_plane(column, row, channel, width, height, channels);
    }
}

proof fn lemma_tented_uniform(
    plane: Seq<u8>,
    color: Seq<u8>,
    width: int,
    height: int,
    channels: int,
)
    requires
        color.len() == channels,
        0 < channels,
        0 < width,
        0 < height,
        plane.len() == width * height * channels,
        uniform_plane(plane, color),
    ensures
        uniform_plane(tented(plane, width, height, channels), color),
        tented(plane, width, height, channels).len() == plane.len(),
{
    crate::arith::lemma_product_nonnegative(width, height);
    crate::arith::lemma_product_nonnegative(width * height, channels);
    let rows = smoothed_rows(plane, width, height, channels);
    lemma_uniform_sample(plane, color, width, height, channels);
    assert forall|i: int| 0 <= i < rows.len() implies #[trigger] rows[i] == color[i
        % channels] by {
        crate::walk::lemma_byte_in_plane(i, width, height, channels);
    }
    assert(uniform_plane(rows, color));
    lemma_uniform_sample(rows, color, width, height, channels);
    let both = smoothed_columns(rows, width, height, channels);
    assert forall|i: int| 0 <= i < both.len() implies #[trigger] both[i] == color[i
        % channels] by {
        crate::walk::lemma_byte_in_plane(i, width, height, channels);
    }
}

proof fn lemma_halved_uniform(
    plane: Seq<u8>,
    color: Seq<u8>,
    width: int,
    height: int,
    channels: int,
)
    requires
        color.len() == channels,
        0 < channels,
        0 < width,
        0 < height,
        plane.len() == width * height * channels,
        uniform_plane(plane, color),
    ensures
        uniform_plane(halved_plane(plane, width, height, channels), color),
        halved_plane(plane, width, height, channels).len() == half_up(width) * half_up(height)
            * channels,
{
    let (w, h) = (half_up(width), half_up(height));
    crate::arith::lemma_product_nonnegative(w, h);
    crate::arith::lemma_product_nonnegative(w * h, channels);
    lemma_uniform_sample(plane, color, width, height, channels);
    let half = halved_plane(plane, width, height, channels);
    assert forall|i: int| 0 <= i < half.len() implies #[trigger] half[i] == color[i
        % channels] by {
        crate::walk::lemma_byte_in_plane(i, w, h, channels);
    }
}

proof fn lemma_stretched_uniform(
    plane: Seq<u8>,
    color: Seq<u8>,
    width: int,
    height: int,
    to_width: int,
    to_height: int,
    channels: int,
)
    requires
        color.len() == channels,
        0 < channels <= usize::MAX,
        0 < width <= u32::MAX,
        0 < height <= u32::MAX,
        0 < to_width <= u32::MAX,
        0 < to_height <= u32::MAX,
        plane.len() == width * height * channels,
        uniform_plane(plane, color),
    ensures
        uniform_plane(stretched(plane, width, height, to_width, to_height, channels), color),
        stretched(plane, width, height, to_width, to_height, channels).len() == to_width
            * to_height * channels,
{
    let s = crate::scale::sampling(
        width,
        height,
        to_width,
        to_height,
        channels,
        ScaleMode::Stretch,
    );
    crate::scale::lemma_sampling_valid(
        width,
        height,
        to_width,
        to_height,
        channels,
        ScaleMode::Stretch,
    );
    crate::arith::lemma_product_nonnegative(to_width, to_height);
    crate::arith::lemma_product_nonnegative(to_width * to_height, channels);
    crate::scale::law_uniform_planes_stay_uniform(s, plane, color);
}

/// Blurring a plane of one colour leaves it as it is, however often it is
/// halved.
pub proof fn law_uniform_planes_stay_uniform(
    plane: Seq<u8>,
    color: Seq<u8>,
    width: int,
    height: int,
    count: nat,
    fractional: Option<Grid>,
)
    requires
        0 < color.len() <= usize::MAX,
        0 < width <= u32::MAX,
        0 < height <= u32::MAX,
        plane.len() == width * height * color.len(),
        uniform_plane(plane, color),
        fractional matches Some(grid) ==> 0 < grid.width && 0 < grid.height,
    ensures
        blurred_plane(plane, width, height, color.len() as int, count, fractional) == plane,
    decreases count,
{
    let channels = color.len() as int;
    let result = blurred_plane(plane, width, height, channels, count, fractional);
    if count == 0 {
        if let Some(grid) = fractional {
            let (w, h) = (grid.width as int, grid.height as int);
            lemma_stretched_uniform(plane, color, width, height, w, h, channels);
            let small = stretched(plane, width, height, w, h, channels);
            lemma_tented_uniform(small, color, w, h, channels);
            let smooth = tented(small, w, h, channels);
            lemma_stretched_uniform(smooth, color, w, h, width, height, channels);
        }
    } else {
        let (w, h) = (half_up(width), half_up(height));
        lemma_halved_uniform(plane, color, width, height, channels);
        let half = halved_plane(plane, width, height, channels);
        law_uniform_planes_stay_uniform(half, color, w, h, (count - 1) as nat, fractional);
        lemma_tented_uniform(half, color, w, h, channels);
        let smooth = tented(half, w, h, channels);
        lemma_stretched_uniform(smooth, color, w, h, width, height, channels);
    }
    assert(result =~= plane);
}

/// A frame of one colour comes out of every blur as it went in.
pub proof fn law_uniform_frames_stay_uniform(size: Dims, color: Yuv, strength: BlurStrength)
    requires
        size.valid(),
        size.addressable(1),
        strength.wf(),
    ensures
        blurred(Nv12::uniform(size, color), strength) == Nv12::uniform(size, color),
{
    let frame = Nv12::uniform(size, color);
    crate::frame::lemma_chroma_is_half(size);
    lemma_step_not_empty(size.width, size.height, strength.levels(), strength.factor as int);
    lemma_step_not_empty(
        size.chroma_width(),
        size.chroma_height(),
        strength.levels() - ONE,
        strength.factor as int,
    );
    law_uniform_planes_stay_uniform(
        frame.luma,
        seq![color.y],
        size.width,
        size.height,
        level_count(size.width, size.height, (strength.levels() / ONE as int) as nat),
        fractional_step(size.width, size.height, strength.levels(), strength.factor as int),
    );
    law_uniform_planes_stay_uniform(
        frame.chroma,
        seq![color.u, color.v],
        size.chroma_width(),
        size.chroma_height(),
        level_count(
            size.chroma_width(),
            size.chroma_height(),
            ((strength.levels() - ONE) / ONE as int) as nat,
        ),
        fractional_step(
            size.chroma_width(),
            size.chroma_height(),
            strength.levels() - ONE,
            strength.factor as int,
        ),
    );
    assert(blurred(frame, strength) =~= frame);
}

pub proof fn lemma_halvings_positive(length: int, times: nat)
    requires
        0 < length <= u32::MAX,
    ensures
        0 < halvings(length, times) <= length,
    decreases times,
{
    if times > 0 {
        lemma_halvings_positive(length, (times - 1) as nat);
    }
}

pub proof fn lemma_step_not_empty(width: int, height: int, levels: int, factor: int)
    requires
        0 < width <= u32::MAX,
        0 < height <= u32::MAX,
    ensures
        fractional_step(width, height, levels, factor) matches Some(grid) ==> 0 < grid.width && 0
            < grid.height,
{
    let count = level_count(width, height, (levels / ONE as int) as nat);
    lemma_halvings_positive(width, count);
    lemma_halvings_positive(height, count);
}

proof fn lemma_shrunk_range(length: int, factor: int)
    requires
        0 < length <= u32::MAX,
        LEAST_FACTOR <= factor,
    ensures
        2 <= shrunk(length, factor) <= larger(length, 2),
{
    let single = SINGLE as int;
    let l = crate::precision::nearest(length, 1, single);
    assert(single * l <= (single + 1) * length) by {
        if 2 * length < single {
            crate::precision::lemma_nearest_exact(length, 1, single);
        } else {
            crate::precision::lemma_nearest_close(length, 1, single);
        }
    }
    crate::precision::lemma_nearest_half(length, 1, single);
    let scaled = l * (FACTOR_ONE * single);
    let part = quotient(length, factor);
    crate::precision::lemma_nearest(scaled, factor, single);
    assert(2 * part < (2 * length + 1) * single) by {
        if factor * single <= 2 * scaled {
            crate::precision::lemma_nearest_close(scaled, factor, single);
            assert(2 * part < (2 * length + 1) * single) by (nonlinear_arith)
                requires
                    single == 0x100_0000,
                    single * (part * factor) <= (single + 1) * scaled,
                    scaled == l * (8_388_608 * single),
                    single * l <= (single + 1) * length,
                    8_446_000 <= factor,
                    0 < length,
                    0 <= part,
            {
                assert(single * (part * 8_446_000) <= single * (part * factor));
                assert(single * single * (part * 8_446_000) <= (single + 1) * (single + 1) * length
                    * (8_388_608 * single));
                assert((single + 1) * (single + 1) * 8_388_608 < single * single * 8_446_000);
            }
        } else {
            assert(part <= single) by (nonlinear_arith)
                requires
                    part * factor <= 2 * scaled,
                    2 * scaled < factor * single,
                    0 < factor,
            ;
            assert((2 * length + 1) * single >= 3 * single) by (nonlinear_arith)
                requires
                    0 < length,
                    0 < single,
            ;
        }
    }
    assert((part + single / 2) / single <= length) by (nonlinear_arith)
        requires
            2 * part < (2 * length + 1) * single,
            single == 0x100_0000,
    ;
}

} // verus!
