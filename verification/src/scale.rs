//! Scaling planes and frames by bilinear interpolation.

use vstd::arithmetic::power2::*;
use vstd::prelude::*;

use crate::double::{round_quotient, Fixed, Rounded, Signed, FINE};
use crate::error::{check_len, CoreError};
use crate::frame::{Dims, FrameSize, Nv12, Nv12Frame};

verus! {

#[derive(Clone, Copy, Debug, Default, PartialEq, Eq, Hash, Structural)]
pub enum ScaleMode {
    /// Keep the aspect ratio and cut off what does not fit.
    #[default]
    Fill,
    /// Show the whole source, whatever that does to its aspect ratio.
    Stretch,
}

/// The part of a source that is shown along one axis: where it begins and how long
/// it is, numbers of double precision in units of 2^-120.
pub struct Shown {
    pub start: int,
    pub length: int,
}

/// The larger of two numbers.
pub open spec fn larger(a: int, b: int) -> int {
    if a < b {
        b
    } else {
        a
    }
}

/// How much larger a picture gets that fills a target.
pub open spec fn fill_scale(
    source_width: int,
    source_height: int,
    target_width: int,
    target_height: int,
) -> int {
    larger(
        crate::double::double(target_width * FINE, source_width),
        crate::double::double(target_height * FINE, source_height),
    )
}

/// What is shown of a source that fills a target: what the target holds, centred in
/// the source. Stretched, all of it is shown.
pub open spec fn shown_part(mode: ScaleMode, source_len: int, target_len: int, scale: int) -> Shown {
    match mode {
        ScaleMode::Stretch => Shown { start: 0, length: source_len * FINE },
        ScaleMode::Fill => {
            let length = crate::double::double((target_len * FINE) * FINE, scale);
            Shown {
                start: crate::double::half_of(
                    crate::double::signed_double(source_len * FINE - length),
                ),
                length,
            }
        },
    }
}

/// Where the centre of a target pixel falls in the source, in units of 2^-120: every
/// step is computed in double precision, and the result is kept between the first
/// and the last pixel.
pub open spec fn centre(index: int, source_len: int, target_len: int, shown: Shown) -> int {
    let along = crate::double::double(
        crate::double::double((2 * index + 1) * shown.length, 2),
        target_len,
    );
    let raw = crate::double::signed_double(
        crate::double::signed_double(along - FINE / 2) + shown.start,
    );
    if raw < 0 {
        0
    } else if raw > (source_len - 1) * FINE {
        (source_len - 1) * FINE
    } else {
        raw
    }
}

/// Where a target pixel is sampled, in 256ths of a source pixel and rounded to
/// the nearest.
pub open spec fn tap(index: int, source_len: int, target_len: int, shown: Shown) -> int {
    (512 * centre(index, source_len, target_len, shown) + FINE) / (2 * FINE as int)
}

/// The sampling positions of a whole row or column.
pub open spec fn taps_of(source_len: int, target_len: int, shown: Shown) -> Seq<int> {
    Seq::new(target_len as nat, |i: int| tap(i, source_len, target_len, shown))
}

/// What a scaler does: the sizes it works between and where it samples, in
/// 256ths of a pixel.
#[verifier::ext_equal]
pub struct Sampling {
    pub source_width: int,
    pub source_height: int,
    pub target_width: int,
    pub target_height: int,
    pub channels: int,
    pub columns: Seq<int>,
    pub rows: Seq<int>,
}

impl Sampling {
    /// Every sample lies inside the source.
    pub open spec fn valid(self) -> bool {
        &&& 0 < self.source_width <= u32::MAX
        &&& 0 < self.source_height <= u32::MAX
        &&& 0 <= self.target_width <= u32::MAX
        &&& 0 <= self.target_height <= u32::MAX
        &&& 0 <= self.channels <= usize::MAX
        &&& self.columns.len() == self.target_width
        &&& self.rows.len() == self.target_height
        &&& forall|i: int|
            0 <= i < self.columns.len() ==> 0 <= #[trigger] self.columns[i] <= 256 * (
            self.source_width - 1)
        &&& forall|i: int|
            0 <= i < self.rows.len() ==> 0 <= #[trigger] self.rows[i] <= 256 * (
            self.source_height - 1)
    }

    pub open spec fn source_bytes(self) -> int {
        self.source_width * self.source_height * self.channels
    }

    pub open spec fn target_bytes(self) -> int {
        self.target_width * self.target_height * self.channels
    }

    /// Both planes can be addressed.
    pub open spec fn addressable(self) -> bool {
        self.source_bytes() <= usize::MAX && self.target_bytes() <= usize::MAX
    }

    /// The mean of the four pixels around a sampling position, weighted by how
    /// close they are and rounded to the nearest byte.
    pub open spec fn sample(self, plane: Seq<u8>, x: int, y: int, channel: int) -> u8 {
        let right = if x / 256 + 1 < self.source_width {
            x / 256 + 1
        } else {
            self.source_width - 1
        };
        let below = if y / 256 + 1 < self.source_height {
            y / 256 + 1
        } else {
            self.source_height - 1
        };
        mixed(
            self.byte(plane, x / 256, y / 256, channel),
            self.byte(plane, right, y / 256, channel),
            self.byte(plane, x / 256, below, channel),
            self.byte(plane, right, below, channel),
            x % 256,
            y % 256,
        )
    }

    pub open spec fn byte(self, plane: Seq<u8>, column: int, row: int, channel: int) -> u8 {
        plane[(row * self.source_width + column) * self.channels + channel]
    }

    /// The scaled plane.
    pub open spec fn scaled(self, plane: Seq<u8>) -> Seq<u8> {
        Seq::new(
            self.target_bytes() as nat,
            |i: int|
                {
                    let pixel = i / self.channels;
                    self.sample(
                        plane,
                        self.columns[pixel % self.target_width],
                        self.rows[pixel / self.target_width],
                        i % self.channels,
                    )
                },
        )
    }

    /// What a scaler answers to planes of some lengths.
    pub open spec fn check(self, source: nat, target: nat) -> Result<(), CoreError> {
        if source != self.source_bytes() {
            Err(
                CoreError::PlaneSizeMismatch {
                    expected: self.source_bytes() as usize,
                    actual: source as usize,
                },
            )
        } else if target != self.target_bytes() {
            Err(
                CoreError::PlaneSizeMismatch {
                    expected: self.target_bytes() as usize,
                    actual: target as usize,
                },
            )
        } else {
            Ok(())
        }
    }
}

/// Four bytes, mixed by how far the sample lies to the right and below, in
/// 256ths.
pub open spec fn mixed(tl: u8, tr: u8, bl: u8, br: u8, fx: int, fy: int) -> u8 {
    let upper = tl * (256 - fx) + tr * fx;
    let lower = bl * (256 - fx) + br * fx;
    ((upper * (256 - fy) + lower * fy + 32_768) / 65_536) as u8
}

/// The sampling between two sizes.
pub open spec fn sampling(
    source_width: int,
    source_height: int,
    target_width: int,
    target_height: int,
    channels: int,
    mode: ScaleMode,
) -> Sampling {
    Sampling {
        source_width,
        source_height,
        target_width,
        target_height,
        channels,
        columns: taps_of(
            source_width,
            target_width,
            shown_part(
                mode,
                source_width,
                target_width,
                fill_scale(source_width, source_height, target_width, target_height),
            ),
        ),
        rows: taps_of(
            source_height,
            target_height,
            shown_part(
                mode,
                source_height,
                target_height,
                fill_scale(source_width, source_height, target_width, target_height),
            ),
        ),
    }
}

/// The same part of a source of half the size.
pub open spec fn halved(shown: Shown) -> Shown {
    Shown { start: crate::double::half_of(shown.start), length: shown.length / 2 }
}

/// The sampling of the chroma planes of frames of two sizes: what is shown of
/// the chroma plane is half of what is shown of the luma plane.
pub open spec fn chroma_sampling(source: Dims, target: Dims, mode: ScaleMode) -> Sampling {
    Sampling {
        source_width: source.chroma_width(),
        source_height: source.chroma_height(),
        target_width: target.chroma_width(),
        target_height: target.chroma_height(),
        channels: 2,
        columns: taps_of(
            source.chroma_width(),
            target.chroma_width(),
            halved(
                shown_part(
                    mode,
                    source.width,
                    target.width,
                    fill_scale(source.width, source.height, target.width, target.height),
                ),
            ),
        ),
        rows: taps_of(
            source.chroma_height(),
            target.chroma_height(),
            halved(
                shown_part(
                    mode,
                    source.height,
                    target.height,
                    fill_scale(source.width, source.height, target.width, target.height),
                ),
            ),
        ),
    }
}

/// The sampling of the luma planes of frames of two sizes.
pub open spec fn luma_sampling(source: Dims, target: Dims, mode: ScaleMode) -> Sampling {
    sampling(source.width, source.height, target.width, target.height, 1, mode)
}

/// A frame, scaled. A frame that has the size already is kept.
pub open spec fn scaled_frame(frame: Nv12, target: Dims, mode: ScaleMode) -> Nv12 {
    if frame.size == target {
        frame
    } else {
        Nv12 {
            size: target,
            luma: luma_sampling(frame.size, target, mode).scaled(frame.luma),
            chroma: chroma_sampling(frame.size, target, mode).scaled(frame.chroma),
        }
    }
}

/// A sampling position lies between the first and the last pixel.
pub proof fn lemma_tap_range(index: int, source_len: int, target_len: int, shown: Shown)
    requires
        0 < source_len,
    ensures
        0 <= tap(index, source_len, target_len, shown) <= 256 * (source_len - 1),
{
    let c = centre(index, source_len, target_len, shown);
    let last = source_len - 1;
    assert(0 <= last * FINE) by (nonlinear_arith)
        requires
            0 <= last,
            FINE == 0x100_0000_0000_0000_0000_0000_0000_0000,
    ;
    assert(0 <= c <= last * FINE);
    let f = FINE as int;
    assert(0 <= (512 * c + f) / (2 * f) <= 256 * last) by (nonlinear_arith)
        requires
            0 <= c <= last * f,
            0 < f,
            0 <= last,
    ;
}

/// The samplings between two sizes stay inside the source.
pub proof fn lemma_sampling_valid(
    source_width: int,
    source_height: int,
    target_width: int,
    target_height: int,
    channels: int,
    mode: ScaleMode,
)
    requires
        0 < source_width <= u32::MAX,
        0 < source_height <= u32::MAX,
        0 <= target_width <= u32::MAX,
        0 <= target_height <= u32::MAX,
        0 <= channels <= usize::MAX,
    ensures
        sampling(
            source_width,
            source_height,
            target_width,
            target_height,
            channels,
            mode,
        ).valid(),
{
    let s = sampling(source_width, source_height, target_width, target_height, channels, mode);
    let scale = fill_scale(source_width, source_height, target_width, target_height);
    let w = shown_part(mode, source_width, target_width, scale);
    let h = shown_part(mode, source_height, target_height, scale);
    assert forall|i: int| 0 <= i < s.columns.len() implies 0 <= #[trigger] s.columns[i] <= 256 * (
    source_width - 1) by {
        lemma_tap_range(i, source_width, target_width, w);
    }
    assert forall|i: int| 0 <= i < s.rows.len() implies 0 <= #[trigger] s.rows[i] <= 256 * (
    source_height - 1) by {
        lemma_tap_range(i, source_height, target_height, h);
    }
}

/// The chroma samplings between two sizes stay inside the source.
pub proof fn lemma_chroma_sampling_valid(source: Dims, target: Dims, mode: ScaleMode)
    requires
        source.valid(),
        target.valid(),
    ensures
        chroma_sampling(source, target, mode).valid(),
{
    let s = chroma_sampling(source, target, mode);
    let scale = fill_scale(source.width, source.height, target.width, target.height);
    let w = halved(shown_part(mode, source.width, target.width, scale));
    let h = halved(shown_part(mode, source.height, target.height, scale));
    assert forall|i: int| 0 <= i < s.columns.len() implies 0 <= #[trigger] s.columns[i] <= 256 * (
    s.source_width - 1) by {
        lemma_tap_range(i, s.source_width, s.target_width, w);
    }
    assert forall|i: int| 0 <= i < s.rows.len() implies 0 <= #[trigger] s.rows[i] <= 256 * (
    s.source_height - 1) by {
        lemma_tap_range(i, s.source_height, s.target_height, h);
    }
}

/// The part of a source that is shown along one axis.
#[derive(Clone, Copy, Debug, PartialEq, Eq)]
pub struct Span {
    pub start: Signed,
    pub length: Rounded,
}

impl Span {
    pub open spec fn shown(self) -> Shown {
        Shown { start: self.start.value(), length: self.length.value() }
    }

    /// The numbers are those of a source of no more than 2^32 pixels.
    pub open spec fn wf(self) -> bool {
        &&& self.start.wf()
        &&& self.start.size.whole < 0x8_0000_0000
        &&& self.length.wf()
        &&& self.length.zeros <= 400
        &&& self.length.value() <= 0x4_0000_0000 * FINE
    }

    /// All of a source.
    fn all(source_len: u32) -> (span: Self)
        ensures
            span.wf(),
            span.shown() == (Shown { start: 0, length: source_len * FINE }),
    {
        proof {
            crate::double::lemma_fine();
        }
        Span {
            start: Signed { negative: false, size: Fixed::from_whole(0) },
            length: Rounded { digits: source_len as u64, zeros: 120 },
        }
    }

    /// What a target holds of a source that is scaled to fill it.
    fn filled(source_len: u32, target_len: u32, scale: Rounded) -> (span: Self)
        requires
            0 < source_len,
            scale.wf(),
            scale.zeros <= 220,
            scale.value() > 0,
            scale.value() >= crate::double::double(target_len * FINE, source_len as int),
        ensures
            span.wf(),
            span.shown() == shown_part(
                ScaleMode::Fill,
                source_len as int,
                target_len as int,
                scale.value(),
            ),
    {
        let ghost (s, t, f) = (source_len as int, target_len as int, FINE as int);
        proof {
            if scale.digits == 0 {
                assert(0 * pow2(scale.zeros as nat) == 0);
            }
        }
        let length: Rounded = round_quotient(target_len as u128, 240 - scale.zeros, scale.digits);
        proof {
            let z = scale.zeros as nat;
            let left = (240 - scale.zeros) as nat;
            crate::double::lemma_fine();
            lemma_pow2_adds(left, z);
            lemma_pow2_adds(120, 120);
            let (p, q) = (pow2(left) as int, pow2(z) as int);
            assert((t * p) * q == (t * f) * f) by (nonlinear_arith)
                requires
                    p * q == f * f,
            ;
            lemma_pow2_pos(left);
            assert(0 <= t * p) by (nonlinear_arith)
                requires
                    0 <= t,
                    0 < p,
            ;
            crate::precision::lemma_nearest_cancel(
                t * p,
                scale.digits as int,
                z,
                crate::precision::DOUBLE as int,
            );
            assert(length.value() == crate::double::double((t * f) * f, scale.value()));
            lemma_length(s, t, scale.value());
        }
        let fixed: Fixed = Fixed::from_rounded(length);
        let gap = Signed { negative: false, size: Fixed::from_whole(source_len) }.sum(
            Signed { negative: true, size: fixed },
        );
        proof {
            let exact = s * f - length.value();
            lemma_signed_bound(exact);
        }
        Span { start: gap.halved(), length }
    }

    fn halved(self) -> (span: Self)
        requires
            self.wf(),
        ensures
            span.wf(),
            span.shown() == halved(self.shown()),
    {
        Span { start: self.start.halved(), length: self.length.halved() }
    }
}

/// A rounded number is no larger than twice the exact one.
proof fn lemma_signed_bound(value: int)
    ensures
        value >= 0 ==> 0 <= crate::double::signed_double(value) <= 2 * value,
        value < 0 ==> 2 * value <= crate::double::signed_double(value) <= 0,
{
    if value < 0 {
        crate::precision::lemma_nearest(-value, 1, crate::precision::DOUBLE as int);
    } else {
        crate::precision::lemma_nearest(value, 1, crate::precision::DOUBLE as int);
    }
}

/// A target holds no more of a source than there is, but for rounding.
pub proof fn lemma_length(source_len: int, target_len: int, scale: int)
    requires
        0 < source_len <= u32::MAX,
        0 <= target_len <= u32::MAX,
        0 < scale,
        crate::double::double(target_len * FINE, source_len) <= scale,
    ensures
        0 <= crate::double::double((target_len * FINE) * FINE, scale) <= 4 * (source_len * FINE),
{
    let f = FINE as int;
    let limit = crate::precision::DOUBLE as int;
    let n = target_len * f;
    let length = crate::double::double(n * f, scale);
    assert(0 <= n && 0 <= n * f) by (nonlinear_arith)
        requires
            n == target_len * f,
            0 <= target_len,
            0 < f,
    ;
    crate::precision::lemma_nearest(n * f, scale, limit);
    if target_len == 0 {
        assert(length == 0) by (nonlinear_arith)
            requires
                0 <= length,
                length * scale <= 2 * (n * f),
                n == 0,
                0 < scale,
        ;
    } else {
        assert(source_len <= n) by (nonlinear_arith)
            requires
                n == target_len * f,
                1 <= target_len,
                0 < source_len <= f,
        ;
        crate::precision::lemma_nearest_half(n, source_len, limit);
        let least = crate::double::double(n, source_len);
        assert(least * source_len <= scale * source_len) by (nonlinear_arith)
            requires
                least <= scale,
                0 < source_len,
        ;
        assert(n * f <= (2 * (scale * source_len)) * f) by (nonlinear_arith)
            requires
                n <= 2 * (scale * source_len),
                0 < f,
        ;
        let bound = 4 * (source_len * f);
        assert(2 * ((2 * (scale * source_len)) * f) == bound * scale) by (nonlinear_arith)
            requires
                bound == 4 * (source_len * f),
        ;
        assert(length <= bound) by (nonlinear_arith)
            requires
                length * scale <= bound * scale,
                0 < scale,
        ;
    }
}

/// How much of the source is shown, along both axes.
#[derive(Clone, Copy, Debug, PartialEq, Eq)]
struct SourceRect {
    columns: Span,
    rows: Span,
}

impl SourceRect {
    spec fn wf(self) -> bool {
        self.columns.wf() && self.rows.wf()
    }

    fn for_mode(
        mode: ScaleMode,
        source_width: u32,
        source_height: u32,
        target_width: u32,
        target_height: u32,
    ) -> (rect: Self)
        requires
            0 < source_width,
            0 < source_height,
        ensures
            rect.wf(),
            target_width > 0 || target_height > 0 ==> {
                let scale = fill_scale(
                    source_width as int,
                    source_height as int,
                    target_width as int,
                    target_height as int,
                );
                &&& rect.columns.shown() == shown_part(
                    mode,
                    source_width as int,
                    target_width as int,
                    scale,
                )
                &&& rect.rows.shown() == shown_part(
                    mode,
                    source_height as int,
                    target_height as int,
                    scale,
                )
            },
    {
        match mode {
            ScaleMode::Stretch => SourceRect {
                columns: Span::all(source_width),
                rows: Span::all(source_height),
            },
            ScaleMode::Fill => {
                if target_width == 0 && target_height == 0 {
                    return SourceRect {
                        columns: Span::all(source_width),
                        rows: Span::all(source_height),
                    };
                }
                let across: Rounded = ratio(target_width, source_width);
                let down: Rounded = ratio(target_height, source_height);
                let scale: Rounded = if Fixed::from_rounded(across).at_most(
                    Fixed::from_rounded(down),
                ) {
                    down
                } else {
                    across
                };
                SourceRect {
                    columns: Span::filled(source_width, target_width, scale),
                    rows: Span::filled(source_height, target_height, scale),
                }
            },
        }
    }

    fn halved(self) -> (rect: Self)
        requires
            self.wf(),
        ensures
            rect.wf(),
            rect.columns.shown() == halved(self.columns.shown()),
            rect.rows.shown() == halved(self.rows.shown()),
    {
        SourceRect { columns: self.columns.halved(), rows: self.rows.halved() }
    }
}

/// What a target shows of a source that fills it: the columns and the rows.
pub fn filled_spans(source: FrameSize, target: FrameSize) -> (spans: (Span, Span))
    ensures
        spans.0.wf(),
        spans.1.wf(),
        ({
            let scale = fill_scale(
                source@.width,
                source@.height,
                target@.width,
                target@.height,
            );
            &&& spans.0.shown() == shown_part(
                ScaleMode::Fill,
                source@.width,
                target@.width,
                scale,
            )
            &&& spans.1.shown() == shown_part(
                ScaleMode::Fill,
                source@.height,
                target@.height,
                scale,
            )
        }),
{
    let rect = SourceRect::for_mode(
        ScaleMode::Fill,
        source.width(),
        source.height(),
        target.width(),
        target.height(),
    );
    (rect.columns, rect.rows)
}

/// One length divided by another is not negative, and not zero unless the length is.
pub proof fn lemma_ratio(target_len: int, source_len: int)
    requires
        0 <= target_len <= u32::MAX,
        0 < source_len <= u32::MAX,
    ensures
        ({
            let ratio = crate::double::double(target_len * FINE, source_len);
            &&& 0 <= ratio <= 2 * (target_len * FINE)
            &&& target_len > 0 ==> ratio > 0
        }),
{
    let (n, d) = (target_len * FINE, source_len);
    let limit = crate::precision::DOUBLE as int;
    assert(0 <= n) by (nonlinear_arith)
        requires
            n == target_len * FINE,
            0 <= target_len,
    ;
    crate::precision::lemma_nearest(n, d, limit);
    let near = crate::double::double(n, d);
    assert(near <= 2 * n) by (nonlinear_arith)
        requires
            near * d <= 2 * n,
            1 <= d,
            0 <= near,
    ;
    if target_len > 0 {
        assert(d <= n) by (nonlinear_arith)
            requires
                n == target_len * FINE,
                1 <= target_len,
                d <= FINE,
        ;
        crate::precision::lemma_nearest_half(n, d, limit);
        assert(0 < near) by (nonlinear_arith)
            requires
                n <= 2 * (near * d),
                0 < d <= n,
                0 <= near,
        ;
    }
}

/// One length divided by another.
fn ratio(target_len: u32, source_len: u32) -> (ratio: Rounded)
    requires
        0 < source_len,
    ensures
        ratio.wf(),
        ratio.zeros <= 220,
        ratio.value() == crate::double::double(target_len * FINE, source_len as int),
        ratio.value() < 0x100_0000_0000 * FINE,
        target_len > 0 ==> ratio.value() > 0,
        ratio.value() >= 0,
{
    let ratio: Rounded = round_quotient(target_len as u128, 120, source_len as u64);
    proof {
        crate::double::lemma_fine();
        lemma_ratio(target_len as int, source_len as int);
    }
    ratio
}

/// A sampling position: a pixel and 256ths of the way to the next one.
#[derive(Clone, Copy, Debug, PartialEq, Eq, Structural)]
struct Tap {
    index: u32,
    fraction: u32,
}

impl Tap {
    spec fn position(self) -> int {
        self.index * 256 + self.fraction
    }
}

spec fn positions(taps: Seq<Tap>) -> Seq<int> {
    Seq::new(taps.len(), |i: int| taps[i].position())
}

spec fn taps_wf(taps: Seq<Tap>) -> bool {
    forall|i: int| 0 <= i < taps.len() ==> (#[trigger] taps[i]).fraction < 256
}

fn tap_at(index: u32, source_len: u32, target_len: u32, span: Span) -> (made: Tap)
    requires
        0 < source_len,
        index < target_len,
        span.wf(),
    ensures
        made.position() == tap(
            index as int,
            source_len as int,
            target_len as int,
            span.shown(),
        ),
        made.fraction < 256,
        made.index < source_len,
{
    let ghost shown = span.shown();
    let ghost (i, s, t, f) = (index as int, source_len as int, target_len as int, FINE as int);
    let odd: u128 = 2 * index as u128 + 1;
    let ghost (digits, p) = (span.length.digits as int, pow2(span.length.zeros as nat) as int);
    proof {
        lemma_pow2_pos(span.length.zeros as nat);
        assert(digits * odd <= 0x20_0000_0000_0000 * 0x2_0000_0000) by (nonlinear_arith)
            requires
                0 <= digits <= 0x20_0000_0000_0000,
                0 <= odd <= 0x2_0000_0000,
        ;
        assert((digits * odd) * p == odd * (digits * p)) by (nonlinear_arith);
        assert(0 <= digits * p) by (nonlinear_arith)
            requires
                0 <= digits,
                0 < p,
        ;
    }
    let product: Rounded = round_quotient(
        span.length.digits as u128 * odd,
        span.length.zeros,
        2,
    );
    let along: Rounded = round_quotient(product.digits as u128, product.zeros, target_len as u64);
    proof {
        lemma_along(i, t, shown.length);
        lemma_tap_range(i, s, t, shown);
    }
    let along: Fixed = Fixed::from_rounded(along);
    let ghost exact = along.value() - f / 2;
    let middle = Signed { negative: false, size: along }.sum(
        Signed { negative: true, size: Fixed { whole: 0, part: FINE / 2 } },
    );
    proof {
        lemma_signed_bound(exact);
    }
    let raw = middle.sum(span.start);
    let last: u32 = source_len - 1;
    let ghost scaled = tap(i, s, t, shown);
    if raw.negative {
        assert(centre(i, s, t, shown) == 0);
        return Tap { index: 0, fraction: 0 };
    }
    if raw.size.whole >= last as u64 {
        proof {
            let whole = raw.size.whole as int;
            assert((s - 1) * f <= whole * f) by (nonlinear_arith)
                requires
                    s - 1 <= whole,
                    0 < f,
            ;
            assert(centre(i, s, t, shown) == (s - 1) * f);
        }
        return Tap { index: last, fraction: 0 };
    }
    let half: u128 = 0x8000_0000_0000_0000_0000_0000_0000;
    let fraction: u128 = (raw.size.part + half) / (2 * half);
    proof {
        let (whole, part) = (raw.size.whole as int, raw.size.part as int);
        assert((whole + 1) * f <= (s - 1) * f && whole * f + f == (whole + 1) * f && 0 <= whole * f)
            by (nonlinear_arith)
            requires
                0 <= whole,
                whole + 1 <= s - 1,
                0 < f,
        ;
        assert(centre(i, s, t, shown) == whole * f + part);
        let (q, r) = ((part + half) / (2 * half as int), (part + half) % (2 * half as int));
        assert(512 * (whole * f + part) + f == (256 * whole + q) * (2 * f) + 512 * r)
            by (nonlinear_arith)
            requires
                f == 512 * half,
                part + half == (2 * half) * q + r,
        ;
        vstd::arithmetic::div_mod::lemma_fundamental_div_mod_converse(
            512 * (whole * f + part) + f,
            2 * f,
            256 * whole + q,
            512 * r,
        );
    }
    let index: u32 = raw.size.whole as u32;
    if fraction >= 256 {
        Tap { index: index + 1, fraction: 0 }
    } else {
        Tap { index, fraction: fraction as u32 }
    }
}

/// Where a pixel lies along what is shown stays within four times its length.
proof fn lemma_along(index: int, target_len: int, length: int)
    requires
        0 <= index < target_len,
        0 <= length,
    ensures
        ({
            let product = crate::double::double((2 * index + 1) * length, 2);
            &&& 0 <= product
            &&& 0 <= crate::double::double(product, target_len) <= 4 * length
        }),
{
    let limit = crate::precision::DOUBLE as int;
    let n = (2 * index + 1) * length;
    assert(0 <= n <= 2 * (target_len * length)) by (nonlinear_arith)
        requires
            n == (2 * index + 1) * length,
            0 <= 2 * index + 1 <= 2 * target_len,
            0 <= length,
    ;
    crate::precision::lemma_nearest(n, 2, limit);
    let product = crate::double::double(n, 2);
    crate::precision::lemma_nearest(product, target_len, limit);
    let along = crate::double::double(product, target_len);
    assert(along <= 4 * length) by (nonlinear_arith)
        requires
            along * target_len <= 2 * product,
            product <= 2 * (target_len * length),
            0 < target_len,
    ;
}

fn taps(source_len: u32, target_len: u32, span: Span) -> (made: Vec<Tap>)
    requires
        0 < source_len,
        span.wf(),
    ensures
        taps_wf(made@),
        positions(made@) == taps_of(source_len as int, target_len as int, span.shown()),
{
    let ghost shown = span.shown();
    let mut made: Vec<Tap> = Vec::new();
    for i in 0..target_len
        invariant
            0 < source_len,
            span.wf(),
            shown == span.shown(),
            made@.len() == i,
            taps_wf(made@),
            forall|j: int|
                0 <= j < i ==> (#[trigger] made@[j]).position() == tap(
                    j,
                    source_len as int,
                    target_len as int,
                    shown,
                ),
    {
        made.push(tap_at(i, source_len, target_len, span));
    }
    proof {
        assert(positions(made@) =~= taps_of(source_len as int, target_len as int, shown));
    }
    made
}

#[derive(Debug)]
pub struct PlaneScaler {
    source_width: u32,
    source_height: u32,
    target_width: u32,
    target_height: u32,
    channels: usize,
    column_taps: Vec<Tap>,
    row_taps: Vec<Tap>,
}

impl View for PlaneScaler {
    type V = Sampling;

    closed spec fn view(&self) -> Sampling {
        Sampling {
            source_width: self.source_width as int,
            source_height: self.source_height as int,
            target_width: self.target_width as int,
            target_height: self.target_height as int,
            channels: self.channels as int,
            columns: positions(self.column_taps@),
            rows: positions(self.row_taps@),
        }
    }
}

impl PlaneScaler {
    /// The scaler samples inside its source.
    pub closed spec fn wf(&self) -> bool {
        &&& self@.valid()
        &&& taps_wf(self.column_taps@)
        &&& taps_wf(self.row_taps@)
    }

    /// What a well-formed scaler does is a valid sampling.
    pub proof fn lemma_wf(&self)
        requires
            self.wf(),
        ensures
            self@.valid(),
    {
    }

    pub fn new(
        source_width: u32,
        source_height: u32,
        target_width: u32,
        target_height: u32,
        channels: usize,
        mode: ScaleMode,
    ) -> (scaler: Self)
        requires
            0 < source_width,
            0 < source_height,
        ensures
            scaler.wf(),
            scaler@.valid(),
            scaler@ == sampling(
                source_width as int,
                source_height as int,
                target_width as int,
                target_height as int,
                channels as int,
                mode,
            ),
    {
        let rect = SourceRect::for_mode(
            mode,
            source_width,
            source_height,
            target_width,
            target_height,
        );
        proof {
            lemma_sampling_valid(
                source_width as int,
                source_height as int,
                target_width as int,
                target_height as int,
                channels as int,
                mode,
            );
        }
        Self::with_rect(source_width, source_height, target_width, target_height, channels, rect)
    }

    fn with_rect(
        source_width: u32,
        source_height: u32,
        target_width: u32,
        target_height: u32,
        channels: usize,
        rect: SourceRect,
    ) -> (scaler: Self)
        requires
            0 < source_width,
            0 < source_height,
            rect.wf(),
        ensures
            scaler@ == (Sampling {
                source_width: source_width as int,
                source_height: source_height as int,
                target_width: target_width as int,
                target_height: target_height as int,
                channels: channels as int,
                columns: taps_of(source_width as int, target_width as int, rect.columns.shown()),
                rows: taps_of(source_height as int, target_height as int, rect.rows.shown()),
            }),
            scaler@.valid() ==> scaler.wf(),
    {
        PlaneScaler {
            source_width,
            source_height,
            target_width,
            target_height,
            channels,
            column_taps: taps(source_width, target_width, rect.columns),
            row_taps: taps(source_height, target_height, rect.rows),
        }
    }

    pub fn source_len(&self) -> (len: usize)
        requires
            self@.source_width * self@.source_height <= usize::MAX,
            self@.source_bytes() <= usize::MAX,
        ensures
            len == self@.source_bytes(),
    {
        self.source_width as usize * self.source_height as usize * self.channels
    }

    pub fn target_len(&self) -> (len: usize)
        requires
            self@.target_width * self@.target_height <= usize::MAX,
            self@.target_bytes() <= usize::MAX,
        ensures
            len == self@.target_bytes(),
    {
        self.target_width as usize * self.target_height as usize * self.channels
    }

    /// Scales a plane.
    pub fn scale(&self, source: &[u8], target: &mut [u8]) -> (result: Result<(), CoreError>)
        requires
            self.wf(),
            self@.addressable(),
            0 < self@.channels,
            0 < self@.target_width,
        ensures
            result == self@.check(source@.len(), old(target)@.len()),
            final(target)@ == if result is Ok {
                self@.scaled(source@)
            } else {
                old(target)@
            },
    {
        proof {
            lemma_bytes_fit(self@.source_width, self@.source_height, self@.channels);
            lemma_bytes_fit(self@.target_width, self@.target_height, self@.channels);
        }
        match check_len(self.source_len(), source.len()) {
            Ok(()) => {},
            Err(error) => return Err(error),
        }
        match check_len(self.target_len(), target.len()) {
            Ok(()) => {},
            Err(error) => return Err(error),
        }
        let ghost whole = self@.scaled(source@);
        let total: usize = target.len();
        let mut position: usize = 0;
        let mut channel: usize = 0;
        let mut column: usize = 0;
        let mut row: usize = 0;
        let ghost mut pixel: int = 0;
        proof {
            assert(0 * self@.target_width == 0) by (nonlinear_arith);
        }
        while position < total
            invariant
                self.wf(),
                self@.addressable(),
                0 < self@.channels,
                0 < self@.target_width,
                source@.len() == self@.source_bytes(),
                target@.len() == self@.target_bytes(),
                total == target@.len(),
                whole == self@.scaled(source@),
                position <= total,
                0 <= pixel,
                position == pixel * self@.channels + channel,
                pixel == row * self@.target_width + column,
                channel < self@.channels,
                column < self@.target_width,
                forall|j: int| 0 <= j < position ==> #[trigger] target@[j] == whole[j],
            decreases total - position,
        {
            proof {
                crate::arith::lemma_row_column(pixel, channel as int, self@.channels);
                crate::arith::lemma_row_column(row as int, column as int, self@.target_width);
                lemma_row_inside(
                    position as int,
                    row as int,
                    pixel,
                    column as int,
                    channel as int,
                    self@,
                );
            }
            let value: u8 = self.sample_at(source, column, row, channel);
            target[position] = value;
            proof {
                assert(whole[position as int] == value);
                assert((pixel + 1) * self@.channels == pixel * self@.channels + self@.channels)
                    by (nonlinear_arith);
                assert((row + 1) * self@.target_width == row * self@.target_width
                    + self@.target_width) by (nonlinear_arith);
            }
            position = position + 1;
            if channel + 1 < self.channels {
                channel = channel + 1;
            } else {
                channel = 0;
                proof {
                    pixel = pixel + 1;
                }
                if column + 1 < self.target_width as usize {
                    column = column + 1;
                } else {
                    column = 0;
                    row = row + 1;
                }
            }
        }
        proof {
            assert(target@ =~= whole);
        }
        Ok(())
    }

    fn sample_at(&self, source: &[u8], column: usize, row: usize, channel: usize) -> (value: u8)
        requires
            self.wf(),
            self@.addressable(),
            source@.len() == self@.source_bytes(),
            column < self@.target_width,
            row < self@.target_height,
            channel < self@.channels,
        ensures
            value == self@.sample(
                source@,
                self@.columns[column as int],
                self@.rows[row as int],
                channel as int,
            ),
    {
        let column_tap = self.column_taps[column];
        let row_tap = self.row_taps[row];
        assert(column_tap.position() == self@.columns[column as int]);
        assert(row_tap.position() == self@.rows[row as int]);
        let left: usize = column_tap.index as usize;
        let last_column: usize = self.source_width as usize - 1;
        let right: usize = if left < last_column {
            left + 1
        } else {
            last_column
        };
        let top: usize = row_tap.index as usize;
        let last_row: usize = self.source_height as usize - 1;
        let bottom: usize = if top < last_row {
            top + 1
        } else {
            last_row
        };
        let tl: u8 = self.source_byte(source, left, top, channel);
        let tr: u8 = self.source_byte(source, right, top, channel);
        let bl: u8 = self.source_byte(source, left, bottom, channel);
        let br: u8 = self.source_byte(source, right, bottom, channel);
        mix(tl, tr, bl, br, column_tap.fraction, row_tap.fraction)
    }

    fn source_byte(&self, source: &[u8], column: usize, row: usize, channel: usize) -> (byte: u8)
        requires
            self@.addressable(),
            source@.len() == self@.source_bytes(),
            column < self@.source_width,
            row < self@.source_height,
            channel < self@.channels,
        ensures
            byte == self@.byte(source@, column as int, row as int, channel as int),
    {
        proof {
            lemma_byte_inside(column as int, row as int, channel as int, self@);
        }
        source[(row * self.source_width as usize + column) * self.channels + channel]
    }
}

/// A plane has at least one byte for each cell.
pub proof fn lemma_bytes_fit(width: int, height: int, channels: int)
    requires
        0 <= width,
        0 <= height,
        0 < channels,
    ensures
        0 <= width * height <= width * height * channels,
{
    assert(0 <= width * height) by (nonlinear_arith)
        requires
            0 <= width,
            0 <= height,
    ;
    let area = width * height;
    assert(area <= area * channels) by (nonlinear_arith)
        requires
            0 <= area,
            0 < channels,
    ;
}

proof fn lemma_byte_inside(column: int, row: int, channel: int, s: Sampling)
    requires
        0 <= column < s.source_width,
        0 <= row < s.source_height,
        0 <= channel < s.channels,
    ensures
        0 <= row * s.source_width,
        0 <= row * s.source_width + column <= (row * s.source_width + column) * s.channels,
        0 <= (row * s.source_width + column) * s.channels + channel < s.source_bytes(),
{
    crate::arith::lemma_product_nonnegative(row, s.source_width);
    crate::arith::lemma_cell_in_plane(row, column, s.source_width, s.source_height);
    let cell = row * s.source_width + column;
    crate::arith::lemma_cell_in_plane(cell, channel, s.channels, s.source_width * s.source_height);
    assert(s.channels * (s.source_width * s.source_height) == s.source_bytes())
        by (nonlinear_arith)
        requires
            s.source_bytes() == s.source_width * s.source_height * s.channels,
    ;
    assert(cell <= cell * s.channels) by (nonlinear_arith)
        requires
            0 <= cell,
            0 < s.channels,
    ;
}

proof fn lemma_row_inside(
    position: int,
    row: int,
    pixel: int,
    column: int,
    channel: int,
    s: Sampling,
)
    requires
        0 < s.channels,
        0 < s.target_width,
        0 <= position < s.target_bytes(),
        position == pixel * s.channels + channel,
        pixel == row * s.target_width + column,
        0 <= channel < s.channels,
        0 <= column < s.target_width,
        0 <= row,
    ensures
        row < s.target_height,
{
    if row >= s.target_height {
        let area = s.target_width * s.target_height;
        assert(row * s.target_width >= area) by (nonlinear_arith)
            requires
                row >= s.target_height,
                0 < s.target_width,
                area == s.target_width * s.target_height,
        ;
        assert(pixel * s.channels >= area * s.channels) by (nonlinear_arith)
            requires
                pixel >= area,
                0 < s.channels,
        ;
    }
}

fn mix(tl: u8, tr: u8, bl: u8, br: u8, fx: u32, fy: u32) -> (value: u8)
    requires
        fx < 256,
        fy < 256,
    ensures
        value == mixed(tl, tr, bl, br, fx as int, fy as int),
{
    let (a, b, c, d): (u32, u32, u32, u32) = (tl as u32, tr as u32, bl as u32, br as u32);
    let ix: u32 = 256 - fx;
    let iy: u32 = 256 - fy;
    proof {
        lemma_mix_bound(a as int, b as int, fx as int, 255);
        lemma_mix_bound(c as int, d as int, fx as int, 255);
    }
    let upper: u32 = a * ix + b * fx;
    let lower: u32 = c * ix + d * fx;
    proof {
        lemma_mix_bound(upper as int, lower as int, fy as int, 65_280);
    }
    ((upper * iy + lower * fy + 32_768) / 65_536) as u8
}

proof fn lemma_mix_bound(a: int, b: int, f: int, max: int)
    by (nonlinear_arith)
    requires
        0 <= a <= max,
        0 <= b <= max,
        0 <= f <= 256,
    ensures
        0 <= a * (256 - f),
        0 <= b * f,
        a * (256 - f) + b * f <= 256 * max,
{
}

#[derive(Debug)]
pub struct Nv12Scaler {
    source: FrameSize,
    target: FrameSize,
    luma: PlaneScaler,
    chroma: PlaneScaler,
    identity: bool,
    mode: ScaleMode,
}

impl Nv12Scaler {
    /// The planes' scalers belong to the two sizes.
    pub closed spec fn wf(&self) -> bool {
        &&& self.source@.valid()
        &&& self.target@.valid()
        &&& self.luma.wf()
        &&& self.chroma.wf()
        &&& self.luma@ == luma_sampling(self.source@, self.target@, self.mode)
        &&& self.chroma@ == chroma_sampling(self.source@, self.target@, self.mode)
        &&& self.identity == (self.source@ == self.target@)
    }

    /// The size of the frames it takes.
    pub closed spec fn source_size(&self) -> Dims {
        self.source@
    }

    /// The size of the frames it makes.
    pub closed spec fn target_size(&self) -> Dims {
        self.target@
    }

    /// How it treats a difference in aspect ratio.
    pub closed spec fn scale_mode(&self) -> ScaleMode {
        self.mode
    }

    pub fn new(source: FrameSize, target: FrameSize, mode: ScaleMode) -> (scaler: Self)
        ensures
            scaler.wf(),
            scaler.source_size() == source@,
            scaler.target_size() == target@,
            scaler.scale_mode() == mode,
    {
        let rect = SourceRect::for_mode(
            mode,
            source.width(),
            source.height(),
            target.width(),
            target.height(),
        );
        proof {
            lemma_sampling_valid(
                source@.width,
                source@.height,
                target@.width,
                target@.height,
                1,
                mode,
            );
            lemma_chroma_sampling_valid(source@, target@, mode);
        }
        let identity: bool = source.width() == target.width() && source.height()
            == target.height();
        Nv12Scaler {
            source,
            target,
            luma: PlaneScaler::with_rect(
                source.width(),
                source.height(),
                target.width(),
                target.height(),
                1,
                rect,
            ),
            chroma: PlaneScaler::with_rect(
                source.chroma_width(),
                source.chroma_height(),
                target.chroma_width(),
                target.chroma_height(),
                2,
                rect.halved(),
            ),
            identity,
            mode,
        }
    }

    pub fn source(&self) -> (size: FrameSize)
        ensures
            size@ == self.source_size(),
    {
        self.source
    }

    pub fn target(&self) -> (size: FrameSize)
        ensures
            size@ == self.target_size(),
    {
        self.target
    }

    /// Scales a frame.
    pub fn scale(&self, source: &Nv12Frame, target: &mut Nv12Frame) -> (result: Result<
        (),
        CoreError,
    >)
        requires
            self.wf(),
            source.wf(),
            old(target).wf(),
        ensures
            result == scale_check(
                self.source_size(),
                source@.size,
                self.target_size(),
                old(target)@.size,
            ),
            final(target)@ == if result is Ok {
                scaled_frame(source@, self.target_size(), self.scale_mode())
            } else {
                old(target)@
            },
            final(target).wf(),
    {
        match self.source.ensure_eq(source.size()) {
            Ok(()) => {},
            Err(error) => return Err(error),
        }
        match self.target.ensure_eq(target.size()) {
            Ok(()) => {},
            Err(error) => return Err(error),
        }
        if self.identity {
            return target.copy_from(source);
        }
        proof {
            lemma_frame_bytes(source@.size);
            lemma_frame_bytes(target@.size);
        }
        let (luma, chroma) = target.planes_mut();
        let first = self.luma.scale(source.luma(), luma);
        let second = self.chroma.scale(source.chroma(), chroma);
        match first {
            Ok(()) => second,
            Err(error) => Err(error),
        }
    }
}

/// Whether the frames of a scaling have the sizes that it is for.
pub open spec fn scale_check(
    source: Dims,
    actual_source: Dims,
    target: Dims,
    actual_target: Dims,
) -> Result<(), CoreError> {
    if source != actual_source {
        crate::frame::size_check(source, actual_source)
    } else {
        crate::frame::size_check(target, actual_target)
    }
}

/// The bytes of both planes of a frame, counted as the scalers count them.
proof fn lemma_frame_bytes(size: Dims)
    requires
        size.valid(),
        size.addressable(1),
    ensures
        size.width * size.height * 1 == size.area(),
        size.chroma_width() * size.chroma_height() * 2 == size.chroma_area() * 2,
        size.chroma_area() * 2 <= usize::MAX,
        0 < size.chroma_width(),
{
    crate::frame::lemma_chroma_is_half(size);
}

/// Mixing four equal bytes gives that byte.
proof fn lemma_mix_of_equals(byte: u8, fx: int, fy: int)
    requires
        0 <= fx < 256,
        0 <= fy < 256,
    ensures
        mixed(byte, byte, byte, byte, fx, fy) == byte,
{
    let b = byte as int;
    assert(b * (256 - fx) + b * fx == 256 * b) by (nonlinear_arith);
    let row = 256 * b;
    assert(row * (256 - fy) + row * fy == 256 * row) by (nonlinear_arith);
}

/// Scaling a plane of one colour gives a plane of that colour, whatever the
/// sizes and the mode are.
pub proof fn law_uniform_planes_stay_uniform(s: Sampling, plane: Seq<u8>, color: Seq<u8>)
    requires
        s.valid(),
        0 < s.channels,
        plane.len() == s.source_bytes(),
        color.len() == s.channels,
        forall|i: int| 0 <= i < plane.len() ==> #[trigger] plane[i] == color[i % s.channels],
    ensures
        s.scaled(plane) == Seq::new(
            s.target_bytes() as nat,
            |i: int| color[i % s.channels],
        ),
{
    crate::arith::lemma_product_nonnegative(s.target_width, s.target_height);
    crate::arith::lemma_product_nonnegative(s.target_width * s.target_height, s.channels);
    let scaled = s.scaled(plane);
    assert forall|i: int| 0 <= i < scaled.len() implies #[trigger] scaled[i] == color[i
        % s.channels] by {
        assert(s.channels * (s.target_width * s.target_height) == s.target_bytes())
            by (nonlinear_arith)
            requires
                s.target_bytes() == s.target_width * s.target_height * s.channels,
        ;
        crate::arith::lemma_position_in_plane(i, s.channels, s.target_width * s.target_height);
        let pixel = i / s.channels;
        assert(s.target_width > 0) by (nonlinear_arith)
            requires
                0 <= pixel < s.target_width * s.target_height,
                0 <= s.target_width,
        ;
        crate::arith::lemma_position_in_plane(pixel, s.target_width, s.target_height);
        let x = s.columns[pixel % s.target_width];
        let y = s.rows[pixel / s.target_width];
        let channel = i % s.channels;
        assert forall|column: int, row: int|
            0 <= column < s.source_width && 0 <= row < s.source_height implies #[trigger] s.byte(
            plane,
            column,
            row,
            channel,
        ) == color[channel] by {
            lemma_byte_inside(column, row, channel, s);
            crate::arith::lemma_row_column(
                row * s.source_width + column,
                channel,
                s.channels,
            );
        }
        lemma_mix_of_equals(color[channel], x % 256, y % 256);
    }
    assert(scaled =~= Seq::new(s.target_bytes() as nat, |i: int| color[i % s.channels]));
}

/// A frame of one colour stays one after scaling.
pub proof fn law_uniform_frames_stay_uniform(
    source: Dims,
    target: Dims,
    color: crate::color::Yuv,
    mode: ScaleMode,
)
    requires
        source.valid(),
        target.valid(),
    ensures
        scaled_frame(Nv12::uniform(source, color), target, mode) == Nv12::uniform(target, color),
{
    let frame = Nv12::uniform(source, color);
    if source != target {
        let luma = luma_sampling(source, target, mode);
        let chroma = chroma_sampling(source, target, mode);
        lemma_sampling_valid(source.width, source.height, target.width, target.height, 1, mode);
        lemma_chroma_sampling_valid(source, target, mode);
        crate::frame::lemma_chroma_is_half(source);
        crate::frame::lemma_chroma_is_half(target);
        law_uniform_planes_stay_uniform(luma, frame.luma, seq![color.y]);
        law_uniform_planes_stay_uniform(chroma, frame.chroma, seq![color.u, color.v]);
        assert(luma.scaled(frame.luma) =~= Nv12::uniform(target, color).luma);
        assert(chroma.scaled(frame.chroma) =~= Nv12::uniform(target, color).chroma);
    }
}

/// Rounding moves a number of source pixels by little.
pub proof fn lemma_signed_error(value: int)
    requires
        -0x2_0000_0000 * FINE <= value <= 0x2_0000_0000 * FINE,
    ensures
        ({
            let slack = FINE / 0x10_0000 + 1;
            value - slack <= crate::double::signed_double(value) <= value + slack
        }),
{
    let limit = crate::precision::DOUBLE as int;
    if value < 0 {
        crate::precision::lemma_nearest_error(-value, 1, limit);
    } else {
        crate::precision::lemma_nearest_error(value, 1, limit);
    }
}

/// Between equal lengths every pixel is sampled where it is.
proof fn lemma_identity_tap(index: int, len: int, shown: Shown)
    requires
        0 <= index < len <= u32::MAX,
        shown.start == 0,
        shown.length == len * FINE,
    ensures
        tap(index, len, len, shown) == 256 * index,
{
    let f = FINE as int;
    let limit = crate::precision::DOUBLE as int;
    let slack = f / 0x10_0000;
    let odd = 2 * index + 1;
    let n = odd * shown.length;
    lemma_along(index, len, shown.length);
    assert(n == (odd * f) * len && 0 <= n) by (nonlinear_arith)
        requires
            n == odd * (len * f),
            0 <= odd,
            0 < len,
            0 < f,
    ;
    let product = crate::double::double(n, 2);
    let along = crate::double::double(product, len);
    crate::precision::lemma_nearest(n, 2, limit);
    crate::precision::lemma_nearest_error(n, 2, limit);
    crate::precision::lemma_nearest_error(product, len, limit);
    assert(n <= limit * (slack * len)) by (nonlinear_arith)
        requires
            n == (odd * f) * len,
            odd <= 0x2_0000_0000,
            0 < len,
            f == 0x100_0000_0000_0000_0000_0000_0000_0000,
            slack == 0x10_0000_0000_0000_0000_0000_0000,
            limit == 0x20_0000_0000_0000,
    {
        assert(odd * f <= 0x2_0000_0000 * f);
        assert((odd * f) * len <= (0x2_0000_0000 * f) * len);
        assert(limit * (slack * len) == (limit * slack) * len);
    }
    let (part, share) = (slack * len, along * len);
    assert(2 * product <= n + part + 2 && n <= 2 * product + part + 2) by (nonlinear_arith)
        requires
            limit * (product * 2) <= limit * n + n + limit * 2,
            limit * n <= limit * (product * 2) + n + limit * 2,
            n <= limit * part,
            0 < limit,
    ;
    assert(share <= product + part + len && product <= share + part + len) by (nonlinear_arith)
        requires
            limit * share <= limit * product + product + limit * len,
            limit * product <= limit * share + product + limit * len,
            product <= limit * part,
            0 < limit,
    ;
    assert(2 * along <= odd * f + 3 * slack + 4 && odd * f <= 2 * along + 3 * slack + 4)
        by (nonlinear_arith)
        requires
            2 * share <= n + 3 * part + 2 * len + 2,
            n <= 2 * share + 3 * part + 2 * len + 2,
            share == along * len,
            part == slack * len,
            n == (odd * f) * len,
            1 <= len,
    ;
    assert(odd * f == 2 * (index * f) + f) by (nonlinear_arith)
        requires
            odd == 2 * index + 1,
    ;
    assert(0 <= index * f <= (len - 1) * f && index * f <= 0x1_0000_0000 * f) by (nonlinear_arith)
        requires
            0 <= index <= len - 1,
            index <= 0x1_0000_0000,
            0 < f,
    ;
    lemma_signed_error(along - f / 2);
    let middle = crate::double::signed_double(along - f / 2);
    lemma_signed_error(middle);
    let c = centre(index, len, len, shown);
    assert(index * f - 5 * slack <= c <= index * f + 5 * slack);
    let rest = 512 * (c - index * f) + f;
    assert(512 * c + f == (256 * index) * (2 * f) + rest) by (nonlinear_arith)
        requires
            rest == 512 * (c - index * f) + f,
    ;
    vstd::arithmetic::div_mod::lemma_fundamental_div_mod_converse(
        512 * c + f,
        2 * f,
        256 * index,
        rest,
    );
}

/// Scaling to the size that a plane has already copies it.
pub proof fn law_identity_scale_copies_the_plane(
    width: int,
    height: int,
    channels: int,
    mode: ScaleMode,
    plane: Seq<u8>,
)
    requires
        0 < width <= u32::MAX,
        0 < height <= u32::MAX,
        0 < channels <= usize::MAX,
        plane.len() == width * height * channels,
    ensures
        sampling(width, height, width, height, channels, mode).scaled(plane) == plane,
{
    let s = sampling(width, height, width, height, channels, mode);
    let scale = fill_scale(width, height, width, height);
    let w = shown_part(mode, width, width, scale);
    let h = shown_part(mode, height, height, scale);
    lemma_filled_by_itself(mode, width, height);
    assert forall|i: int| 0 <= i < plane.len() implies #[trigger] s.scaled(plane)[i]
        == plane[i] by {
        assert(channels * (width * height) == width * height * channels) by (nonlinear_arith);
        crate::arith::lemma_position_in_plane(i, channels, width * height);
        let pixel = i / channels;
        crate::arith::lemma_position_in_plane(pixel, width, height);
        let (column, row) = (pixel % width, pixel / width);
        lemma_identity_tap(column, width, w);
        lemma_identity_tap(row, height, h);
        assert(s.columns[column] == 256 * column);
        assert(s.rows[row] == 256 * row);
        assert(s.byte(plane, column, row, i % channels) == plane[i]);
        lemma_mix_at_a_pixel(
            plane[i],
            s.byte(plane, if column + 1 < width { column + 1 } else { width - 1 }, row, i % channels),
            s.byte(plane, column, if row + 1 < height { row + 1 } else { height - 1 }, i % channels),
            s.byte(
                plane,
                if column + 1 < width { column + 1 } else { width - 1 },
                if row + 1 < height { row + 1 } else { height - 1 },
                i % channels,
            ),
        );
    }
    assert(s.scaled(plane) =~= plane);
}

/// A plane that fills its own size is shown whole.
pub proof fn lemma_filled_by_itself(mode: ScaleMode, width: int, height: int)
    requires
        0 < width <= u32::MAX,
        0 < height <= u32::MAX,
    ensures
        ({
            let scale = fill_scale(width, height, width, height);
            let all = shown_part(ScaleMode::Stretch, width, width, scale);
            let whole = shown_part(ScaleMode::Stretch, height, height, scale);
            &&& shown_part(mode, width, width, scale) == all
            &&& shown_part(mode, height, height, scale) == whole
        }),
{
    let f = FINE as int;
    let limit = crate::precision::DOUBLE as int;
    crate::double::lemma_fine();
    crate::precision::lemma_nearest_kept(1, 120, width, limit);
    crate::precision::lemma_nearest_kept(1, 120, height, limit);
    crate::precision::lemma_nearest_kept(width, 120, f, limit);
    crate::precision::lemma_nearest_kept(height, 120, f, limit);
    crate::precision::lemma_nearest_exact(0, 1, limit);
    assert((1 * f) * width == width * f && (1 * f) * height == height * f) by (nonlinear_arith);
    assert(fill_scale(width, height, width, height) == f);
}

proof fn lemma_mix_at_a_pixel(tl: u8, tr: u8, bl: u8, br: u8)
    ensures
        mixed(tl, tr, bl, br, 0, 0) == tl,
{
}

/// A scaled plane never leaves the range of the bytes around it.
pub proof fn law_mixing_stays_between(
    tl: u8,
    tr: u8,
    bl: u8,
    br: u8,
    fx: int,
    fy: int,
    low: u8,
    high: u8,
)
    requires
        0 <= fx < 256,
        0 <= fy < 256,
        low <= tl <= high,
        low <= tr <= high,
        low <= bl <= high,
        low <= br <= high,
    ensures
        low <= mixed(tl, tr, bl, br, fx, fy) <= high,
{
    let upper = tl * (256 - fx) + tr * fx;
    let lower = bl * (256 - fx) + br * fx;
    lemma_weighted_between(tl as int, tr as int, fx, low as int, high as int);
    lemma_weighted_between(bl as int, br as int, fx, low as int, high as int);
    lemma_weighted_between(upper, lower, fy, 256 * low, 256 * high);
}

proof fn lemma_weighted_between(a: int, b: int, f: int, low: int, high: int)
    by (nonlinear_arith)
    requires
        low <= a <= high,
        low <= b <= high,
        0 <= f <= 256,
    ensures
        256 * low <= a * (256 - f) + b * f <= 256 * high,
{
}

} // verus!
