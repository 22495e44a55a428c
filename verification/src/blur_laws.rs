//! What a blur does to the edges of a plane.

use vstd::prelude::*;

use crate::blur::{BlurStrength, Grid, LEAST_FACTOR, LEAST_FRACTION};
use crate::frame::Nv12;
use crate::precision::ONE;
use crate::scale::{Sampling, ScaleMode};

verus! {

/// Every byte of a channel lies between two others.
pub open spec fn ranges(
    plane: Seq<u8>,
    width: int,
    height: int,
    channels: int,
    channel: int,
    low: u8,
    high: u8,
) -> bool {
    forall|x: int, y: int|
        0 <= x < width && 0 <= y < height ==> low <= #[trigger] crate::blur::sample(
            plane,
            width,
            channels,
            x,
            y,
            channel,
        ) <= high
}

/// Neighbouring bytes of a channel, side by side or one above the other, differ by no
/// more than a step.
pub open spec fn gentle(
    plane: Seq<u8>,
    width: int,
    height: int,
    channels: int,
    channel: int,
    step: int,
) -> bool {
    let at = |x: int, y: int| crate::blur::sample(plane, width, channels, x, y, channel) as int;
    &&& forall|x: int, y: int|
        #![trigger crate::blur::sample(plane, width, channels, x, y, channel)]
        0 <= x && x + 1 < width && 0 <= y < height ==> -step <= at(x + 1, y) - at(x, y) <= step
    &&& forall|x: int, y: int|
        #![trigger crate::blur::sample(plane, width, channels, x, y, channel)]
        0 <= x < width && 0 <= y && y + 1 < height ==> -step <= at(x, y + 1) - at(x, y) <= step
}

pub proof fn lemma_rows_at(
    plane: Seq<u8>,
    width: int,
    height: int,
    channels: int,
    x: int,
    y: int,
    channel: int,
)
    requires
        0 <= x < width,
        0 <= y < height,
        0 <= channel < channels,
    ensures
        crate::blur::sample(
            crate::blur::smoothed_rows(plane, width, height, channels),
            width,
            channels,
            x,
            y,
            channel,
        ) == crate::blur::tent3(
            crate::blur::sample(
                plane,
                width,
                channels,
                if x > 0 {
                    x - 1
                } else {
                    0
                },
                y,
                channel,
            ),
            crate::blur::sample(plane, width, channels, x, y, channel),
            crate::blur::sample(
                plane,
                width,
                channels,
                if x + 1 < width {
                    x + 1
                } else {
                    width - 1
                },
                y,
                channel,
            ),
        ),
{
    crate::walk::lemma_cell_in_plane(x, y, channel, width, height, channels);
}

pub proof fn lemma_columns_at(
    plane: Seq<u8>,
    width: int,
    height: int,
    channels: int,
    x: int,
    y: int,
    channel: int,
)
    requires
        0 <= x < width,
        0 <= y < height,
        0 <= channel < channels,
    ensures
        crate::blur::sample(
            crate::blur::smoothed_columns(plane, width, height, channels),
            width,
            channels,
            x,
            y,
            channel,
        ) == crate::blur::tent3(
            crate::blur::sample(
                plane,
                width,
                channels,
                x,
                if y > 0 {
                    y - 1
                } else {
                    0
                },
                channel,
            ),
            crate::blur::sample(plane, width, channels, x, y, channel),
            crate::blur::sample(
                plane,
                width,
                channels,
                x,
                if y + 1 < height {
                    y + 1
                } else {
                    height - 1
                },
                channel,
            ),
        ),
{
    crate::walk::lemma_cell_in_plane(x, y, channel, width, height, channels);
}

/// Smoothing stays in range and halves the steps between neighbours.
proof fn lemma_tented_is_gentle(
    plane: Seq<u8>,
    width: int,
    height: int,
    channels: int,
    channel: int,
    low: u8,
    high: u8,
)
    requires
        0 < width,
        0 < height,
        0 <= channel < channels,
        ranges(plane, width, height, channels, channel, low, high),
    ensures
        ranges(
            crate::blur::tented(plane, width, height, channels),
            width,
            height,
            channels,
            channel,
            low,
            high,
        ),
        gentle(
            crate::blur::tented(plane, width, height, channels),
            width,
            height,
            channels,
            channel,
            (high - low + 1) / 2,
        ),
{
    let rows = crate::blur::smoothed_rows(plane, width, height, channels);
    let both = crate::blur::smoothed_columns(rows, width, height, channels);
    let step = (high - low + 1) / 2;
    assert forall|x: int, y: int| 0 <= x < width && 0 <= y < height implies low
        <= #[trigger] crate::blur::sample(rows, width, channels, x, y, channel) <= high by {
        lemma_rows_at(plane, width, height, channels, x, y, channel);
    }
    assert forall|x: int, y: int| 0 <= x < width && 0 <= y < height implies low
        <= #[trigger] crate::blur::sample(both, width, channels, x, y, channel) <= high by {
        lemma_columns_at(rows, width, height, channels, x, y, channel);
    }
    assert forall|x: int, y: int|
        0 <= x && x + 1 < width && 0 <= y < height implies -step <= crate::blur::sample(
        rows,
        width,
        channels,
        x + 1,
        y,
        channel,
    ) - #[trigger] crate::blur::sample(rows, width, channels, x, y, channel) <= step by {
        lemma_rows_at(plane, width, height, channels, x, y, channel);
        lemma_rows_at(plane, width, height, channels, x + 1, y, channel);
    }
    assert forall|x: int, y: int|
        #![trigger crate::blur::sample(both, width, channels, x, y, channel)]
        0 <= x && x + 1 < width && 0 <= y < height implies -step <= crate::blur::sample(
        both,
        width,
        channels,
        x + 1,
        y,
        channel,
    ) - crate::blur::sample(both, width, channels, x, y, channel) <= step by {
        lemma_columns_at(rows, width, height, channels, x, y, channel);
        lemma_columns_at(rows, width, height, channels, x + 1, y, channel);
        let (above, below) = (
            if y > 0 {
                y - 1
            } else {
                0
            },
            if y + 1 < height {
                y + 1
            } else {
                height - 1
            },
        );
        let at = |a: int, b: int| crate::blur::sample(rows, width, channels, a, b, channel) as int;
        assert(-step <= at(x + 1, above) - at(x, above) <= step);
        assert(-step <= at(x + 1, y) - at(x, y) <= step);
        assert(-step <= at(x + 1, below) - at(x, below) <= step);
    }
    assert forall|x: int, y: int|
        #![trigger crate::blur::sample(both, width, channels, x, y, channel)]
        0 <= x < width && 0 <= y && y + 1 < height implies -step <= crate::blur::sample(
        both,
        width,
        channels,
        x,
        y + 1,
        channel,
    ) - crate::blur::sample(both, width, channels, x, y, channel) <= step by {
        lemma_columns_at(rows, width, height, channels, x, y, channel);
        lemma_columns_at(rows, width, height, channels, x, y + 1, channel);
    }
}

/// Halving stays in range.
proof fn lemma_halved_ranges(
    plane: Seq<u8>,
    width: int,
    height: int,
    channels: int,
    channel: int,
    low: u8,
    high: u8,
)
    requires
        0 < width,
        0 < height,
        0 <= channel < channels,
        ranges(plane, width, height, channels, channel, low, high),
    ensures
        ranges(
            crate::blur::halved_plane(plane, width, height, channels),
            crate::blur::half_up(width),
            crate::blur::half_up(height),
            channels,
            channel,
            low,
            high,
        ),
{
    let (w, h) = (crate::blur::half_up(width), crate::blur::half_up(height));
    let half = crate::blur::halved_plane(plane, width, height, channels);
    assert forall|x: int, y: int| 0 <= x < w && 0 <= y < h implies low
        <= #[trigger] crate::blur::sample(half, w, channels, x, y, channel) <= high by {
        crate::walk::lemma_cell_in_plane(x, y, channel, w, h, channels);
    }
}

/// What a scaler makes of a channel, byte by byte.
pub proof fn lemma_stretched_at(
    plane: Seq<u8>,
    width: int,
    height: int,
    to_width: int,
    to_height: int,
    channels: int,
    x: int,
    y: int,
    channel: int,
)
    requires
        0 < width <= u32::MAX,
        0 < height <= u32::MAX,
        0 < to_width <= u32::MAX,
        0 < to_height <= u32::MAX,
        0 <= x < to_width,
        0 <= y < to_height,
        0 <= channel < channels <= usize::MAX,
    ensures
        ({
            let s = crate::scale::sampling(
                width,
                height,
                to_width,
                to_height,
                channels,
                ScaleMode::Stretch,
            );
            &&& s.valid()
            &&& crate::blur::sample(
                crate::blur::stretched(plane, width, height, to_width, to_height, channels),
                to_width,
                channels,
                x,
                y,
                channel,
            ) == s.sample(plane, s.columns[x], s.rows[y], channel)
        }),
{
    crate::scale::lemma_sampling_valid(
        width,
        height,
        to_width,
        to_height,
        channels,
        ScaleMode::Stretch,
    );
    crate::walk::lemma_cell_in_plane(x, y, channel, to_width, to_height, channels);
}

/// Scaling stays in range.
proof fn lemma_stretched_ranges(
    plane: Seq<u8>,
    width: int,
    height: int,
    to_width: int,
    to_height: int,
    channels: int,
    channel: int,
    low: u8,
    high: u8,
)
    requires
        0 < width <= u32::MAX,
        0 < height <= u32::MAX,
        0 < to_width <= u32::MAX,
        0 < to_height <= u32::MAX,
        0 <= channel < channels <= usize::MAX,
        ranges(plane, width, height, channels, channel, low, high),
    ensures
        ranges(
            crate::blur::stretched(plane, width, height, to_width, to_height, channels),
            to_width,
            to_height,
            channels,
            channel,
            low,
            high,
        ),
{
    let big = crate::blur::stretched(plane, width, height, to_width, to_height, channels);
    let s = crate::scale::sampling(
        width,
        height,
        to_width,
        to_height,
        channels,
        ScaleMode::Stretch,
    );
    assert forall|x: int, y: int| 0 <= x < to_width && 0 <= y < to_height implies low
        <= #[trigger] crate::blur::sample(big, to_width, channels, x, y, channel) <= high by {
        lemma_stretched_at(
            plane,
            width,
            height,
            to_width,
            to_height,
            channels,
            x,
            y,
            channel,
        );
        let (a, b) = (s.columns[x], s.rows[y]);
        let (left, top) = (a / 256, b / 256);
        let right = if left + 1 < width {
            left + 1
        } else {
            width - 1
        };
        let below = if top + 1 < height {
            top + 1
        } else {
            height - 1
        };
        assert forall|p: int, q: int|
            0 <= p < width && 0 <= q < height implies #[trigger] s.byte(plane, p, q, channel)
            == crate::blur::sample(plane, width, channels, p, q, channel) by {}
        crate::scale::law_mixing_stays_between(
            s.byte(plane, left, top, channel),
            s.byte(plane, right, top, channel),
            s.byte(plane, left, below, channel),
            s.byte(plane, right, below, channel),
            a % 256,
            b % 256,
            low,
            high,
        );
    }
}

/// A blur of any depth stays in range.
proof fn lemma_blurred_ranges(
    plane: Seq<u8>,
    width: int,
    height: int,
    channels: int,
    channel: int,
    count: nat,
    fractional: Option<Grid>,
    low: u8,
    high: u8,
)
    requires
        0 < width <= u32::MAX,
        0 < height <= u32::MAX,
        0 <= channel < channels <= usize::MAX,
        fractional matches Some(grid) ==> 0 < grid.width && 0 < grid.height,
        ranges(plane, width, height, channels, channel, low, high),
    ensures
        ranges(
            crate::blur::blurred_plane(plane, width, height, channels, count, fractional),
            width,
            height,
            channels,
            channel,
            low,
            high,
        ),
    decreases count,
{
    if count == 0 {
        if let Some(grid) = fractional {
            let (w, h) = (grid.width as int, grid.height as int);
            let small = crate::blur::stretched(plane, width, height, w, h, channels);
            lemma_stretched_ranges(plane, width, height, w, h, channels, channel, low, high);
            lemma_tented_is_gentle(small, w, h, channels, channel, low, high);
            lemma_stretched_ranges(
                crate::blur::tented(small, w, h, channels),
                w,
                h,
                width,
                height,
                channels,
                channel,
                low,
                high,
            );
        }
    } else {
        let (w, h) = (crate::blur::half_up(width), crate::blur::half_up(height));
        let half = crate::blur::halved_plane(plane, width, height, channels);
        lemma_halved_ranges(plane, width, height, channels, channel, low, high);
        lemma_blurred_ranges(
            half,
            w,
            h,
            channels,
            channel,
            (count - 1) as nat,
            fractional,
            low,
            high,
        );
        let inner = crate::blur::blurred_plane(
            half,
            w,
            h,
            channels,
            (count - 1) as nat,
            fractional,
        );
        lemma_tented_is_gentle(inner, w, h, channels, channel, low, high);
        lemma_stretched_ranges(
            crate::blur::tented(inner, w, h, channels),
            w,
            h,
            width,
            height,
            channels,
            channel,
            low,
            high,
        );
    }
}

/// The mix of two rows of bytes at a position in 256ths of a pixel.
spec fn along(s: Sampling, plane: Seq<u8>, x: int, row: int, channel: int) -> int {
    let left = x / 256;
    let right = if left + 1 < s.source_width {
        left + 1
    } else {
        s.source_width - 1
    };
    s.byte(plane, left, row, channel) * (256 - x % 256) + s.byte(plane, right, row, channel) * (x
        % 256)
}

/// Moving along a gentle row changes the mix by no more than a step for each 256th.
proof fn lemma_along_is_gentle(
    s: Sampling,
    plane: Seq<u8>,
    x: int,
    end: int,
    row: int,
    channel: int,
    step: int,
)
    requires
        0 <= x <= end <= 256 * (s.source_width - 1),
        0 <= row < s.source_height,
        0 <= step,
        gentle(plane, s.source_width, s.source_height, s.channels, channel, step),
    ensures
        -(step * (end - x)) <= along(s, plane, end, row, channel) - along(
            s,
            plane,
            x,
            row,
            channel,
        ) <= step * (end - x),
    decreases end - x,
{
    if x < end {
        lemma_along_is_gentle(s, plane, x + 1, end, row, channel, step);
        let left = x / 256;
        let (a, b) = (
            crate::blur::sample(plane, s.source_width, s.channels, left, row, channel) as int,
            crate::blur::sample(plane, s.source_width, s.channels, left + 1, row, channel) as int,
        );
        let f = x % 256;
        assert(along(s, plane, x, row, channel) == a * (256 - f) + b * f);
        assert(along(s, plane, x + 1, row, channel) == a * (256 - (f + 1)) + b * (f + 1)) by {
            if f == 255 {
                assert((x + 1) / 256 == left + 1 && (x + 1) % 256 == 0);
                assert(a * 0 == 0);
            } else {
                assert((x + 1) / 256 == left && (x + 1) % 256 == f + 1);
            }
        }
        assert(a * (256 - (f + 1)) + b * (f + 1) - (a * (256 - f) + b * f) == b - a)
            by (nonlinear_arith);
        assert(step * (end - x) == step * (end - (x + 1)) + step) by (nonlinear_arith);
    } else {
        assert(step * 0 == 0);
    }
}

/// A gentle column is as gentle between two of its rows.
proof fn lemma_rows_are_gentle(
    s: Sampling,
    plane: Seq<u8>,
    x: int,
    row: int,
    channel: int,
    step: int,
)
    requires
        0 <= x <= 256 * (s.source_width - 1),
        0 <= row,
        row + 1 < s.source_height,
        0 <= step,
        gentle(plane, s.source_width, s.source_height, s.channels, channel, step),
    ensures
        -(256 * step) <= along(s, plane, x, row + 1, channel) - along(s, plane, x, row, channel)
            <= 256 * step,
{
    let left = x / 256;
    let right = if left + 1 < s.source_width {
        left + 1
    } else {
        s.source_width - 1
    };
    let f = x % 256;
    let at = |p: int, q: int|
        crate::blur::sample(plane, s.source_width, s.channels, p, q, channel) as int;
    let (a, b, c, d) = (at(left, row), at(right, row), at(left, row + 1), at(right, row + 1));
    assert(-step <= c - a <= step);
    assert(-step <= d - b <= step);
    assert(-(256 * step) <= c * (256 - f) + d * f - (a * (256 - f) + b * f) <= 256 * step)
        by (nonlinear_arith)
        requires
            -step <= c - a <= step,
            -step <= d - b <= step,
            0 <= f < 256,
    {
        assert(c * (256 - f) + d * f - (a * (256 - f) + b * f) == (c - a) * (256 - f) + (d - b)
            * f);
        assert(-(step * (256 - f)) <= (c - a) * (256 - f) <= step * (256 - f));
        assert(-(step * f) <= (d - b) * f <= step * f);
        assert(step * (256 - f) + step * f == 256 * step);
    }
}

/// The mix of four bytes before it is rounded to one.
spec fn mix_of(s: Sampling, plane: Seq<u8>, x: int, y: int, channel: int) -> int {
    let top = y / 256;
    let below = if top + 1 < s.source_height {
        top + 1
    } else {
        s.source_height - 1
    };
    along(s, plane, x, top, channel) * (256 - y % 256) + along(s, plane, x, below, channel) * (y
        % 256)
}

/// Moving across a gentle plane changes a sample little.
proof fn lemma_across(
    s: Sampling,
    plane: Seq<u8>,
    x: int,
    end: int,
    y: int,
    channel: int,
    step: int,
)
    requires
        0 <= x <= end <= 256 * (s.source_width - 1),
        0 <= y <= 256 * (s.source_height - 1),
        0 < s.source_height,
        0 <= step,
        gentle(plane, s.source_width, s.source_height, s.channels, channel, step),
    ensures
        -(256 * (step * (end - x))) <= mix_of(s, plane, end, y, channel) - mix_of(
            s,
            plane,
            x,
            y,
            channel,
        ) <= 256 * (step * (end - x)),
{
    let top = y / 256;
    let below = if top + 1 < s.source_height {
        top + 1
    } else {
        s.source_height - 1
    };
    lemma_along_is_gentle(s, plane, x, end, top, channel, step);
    lemma_along_is_gentle(s, plane, x, end, below, channel, step);
    let f = y % 256;
    let (a, b, c, d) = (
        along(s, plane, x, top, channel),
        along(s, plane, x, below, channel),
        along(s, plane, end, top, channel),
        along(s, plane, end, below, channel),
    );
    let far = step * (end - x);
    assert(-(256 * far) <= c * (256 - f) + d * f - (a * (256 - f) + b * f) <= 256 * far)
        by (nonlinear_arith)
        requires
            -far <= c - a <= far,
            -far <= d - b <= far,
            0 <= f < 256,
    {
        assert(c * (256 - f) + d * f - (a * (256 - f) + b * f) == (c - a) * (256 - f) + (d - b)
            * f);
        assert(-(far * (256 - f)) <= (c - a) * (256 - f) <= far * (256 - f));
        assert(-(far * f) <= (d - b) * f <= far * f);
        assert(far * (256 - f) + far * f == 256 * far);
    }
}

/// Moving down a gentle plane changes a sample little.
proof fn lemma_down(
    s: Sampling,
    plane: Seq<u8>,
    x: int,
    y: int,
    end: int,
    channel: int,
    step: int,
)
    requires
        0 <= y <= end <= 256 * (s.source_height - 1),
        0 <= x <= 256 * (s.source_width - 1),
        0 < s.source_width,
        0 <= step,
        gentle(plane, s.source_width, s.source_height, s.channels, channel, step),
    ensures
        -(256 * (step * (end - y))) <= mix_of(s, plane, x, end, channel) - mix_of(
            s,
            plane,
            x,
            y,
            channel,
        ) <= 256 * (step * (end - y)),
    decreases end - y,
{
    if y < end {
        lemma_down(s, plane, x, y + 1, end, channel, step);
        let top = y / 256;
        lemma_rows_are_gentle(s, plane, x, top, channel, step);
        let (a, b) = (along(s, plane, x, top, channel), along(s, plane, x, top + 1, channel));
        let f = y % 256;
        assert(mix_of(s, plane, x, y, channel) == a * (256 - f) + b * f);
        assert(mix_of(s, plane, x, y + 1, channel) == a * (256 - (f + 1)) + b * (f + 1)) by {
            if f == 255 {
                assert((y + 1) / 256 == top + 1 && (y + 1) % 256 == 0);
                let c = along(
                    s,
                    plane,
                    x,
                    if top + 2 < s.source_height {
                        top + 2
                    } else {
                        s.source_height - 1
                    },
                    channel,
                );
                assert(a * 0 == 0 && c * 0 == 0);
            } else {
                assert((y + 1) / 256 == top && (y + 1) % 256 == f + 1);
            }
        }
        assert(a * (256 - (f + 1)) + b * (f + 1) - (a * (256 - f) + b * f) == b - a)
            by (nonlinear_arith);
        assert(step * (end - y) == step * (end - (y + 1)) + step) by (nonlinear_arith);
    } else {
        assert(step * 0 == 0);
    }
}

/// Two mixes that are close give bytes that are close.
proof fn lemma_close_bytes(a: int, b: int, step: int)
    requires
        0 <= step <= 255,
        -(256 * (step * 257)) <= b - a <= 256 * (step * 257),
    ensures
        -(step + 2) <= (b + 32_768) / 65_536 - (a + 32_768) / 65_536 <= step + 2,
{
}

/// A gentle plane that is scaled up is hardly less gentle.
proof fn lemma_stretched_is_gentle(
    plane: Seq<u8>,
    width: int,
    height: int,
    to_width: int,
    to_height: int,
    channels: int,
    channel: int,
    step: int,
)
    requires
        0 < width <= u32::MAX,
        0 < height <= u32::MAX,
        0 < to_width <= u32::MAX,
        0 < to_height <= u32::MAX,
        width <= to_width || to_width == 1,
        height <= to_height || to_height == 1,
        0 <= channel < channels <= usize::MAX,
        0 <= step <= 255,
        gentle(plane, width, height, channels, channel, step),
    ensures
        gentle(
            crate::blur::stretched(plane, width, height, to_width, to_height, channels),
            to_width,
            to_height,
            channels,
            channel,
            step + 2,
        ),
{
    let big = crate::blur::stretched(plane, width, height, to_width, to_height, channels);
    let s = crate::scale::sampling(
        width,
        height,
        to_width,
        to_height,
        channels,
        ScaleMode::Stretch,
    );
    crate::scale::lemma_sampling_valid(
        width,
        height,
        to_width,
        to_height,
        channels,
        ScaleMode::Stretch,
    );
    assert forall|x: int, y: int|
        #![trigger crate::blur::sample(big, to_width, channels, x, y, channel)]
        0 <= x && x + 1 < to_width && 0 <= y < to_height implies -(step + 2)
        <= crate::blur::sample(big, to_width, channels, x + 1, y, channel) - crate::blur::sample(
        big,
        to_width,
        channels,
        x,
        y,
        channel,
    ) <= step + 2 by {
        lemma_stretched_at(plane, width, height, to_width, to_height, channels, x, y, channel);
        lemma_stretched_at(plane, width, height, to_width, to_height, channels, x + 1, y, channel);
        crate::geometry::lemma_taps_follow(x, width, to_width);
        let (a, b, c) = (s.columns[x], s.columns[x + 1], s.rows[y]);
        assert(-257 <= b - a <= 257);
        if a <= b {
            lemma_across(s, plane, a, b, c, channel, step);
            lemma_far(step, b - a);
        } else {
            lemma_across(s, plane, b, a, c, channel, step);
            lemma_far(step, a - b);
        }
        lemma_close_bytes(
            mix_of(s, plane, a, c, channel),
            mix_of(s, plane, b, c, channel),
            step,
        );
        lemma_sample_is_mix(s, plane, a, c, channel);
        lemma_sample_is_mix(s, plane, b, c, channel);
    }
    assert forall|x: int, y: int|
        #![trigger crate::blur::sample(big, to_width, channels, x, y, channel)]
        0 <= x < to_width && 0 <= y && y + 1 < to_height implies -(step + 2)
        <= crate::blur::sample(big, to_width, channels, x, y + 1, channel) - crate::blur::sample(
        big,
        to_width,
        channels,
        x,
        y,
        channel,
    ) <= step + 2 by {
        lemma_stretched_at(plane, width, height, to_width, to_height, channels, x, y, channel);
        lemma_stretched_at(plane, width, height, to_width, to_height, channels, x, y + 1, channel);
        crate::geometry::lemma_taps_follow(y, height, to_height);
        let (a, b, c) = (s.rows[y], s.rows[y + 1], s.columns[x]);
        assert(-257 <= b - a <= 257);
        if a <= b {
            lemma_down(s, plane, c, a, b, channel, step);
            lemma_far(step, b - a);
        } else {
            lemma_down(s, plane, c, b, a, channel, step);
            lemma_far(step, a - b);
        }
        lemma_close_bytes(
            mix_of(s, plane, c, a, channel),
            mix_of(s, plane, c, b, channel),
            step,
        );
        lemma_sample_is_mix(s, plane, c, a, channel);
        lemma_sample_is_mix(s, plane, c, b, channel);
    }
}

proof fn lemma_far(step: int, distance: int)
    requires
        0 <= step,
        0 <= distance <= 257,
    ensures
        0 <= step * distance <= step * 257,
{
    assert(0 <= step * distance <= step * 257) by (nonlinear_arith)
        requires
            0 <= step,
            0 <= distance <= 257,
    ;
}

/// A sample is the mix, rounded to the nearest byte.
proof fn lemma_sample_is_mix(s: Sampling, plane: Seq<u8>, x: int, y: int, channel: int)
    requires
        0 < s.source_width,
        0 < s.source_height,
        0 <= x <= 256 * (s.source_width - 1),
        0 <= y <= 256 * (s.source_height - 1),
    ensures
        s.sample(plane, x, y, channel) == (mix_of(s, plane, x, y, channel) + 32_768) / 65_536,
{
    let top = y / 256;
    let below = if top + 1 < s.source_height {
        top + 1
    } else {
        s.source_height - 1
    };
    let (upper, lower) = (along(s, plane, x, top, channel), along(s, plane, x, below, channel));
    lemma_along_range(s, plane, x, top, channel);
    lemma_along_range(s, plane, x, below, channel);
    let f = y % 256;
    assert(0 <= upper * (256 - f) + lower * f <= 255 * 65_536) by (nonlinear_arith)
        requires
            0 <= upper <= 65_280,
            0 <= lower <= 65_280,
            0 <= f < 256,
    ;
}

proof fn lemma_along_range(s: Sampling, plane: Seq<u8>, x: int, row: int, channel: int)
    ensures
        0 <= along(s, plane, x, row, channel) <= 65_280,
{
    let left = x / 256;
    let right = if left + 1 < s.source_width {
        left + 1
    } else {
        s.source_width - 1
    };
    let (a, b) = (
        s.byte(plane, left, row, channel) as int,
        s.byte(plane, right, row, channel) as int,
    );
    let f = x % 256;
    assert(0 <= a * (256 - f) + b * f <= 65_280) by (nonlinear_arith)
        requires
            0 <= a <= 255,
            0 <= b <= 255,
            0 <= f < 256,
    ;
}

/// A plane that is halved at least once comes out gentle.
proof fn lemma_blurred_is_gentle(
    plane: Seq<u8>,
    width: int,
    height: int,
    channels: int,
    channel: int,
    count: nat,
    fractional: Option<Grid>,
    low: u8,
    high: u8,
)
    requires
        0 < width <= u32::MAX,
        0 < height <= u32::MAX,
        0 <= channel < channels <= usize::MAX,
        low <= high,
        count > 0 || fractional is Some,
        fractional matches Some(grid) ==> 0 < grid.width && 0 < grid.height && (count == 0 ==> (
        grid.width <= width || width == 1) && (grid.height <= height || height == 1)),
        ranges(plane, width, height, channels, channel, low, high),
    ensures
        gentle(
            crate::blur::blurred_plane(plane, width, height, channels, count, fractional),
            width,
            height,
            channels,
            channel,
            (high - low + 5) / 2,
        ),
{
    let step = (high - low + 1) / 2;
    if count == 0 {
        let grid = fractional->0;
        let (w, h) = (grid.width as int, grid.height as int);
        let small = crate::blur::stretched(plane, width, height, w, h, channels);
        lemma_stretched_ranges(plane, width, height, w, h, channels, channel, low, high);
        lemma_tented_is_gentle(small, w, h, channels, channel, low, high);
        lemma_stretched_is_gentle(
            crate::blur::tented(small, w, h, channels),
            w,
            h,
            width,
            height,
            channels,
            channel,
            step,
        );
    } else {
        let (w, h) = (crate::blur::half_up(width), crate::blur::half_up(height));
        let half = crate::blur::halved_plane(plane, width, height, channels);
        lemma_halved_ranges(plane, width, height, channels, channel, low, high);
        lemma_blurred_ranges(
            half,
            w,
            h,
            channels,
            channel,
            (count - 1) as nat,
            fractional,
            low,
            high,
        );
        let inner = crate::blur::blurred_plane(
            half,
            w,
            h,
            channels,
            (count - 1) as nat,
            fractional,
        );
        lemma_tented_is_gentle(inner, w, h, channels, channel, low, high);
        lemma_stretched_is_gentle(
            crate::blur::tented(inner, w, h, channels),
            w,
            h,
            width,
            height,
            channels,
            channel,
            step,
        );
    }
}

/// A blur softens the edges of luma: where a frame's luma lies between two bytes, no
/// two neighbours in the blurred frame differ by more than half of what lies between
/// the two, but for rounding.
pub proof fn law_blurred_luma_has_no_sharp_edges(
    frame: Nv12,
    strength: BlurStrength,
    low: u8,
    high: u8,
    column: int,
    row: int,
)
    requires
        frame.valid(),
        strength.wf(),
        frame.size.width >= 4,
        frame.size.height >= 4,
        forall|i: int| 0 <= i < frame.luma.len() ==> low <= #[trigger] frame.luma[i] <= high,
        0 <= column < frame.size.width,
        0 <= row < frame.size.height,
    ensures
        ({
            let luma = crate::blur::blurred(frame, strength).luma;
            let (w, at) = (frame.size.width, row * frame.size.width + column);
            &&& column + 1 < w ==> -(high - low + 5) <= 2 * (luma[at + 1] - luma[at]) <= high - low
                + 5
            &&& row + 1 < frame.size.height ==> -(high - low + 5) <= 2 * (luma[at + w] - luma[at])
                <= high - low + 5
        }),
{
    let (w, h) = (frame.size.width, frame.size.height);
    let depth = (strength.levels() / ONE as int) as nat;
    lemma_levels(strength);
    assert forall|x: int, y: int| 0 <= x < w && 0 <= y < h implies low
        <= #[trigger] crate::blur::sample(frame.luma, w, 1, x, y, 0) <= high by {
        crate::arith::lemma_cell_in_plane(y, x, w, h);
    }
    crate::arith::lemma_cell_in_plane(row, column, w, h);
    assert(low <= frame.luma[row * w + column] <= high);
    crate::blur::lemma_step_not_empty(w, h, strength.levels(), strength.factor as int);
    lemma_blurred_is_gentle(
        frame.luma,
        w,
        h,
        1,
        0,
        crate::blur::level_count(w, h, depth),
        crate::blur::fractional_step(w, h, strength.levels(), strength.factor as int),
        low,
        high,
    );
    let luma = crate::blur::blurred(frame, strength).luma;
    let at = |x: int, y: int| crate::blur::sample(luma, w, 1, x, y, 0);
    assert(at(column, row) == luma[row * w + column]);
    assert(at(column + 1, row) == luma[row * w + column + 1]);
    assert((row + 1) * w == row * w + w) by (nonlinear_arith);
    assert(at(column, row + 1) == luma[row * w + column + w]);
}

/// A blur softens the edges of colours as it does those of luma: no two neighbouring
/// chroma samples of a blurred frame differ, in either of their bytes, by more than
/// half of what lies between the least and the greatest such byte of the frame, but
/// for rounding. Chroma is halved once less than luma, so it takes two halvings of
/// luma, or more than one where the frame is large enough for a part of one to show.
pub proof fn law_blurred_chroma_has_no_sharp_edges(
    frame: Nv12,
    strength: BlurStrength,
    low: u8,
    high: u8,
    column: int,
    row: int,
    channel: int,
)
    requires
        frame.valid(),
        strength.wf(),
        (strength.levels() >= 2 * ONE && frame.size.width >= 8 && frame.size.height >= 8) || (
        strength.levels() > ONE + LEAST_FRACTION && frame.size.width >= 300 && frame.size.height
            >= 300),
        0 <= channel < 2,
        forall|i: int|
            0 <= i < frame.chroma.len() && i % 2 == channel ==> low <= #[trigger] frame.chroma[i]
                <= high,
        0 <= column < frame.size.width / 2,
        0 <= row < frame.size.height / 2,
    ensures
        ({
            let chroma = crate::blur::blurred(frame, strength).chroma;
            let w = frame.size.width / 2;
            let at = (row * w + column) * 2 + channel;
            &&& column + 1 < w ==> -(high - low + 5) <= 2 * (chroma[at + 2] - chroma[at]) <= high
                - low + 5
            &&& row + 1 < frame.size.height / 2 ==> -(high - low + 5) <= 2 * (chroma[at + 2 * w]
                - chroma[at]) <= high - low + 5
        }),
{
    let (w, h) = (frame.size.width / 2, frame.size.height / 2);
    let levels = strength.levels() - ONE;
    lemma_levels(strength);
    crate::frame::lemma_chroma_is_half(frame.size);
    assert forall|x: int, y: int| 0 <= x < w && 0 <= y < h implies low
        <= #[trigger] crate::blur::sample(frame.chroma, w, 2, x, y, channel) <= high by {
        crate::walk::lemma_cell_in_plane(x, y, channel, w, h, 2);
    }
    assert(low <= crate::blur::sample(frame.chroma, w, 2, column, row, channel) <= high);
    crate::blur::lemma_step_not_empty(w, h, levels, strength.factor as int);
    if strength.levels() < 2 * ONE {
        assert(levels / ONE as int == 0 && levels % ONE as int == levels);
        assert(strength.levels() % ONE as int == levels);
        lemma_shrunk_less(w, strength.factor as int);
        lemma_shrunk_less(h, strength.factor as int);
    }
    lemma_blurred_is_gentle(
        frame.chroma,
        w,
        h,
        2,
        channel,
        crate::blur::level_count(w, h, (levels / ONE as int) as nat),
        crate::blur::fractional_step(w, h, levels, strength.factor as int),
        low,
        high,
    );
    let chroma = crate::blur::blurred(frame, strength).chroma;
    let at = |x: int, y: int| crate::blur::sample(chroma, w, 2, x, y, channel);
    let here = (row * w + column) * 2 + channel;
    assert(at(column, row) == chroma[here]);
    assert(at(column + 1, row) == chroma[here + 2]);
    assert((row + 1) * w == row * w + w) by (nonlinear_arith);
    assert(at(column, row + 1) == chroma[here + 2 * w]);
}

/// A part of a halving makes a length of some size shorter.
proof fn lemma_shrunk_less(length: int, factor: int)
    requires
        150 <= length <= u32::MAX,
        LEAST_FACTOR <= factor,
    ensures
        2 <= crate::blur::shrunk(length, factor) < length,
{
    let single = crate::precision::SINGLE as int;
    let one: int = 8_388_608;
    let l = crate::precision::nearest(length, 1, single);
    assert(single * l <= (single + 1) * length) by {
        if 2 * length < single {
            crate::precision::lemma_nearest_exact(length, 1, single);
        } else {
            crate::precision::lemma_nearest_close(length, 1, single);
        }
    }
    crate::precision::lemma_nearest_half(length, 1, single);
    let scaled = l * (one * single);
    let part = crate::blur::quotient(length, factor);
    crate::precision::lemma_nearest(scaled, factor, single);
    assert(2 * part < (2 * length - 1) * single) by {
        if factor * single <= 2 * scaled {
            crate::precision::lemma_nearest_close(scaled, factor, single);
            assert(2 * part < (2 * length - 1) * single) by (nonlinear_arith)
                requires
                    single == 0x100_0000,
                    single * (part * factor) <= (single + 1) * scaled,
                    scaled == l * (8_388_608 * single),
                    single * l <= (single + 1) * length,
                    8_446_000 <= factor,
                    150 <= length,
                    0 <= part,
            {
                assert(single * (part * 8_446_000) <= single * (part * factor));
                assert(single * single * (part * 8_446_000) <= (single + 1) * (single + 1) * length
                    * (8_388_608 * single));
                assert((single + 1) * (single + 1) * 8_388_608 * 300 < single * single * 8_446_000
                    * 299);
            }
        } else {
            assert(part <= single) by (nonlinear_arith)
                requires
                    part * factor <= 2 * scaled,
                    2 * scaled < factor * single,
                    0 < factor,
            ;
            assert((2 * length - 1) * single >= 3 * single) by (nonlinear_arith)
                requires
                    150 <= length,
                    0 < single,
            ;
        }
    }
    assert((part + single / 2) / single < length) by (nonlinear_arith)
        requires
            2 * part < (2 * length - 1) * single,
            single == 0x100_0000,
    ;
}

/// Luma is halved once and up to five times more.
proof fn lemma_levels(strength: BlurStrength)
    ensures
        ONE <= strength.levels() <= 6 * ONE,
        strength.levels() / ONE as int >= 1,
        strength.levels() >= 2 * ONE ==> (strength.levels() - ONE) / ONE as int >= 1,
{
    let single = crate::precision::SINGLE as int;
    let amount = strength.limited().amount as int;
    let steps = crate::precision::nearest(amount * 5, 1, single);
    let sum = ONE + steps;
    vstd::arithmetic::power2::lemma2_to64_rest();
    crate::precision::lemma_nearest(amount * 5, 1, single);
    crate::precision::lemma_nearest_kept(5, 60, 1, single);
    crate::precision::lemma_nearest_kept(6, 60, 1, single);
    crate::precision::lemma_nearest_kept(1, 60, 1, single);
    crate::precision::lemma_nearest_order(amount * 5, 1, 5 * ONE, 1, single);
    crate::precision::lemma_nearest_order(sum, 1, 6 * ONE, 1, single);
    crate::precision::lemma_nearest_order(ONE as int, 1, sum, 1, single);
}

/// Luma is halved once and five times the strength more, and never more than six
/// times, to within the precision: a stronger blur never halves less often.
pub proof fn law_levels_grow_with_the_strength(first: BlurStrength, second: BlurStrength)
    requires
        first.amount <= second.amount,
    ensures
        first.levels() <= second.levels(),
        ({
            let amount = if first.amount < ONE {
                first.amount
            } else {
                ONE
            };
            let slack = ONE as int / 0x10_0000;
            -slack <= first.levels() - ONE - 5 * amount <= slack
        }),
        MIN_LEVELS * ONE <= first.levels() <= MAX_LEVELS * ONE,
{
    let single = crate::precision::SINGLE as int;
    let (a, b) = (first.limited().amount as int, second.limited().amount as int);
    crate::precision::lemma_nearest(5 * a, 1, single);
    crate::precision::lemma_nearest_order(a * 5, 1, b * 5, 1, single);
    let (p, q) = (
        crate::precision::nearest(a * 5, 1, single),
        crate::precision::nearest(b * 5, 1, single),
    );
    crate::precision::lemma_nearest_order(ONE + p, 1, ONE + q, 1, single);
    crate::precision::lemma_nearest_error(a * 5, 1, single);
    crate::precision::lemma_nearest_error(ONE + p, 1, single);
    lemma_levels(first);
}

/// How often luma is halved at least, and at most.
pub const MIN_LEVELS: u64 = 1;

pub const MAX_LEVELS: u64 = 6;

} // verus!
