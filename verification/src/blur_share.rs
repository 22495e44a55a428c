//! How little a single pixel counts in a blurred picture.

use vstd::prelude::*;

use crate::blur::{BlurStrength, Grid, LEAST_FRACTION};
use crate::frame::Nv12;
use crate::precision::ONE;
use crate::scale::ScaleMode;

verus! {

/// One channel of two planes of the same size differs by no more than a step anywhere.
spec fn close(
    first: Seq<u8>,
    second: Seq<u8>,
    width: int,
    height: int,
    channels: int,
    channel: int,
    step: int,
) -> bool {
    forall|x: int, y: int|
        0 <= x < width && 0 <= y < height ==> -step <= #[trigger] crate::blur::sample(
            first,
            width,
            channels,
            x,
            y,
            channel,
        ) - crate::blur::sample(second, width, channels, x, y, channel) <= step
}

/// One channel of two planes of the same size differs in one cell at most.
spec fn alone(
    first: Seq<u8>,
    second: Seq<u8>,
    width: int,
    height: int,
    channels: int,
    channel: int,
    column: int,
    row: int,
) -> bool {
    forall|x: int, y: int|
        0 <= x < width && 0 <= y < height && !(x == column && y == row)
            ==> #[trigger] crate::blur::sample(first, width, channels, x, y, channel)
            == crate::blur::sample(second, width, channels, x, y, channel)
}

proof fn lemma_halved_at(
    plane: Seq<u8>,
    width: int,
    height: int,
    channels: int,
    x: int,
    y: int,
    channel: int,
)
    requires
        0 <= x < crate::blur::half_up(width),
        0 <= y < crate::blur::half_up(height),
        0 <= channel < channels,
    ensures
        crate::blur::sample(
            crate::blur::halved_plane(plane, width, height, channels),
            crate::blur::half_up(width),
            channels,
            x,
            y,
            channel,
        ) == crate::blur::halved_byte(plane, width, height, channels, x, y, channel),
{
    crate::walk::lemma_cell_in_plane(
        x,
        y,
        channel,
        crate::blur::half_up(width),
        crate::blur::half_up(height),
        channels,
    );
}

/// Halving moves nothing further apart. A difference in one cell stays in one cell, and
/// with an even number of rows and columns a quarter of it is left.
proof fn lemma_halved_share(
    first: Seq<u8>,
    second: Seq<u8>,
    width: int,
    height: int,
    channels: int,
    channel: int,
    column: int,
    row: int,
    step: int,
)
    requires
        0 < width,
        0 < height,
        0 <= channel < channels,
        0 <= step,
        close(first, second, width, height, channels, channel, step),
    ensures
        ({
            let (p, q) = (
                crate::blur::halved_plane(first, width, height, channels),
                crate::blur::halved_plane(second, width, height, channels),
            );
            let (w, h) = (crate::blur::half_up(width), crate::blur::half_up(height));
            &&& close(p, q, w, h, channels, channel, step)
            &&& alone(first, second, width, height, channels, channel, column, row) ==> {
                &&& alone(p, q, w, h, channels, channel, column / 2, row / 2)
                &&& width % 2 == 0 && height % 2 == 0 ==> close(
                    p,
                    q,
                    w,
                    h,
                    channels,
                    channel,
                    (step + 3) / 4,
                )
            }
        }),
{
    let (p, q) = (
        crate::blur::halved_plane(first, width, height, channels),
        crate::blur::halved_plane(second, width, height, channels),
    );
    let (w, h) = (crate::blur::half_up(width), crate::blur::half_up(height));
    let only = alone(first, second, width, height, channels, channel, column, row);
    assert forall|x: int, y: int| 0 <= x < w && 0 <= y < h implies ({
        let d = #[trigger] crate::blur::sample(p, w, channels, x, y, channel) - crate::blur::sample(
            q,
            w,
            channels,
            x,
            y,
            channel,
        );
        &&& -step <= d <= step
        &&& only && !(x == column / 2 && y == row / 2) ==> d == 0
        &&& only && width % 2 == 0 && height % 2 == 0 ==> -((step + 3) / 4) <= d <= (step + 3) / 4
    }) by {
        lemma_halved_at(first, width, height, channels, x, y, channel);
        lemma_halved_at(second, width, height, channels, x, y, channel);
        let right = crate::blur::smaller(2 * x + 1, width - 1);
        let below = crate::blur::smaller(2 * y + 1, height - 1);
        let a = crate::blur::sample(first, width, channels, 2 * x, 2 * y, channel);
        let b = crate::blur::sample(first, width, channels, right, 2 * y, channel);
        let c = crate::blur::sample(first, width, channels, 2 * x, below, channel);
        let d = crate::blur::sample(first, width, channels, right, below, channel);
        assert(0 <= a + b + c + d);
    }
}

/// Smoothing moves nothing further apart. Of a difference in one cell no more than
/// nine sixteenths are left, which is what stays of a cell in a corner.
proof fn lemma_tented_share(
    first: Seq<u8>,
    second: Seq<u8>,
    width: int,
    height: int,
    channels: int,
    channel: int,
    column: int,
    row: int,
    step: int,
)
    requires
        2 <= width,
        2 <= height,
        0 <= channel < channels,
        0 <= step,
        close(first, second, width, height, channels, channel, step),
    ensures
        ({
            let (p, q) = (
                crate::blur::tented(first, width, height, channels),
                crate::blur::tented(second, width, height, channels),
            );
            &&& close(p, q, width, height, channels, channel, step)
            &&& alone(first, second, width, height, channels, channel, column, row) ==> close(
                p,
                q,
                width,
                height,
                channels,
                channel,
                (3 * ((3 * step + 3) / 4) + 3) / 4,
            )
        }),
{
    let (r, s) = (
        crate::blur::smoothed_rows(first, width, height, channels),
        crate::blur::smoothed_rows(second, width, height, channels),
    );
    let (p, q) = (
        crate::blur::tented(first, width, height, channels),
        crate::blur::tented(second, width, height, channels),
    );
    let only = alone(first, second, width, height, channels, channel, column, row);
    let most = (3 * step + 3) / 4;
    assert forall|x: int, y: int| 0 <= x < width && 0 <= y < height implies ({
        let d = #[trigger] crate::blur::sample(r, width, channels, x, y, channel)
            - crate::blur::sample(s, width, channels, x, y, channel);
        &&& -step <= d <= step
        &&& only ==> -most <= d <= most
        &&& only && y != row ==> d == 0
    }) by {
        crate::blur_laws::lemma_rows_at(first, width, height, channels, x, y, channel);
        crate::blur_laws::lemma_rows_at(second, width, height, channels, x, y, channel);
        let (left, right) = (
            if x > 0 {
                x - 1
            } else {
                0
            },
            if x + 1 < width {
                x + 1
            } else {
                width - 1
            },
        );
        let a = crate::blur::sample(first, width, channels, left, y, channel);
        let b = crate::blur::sample(first, width, channels, x, y, channel);
        let c = crate::blur::sample(first, width, channels, right, y, channel);
        assert(0 <= a + b + c);
    }
    assert forall|x: int, y: int| 0 <= x < width && 0 <= y < height implies ({
        let d = #[trigger] crate::blur::sample(p, width, channels, x, y, channel)
            - crate::blur::sample(q, width, channels, x, y, channel);
        &&& -step <= d <= step
        &&& only ==> -((3 * most + 3) / 4) <= d <= (3 * most + 3) / 4
    }) by {
        crate::blur_laws::lemma_columns_at(r, width, height, channels, x, y, channel);
        crate::blur_laws::lemma_columns_at(s, width, height, channels, x, y, channel);
        let (above, below) = (
            if y > 0 {
                y - 1
            } else {
                0
            },
            if y + 1 < height {
                y + 1
            } else {
                height - 1
            },
        );
        let a = crate::blur::sample(r, width, channels, x, above, channel);
        let b = crate::blur::sample(r, width, channels, x, y, channel);
        let c = crate::blur::sample(r, width, channels, x, below, channel);
        assert(0 <= a + b + c);
    }
}

/// Scaling moves nothing further apart.
proof fn lemma_stretched_share(
    first: Seq<u8>,
    second: Seq<u8>,
    width: int,
    height: int,
    to_width: int,
    to_height: int,
    channels: int,
    channel: int,
    step: int,
)
    requires
        0 < width <= u32::MAX,
        0 < height <= u32::MAX,
        0 < to_width <= u32::MAX,
        0 < to_height <= u32::MAX,
        0 <= channel < channels <= usize::MAX,
        0 <= step,
        close(first, second, width, height, channels, channel, step),
    ensures
        close(
            crate::blur::stretched(first, width, height, to_width, to_height, channels),
            crate::blur::stretched(second, width, height, to_width, to_height, channels),
            to_width,
            to_height,
            channels,
            channel,
            step,
        ),
{
    let (p, q) = (
        crate::blur::stretched(first, width, height, to_width, to_height, channels),
        crate::blur::stretched(second, width, height, to_width, to_height, channels),
    );
    assert forall|x: int, y: int| 0 <= x < to_width && 0 <= y < to_height implies -step
        <= #[trigger] crate::blur::sample(p, to_width, channels, x, y, channel)
        - crate::blur::sample(q, to_width, channels, x, y, channel) <= step by {
        crate::blur_laws::lemma_stretched_at(
            first,
            width,
            height,
            to_width,
            to_height,
            channels,
            x,
            y,
            channel,
        );
        crate::blur_laws::lemma_stretched_at(
            second,
            width,
            height,
            to_width,
            to_height,
            channels,
            x,
            y,
            channel,
        );
        let s = crate::scale::sampling(
            width,
            height,
            to_width,
            to_height,
            channels,
            ScaleMode::Stretch,
        );
        let (a, b) = (s.columns[x], s.rows[y]);
        assert(0 <= a <= 256 * (width - 1) && 0 <= b <= 256 * (height - 1));
        let (left, above) = (a / 256, b / 256);
        let right = if left + 1 < width {
            left + 1
        } else {
            width - 1
        };
        let below = if above + 1 < height {
            above + 1
        } else {
            height - 1
        };
        let f = |i: int, j: int| crate::blur::sample(first, width, channels, i, j, channel);
        let g = |i: int, j: int| crate::blur::sample(second, width, channels, i, j, channel);
        lemma_mixed_share(
            (f(left, above), f(right, above), f(left, below), f(right, below)),
            (g(left, above), g(right, above), g(left, below), g(right, below)),
            a % 256,
            b % 256,
            step,
        );
    }
}

/// Mixing moves nothing further apart.
proof fn lemma_mixed_share(
    first: (u8, u8, u8, u8),
    second: (u8, u8, u8, u8),
    fx: int,
    fy: int,
    step: int,
)
    requires
        0 <= fx < 256,
        0 <= fy < 256,
        0 <= step,
        -step <= first.0 - second.0 <= step,
        -step <= first.1 - second.1 <= step,
        -step <= first.2 - second.2 <= step,
        -step <= first.3 - second.3 <= step,
    ensures
        -step <= crate::scale::mixed(first.0, first.1, first.2, first.3, fx, fy)
            - crate::scale::mixed(second.0, second.1, second.2, second.3, fx, fy) <= step,
{
    let (a, b, c, d) = first;
    let (p, q, r, s) = second;
    let (upper, lower) = (a * (256 - fx) + b * fx, c * (256 - fx) + d * fx);
    let (over, under) = (p * (256 - fx) + q * fx, r * (256 - fx) + s * fx);
    lemma_weighted_share(a as int, b as int, p as int, q as int, fx, step);
    lemma_weighted_share(c as int, d as int, r as int, s as int, fx, step);
    lemma_weighted_share(upper, lower, over, under, fy, 256 * step);
    crate::gradient_laws::lemma_total_fits(a as int, b as int, c as int, d as int, fx, fy);
    crate::gradient_laws::lemma_total_fits(p as int, q as int, r as int, s as int, fx, fy);
}

proof fn lemma_weighted_share(a: int, b: int, p: int, q: int, f: int, step: int)
    by (nonlinear_arith)
    requires
        -step <= a - p <= step,
        -step <= b - q <= step,
        0 <= f < 256,
        0 <= step,
    ensures
        -(256 * step) <= (a * (256 - f) + b * f) - (p * (256 - f) + q * f) <= 256 * step,
{
    assert((a * (256 - f) + b * f) - (p * (256 - f) + q * f) == (a - p) * (256 - f) + (b - q) * f);
    assert((a - p) * (256 - f) <= step * (256 - f));
    assert((a - p) * (256 - f) >= -(step * (256 - f)));
    assert((b - q) * f <= step * f);
    assert((b - q) * f >= -(step * f));
}

/// Blurring moves nothing further apart. Of a difference in one cell no more than nine
/// sixteenths are left where there is a halving and no fractional step.
proof fn lemma_blurred_share(
    first: Seq<u8>,
    second: Seq<u8>,
    width: int,
    height: int,
    channels: int,
    channel: int,
    count: nat,
    fractional: Option<Grid>,
    column: int,
    row: int,
    step: int,
)
    requires
        2 <= width <= u32::MAX,
        2 <= height <= u32::MAX,
        0 <= channel < channels <= usize::MAX,
        0 <= step,
        count > 0 ==> crate::blur::halvings(width, count) >= 2 && crate::blur::halvings(
            height,
            count,
        ) >= 2,
        fractional matches Some(grid) ==> 2 <= grid.width && 2 <= grid.height,
        close(first, second, width, height, channels, channel, step),
    ensures
        ({
            let (p, q) = (
                crate::blur::blurred_plane(first, width, height, channels, count, fractional),
                crate::blur::blurred_plane(second, width, height, channels, count, fractional),
            );
            &&& close(p, q, width, height, channels, channel, step)
            &&& count > 0 && fractional is None && alone(
                first,
                second,
                width,
                height,
                channels,
                channel,
                column,
                row,
            ) ==> close(
                p,
                q,
                width,
                height,
                channels,
                channel,
                (3 * ((3 * step + 3) / 4) + 3) / 4,
            )
        }),
    decreases count,
{
    let left = (3 * ((3 * step + 3) / 4) + 3) / 4;
    if count == 0 {
        if let Some(grid) = fractional {
            let (w, h) = (grid.width as int, grid.height as int);
            let (a, b) = (
                crate::blur::stretched(first, width, height, w, h, channels),
                crate::blur::stretched(second, width, height, w, h, channels),
            );
            lemma_stretched_share(first, second, width, height, w, h, channels, channel, step);
            lemma_tented_share(a, b, w, h, channels, channel, 0, 0, step);
            lemma_stretched_share(
                crate::blur::tented(a, w, h, channels),
                crate::blur::tented(b, w, h, channels),
                w,
                h,
                width,
                height,
                channels,
                channel,
                step,
            );
        }
    } else {
        let less = (count - 1) as nat;
        let (w, h) = (crate::blur::half_up(width), crate::blur::half_up(height));
        let (a, b) = (
            crate::blur::halved_plane(first, width, height, channels),
            crate::blur::halved_plane(second, width, height, channels),
        );
        let (c, d) = (
            crate::blur::blurred_plane(a, w, h, channels, less, fractional),
            crate::blur::blurred_plane(b, w, h, channels, less, fractional),
        );
        let only = alone(first, second, width, height, channels, channel, column, row);
        crate::blur_reach::lemma_halvings_inside(width, less);
        crate::blur_reach::lemma_halvings_inside(height, less);
        lemma_halvings_shrink(w, less);
        lemma_halvings_shrink(h, less);
        lemma_halved_share(first, second, width, height, channels, channel, column, row, step);
        lemma_blurred_share(
            a,
            b,
            w,
            h,
            channels,
            channel,
            less,
            fractional,
            column / 2,
            row / 2,
            step,
        );
        lemma_tented_share(c, d, w, h, channels, channel, column / 2, row / 2, step);
        let (e, f) = (
            crate::blur::tented(c, w, h, channels),
            crate::blur::tented(d, w, h, channels),
        );
        lemma_stretched_share(e, f, w, h, width, height, channels, channel, step);
        if fractional is None && only {
            if less > 0 {
                lemma_tented_share(c, d, w, h, channels, channel, column / 2, row / 2, left);
            }
            lemma_stretched_share(e, f, w, h, width, height, channels, channel, left);
        }
    }
}

/// A length only gets shorter when it is halved.
proof fn lemma_halvings_shrink(len: int, times: nat)
    requires
        0 < len,
    ensures
        crate::blur::halvings(len, times) <= len,
        0 < crate::blur::halvings(len, times),
    decreases times,
{
    if times > 0 {
        lemma_halvings_shrink(len, (times - 1) as nat);
    }
}

/// Planes of two pixels in each direction are halved to no less.
proof fn lemma_room_left(width: int, height: int, depth: nat)
    requires
        2 <= width,
        2 <= height,
    ensures
        crate::blur::halvings(width, crate::blur::level_count(width, height, depth)) >= 2,
        crate::blur::halvings(height, crate::blur::level_count(width, height, depth)) >= 2,
    decreases depth,
{
    if depth > 0 && width >= 4 && height >= 4 {
        let (w, h) = (crate::blur::half_up(width), crate::blur::half_up(height));
        let less = (depth - 1) as nat;
        let count = crate::blur::level_count(w, h, less);
        lemma_room_left(w, h, less);
        crate::blur_reach::lemma_halvings_inside(width, count);
        crate::blur_reach::lemma_halvings_inside(height, count);
    }
}

/// What a single byte of a channel counts in a plane that is halved at least once.
proof fn lemma_plane_share(
    first: Seq<u8>,
    second: Seq<u8>,
    width: int,
    height: int,
    channels: int,
    channel: int,
    levels: int,
    factor: int,
    column: int,
    row: int,
    x: int,
    y: int,
)
    requires
        4 <= width <= u32::MAX,
        4 <= height <= u32::MAX,
        width % 2 == 0,
        height % 2 == 0,
        0 <= channel < channels <= usize::MAX,
        levels >= ONE,
        alone(first, second, width, height, channels, channel, column, row),
        0 <= x < width,
        0 <= y < height,
    ensures
        ({
            let at = (y * width + x) * channels + channel;
            let apart = crate::blur::blurred_by_levels(
                first,
                width,
                height,
                channels,
                levels,
                factor,
            )[at] - crate::blur::blurred_by_levels(second, width, height, channels, levels, factor)[at];
            &&& -64 <= apart <= 64
            &&& levels % ONE as int <= LEAST_FRACTION ==> -36 <= apart <= 36
        }),
{
    let depth = (levels / ONE as int) as nat;
    let count = crate::blur::level_count(width, height, depth);
    let fractional = crate::blur::fractional_step(width, height, levels, factor);
    lemma_room_left(width, height, depth);
    assert(depth > 0);
    assert(count > 0);
    let less = (count - 1) as nat;
    let (w, h) = (crate::blur::half_up(width), crate::blur::half_up(height));
    let (a, b) = (
        crate::blur::halved_plane(first, width, height, channels),
        crate::blur::halved_plane(second, width, height, channels),
    );
    assert(close(first, second, width, height, channels, channel, 255));
    lemma_halved_share(first, second, width, height, channels, channel, column, row, 255);
    crate::blur_reach::lemma_halvings_inside(width, less);
    crate::blur_reach::lemma_halvings_inside(height, less);
    lemma_blurred_share(
        a,
        b,
        w,
        h,
        channels,
        channel,
        less,
        fractional,
        column / 2,
        row / 2,
        64,
    );
    let (c, d) = (
        crate::blur::blurred_plane(a, w, h, channels, less, fractional),
        crate::blur::blurred_plane(b, w, h, channels, less, fractional),
    );
    let (e, f) = (crate::blur::tented(c, w, h, channels), crate::blur::tented(d, w, h, channels));
    lemma_tented_share(c, d, w, h, channels, channel, column / 2, row / 2, 64);
    lemma_stretched_share(e, f, w, h, width, height, channels, channel, 64);
    let (p, q) = (
        crate::blur::blurred_plane(first, width, height, channels, count, fractional),
        crate::blur::blurred_plane(second, width, height, channels, count, fractional),
    );
    assert(crate::blur::sample(p, width, channels, x, y, channel) - crate::blur::sample(
        q,
        width,
        channels,
        x,
        y,
        channel,
    ) <= 64);
    if levels % ONE as int <= LEAST_FRACTION {
        assert(fractional is None);
        if less > 0 {
            lemma_tented_share(c, d, w, h, channels, channel, column / 2, row / 2, 36);
        }
        lemma_stretched_share(e, f, w, h, width, height, channels, channel, 36);
        assert(crate::blur::sample(p, width, channels, x, y, channel) - crate::blur::sample(
            q,
            width,
            channels,
            x,
            y,
            channel,
        ) <= 36);
    }
}

/// A single pixel counts little in a blurred picture: whatever its luma, it moves no
/// luma of the blurred frame by more than a quarter of the range, and by no more than
/// 36 where the halvings are whole.
pub proof fn law_a_pixel_counts_little(
    frame: Nv12,
    other: Nv12,
    strength: BlurStrength,
    column: int,
    row: int,
    x: int,
    y: int,
)
    requires
        frame.valid(),
        other.valid(),
        frame.size == other.size,
        4 <= frame.size.width,
        4 <= frame.size.height,
        0 <= x < frame.size.width,
        0 <= y < frame.size.height,
        forall|a: int, b: int|
            #![trigger frame.luma[b * frame.size.width + a]]
            0 <= a < frame.size.width && 0 <= b < frame.size.height && !(a == column && b == row)
                ==> frame.luma[b * frame.size.width + a] == other.luma[b * frame.size.width + a],
    ensures
        ({
            let at = y * frame.size.width + x;
            let apart = crate::blur::blurred(frame, strength).luma[at] - crate::blur::blurred(
                other,
                strength,
            ).luma[at];
            &&& -64 <= apart <= 64
            &&& strength.levels() % ONE as int <= LEAST_FRACTION ==> -36 <= apart <= 36
        }),
{
    let (w, h) = (frame.size.width, frame.size.height);
    crate::blur_laws::law_levels_grow_with_the_strength(strength, strength);
    assert forall|a: int, b: int|
        0 <= a < w && 0 <= b < h && !(a == column && b == row) implies #[trigger] crate::blur::sample(
        frame.luma,
        w,
        1,
        a,
        b,
        0,
    ) == crate::blur::sample(other.luma, w, 1, a, b, 0) by {
        assert(frame.luma[b * w + a] == other.luma[b * w + a]);
    }
    lemma_plane_share(
        frame.luma,
        other.luma,
        w,
        h,
        1,
        0,
        strength.levels(),
        strength.factor as int,
        column,
        row,
        x,
        y,
    );
}

/// A single chroma byte counts as little among those of its kind, where the strength
/// halves chroma at all.
pub proof fn law_a_chroma_sample_counts_little(
    frame: Nv12,
    other: Nv12,
    strength: BlurStrength,
    column: int,
    row: int,
    channel: int,
    x: int,
    y: int,
)
    requires
        frame.valid(),
        other.valid(),
        frame.size == other.size,
        8 <= frame.size.width,
        8 <= frame.size.height,
        frame.size.width % 4 == 0,
        frame.size.height % 4 == 0,
        strength.levels() >= 2 * ONE,
        0 <= channel < 2,
        0 <= x < frame.size.width / 2,
        0 <= y < frame.size.height / 2,
        forall|a: int, b: int|
            #![trigger frame.chroma[(b * (frame.size.width / 2) + a) * 2 + channel]]
            0 <= a < frame.size.width / 2 && 0 <= b < frame.size.height / 2 && !(a == column && b
                == row) ==> frame.chroma[(b * (frame.size.width / 2) + a) * 2 + channel]
                == other.chroma[(b * (frame.size.width / 2) + a) * 2 + channel],
    ensures
        ({
            let at = (y * (frame.size.width / 2) + x) * 2 + channel;
            let apart = crate::blur::blurred(frame, strength).chroma[at] - crate::blur::blurred(
                other,
                strength,
            ).chroma[at];
            &&& -64 <= apart <= 64
            &&& strength.levels() % ONE as int <= LEAST_FRACTION ==> -36 <= apart <= 36
        }),
{
    let (w, h) = (frame.size.width / 2, frame.size.height / 2);
    assert forall|a: int, b: int|
        0 <= a < w && 0 <= b < h && !(a == column && b == row) implies #[trigger] crate::blur::sample(
        frame.chroma,
        w,
        2,
        a,
        b,
        channel,
    ) == crate::blur::sample(other.chroma, w, 2, a, b, channel) by {
        assert(frame.chroma[(b * w + a) * 2 + channel] == other.chroma[(b * w + a) * 2 + channel]);
    }
    lemma_plane_share(
        frame.chroma,
        other.chroma,
        w,
        h,
        2,
        channel,
        strength.levels() - ONE,
        strength.factor as int,
        column,
        row,
        x,
        y,
    );
}

/// Each byte of a halved plane is the nearest to the mean of the four pixels that it stands
/// for; at an odd edge the last pixels stand for those that are not there.
pub proof fn law_halving_takes_the_mean_of_four(
    plane: Seq<u8>,
    width: int,
    height: int,
    channels: int,
    x: int,
    y: int,
    channel: int,
)
    requires
        0 <= x,
        2 * x < width,
        0 <= y,
        2 * y < height,
        0 <= channel < channels,
    ensures
        ({
            let half = crate::blur::halved_plane(plane, width, height, channels);
            let value = half[(y * ((width + 1) / 2) + x) * channels + channel];
            let right = if 2 * x + 1 < width {
                2 * x + 1
            } else {
                2 * x
            };
            let below = if 2 * y + 1 < height {
                2 * y + 1
            } else {
                2 * y
            };
            let sum = plane[(2 * y * width + 2 * x) * channels + channel] + plane[(2 * y * width
                + right) * channels + channel] + plane[(below * width + 2 * x) * channels + channel]
                + plane[(below * width + right) * channels + channel];
            -1 <= 4 * value - sum <= 2
        }),
{
    lemma_halved_at(plane, width, height, channels, x, y, channel);
}

/// Smoothing weighs each pixel with its eight neighbours: four times itself, twice those
/// beside, above and below it, once those at its corners, to within one and rounded
/// up rather than down. Pixels past the edge are like those at the edge.
pub proof fn law_smoothing_weighs_the_neighbours(
    plane: Seq<u8>,
    width: int,
    height: int,
    channels: int,
    x: int,
    y: int,
    channel: int,
)
    requires
        0 <= x < width,
        0 <= y < height,
        0 <= channel < channels,
    ensures
        ({
            let at = |column: int, row: int| plane[(row * width + column) * channels + channel] as int;
            let (left, right) = (
                if x > 0 {
                    x - 1
                } else {
                    x
                },
                if x + 1 < width {
                    x + 1
                } else {
                    x
                },
            );
            let (above, below) = (
                if y > 0 {
                    y - 1
                } else {
                    y
                },
                if y + 1 < height {
                    y + 1
                } else {
                    y
                },
            );
            let sum = at(left, above) + 2 * at(x, above) + at(right, above) + 2 * at(left, y) + 4
                * at(x, y) + 2 * at(right, y) + at(left, below) + 2 * at(x, below) + at(
                right,
                below,
            );
            let smooth = crate::blur::tented(plane, width, height, channels);
            -8 <= 16 * smooth[(y * width + x) * channels + channel] - sum <= 16
        }),
{
    let rows = crate::blur::smoothed_rows(plane, width, height, channels);
    let (above, below) = (
        if y > 0 {
            y - 1
        } else {
            0
        },
        if y + 1 < height {
            y + 1
        } else {
            height - 1
        },
    );
    crate::blur_laws::lemma_rows_at(plane, width, height, channels, x, above, channel);
    crate::blur_laws::lemma_rows_at(plane, width, height, channels, x, y, channel);
    crate::blur_laws::lemma_rows_at(plane, width, height, channels, x, below, channel);
    crate::blur_laws::lemma_columns_at(rows, width, height, channels, x, y, channel);
}

} // verus!
