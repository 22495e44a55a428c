//! Scaling interpolates: what rises evenly in the source rises evenly in the target.

use vstd::prelude::*;

use crate::double::FINE;
use crate::frame::{Dims, Nv12};
use crate::scale::{Sampling, ScaleMode, Shown};

verus! {

/// Where the centre of a target pixel falls among the centres of the source pixels,
/// if a part of the length `num / den` in the middle of the source is spread
/// evenly over the target, and no further out than the first and the last of
/// them: a number of units of `1 / (2 * target_len * den)`.
pub open spec fn spot(index: int, source_len: int, target_len: int, num: int, den: int) -> int {
    let unit = 2 * (target_len * den);
    let place = (2 * index + 1) * num + (source_len * den - num) * target_len - target_len * den;
    if place < 0 {
        0
    } else if place > (source_len - 1) * unit {
        (source_len - 1) * unit
    } else {
        place
    }
}

/// The distance of a number from zero.
pub open spec fn size_of_step(step: int) -> int {
    if step < 0 {
        -step
    } else {
        step
    }
}

/// A byte is the value of a gradient at a spot, to within half a step of the byte and
/// a little more than a 512th of each slope. The spots are fractions with the units as
/// denominators.
pub open spec fn on_the_gradient(
    value: u8,
    base: int,
    slopes: (int, int),
    spots: (int, int),
    units: (int, int),
) -> bool {
    let area = units.0 * units.1;
    let away = 8192 * (area * (value - base) - slopes.0 * (spots.0 * units.1) - slopes.1 * (spots.1
        * units.0));
    let slack = (4096 + 17 * size_of_step(slopes.0) + 17 * size_of_step(slopes.1)) * area;
    -slack <= away <= slack
}

/// A target pixel is sampled at its spot, to within 17 32nds of a 256th of a pixel.
proof fn lemma_tap_at_the_spot(
    index: int,
    source_len: int,
    target_len: int,
    shown: Shown,
    num: int,
    den: int,
)
    requires
        0 <= index < target_len <= u32::MAX,
        0 < source_len <= u32::MAX,
        crate::geometry::half_in_the_middle(shown, source_len, num, den),
    ensures
        ({
            let unit = 2 * (target_len * den);
            let q = crate::scale::tap(index, source_len, target_len, shown);
            &&& 0 < unit
            &&& -17 * unit <= 32 * (unit * q - 256 * spot(index, source_len, target_len, num, den))
                <= 17 * unit
        }),
{
    crate::geometry::lemma_centre_error(index, source_len, target_len, shown, num, den);
    crate::geometry::lemma_tap_bounds(index, source_len, target_len, shown);
    let f = FINE as int;
    let grid = target_len * den;
    let unit = 2 * grid;
    let raw = crate::geometry::raw_centre(index, target_len, shown);
    let c = crate::scale::centre(index, source_len, target_len, shown);
    let q = crate::scale::tap(index, source_len, target_len, shown);
    let last = source_len - 1;
    let place = (2 * index + 1) * num + (source_len * den - num) * target_len - grid;
    let at = spot(index, source_len, target_len, num, den);
    let slack = 2 * (grid * (f / 0x2000));
    assert(place * f == ((2 * index + 1) * num + (source_len * den - num) * target_len) * f - grid
        * f) by (nonlinear_arith)
        requires
            place == (2 * index + 1) * num + (source_len * den - num) * target_len - grid,
    ;
    assert(-slack <= unit * raw - place * f <= slack);
    lemma_kept_inside(raw, place, last, unit, f, slack);
    assert(-slack <= unit * c - at * f <= slack);
    assert(-17 * unit <= 32 * (unit * q - 256 * at) <= 17 * unit) by (nonlinear_arith)
        requires
            2 * (f * q) <= 512 * c + f,
            512 * c + f < 2 * (f * q) + 2 * f,
            -slack <= unit * c - at * f <= slack,
            slack == 2 * (grid * (f / 0x2000)),
            unit == 2 * grid,
            0 < grid,
            f == 0x100_0000_0000_0000_0000_0000_0000_0000,
    {
        assert(unit * (2 * (f * q)) <= unit * (512 * c + f));
        assert(unit * (512 * c + f) <= unit * (2 * (f * q) + 2 * f));
        assert(unit * (512 * c + f) == 512 * (unit * c) + unit * f);
        assert(unit * (2 * (f * q)) == 2 * (f * (unit * q)));
        assert(unit * (2 * (f * q) + 2 * f) == 2 * (f * (unit * q)) + 2 * (unit * f));
        assert(slack == unit * (f / 0x2000));
        assert(16 * (512 * slack) <= unit * f) by {
            assert(16 * (512 * (f / 0x2000)) <= f);
        }
        assert(f * (32 * (unit * q - 256 * at)) <= f * (17 * unit));
        assert(f * (32 * (unit * q - 256 * at)) >= -(f * (17 * unit)));
    }
}

/// What lies close together stays so when it is kept inside the same bounds.
proof fn lemma_kept_inside(raw: int, place: int, last: int, unit: int, f: int, slack: int)
    requires
        0 <= last,
        0 < unit,
        0 < f,
        0 <= slack,
        -slack <= unit * raw - place * f <= slack,
    ensures
        ({
            let c = if raw < 0 {
                0
            } else if raw > last * f {
                last * f
            } else {
                raw
            };
            let at = if place < 0 {
                0
            } else if place > last * unit {
                last * unit
            } else {
                place
            };
            -slack <= unit * c - at * f <= slack
        }),
{
    let top = last * f;
    let end = last * unit;
    assert(unit * top == end * f) by (nonlinear_arith)
        requires
            top == last * f,
            end == last * unit,
    ;
    assert(0 <= top && 0 <= end) by (nonlinear_arith)
        requires
            top == last * f,
            end == last * unit,
            0 <= last,
            0 < f,
            0 < unit,
    ;
    assert(raw < 0 ==> unit * raw < 0) by (nonlinear_arith)
        requires
            0 < unit,
    ;
    assert(raw >= 0 ==> unit * raw >= 0) by (nonlinear_arith)
        requires
            0 < unit,
    ;
    assert(raw > top ==> unit * raw > unit * top) by (nonlinear_arith)
        requires
            0 < unit,
    ;
    assert(raw <= top ==> unit * raw <= unit * top) by (nonlinear_arith)
        requires
            0 < unit,
    ;
    assert(place < 0 ==> place * f < 0) by (nonlinear_arith)
        requires
            0 < f,
    ;
    assert(place >= 0 ==> place * f >= 0) by (nonlinear_arith)
        requires
            0 < f,
    ;
    assert(place > end ==> place * f > end * f) by (nonlinear_arith)
        requires
            0 < f,
    ;
    assert(place <= end ==> place * f <= end * f) by (nonlinear_arith)
        requires
            0 < f,
    ;
    assert(unit * 0 == 0 && 0 * f == 0);
}

/// Four bytes of a gradient mix to its value between them.
proof fn lemma_mixed_gradient(
    tl: u8,
    tr: u8,
    bl: u8,
    br: u8,
    fx: int,
    fy: int,
    slopes: (int, int),
)
    requires
        0 <= fx < 256,
        0 <= fy < 256,
        fx != 0 ==> tr - tl == slopes.0 && br - bl == slopes.0,
        fy != 0 ==> bl - tl == slopes.1,
    ensures
        ({
            let value = crate::scale::mixed(tl, tr, bl, br, fx, fy);
            -128 <= 256 * (value - tl) - slopes.0 * fx - slopes.1 * fy <= 128
        }),
{
    let (dx, dy) = slopes;
    let upper = tl * (256 - fx) + tr * fx;
    let lower = bl * (256 - fx) + br * fx;
    crate::scale::law_mixing_stays_between(tl, tr, bl, br, fx, fy, 0, 255);
    assert(upper == 256 * tl + dx * fx) by (nonlinear_arith)
        requires
            upper == tl * (256 - fx) + tr * fx,
            fx != 0 ==> tr - tl == dx,
    ;
    assert(lower == 256 * bl + dx * fx) by (nonlinear_arith)
        requires
            lower == bl * (256 - fx) + br * fx,
            fx != 0 ==> br - bl == dx,
    ;
    let total = upper * (256 - fy) + lower * fy;
    assert(total == 256 * upper + 256 * (dy * fy)) by (nonlinear_arith)
        requires
            total == upper * (256 - fy) + lower * fy,
            fy != 0 ==> lower - upper == 256 * dy,
    ;
    lemma_total_fits(tl as int, tr as int, bl as int, br as int, fx, fy);
}

pub proof fn lemma_total_fits(tl: int, tr: int, bl: int, br: int, fx: int, fy: int)
    requires
        0 <= tl <= 255,
        0 <= tr <= 255,
        0 <= bl <= 255,
        0 <= br <= 255,
        0 <= fx < 256,
        0 <= fy < 256,
    ensures
        ({
            let upper = tl * (256 - fx) + tr * fx;
            let lower = bl * (256 - fx) + br * fx;
            0 <= upper * (256 - fy) + lower * fy <= 65_536 * 255
        }),
{
    lemma_between(tl, tr, fx, 255);
    lemma_between(bl, br, fx, 255);
    lemma_between(tl * (256 - fx) + tr * fx, bl * (256 - fx) + br * fx, fy, 65_280);
}

proof fn lemma_between(a: int, b: int, f: int, high: int)
    by (nonlinear_arith)
    requires
        0 <= a <= high,
        0 <= b <= high,
        0 <= f <= 256,
    ensures
        0 <= a * (256 - f) + b * f <= 256 * high,
{
}

/// A byte sampled at the right positions lies on the gradient.
proof fn lemma_sampled_gradient(
    s: Sampling,
    plane: Seq<u8>,
    channel: int,
    base: int,
    slopes: (int, int),
    x: int,
    y: int,
)
    requires
        0 < s.source_width,
        0 < s.source_height,
        0 <= x <= 256 * (s.source_width - 1),
        0 <= y <= 256 * (s.source_height - 1),
        forall|column: int, row: int|
            0 <= column < s.source_width && 0 <= row < s.source_height ==> #[trigger] s.byte(
                plane,
                column,
                row,
                channel,
            ) == base + slopes.0 * column + slopes.1 * row,
    ensures
        -128 <= 256 * (s.sample(plane, x, y, channel) - base) - slopes.0 * x - slopes.1 * y <= 128,
{
    let (dx, dy) = slopes;
    let (left, above) = (x / 256, y / 256);
    let right = if left + 1 < s.source_width {
        left + 1
    } else {
        s.source_width - 1
    };
    let below = if above + 1 < s.source_height {
        above + 1
    } else {
        s.source_height - 1
    };
    let (fx, fy) = (x % 256, y % 256);
    let tl = s.byte(plane, left, above, channel);
    let tr = s.byte(plane, right, above, channel);
    let bl = s.byte(plane, left, below, channel);
    let br = s.byte(plane, right, below, channel);
    assert(fx != 0 ==> right == left + 1);
    assert(fy != 0 ==> below == above + 1);
    assert(dx * (left + 1) == dx * left + dx && dy * (above + 1) == dy * above + dy)
        by (nonlinear_arith);
    lemma_mixed_gradient(tl, tr, bl, br, fx, fy, slopes);
    assert(dx * x == 256 * (dx * left) + dx * fx) by (nonlinear_arith)
        requires
            x == 256 * left + fx,
    ;
    assert(dy * y == 256 * (dy * above) + dy * fy) by (nonlinear_arith)
        requires
            y == 256 * above + fy,
    ;
}

/// The rounding of the positions counts by the slopes.
proof fn lemma_combined(
    value: u8,
    base: int,
    slopes: (int, int),
    spots: (int, int),
    units: (int, int),
    taps: (int, int),
)
    requires
        0 < units.0,
        0 < units.1,
        -128 <= 256 * (value - base) - slopes.0 * taps.0 - slopes.1 * taps.1 <= 128,
        -17 * units.0 <= 32 * (units.0 * taps.0 - 256 * spots.0) <= 17 * units.0,
        -17 * units.1 <= 32 * (units.1 * taps.1 - 256 * spots.1) <= 17 * units.1,
    ensures
        on_the_gradient(value, base, slopes, spots, units),
{
    let (dx, dy) = slopes;
    let (gx, gy) = units;
    let (qx, qy) = taps;
    let area = gx * gy;
    let rise = value - base;
    let (px, py) = (dx * (spots.0 * gy), dy * (spots.1 * gx));
    let (ax, ay) = (dx * qx, dy * qy);
    let (ex, ey) = (gx * qx - 256 * spots.0, gy * qy - 256 * spots.1);
    assert(0 < area) by (nonlinear_arith)
        requires
            area == gx * gy,
            0 < gx,
            0 < gy,
    ;
    let miss = 256 * rise - ax - ay;
    assert(-128 * area <= area * miss <= 128 * area) by (nonlinear_arith)
        requires
            -128 <= miss <= 128,
            0 < area,
    ;
    assert(area * miss == 256 * (area * rise) - area * ax - area * ay) by (nonlinear_arith)
        requires
            miss == 256 * rise - ax - ay,
    ;
    assert(area * ax == 256 * px + (dx * ex) * gy) by (nonlinear_arith)
        requires
            area == gx * gy,
            ax == dx * qx,
            px == dx * (spots.0 * gy),
            ex == gx * qx - 256 * spots.0,
    ;
    assert(area * ay == 256 * py + (dy * ey) * gx) by (nonlinear_arith)
        requires
            area == gx * gy,
            ay == dy * qy,
            py == dy * (spots.1 * gx),
            ey == gy * qy - 256 * spots.1,
    ;
    lemma_step_error(dx, ex, gx, gy);
    lemma_step_error(dy, ey, gy, gx);
    assert(gy * gx == area) by (nonlinear_arith)
        requires
            area == gx * gy,
    ;
    let (sx, sy) = (size_of_step(dx), size_of_step(dy));
    assert((4096 + 17 * sx + 17 * sy) * area == 4096 * area + 17 * (sx * area) + 17 * (sy * area))
        by (nonlinear_arith);
}

proof fn lemma_step_error(step: int, error: int, unit: int, other: int)
    requires
        0 < unit,
        0 < other,
        -17 * unit <= 32 * error <= 17 * unit,
    ensures
        -17 * (size_of_step(step) * (unit * other)) <= 32 * ((step * error) * other) <= 17 * (
        size_of_step(step) * (unit * other)),
{
    let size = size_of_step(step);
    assert(-17 * (size * unit) <= 32 * (step * error) <= 17 * (size * unit)) by (nonlinear_arith)
        requires
            -17 * unit <= 32 * error <= 17 * unit,
            size == step || size == -step,
            0 <= size,
            0 < unit,
    ;
    assert(-17 * (size * (unit * other)) <= 32 * ((step * error) * other) <= 17 * (size * (unit
        * other))) by (nonlinear_arith)
        requires
            -17 * (size * unit) <= 32 * (step * error) <= 17 * (size * unit),
            0 < other,
    {
        assert(size * (unit * other) == (size * unit) * other);
    }
}

/// A scaled byte of a gradient, given what is shown of the source.
proof fn lemma_scaled_gradient(
    s: Sampling,
    plane: Seq<u8>,
    shown: (Shown, Shown),
    part: ((int, int), (int, int)),
    column: int,
    row: int,
    channel: int,
    base: int,
    slopes: (int, int),
)
    requires
        s.valid(),
        s.columns == crate::scale::taps_of(s.source_width, s.target_width, shown.0),
        s.rows == crate::scale::taps_of(s.source_height, s.target_height, shown.1),
        crate::geometry::half_in_the_middle(shown.0, s.source_width, part.0.0, part.0.1),
        crate::geometry::half_in_the_middle(shown.1, s.source_height, part.1.0, part.1.1),
        0 <= column < s.target_width,
        0 <= row < s.target_height,
        0 <= channel < s.channels,
        forall|x: int, y: int|
            0 <= x < s.source_width && 0 <= y < s.source_height ==> #[trigger] s.byte(
                plane,
                x,
                y,
                channel,
            ) == base + slopes.0 * x + slopes.1 * y,
    ensures
        on_the_gradient(
            s.scaled(plane)[(row * s.target_width + column) * s.channels + channel],
            base,
            slopes,
            (
                spot(column, s.source_width, s.target_width, part.0.0, part.0.1),
                spot(row, s.source_height, s.target_height, part.1.0, part.1.1),
            ),
            (2 * (s.target_width * part.0.1), 2 * (s.target_height * part.1.1)),
        ),
{
    lemma_tap_at_the_spot(column, s.source_width, s.target_width, shown.0, part.0.0, part.0.1);
    lemma_tap_at_the_spot(row, s.source_height, s.target_height, shown.1, part.1.0, part.1.1);
    let (x, y) = (s.columns[column], s.rows[row]);
    lemma_sampled_gradient(s, plane, channel, base, slopes, x, y);
    let value = s.sample(plane, x, y, channel);
    lemma_combined(
        value,
        base,
        slopes,
        (
            spot(column, s.source_width, s.target_width, part.0.0, part.0.1),
            spot(row, s.source_height, s.target_height, part.1.0, part.1.1),
        ),
        (2 * (s.target_width * part.0.1), 2 * (s.target_height * part.1.1)),
        (x, y),
    );
    let pixel = row * s.target_width + column;
    crate::arith::lemma_row_column(row, column, s.target_width);
    crate::arith::lemma_cell_in_plane(row, column, s.target_width, s.target_height);
    crate::arith::lemma_row_column(pixel, channel, s.channels);
    crate::arith::lemma_cell_in_plane(pixel, channel, s.channels, s.target_width * s.target_height);
    assert(s.channels * (s.target_width * s.target_height) == s.target_bytes()) by (nonlinear_arith)
        requires
            s.target_bytes() == s.target_width * s.target_height * s.channels,
    ;
}

/// A plane of any number of channels that rises evenly to the right and downwards rises
/// evenly after it is scaled: each byte is the value of the gradient at the place
/// that its pixel falls on, with its colour channel kept.
pub proof fn law_gradients_stay_gradients(
    source: Dims,
    target: Dims,
    channels: int,
    mode: ScaleMode,
    plane: Seq<u8>,
    column: int,
    row: int,
    channel: int,
    base: int,
    slopes: (int, int),
)
    requires
        0 < source.width <= u32::MAX,
        0 < source.height <= u32::MAX,
        0 < target.width <= u32::MAX,
        0 < target.height <= u32::MAX,
        0 <= column < target.width,
        0 <= row < target.height,
        0 <= channel < channels <= usize::MAX,
        forall|x: int, y: int|
            0 <= x < source.width && 0 <= y < source.height ==> #[trigger] plane[(y * source.width
                + x) * channels + channel] == base + slopes.0 * x + slopes.1 * y,
    ensures
        ({
            let s = crate::scale::sampling(
                source.width,
                source.height,
                target.width,
                target.height,
                channels,
                mode,
            );
            let (wn, wd) = crate::geometry::visible(
                mode,
                source.width,
                target.width,
                source.height,
                target.height,
            );
            let (hn, hd) = crate::geometry::visible(
                mode,
                source.height,
                target.height,
                source.width,
                target.width,
            );
            on_the_gradient(
                s.scaled(plane)[(row * target.width + column) * channels + channel],
                base,
                slopes,
                (
                    spot(column, source.width, target.width, wn, wd),
                    spot(row, source.height, target.height, hn, hd),
                ),
                (2 * (target.width * wd), 2 * (target.height * hd)),
            )
        }),
{
    let s = crate::scale::sampling(
        source.width,
        source.height,
        target.width,
        target.height,
        channels,
        mode,
    );
    let scale = crate::scale::fill_scale(source.width, source.height, target.width, target.height);
    let across = crate::scale::shown_part(mode, source.width, target.width, scale);
    let down = crate::scale::shown_part(mode, source.height, target.height, scale);
    let (wn, wd) = crate::geometry::visible(
        mode,
        source.width,
        target.width,
        source.height,
        target.height,
    );
    let (hn, hd) = crate::geometry::visible(
        mode,
        source.height,
        target.height,
        source.width,
        target.width,
    );
    crate::scale::lemma_sampling_valid(
        source.width,
        source.height,
        target.width,
        target.height,
        channels,
        mode,
    );
    crate::geometry::lemma_shown_error(
        mode,
        source.width,
        target.width,
        source.height,
        target.height,
        scale,
    );
    crate::geometry::lemma_shown_error(
        mode,
        source.height,
        target.height,
        source.width,
        target.width,
        scale,
    );
    crate::geometry::lemma_less_rounding(across, source.width, wn, wd);
    crate::geometry::lemma_less_rounding(down, source.height, hn, hd);
    lemma_scaled_gradient(
        s,
        plane,
        (across, down),
        ((wn, wd), (hn, hd)),
        column,
        row,
        channel,
        base,
        slopes,
    );
}

/// A pixel of a source that is kept falls on itself.
proof fn lemma_kept_gradient(
    value: u8,
    base: int,
    slopes: (int, int),
    column: int,
    row: int,
    units: (int, int),
)
    requires
        0 < units.0,
        0 < units.1,
        value == base + slopes.0 * column + slopes.1 * row,
    ensures
        on_the_gradient(value, base, slopes, (column * units.0, row * units.1), units),
{
    let (dx, dy) = slopes;
    let (gx, gy) = units;
    let (sx, sy) = (size_of_step(dx), size_of_step(dy));
    let area = gx * gy;
    let (across, down) = (dx * column, dy * row);
    assert(area * (across + down) == area * across + area * down) by (nonlinear_arith);
    assert(dx * ((column * gx) * gy) == area * across) by (nonlinear_arith)
        requires
            area == gx * gy,
            across == dx * column,
    ;
    assert(dy * ((row * gy) * gx) == area * down) by (nonlinear_arith)
        requires
            area == gx * gy,
            down == dy * row,
    ;
    assert(0 <= (4096 + 17 * sx + 17 * sy) * (gx * gy)) by (nonlinear_arith)
        requires
            0 <= sx,
            0 <= sy,
            0 < gx,
            0 < gy,
    ;
}

/// The spot of a pixel of a target as long as the source.
proof fn lemma_own_spot(index: int, len: int, num: int, den: int)
    requires
        0 <= index < len,
        0 < den,
        num == len * den,
    ensures
        spot(index, len, len, num, den) == index * (2 * (len * den)),
        0 < 2 * (len * den),
{
    let grid = len * den;
    assert(0 < grid) by (nonlinear_arith)
        requires
            grid == len * den,
            0 < len,
            0 < den,
    ;
    assert((2 * index + 1) * num + (len * den - num) * len - grid == index * (2 * grid))
        by (nonlinear_arith)
        requires
            num == grid,
            grid == len * den,
    ;
    assert(0 <= index * (2 * grid) <= (len - 1) * (2 * grid)) by (nonlinear_arith)
        requires
            0 <= index <= len - 1,
            0 < grid,
    ;
}

/// Luma that rises evenly across a frame rises evenly across the scaled frame.
pub proof fn law_scaled_luma_rises_evenly(
    frame: Nv12,
    target: Dims,
    mode: ScaleMode,
    column: int,
    row: int,
    base: int,
    slopes: (int, int),
)
    requires
        frame.valid(),
        target.valid(),
        0 <= column < target.width,
        0 <= row < target.height,
        forall|x: int, y: int|
            0 <= x < frame.size.width && 0 <= y < frame.size.height ==> #[trigger] frame.luma[y
                * frame.size.width + x] == base + slopes.0 * x + slopes.1 * y,
    ensures
        ({
            let size = frame.size;
            let (wn, wd) = crate::geometry::visible(
                mode,
                size.width,
                target.width,
                size.height,
                target.height,
            );
            let (hn, hd) = crate::geometry::visible(
                mode,
                size.height,
                target.height,
                size.width,
                target.width,
            );
            on_the_gradient(
                crate::scale::scaled_frame(frame, target, mode).luma[row * target.width + column],
                base,
                slopes,
                (
                    spot(column, size.width, target.width, wn, wd),
                    spot(row, size.height, target.height, hn, hd),
                ),
                (2 * (target.width * wd), 2 * (target.height * hd)),
            )
        }),
{
    let size = frame.size;
    if size == target {
        assert(size.width * size.height >= size.height * size.width) by (nonlinear_arith);
        assert(size.height * size.width >= size.width * size.height) by (nonlinear_arith);
        lemma_own_spot(column, size.width, size.width, 1);
        lemma_own_spot(row, size.height, size.height, 1);
        assert(frame.luma[row * size.width + column] == base + slopes.0 * column + slopes.1 * row);
        lemma_kept_gradient(
            frame.luma[row * size.width + column],
            base,
            slopes,
            column,
            row,
            (2 * (target.width * 1), 2 * (target.height * 1)),
        );
    } else {
        assert forall|x: int, y: int| 0 <= x < size.width && 0 <= y < size.height implies
            #[trigger] frame.luma[(y * size.width + x) * 1 + 0] == base + slopes.0 * x + slopes.1
            * y by {
            assert(frame.luma[y * size.width + x] == base + slopes.0 * x + slopes.1 * y);
        }
        law_gradients_stay_gradients(
            size,
            target,
            1,
            mode,
            frame.luma,
            column,
            row,
            0,
            base,
            slopes,
        );
    }
}

/// Chroma that rises evenly across a frame rises evenly across the scaled frame, over
/// the same part of the picture as luma does.
pub proof fn law_scaled_chroma_rises_evenly(
    frame: Nv12,
    target: Dims,
    mode: ScaleMode,
    column: int,
    row: int,
    channel: int,
    base: int,
    slopes: (int, int),
)
    requires
        frame.valid(),
        target.valid(),
        0 <= column < target.width / 2,
        0 <= row < target.height / 2,
        0 <= channel < 2,
        forall|x: int, y: int|
            0 <= x < frame.size.width / 2 && 0 <= y < frame.size.height / 2
                ==> #[trigger] frame.chroma[(y * (frame.size.width / 2) + x) * 2 + channel] == base
                + slopes.0 * x + slopes.1 * y,
    ensures
        ({
            let size = frame.size;
            let (w, h, tw, th) = (
                size.width / 2,
                size.height / 2,
                target.width / 2,
                target.height / 2,
            );
            let (wn, wd) = crate::geometry::visible(
                mode,
                size.width,
                target.width,
                size.height,
                target.height,
            );
            let (hn, hd) = crate::geometry::visible(
                mode,
                size.height,
                target.height,
                size.width,
                target.width,
            );
            on_the_gradient(
                crate::scale::scaled_frame(frame, target, mode).chroma[(row * tw + column) * 2
                    + channel],
                base,
                slopes,
                (spot(column, w, tw, wn, 2 * wd), spot(row, h, th, hn, 2 * hd)),
                (2 * (tw * (2 * wd)), 2 * (th * (2 * hd))),
            )
        }),
{
    let size = frame.size;
    crate::frame::lemma_chroma_is_half(size);
    let (w, h, tw, th) = (size.width / 2, size.height / 2, target.width / 2, target.height / 2);
    let (wn, wd) = crate::geometry::visible(
        mode,
        size.width,
        target.width,
        size.height,
        target.height,
    );
    let (hn, hd) = crate::geometry::visible(
        mode,
        size.height,
        target.height,
        size.width,
        target.width,
    );
    if size == target {
        assert(size.width * size.height >= size.height * size.width) by (nonlinear_arith);
        assert(size.height * size.width >= size.width * size.height) by (nonlinear_arith);
        lemma_own_spot(column, w, size.width, 2);
        lemma_own_spot(row, h, size.height, 2);
        let value = frame.chroma[(row * w + column) * 2 + channel];
        assert(value == base + slopes.0 * column + slopes.1 * row);
        lemma_kept_gradient(value, base, slopes, column, row, (2 * (tw * 2), 2 * (th * 2)));
    } else {
        let scale = crate::scale::fill_scale(size.width, size.height, target.width, target.height);
        let across = crate::scale::shown_part(mode, size.width, target.width, scale);
        let down = crate::scale::shown_part(mode, size.height, target.height, scale);
        crate::geometry::lemma_shown_error(
            mode,
            size.width,
            target.width,
            size.height,
            target.height,
            scale,
        );
        crate::geometry::lemma_shown_error(
            mode,
            size.height,
            target.height,
            size.width,
            target.width,
            scale,
        );
        crate::geometry::lemma_halved_shown(across, size.width, wn, wd);
        crate::geometry::lemma_halved_shown(down, size.height, hn, hd);
        crate::scale::lemma_chroma_sampling_valid(size, target, mode);
        lemma_scaled_gradient(
            crate::scale::chroma_sampling(size, target, mode),
            frame.chroma,
            (crate::scale::halved(across), crate::scale::halved(down)),
            ((wn, 2 * wd), (hn, 2 * hd)),
            column,
            row,
            channel,
            base,
            slopes,
        );
    }
}

} // verus!
