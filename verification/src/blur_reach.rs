//! How far a blur reaches, in which channel.

use vstd::arithmetic::power2::*;
use vstd::prelude::*;

use crate::blur::{BlurStrength, Grid, FACTOR_ONE};
use crate::frame::Nv12;
use crate::precision::ONE;
use crate::scale::ScaleMode;

verus! {

/// A channel of one plane is the same as a channel of another around a cell.
pub open spec fn agree(
    first: (Seq<u8>, int, int),
    second: (Seq<u8>, int, int),
    width: int,
    height: int,
    column: int,
    row: int,
    reach: int,
) -> bool {
    forall|x: int, y: int|
        0 <= x < width && 0 <= y < height && column - reach <= x <= column + reach && row - reach
            <= y <= row + reach ==> #[trigger] at(first, width, x, y) == at(second, width, x, y)
}

/// A byte of a channel of a plane, which is given with its number of channels.
pub open spec fn at(plane: (Seq<u8>, int, int), width: int, column: int, row: int) -> u8 {
    plane.0[(row * width + column) * plane.1 + plane.2]
}

/// How far a plane reaches that is halved a number of times.
spec fn reach(count: nat) -> int
    decreases count,
{
    if count == 0 {
        21
    } else {
        2 * reach((count - 1) as nat) + 5
    }
}

/// The same channel of another plane.
spec fn like(plane: (Seq<u8>, int, int), bytes: Seq<u8>) -> (Seq<u8>, int, int) {
    (bytes, plane.1, plane.2)
}

spec fn channel_of(plane: (Seq<u8>, int, int)) -> bool {
    0 <= plane.2 < plane.1 <= usize::MAX
}

proof fn lemma_tented_at(plane: (Seq<u8>, int, int), width: int, height: int, x: int, y: int)
    requires
        channel_of(plane),
        0 <= x < width,
        0 <= y < height,
    ensures
        ({
            let rows = like(plane, crate::blur::smoothed_rows(plane.0, width, height, plane.1));
            let both = like(plane, crate::blur::tented(plane.0, width, height, plane.1));
            let (left, right) = (
                if x > 0 {
                    x - 1
                } else {
                    0
                },
                if x + 1 < width {
                    x + 1
                } else {
                    width - 1
                },
            );
            let (above, below) = (
                if y > 0 {
                    y - 1
                } else {
                    0
                },
                if y + 1 < height {
                    y + 1
                } else {
                    height - 1
                },
            );
            &&& at(rows, width, x, y) == crate::blur::tent3(
                at(plane, width, left, y),
                at(plane, width, x, y),
                at(plane, width, right, y),
            )
            &&& at(both, width, x, y) == crate::blur::tent3(
                at(rows, width, x, above),
                at(rows, width, x, y),
                at(rows, width, x, below),
            )
        }),
{
    crate::walk::lemma_cell_in_plane(x, y, plane.2, width, height, plane.1);
}

proof fn lemma_tented_agree(
    first: (Seq<u8>, int, int),
    second: (Seq<u8>, int, int),
    width: int,
    height: int,
    column: int,
    row: int,
)
    requires
        channel_of(first),
        channel_of(second),
        0 <= column < width,
        0 <= row < height,
        agree(first, second, width, height, column, row, 1),
    ensures
        at(like(first, crate::blur::tented(first.0, width, height, first.1)), width, column, row)
            == at(
            like(second, crate::blur::tented(second.0, width, height, second.1)),
            width,
            column,
            row,
        ),
{
    let (p, q) = (
        like(first, crate::blur::smoothed_rows(first.0, width, height, first.1)),
        like(second, crate::blur::smoothed_rows(second.0, width, height, second.1)),
    );
    assert forall|y: int| 0 <= y < height && row - 1 <= y <= row + 1 implies #[trigger] at(
        p,
        width,
        column,
        y,
    ) == at(q, width, column, y) by {
        lemma_tented_at(first, width, height, column, y);
        lemma_tented_at(second, width, height, column, y);
        let (left, right) = (
            if column > 0 {
                column - 1
            } else {
                0
            },
            if column + 1 < width {
                column + 1
            } else {
                width - 1
            },
        );
        assert(at(first, width, left, y) == at(second, width, left, y));
        assert(at(first, width, column, y) == at(second, width, column, y));
        assert(at(first, width, right, y) == at(second, width, right, y));
    }
    lemma_tented_at(first, width, height, column, row);
    lemma_tented_at(second, width, height, column, row);
}

proof fn lemma_halved_agree(
    first: (Seq<u8>, int, int),
    second: (Seq<u8>, int, int),
    width: int,
    height: int,
    column: int,
    row: int,
    x: int,
    y: int,
    far: int,
)
    requires
        channel_of(first),
        channel_of(second),
        0 < width,
        0 < height,
        -4 <= 2 * x - column <= 4,
        -4 <= 2 * y - row <= 4,
        agree(first, second, width, height, column, row, 2 * far + 5),
    ensures
        agree(
            like(first, crate::blur::halved_plane(first.0, width, height, first.1)),
            like(second, crate::blur::halved_plane(second.0, width, height, second.1)),
            crate::blur::half_up(width),
            crate::blur::half_up(height),
            x,
            y,
            far,
        ),
{
    let (w, h) = (crate::blur::half_up(width), crate::blur::half_up(height));
    let (p, q) = (
        like(first, crate::blur::halved_plane(first.0, width, height, first.1)),
        like(second, crate::blur::halved_plane(second.0, width, height, second.1)),
    );
    assert forall|a: int, b: int|
        0 <= a < w && 0 <= b < h && x - far <= a <= x + far && y - far <= b <= y + far implies
        #[trigger] at(p, w, a, b) == at(q, w, a, b) by {
        crate::walk::lemma_cell_in_plane(a, b, first.2, w, h, first.1);
        crate::walk::lemma_cell_in_plane(a, b, second.2, w, h, second.1);
        let right = if 2 * a + 1 < width - 1 {
            2 * a + 1
        } else {
            width - 1
        };
        let below = if 2 * b + 1 < height - 1 {
            2 * b + 1
        } else {
            height - 1
        };
        assert(at(first, width, 2 * a, 2 * b) == at(second, width, 2 * a, 2 * b));
        assert(at(first, width, right, 2 * b) == at(second, width, right, 2 * b));
        assert(at(first, width, 2 * a, below) == at(second, width, 2 * a, below));
        assert(at(first, width, right, below) == at(second, width, right, below));
    }
}

/// Cells that lie near a cell of a plane scaled up from its half lie within two
/// pixels of it.
proof fn lemma_near_half(index: int, pixel: int, len: int)
    requires
        0 <= index < len,
        crate::geometry::near(
            index,
            pixel,
            crate::blur::half_up(len),
            len,
            crate::blur::half_up(len),
            1,
        ),
    ensures
        -2 <= 2 * pixel - index <= 2,
{
    let half = crate::blur::half_up(len);
    let (p, q) = ((2 * pixel + 1) * len, (2 * index + 1) * half);
    assert((half * 1 - half) * len == 0 && (2 * pixel + 1) * (len * 1) == p) by (nonlinear_arith)
        requires
            p == (2 * pixel + 1) * len,
    ;
    assert(-(2 * len) < p - q < 2 * len);
    assert(-3 < 2 * pixel - index < 3) by (nonlinear_arith)
        requires
            -(2 * len) < p - q < 2 * len,
            p == (2 * pixel + 1) * len,
            q == (2 * index + 1) * half,
            len <= 2 * half <= len + 1,
            0 <= index < len,
    {
        let d = 2 * pixel - index;
        // Twice the difference is that of the places, but for less than two lengths.
        assert(2 * q >= (2 * index + 1) * len);
        assert(2 * q <= (2 * index + 1) * (len + 1));
        assert((2 * index + 1) * (len + 1) == (2 * index + 1) * len + (2 * index + 1));
        assert(2 * p - (2 * index + 1) * len == (2 * d + 1) * len);
        assert((2 * d + 1) * len > -(4 * len));
        assert((2 * d + 1) * len < 4 * len + 2 * len);
        assert((2 * d + 1 + 4) * len > 0);
        assert((6 - (2 * d + 1)) * len > 0);
    }
}

/// What a plane shows when it is scaled depends on the cells near each place alone.
proof fn lemma_stretched_agree(
    first: (Seq<u8>, int, int),
    second: (Seq<u8>, int, int),
    width: int,
    height: int,
    to_width: int,
    to_height: int,
    column: int,
    row: int,
)
    requires
        channel_of(first),
        channel_of(second),
        0 < width <= u32::MAX,
        0 < height <= u32::MAX,
        0 <= column < to_width <= u32::MAX,
        0 <= row < to_height <= u32::MAX,
        forall|x: int, y: int|
            0 <= x < width && 0 <= y < height && crate::geometry::near(
                column,
                x,
                width,
                to_width,
                width,
                1,
            ) && crate::geometry::near(row, y, height, to_height, height, 1) ==> #[trigger] at(
                first,
                width,
                x,
                y,
            ) == at(second, width, x, y),
    ensures
        at(
            like(
                first,
                crate::blur::stretched(first.0, width, height, to_width, to_height, first.1),
            ),
            to_width,
            column,
            row,
        ) == at(
            like(
                second,
                crate::blur::stretched(second.0, width, height, to_width, to_height, second.1),
            ),
            to_width,
            column,
            row,
        ),
{
    let s = crate::scale::sampling(
        width,
        height,
        to_width,
        to_height,
        first.1,
        ScaleMode::Stretch,
    );
    let t = crate::scale::sampling(
        width,
        height,
        to_width,
        to_height,
        second.1,
        ScaleMode::Stretch,
    );
    crate::scale::lemma_sampling_valid(
        width,
        height,
        to_width,
        to_height,
        first.1,
        ScaleMode::Stretch,
    );
    crate::scale::lemma_sampling_valid(
        width,
        height,
        to_width,
        to_height,
        second.1,
        ScaleMode::Stretch,
    );
    crate::walk::lemma_cell_in_plane(column, row, first.2, to_width, to_height, first.1);
    crate::walk::lemma_cell_in_plane(column, row, second.2, to_width, to_height, second.1);
    let (x, y) = (s.columns[column], s.rows[row]);
    assert(x == t.columns[column] && y == t.rows[row]);
    crate::geometry::lemma_near_taps(s, column, row);
    let (left, top) = (x / 256, y / 256);
    let right = if left + 1 < width {
        left + 1
    } else {
        width - 1
    };
    let below = if top + 1 < height {
        top + 1
    } else {
        height - 1
    };
    let near_x = |a: int| -256 < 256 * a - x < 256;
    let near_y = |b: int| -256 < 256 * b - y < 256;
    assert(near_x(left) && near_y(top));
    assert(x % 256 > 0 ==> near_x(right));
    assert(y % 256 > 0 ==> near_y(below));
    assert forall|a: int, b: int|
        0 <= a < width && 0 <= b < height && near_x(a) && near_y(b) implies #[trigger] s.byte(
        first.0,
        a,
        b,
        first.2,
    ) == t.byte(second.0, a, b, second.2) by {
        assert(at(first, width, a, b) == at(second, width, a, b));
    }
    let (tl, tr, bl, br) = (
        s.byte(first.0, left, top, first.2),
        s.byte(first.0, right, top, first.2),
        s.byte(first.0, left, below, first.2),
        s.byte(first.0, right, below, first.2),
    );
    let (ol, or, pl, pr) = (
        t.byte(second.0, left, top, second.2),
        t.byte(second.0, right, top, second.2),
        t.byte(second.0, left, below, second.2),
        t.byte(second.0, right, below, second.2),
    );
    crate::geometry::lemma_same_mix((tl, tr, bl, br), (ol, or, pl, pr), x % 256, y % 256);
}

/// A byte of a blurred plane depends on the bytes of its channel within reach alone.
#[verifier::spinoff_prover]
proof fn lemma_blurred_agree(
    first: (Seq<u8>, int, int),
    second: (Seq<u8>, int, int),
    width: int,
    height: int,
    count: nat,
    fractional: Option<Grid>,
    column: int,
    row: int,
)
    requires
        channel_of(first),
        channel_of(second),
        0 < width <= u32::MAX,
        0 < height <= u32::MAX,
        0 <= column < width,
        0 <= row < height,
        fractional matches Some(grid) ==> 0 < grid.width && 0 < grid.height
            && crate::blur::halvings(width, count) <= 10 * grid.width && crate::blur::halvings(
            height,
            count,
        ) <= 10 * grid.height,
        agree(first, second, width, height, column, row, reach(count)),
    ensures
        at(
            like(
                first,
                crate::blur::blurred_plane(first.0, width, height, first.1, count, fractional),
            ),
            width,
            column,
            row,
        ) == at(
            like(
                second,
                crate::blur::blurred_plane(second.0, width, height, second.1, count, fractional),
            ),
            width,
            column,
            row,
        ),
    decreases count,
{
    if count == 0 {
        match fractional {
            None => {
                assert(at(first, width, column, row) == at(second, width, column, row));
            },
            Some(grid) => lemma_part_agree(first, second, width, height, grid, column, row),
        }
    } else {
        let less = (count - 1) as nat;
        let (w, h) = (crate::blur::half_up(width), crate::blur::half_up(height));
        let (p, q) = (
            like(first, crate::blur::halved_plane(first.0, width, height, first.1)),
            like(second, crate::blur::halved_plane(second.0, width, height, second.1)),
        );
        let (a, b) = (
            like(first, crate::blur::blurred_plane(p.0, w, h, first.1, less, fractional)),
            like(second, crate::blur::blurred_plane(q.0, w, h, second.1, less, fractional)),
        );
        let (c, d) = (
            like(first, crate::blur::tented(a.0, w, h, first.1)),
            like(second, crate::blur::tented(b.0, w, h, second.1)),
        );
        lemma_halvings_inside(width, less);
        lemma_halvings_inside(height, less);
        assert forall|x: int, y: int|
            0 <= x < w && 0 <= y < h && crate::geometry::near(column, x, w, width, w, 1)
                && crate::geometry::near(row, y, h, height, h, 1) implies #[trigger] at(
            c,
            w,
            x,
            y,
        ) == at(d, w, x, y) by {
            lemma_near_half(column, x, width);
            lemma_near_half(row, y, height);
            assert forall|i: int, j: int|
                0 <= i < w && 0 <= j < h && x - 1 <= i <= x + 1 && y - 1 <= j <= y + 1 implies
                #[trigger] at(a, w, i, j) == at(b, w, i, j) by {
                lemma_halved_agree(
                    first,
                    second,
                    width,
                    height,
                    column,
                    row,
                    i,
                    j,
                    reach(less),
                );
                lemma_blurred_agree(p, q, w, h, less, fractional, i, j);
            }
            lemma_tented_agree(a, b, w, h, x, y);
        }
        lemma_stretched_agree(c, d, w, h, width, height, column, row);
    }
}

/// The step that is a part of a halving reaches only a little way.
proof fn lemma_part_agree(
    first: (Seq<u8>, int, int),
    second: (Seq<u8>, int, int),
    width: int,
    height: int,
    grid: Grid,
    column: int,
    row: int,
)
    requires
        channel_of(first),
        channel_of(second),
        0 < width <= u32::MAX,
        0 < height <= u32::MAX,
        0 <= column < width,
        0 <= row < height,
        0 < grid.width,
        0 < grid.height,
        width <= 10 * grid.width,
        height <= 10 * grid.height,
        agree(first, second, width, height, column, row, 21),
    ensures
        at(
            like(
                first,
                crate::blur::blurred_plane(first.0, width, height, first.1, 0, Some(grid)),
            ),
            width,
            column,
            row,
        ) == at(
            like(
                second,
                crate::blur::blurred_plane(second.0, width, height, second.1, 0, Some(grid)),
            ),
            width,
            column,
            row,
        ),
{
    let (w, h) = (grid.width as int, grid.height as int);
    let (p, q) = (
        like(first, crate::blur::stretched(first.0, width, height, w, h, first.1)),
        like(second, crate::blur::stretched(second.0, width, height, w, h, second.1)),
    );
    let (c, d) = (
        like(first, crate::blur::tented(p.0, w, h, first.1)),
        like(second, crate::blur::tented(q.0, w, h, second.1)),
    );
    assert forall|x: int, y: int|
        0 <= x < w && 0 <= y < h && crate::geometry::near(column, x, w, width, w, 1)
            && crate::geometry::near(row, y, h, height, h, 1) implies #[trigger] at(c, w, x, y)
        == at(d, w, x, y) by {
        assert forall|i: int, j: int|
            0 <= i < w && 0 <= j < h && x - 1 <= i <= x + 1 && y - 1 <= j <= y + 1 implies
            #[trigger] at(p, w, i, j) == at(q, w, i, j) by {
            assert forall|a: int, b: int|
                0 <= a < width && 0 <= b < height && crate::geometry::near(i, a, width, w, width, 1)
                    && crate::geometry::near(j, b, height, h, height, 1) implies #[trigger] at(
                first,
                width,
                a,
                b,
            ) == at(second, width, a, b) by {
                lemma_there_and_back(column, x, i, a, width, w);
                lemma_there_and_back(row, y, j, b, height, h);
            }
            lemma_stretched_agree(first, second, width, height, w, h, i, j);
        }
        lemma_tented_agree(p, q, w, h, x, y);
    }
    lemma_stretched_agree(c, d, w, h, width, height, column, row);
}

/// Down to a smaller length, one pixel aside and back up leads no farther than the
/// reach of the step.
proof fn lemma_there_and_back(index: int, low: int, aside: int, pixel: int, len: int, small: int)
    requires
        0 < small,
        0 < len <= 10 * small,
        low - 1 <= aside <= low + 1,
        crate::geometry::near(index, low, small, len, small, 1),
        crate::geometry::near(aside, pixel, len, small, len, 1),
    ensures
        -21 <= pixel - index <= 21,
{
    assert((small * 1 - small) * len == 0 && (len * 1 - len) * small == 0) by (nonlinear_arith);
    assert(-(2 * len) < (2 * low + 1) * len - (2 * index + 1) * small < 2 * len);
    assert(-(2 * small) < (2 * pixel + 1) * small - (2 * aside + 1) * len < 2 * small);
    assert(-21 <= pixel - index <= 21) by (nonlinear_arith)
        requires
            -(2 * len) < (2 * low + 1) * len - (2 * index + 1) * small < 2 * len,
            -(2 * small) < (2 * pixel + 1) * small - (2 * aside + 1) * len < 2 * small,
            low - 1 <= aside <= low + 1,
            0 < len <= 10 * small,
            0 < small,
    {
        let d = pixel - index;
        assert((2 * aside + 1) * len - (2 * low + 1) * len == 2 * ((aside - low) * len));
        assert(-len <= (aside - low) * len <= len);
        assert((2 * pixel + 1) * small - (2 * index + 1) * small == 2 * (d * small));
        assert(2 * (d * small) < 2 * small + 4 * len);
        assert(2 * (d * small) > -(2 * small + 4 * len));
        assert((42 - 2 * d) * small > 0);
        assert((42 + 2 * d) * small > 0);
    }
}

/// Halving a half is halving once more.
pub proof fn lemma_halvings_inside(len: int, times: nat)
    ensures
        crate::blur::halvings(crate::blur::half_up(len), times) == crate::blur::halvings(
            len,
            times + 1,
        ),
    decreases times,
{
    if times > 0 {
        lemma_halvings_inside(len, (times - 1) as nat);
        assert(crate::blur::halvings(len, times + 1) == crate::blur::half_up(
            crate::blur::halvings(len, times),
        ));
    } else {
        assert(crate::blur::halvings(len, 1) == crate::blur::half_up(
            crate::blur::halvings(len, 0),
        ));
    }
}

/// A part of a halving leaves at least a tenth of a length.
proof fn lemma_shrunk_least(length: int, factor: int)
    requires
        0 < length <= u32::MAX,
        0 < factor <= 2 * FACTOR_ONE,
    ensures
        length <= 10 * crate::blur::shrunk(length, factor),
        crate::blur::shrunk(length, factor) <= u32::MAX,
{
    let single = crate::precision::SINGLE as int;
    let l = crate::precision::nearest(length, 1, single);
    crate::precision::lemma_nearest_half(length, 1, single);
    crate::precision::lemma_nearest(length, 1, single);
    let scaled = l * (FACTOR_ONE * single);
    let part = crate::blur::quotient(length, factor);
    assert(factor <= scaled) by (nonlinear_arith)
        requires
            scaled == l * (8_388_608 * single),
            1 <= l,
            factor <= 2 * 8_388_608,
            2 <= single,
    {
        assert(8_388_608 * single <= l * (8_388_608 * single));
    }
    crate::precision::lemma_nearest_half(scaled, factor, single);
    crate::precision::lemma_nearest(scaled, factor, single);
    assert(length * single <= 8 * part) by (nonlinear_arith)
        requires
            length <= 2 * l,
            scaled <= 2 * (part * factor),
            scaled == l * (8_388_608 * single),
            0 <= part,
            factor <= 2 * 8_388_608,
            0 < single,
    {
        assert(part * factor <= part * (2 * 8_388_608));
        assert(l * (8_388_608 * single) == 8_388_608 * (l * single));
        assert(8_388_608 * (l * single) <= 8_388_608 * (4 * part));
        assert(l * single <= 4 * part);
        assert(length * single <= (2 * l) * single);
    }
    let rounded = (part + single / 2) / single;
    assert(length <= 8 * rounded + 4) by (nonlinear_arith)
        requires
            length * single <= 8 * part,
            single == 0x100_0000,
            rounded == (part + single / 2) / single,
    ;
}

/// The step of a blur leaves enough of each length.
proof fn lemma_step_is_wide(width: int, height: int, levels: int, factor: int)
    requires
        0 < width <= u32::MAX,
        0 < height <= u32::MAX,
        0 < factor <= 2 * FACTOR_ONE,
    ensures
        ({
            let count = crate::blur::level_count(width, height, (levels / ONE as int) as nat);
            crate::blur::fractional_step(width, height, levels, factor) matches Some(grid) ==> 0
                < grid.width && 0 < grid.height && crate::blur::halvings(width, count) <= 10
                * grid.width && crate::blur::halvings(height, count) <= 10 * grid.height
        }),
{
    let count = crate::blur::level_count(width, height, (levels / ONE as int) as nat);
    crate::blur::lemma_halvings_positive(width, count);
    crate::blur::lemma_halvings_positive(height, count);
    crate::blur::lemma_step_not_empty(width, height, levels, factor);
    lemma_shrunk_least(crate::blur::halvings(width, count), factor);
    lemma_shrunk_least(crate::blur::halvings(height, count), factor);
}

/// A plane is halved no more often than asked for, and the reach doubles each time.
proof fn lemma_reach(width: int, height: int, depth: nat)
    ensures
        crate::blur::level_count(width, height, depth) <= depth,
        0 <= reach(crate::blur::level_count(width, height, depth)) <= 26 * pow2(depth),
    decreases depth,
{
    lemma_pow2_pos(depth);
    if depth > 0 {
        lemma_pow2_unfold(depth);
        lemma_reach(
            crate::blur::half_up(width),
            crate::blur::half_up(height),
            (depth - 1) as nat,
        );
        lemma_reach_bound(crate::blur::level_count(width, height, depth), depth);
    } else {
        lemma2_to64();
    }
}

proof fn lemma_reach_bound(count: nat, depth: nat)
    requires
        count <= depth,
    ensures
        21 <= reach(count) <= 26 * pow2(depth) - 5,
    decreases depth,
{
    if depth == 0 {
        lemma2_to64();
    } else {
        lemma_pow2_unfold(depth);
        lemma_pow2_pos((depth - 1) as nat);
        lemma_reach_bound(
            if count > 0 {
                (count - 1) as nat
            } else {
                0
            },
            (depth - 1) as nat,
        );
    }
}

proof fn lemma_one_channel(cell: int)
    ensures
        cell * 1 + 0 == cell,
{
}

/// A blur takes each luma byte from around its own place: two frames that agree within
/// 26 pixels for each doubling by a halving look alike there once they are blurred.
pub proof fn law_blurred_luma_stays_around_its_place(
    frame: Nv12,
    other: Nv12,
    strength: BlurStrength,
    column: int,
    row: int,
)
    requires
        frame.valid(),
        other.valid(),
        frame.size == other.size,
        strength.wf(),
        0 <= column < frame.size.width,
        0 <= row < frame.size.height,
        ({
            let far = 26 * pow2((strength.levels() / ONE as int) as nat);
            forall|x: int, y: int|
                #![trigger frame.luma[y * frame.size.width + x]]
                0 <= x < frame.size.width && 0 <= y < frame.size.height && column - far <= x
                    <= column + far && row - far <= y <= row + far ==> frame.luma[y
                    * frame.size.width + x] == other.luma[y * frame.size.width + x]
        }),
    ensures
        crate::blur::blurred(frame, strength).luma[row * frame.size.width + column]
            == crate::blur::blurred(other, strength).luma[row * frame.size.width + column],
{
    let (w, h) = (frame.size.width, frame.size.height);
    let depth = (strength.levels() / ONE as int) as nat;
    let count = crate::blur::level_count(w, h, depth);
    lemma_reach(w, h, depth);
    lemma_step_is_wide(w, h, strength.levels(), strength.factor as int);
    let (p, q) = ((frame.luma, 1int, 0int), (other.luma, 1int, 0int));
    assert forall|x: int, y: int|
        0 <= x < w && 0 <= y < h && column - reach(count) <= x <= column + reach(count) && row
            - reach(count) <= y <= row + reach(count) implies #[trigger] at(p, w, x, y) == at(
        q,
        w,
        x,
        y,
    ) by {
        lemma_one_channel(y * w + x);
        assert(frame.luma[y * w + x] == other.luma[y * w + x]);
    }
    lemma_one_channel(row * w + column);
    lemma_blurred_agree(
        p,
        q,
        w,
        h,
        count,
        crate::blur::fractional_step(w, h, strength.levels(), strength.factor as int),
        column,
        row,
    );
}

/// A blur takes each byte of a chroma sample from the same byte of the samples around
/// its own place, with one halving less than luma.
pub proof fn law_blurred_chroma_stays_around_its_place(
    frame: Nv12,
    other: Nv12,
    strength: BlurStrength,
    column: int,
    row: int,
    channel: int,
)
    requires
        frame.valid(),
        other.valid(),
        frame.size == other.size,
        strength.wf(),
        strength.levels() >= ONE,
        0 <= column < frame.size.width / 2,
        0 <= row < frame.size.height / 2,
        0 <= channel < 2,
        ({
            let far = 26 * pow2((strength.levels() / ONE as int - 1) as nat);
            let w = frame.size.width / 2;
            forall|x: int, y: int|
                #![trigger frame.chroma[(y * w + x) * 2 + channel]]
                0 <= x < w && 0 <= y < frame.size.height / 2 && column - far <= x <= column + far
                    && row - far <= y <= row + far ==> frame.chroma[(y * w + x) * 2 + channel]
                    == other.chroma[(y * w + x) * 2 + channel]
        }),
    ensures
        ({
            let at = (row * (frame.size.width / 2) + column) * 2 + channel;
            crate::blur::blurred(frame, strength).chroma[at] == crate::blur::blurred(
                other,
                strength,
            ).chroma[at]
        }),
{
    let (w, h) = (frame.size.width / 2, frame.size.height / 2);
    let levels = strength.levels() - ONE;
    let depth = (levels / ONE as int) as nat;
    assert(depth == strength.levels() / ONE as int - 1);
    let count = crate::blur::level_count(w, h, depth);
    lemma_reach(w, h, depth);
    lemma_step_is_wide(w, h, levels, strength.factor as int);
    let (p, q) = ((frame.chroma, 2int, channel), (other.chroma, 2int, channel));
    assert forall|x: int, y: int|
        0 <= x < w && 0 <= y < h && column - reach(count) <= x <= column + reach(count) && row
            - reach(count) <= y <= row + reach(count) implies #[trigger] at(p, w, x, y) == at(
        q,
        w,
        x,
        y,
    ) by {
        assert(frame.chroma[(y * w + x) * 2 + channel] == other.chroma[(y * w + x) * 2 + channel]);
    }
    lemma_blurred_agree(
        p,
        q,
        w,
        h,
        count,
        crate::blur::fractional_step(w, h, levels, strength.factor as int),
        column,
        row,
    );
}

/// Chroma is blurred as luma is with one halving less: a frame of half the size whose
/// luma is one of the bytes of each chroma sample comes out, at that strength, with
/// what that byte comes out as.
pub proof fn law_chroma_is_blurred_as_luma_is(
    frame: Nv12,
    strength: BlurStrength,
    half: Nv12,
    weaker: BlurStrength,
    column: int,
    row: int,
    channel: int,
)
    requires
        frame.valid(),
        half.valid(),
        half.size.width == frame.size.width / 2,
        half.size.height == frame.size.height / 2,
        strength.wf(),
        weaker.levels() == strength.levels() - ONE,
        weaker.factor == strength.factor,
        0 <= column < half.size.width,
        0 <= row < half.size.height,
        0 <= channel < 2,
        forall|i: int|
            0 <= i < half.luma.len() ==> #[trigger] half.luma[i] == frame.chroma[i * 2 + channel],
    ensures
        ({
            let at = row * half.size.width + column;
            crate::blur::blurred(frame, strength).chroma[at * 2 + channel] == crate::blur::blurred(
                half,
                weaker,
            ).luma[at]
        }),
{
    let (w, h) = (half.size.width, half.size.height);
    let levels = weaker.levels();
    let depth = (levels / ONE as int) as nat;
    let count = crate::blur::level_count(w, h, depth);
    lemma_step_is_wide(w, h, levels, strength.factor as int);
    let (p, q) = ((frame.chroma, 2int, channel), (half.luma, 1int, 0int));
    assert forall|x: int, y: int|
        0 <= x < w && 0 <= y < h && column - reach(count) <= x <= column + reach(count) && row
            - reach(count) <= y <= row + reach(count) implies #[trigger] at(p, w, x, y) == at(
        q,
        w,
        x,
        y,
    ) by {
        crate::arith::lemma_cell_in_plane(y, x, w, h);
        lemma_one_channel(y * w + x);
        assert(half.luma[y * w + x] == frame.chroma[(y * w + x) * 2 + channel]);
    }
    lemma_one_channel(row * w + column);
    lemma_blurred_agree(
        p,
        q,
        w,
        h,
        count,
        crate::blur::fractional_step(w, h, levels, strength.factor as int),
        column,
        row,
    );
}

} // verus!
