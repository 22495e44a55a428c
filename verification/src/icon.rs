//! The picture of the application's icon: a green disc with a dark lens.
//!
//! Lengths are numbers of single precision, in the unit of a pixel's 2^-26.

use crate::precision::{round_root, round_to_digits, SINGLE};
use vstd::prelude::*;

verus! {

/// The largest side of an icon whose bytes can be counted in 32 bits.
pub const MAX_ICON_SIDE: u32 = 32_767;

/// The side of a pixel.
pub const PIXEL: u128 = 0x400_0000;

/// The lens's part of the disc's radius, 45 hundredths in single precision, in the
/// unit 2^-25.
pub const LENS: u128 = 15_099_494;

/// Rounds a number to single precision.
pub open spec fn single(value: int) -> int {
    crate::precision::nearest(value, 1, SINGLE as int)
}

/// Four times the square of the distance of a pixel's middle from the middle of
/// the icon.
pub open spec fn distance_squared(size: int, x: int, y: int) -> int {
    single(
        single((2 * x + 1 - size) * (2 * x + 1 - size)) + single(
            (2 * y + 1 - size) * (2 * y + 1 - size),
        ),
    )
}

/// The distance, of four times its square.
pub open spec fn distance(squared: int) -> int {
    crate::precision::nearest_root(squared * 0x4_0000_0000_0000, 1, SINGLE as int)
}

/// The radius of the disc, which ends in the middle of the outermost pixels.
pub open spec fn disc_radius(size: int) -> int {
    (size - 1) * 0x200_0000
}

/// The radius of the lens.
pub open spec fn lens_radius(size: int) -> int {
    single((size - 1) * LENS)
}

/// The radius of the ring around the lens, which is one and a half pixels wide.
pub open spec fn ring_radius(size: int) -> int {
    single(lens_radius(size) + 0x600_0000)
}

/// The colour of a pixel at a distance from the middle.
pub open spec fn icon_color(size: int, distance: int) -> (u8, u8, u8) {
    if distance < lens_radius(size) {
        (24, 26, 30)
    } else if distance < ring_radius(size) {
        (230, 240, 235)
    } else {
        (0, 177, 64)
    }
}

/// How far the disc reaches into a pixel: its edge is one pixel wide, with the
/// radius in the middle. Below zero the pixel lies outside.
pub open spec fn reach(size: int, distance: int) -> int {
    if distance <= disc_radius(size) {
        single(disc_radius(size) - distance) + 0x200_0000
    } else {
        0x200_0000 - single(distance - disc_radius(size))
    }
}

/// The part of a pixel that the disc covers.
pub open spec fn covered(size: int, distance: int) -> int {
    let reach = reach(size, distance);
    if reach <= 0 {
        0
    } else if single(reach) < PIXEL {
        single(reach)
    } else {
        PIXEL as int
    }
}

/// How many 255ths of a pixel the disc covers, rounded down.
pub open spec fn coverage(size: int, distance: int) -> int {
    single(255 * covered(size, distance)) / PIXEL as int
}

/// One byte of the icon: red, green, blue and opacity of each pixel, row by row.
pub open spec fn icon_byte(size: int, i: int) -> u8 {
    let pixel = i / 4;
    let distance = distance(distance_squared(size, pixel % size, pixel / size));
    let color = icon_color(size, distance);
    if i % 4 == 0 {
        color.0
    } else if i % 4 == 1 {
        color.1
    } else if i % 4 == 2 {
        color.2
    } else {
        coverage(size, distance) as u8
    }
}

fn rounded_square(size: u32, at: u32) -> (square: u128)
    requires
        size <= MAX_ICON_SIDE,
        at < size,
    ensures
        square == single((2 * at + 1 - size) * (2 * at + 1 - size)),
        square <= 0x8000_0000,
{
    let offset: i64 = 2 * at as i64 + 1 - size as i64;
    proof {
        assert(0 <= offset * offset <= 0x4000_0000) by (nonlinear_arith)
            requires
                -32_767 <= offset <= 32_767,
        ;
    }
    round_to_digits((offset * offset) as u128, 1, SINGLE)
}

fn pixel_distance(size: u32, x: u32, y: u32) -> (far: u128)
    requires
        size <= MAX_ICON_SIDE,
        x < size,
        y < size,
    ensures
        far == distance(distance_squared(size as int, x as int, y as int)),
        far <= 0x10_0000_0000_0000_0000_0000,
{
    let sum: u128 = rounded_square(size, x) + rounded_square(size, y);
    round_root(round_to_digits(sum, 1, SINGLE) * 0x4_0000_0000_0000, 1)
}

fn pixel_color(size: u32, far: u128) -> (color: (u8, u8, u8))
    requires
        0 < size <= MAX_ICON_SIDE,
    ensures
        color == icon_color(size as int, far as int),
{
    let lens: u128 = round_to_digits((size as u128 - 1) * LENS, 1, SINGLE);
    if far < lens {
        (24, 26, 30)
    } else if far < round_to_digits(lens + 0x600_0000, 1, SINGLE) {
        (230, 240, 235)
    } else {
        (0, 177, 64)
    }
}

fn pixel_coverage(size: u32, far: u128) -> (share: u8)
    requires
        0 < size <= MAX_ICON_SIDE,
        far <= 0x10_0000_0000_0000_0000_0000,
    ensures
        share == coverage(size as int, far as int),
{
    let (disc, half): (u128, u128) = ((size as u128 - 1) * 0x200_0000, 0x200_0000);
    let mut covered: u128 = 0;
    if far <= disc {
        covered = round_to_digits(round_to_digits(disc - far, 1, SINGLE) + half, 1, SINGLE);
    } else {
        let short: u128 = round_to_digits(far - disc, 1, SINGLE);
        if short < half {
            covered = round_to_digits(half - short, 1, SINGLE);
        }
    }
    if covered > PIXEL {
        covered = PIXEL;
    }
    proof {
        lemma_coverage(size as int, far as int);
    }
    (round_to_digits(255 * covered, 1, SINGLE) / PIXEL) as u8
}

/// The disc covers no more than the whole of a pixel.
proof fn lemma_coverage(size: int, far: int)
    ensures
        0 <= covered(size, far) <= PIXEL,
        0 <= coverage(size, far) <= 255,
{
    let reach = reach(size, far);
    if reach > 0 {
        crate::precision::lemma_nearest(reach, 1, SINGLE as int);
    }
    let covered = covered(size, far);
    let all = 255 * PIXEL as int;
    vstd::arithmetic::power2::lemma2_to64();
    crate::precision::lemma_nearest_kept(255, 26, 1, SINGLE as int);
    crate::precision::lemma_nearest(255 * covered, 1, SINGLE as int);
    crate::precision::lemma_nearest_order(255 * covered, 1, all, 1, SINGLE as int);
    assert(single(all) == all);
}

/// Paints the icon: red, green, blue and opacity of each pixel, row by row.
pub fn icon_rgba(size: u32) -> (pixels: Vec<u8>)
    requires
        size <= MAX_ICON_SIDE,
    ensures
        pixels@ == Seq::new((4 * size * size) as nat, |i: int| icon_byte(size as int, i)),
{
    let mut pixels: Vec<u8> = Vec::new();
    let mut y: u32 = 0;
    while y < size
        invariant
            y <= size,
            size <= MAX_ICON_SIDE,
            pixels@.len() == 4 * (y * size),
            forall|i: int|
                0 <= i < pixels@.len() ==> #[trigger] pixels@[i] == icon_byte(size as int, i),
        decreases size - y,
    {
        let mut x: u32 = 0;
        while x < size
            invariant
                x <= size,
                y < size,
                size <= MAX_ICON_SIDE,
                pixels@.len() == 4 * (y * size + x),
                forall|i: int|
                    0 <= i < pixels@.len() ==> #[trigger] pixels@[i] == icon_byte(size as int, i),
            decreases size - x,
        {
            let far: u128 = pixel_distance(size, x, y);
            let (red, green, blue): (u8, u8, u8) = pixel_color(size, far);
            let share: u8 = pixel_coverage(size, far);
            let ghost start = pixels@.len() as int;
            pixels.push(red);
            pixels.push(green);
            pixels.push(blue);
            pixels.push(share);
            proof {
                crate::arith::lemma_row_column(y as int, x as int, size as int);
                let pixel = y * size + x;
                assert(start / 4 == pixel && start % 4 == 0);
                assert((start + 1) / 4 == pixel && (start + 1) % 4 == 1);
                assert((start + 2) / 4 == pixel && (start + 2) % 4 == 2);
                assert((start + 3) / 4 == pixel && (start + 3) % 4 == 3);
                assert(pixels@[start] == icon_byte(size as int, start));
                assert(pixels@[start + 1] == icon_byte(size as int, start + 1));
                assert(pixels@[start + 2] == icon_byte(size as int, start + 2));
                assert(pixels@[start + 3] == icon_byte(size as int, start + 3));
            }
            x = x + 1;
        }
        proof {
            assert((y + 1) * size == y * size + size) by (nonlinear_arith);
        }
        y = y + 1;
    }
    proof {
        assert(4 * size * size == 4 * (size * size)) by (nonlinear_arith);
        assert(pixels@ =~= Seq::new(
            (4 * size * size) as nat,
            |i: int| icon_byte(size as int, i),
        ));
    }
    pixels
}

/// The disc covers a pixel by no less than any pixel that lies farther out.
pub proof fn law_the_disc_fades_outwards(size: int, near: int, far: int)
    requires
        0 <= near <= far,
    ensures
        0 <= coverage(size, distance(far)) <= coverage(size, distance(near)) <= 255,
{
    let unit: int = 0x4_0000_0000_0000;
    crate::precision::lemma_nearest_root_order(near * unit, far * unit, 1, SINGLE as int);
    let (a, b) = (distance(near), distance(far));
    let disc = disc_radius(size);
    lemma_coverage(size, a);
    lemma_coverage(size, b);
    if a > disc {
        lemma_single_order(a - disc, b - disc);
    } else if b <= disc {
        lemma_single_order(disc - b, disc - a);
    } else {
        lemma_single_order(0, disc - a);
        lemma_single_order(0, b - disc);
    }
    assert(reach(size, b) <= reach(size, a));
    if reach(size, b) > 0 {
        lemma_single_order(reach(size, b), reach(size, a));
    }
    assert(covered(size, b) <= covered(size, a));
    lemma_single_order(255 * covered(size, b), 255 * covered(size, a));
    vstd::arithmetic::div_mod::lemma_div_is_ordered(
        single(255 * covered(size, b)),
        single(255 * covered(size, a)),
        PIXEL as int,
    );
}

pub proof fn lemma_single_order(value: int, other: int)
    requires
        0 <= value <= other,
    ensures
        0 <= single(value) <= single(other),
{
    crate::precision::lemma_nearest(value, 1, SINGLE as int);
    crate::precision::lemma_nearest_order(value, 1, other, 1, SINGLE as int);
}

} // verus!
