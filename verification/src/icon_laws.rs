//! The shape of the icon.

use vstd::prelude::*;

use crate::icon::{coverage, distance, distance_squared, icon_byte, single};

verus! {

/// The bytes of a pixel.
proof fn lemma_icon_byte(size: int, x: int, y: int, channel: int)
    requires
        0 <= x < size,
        0 <= y,
        0 <= channel < 4,
    ensures
        ({
            let i = (y * size + x) * 4 + channel;
            &&& i % 4 == channel
            &&& (i / 4) % size == x
            &&& (i / 4) / size == y
        }),
{
    crate::arith::lemma_row_column(y, x, size);
    crate::arith::lemma_row_column(y * size + x, channel, 4);
}

/// The icon looks the same in a mirror, upside down and turned on its side.
pub proof fn law_the_icon_is_symmetric(size: int, x: int, y: int, channel: int)
    requires
        0 <= x < size,
        0 <= y < size,
        0 <= channel < 4,
    ensures
        ({
            let byte = icon_byte(size, (y * size + x) * 4 + channel);
            &&& byte == icon_byte(size, (y * size + (size - 1 - x)) * 4 + channel)
            &&& byte == icon_byte(size, ((size - 1 - y) * size + x) * 4 + channel)
            &&& byte == icon_byte(size, (x * size + y) * 4 + channel)
        }),
{
    lemma_icon_byte(size, x, y, channel);
    lemma_icon_byte(size, size - 1 - x, y, channel);
    lemma_icon_byte(size, x, size - 1 - y, channel);
    lemma_icon_byte(size, y, x, channel);
    let (a, b) = (2 * x + 1 - size, 2 * y + 1 - size);
    assert(2 * (size - 1 - x) + 1 - size == -a && 2 * (size - 1 - y) + 1 - size == -b);
    assert((-a) * (-a) == a * a && (-b) * (-b) == b * b) by (nonlinear_arith);
}

/// In each row the icon is the fainter the further a pixel lies from its middle.
pub proof fn law_the_icon_fades_towards_its_sides(size: int, x: int, further: int, y: int)
    requires
        0 <= x < size,
        0 <= further < size,
        0 <= y < size,
        ({
            let (a, b) = (2 * x + 1 - size, 2 * further + 1 - size);
            a * a <= b * b
        }),
    ensures
        icon_byte(size, (y * size + further) * 4 + 3) <= icon_byte(size, (y * size + x) * 4 + 3),
{
    lemma_icon_byte(size, x, y, 3);
    lemma_icon_byte(size, further, y, 3);
    let (a, b, c) = (2 * x + 1 - size, 2 * further + 1 - size, 2 * y + 1 - size);
    assert(0 <= a * a && 0 <= c * c) by (nonlinear_arith);
    crate::icon::lemma_single_order(a * a, b * b);
    crate::icon::lemma_single_order(0, a * a);
    crate::icon::lemma_single_order(0, c * c);
    crate::precision::lemma_nearest(a * a, 1, crate::precision::SINGLE as int);
    crate::precision::lemma_nearest(b * b, 1, crate::precision::SINGLE as int);
    crate::precision::lemma_nearest(c * c, 1, crate::precision::SINGLE as int);
    crate::icon::lemma_single_order(single(a * a) + single(c * c), single(b * b) + single(c * c));
    crate::icon::lemma_single_order(0, single(a * a) + single(c * c));
    let (near, far) = (distance_squared(size, x, y), distance_squared(size, further, y));
    crate::precision::lemma_nearest(
        single(a * a) + single(c * c),
        1,
        crate::precision::SINGLE as int,
    );
    crate::icon::law_the_disc_fades_outwards(size, near, far);
    assert(coverage(size, distance(near)) <= 255);
}

} // verus!
