//! In which order the formats of a camera stand, and what counts as fast enough.

use vstd::prelude::*;

use crate::device::{CaptureFormat, Encoding, FormatOrder, AUTO_MAX_PIXELS, RATE_ONE};
use crate::precision::DOUBLE;

verus! {

/// One encoding costs no more than another: frames as they are processed cost least, then
/// compressed ones, then those of more bytes.
pub open spec fn costs_no_more(a: Encoding, b: Encoding) -> bool {
    match a {
        Encoding::Nv12 => true,
        Encoding::Mjpeg => !(b is Nv12),
        Encoding::Yuy2 => b is Yuy2 || b is Other,
        Encoding::Other(_) => b is Other,
    }
}

/// Whatever the order, every format that can be decoded has one place on the list, and no
/// other has any.
pub proof fn law_every_usable_format_has_one_place(
    order: FormatOrder,
    formats: Seq<CaptureFormat>,
    places: Seq<int>,
    i: int,
)
    requires
        order.arranges(formats, places),
        0 <= i < formats.len(),
    ensures
        places.contains(i) <==> !(formats[i].encoding is Other),
        forall|p: int, q: int|
            0 <= p < places.len() && 0 <= q < places.len() && #[trigger] places[p] == i
                && #[trigger] places[q] == i ==> p == q,
{
    if places.contains(i) {
        let p = choose|p: int| 0 <= p < places.len() && places[p] == i;
        assert(formats[places[p]].decodable());
    }
    assert forall|p: int, q: int|
        0 <= p < places.len() && 0 <= q < places.len() && #[trigger] places[p] == i
            && #[trigger] places[q] == i implies p == q by {
        if p < q {
            assert(order.place_before(formats, places[p], places[q]));
        } else if q < p {
            assert(order.place_before(formats, places[q], places[p]));
        }
    }
}

/// On a list to pick from no format stands before a larger one, before a faster one of the
/// same size, or before one of the same size and rate that costs less.
pub proof fn law_the_largest_formats_are_listed_first(
    formats: Seq<CaptureFormat>,
    places: Seq<int>,
    p: int,
    q: int,
)
    requires
        FormatOrder::Listing.arranges(formats, places),
        0 <= p < q < places.len(),
    ensures
        ({
            let (a, b) = (formats[places[p]], formats[places[q]]);
            let (size, other) = (a.width * a.height, b.width * b.height);
            &&& size >= other
            &&& size == other ==> a.rate_spec() >= b.rate_spec()
            &&& size == other && a.rate_spec() == b.rate_spec() ==> costs_no_more(
                a.encoding,
                b.encoding,
            )
        }),
{
    assert(FormatOrder::Listing.place_before(formats, places[p], places[q]));
}

/// On a list to try the formats that are fast enough for the output and not larger than
/// full HD stand before all others. Among the ones as among the others no format stands
/// before a larger one, or before one of the same size that costs less.
pub proof fn law_suitable_formats_are_tried_first(
    formats: Seq<CaptureFormat>,
    places: Seq<int>,
    output_fps: u32,
    p: int,
    q: int,
)
    requires
        (FormatOrder::Trying { output_fps }).arranges(formats, places),
        0 <= p < q < places.len(),
    ensures
        ({
            let (a, b) = (formats[places[p]], formats[places[q]]);
            let (size, other) = (a.width * a.height, b.width * b.height);
            let suits = crate::device::fast_enough(a, output_fps as int) && size <= 1920 * 1080;
            let suits_too = crate::device::fast_enough(b, output_fps as int) && other <= 1920
                * 1080;
            &&& suits_too ==> suits
            &&& suits == suits_too ==> size >= other
            &&& suits == suits_too && size == other ==> costs_no_more(a.encoding, b.encoding)
        }),
{
    assert((FormatOrder::Trying { output_fps }).place_before(formats, places[p], places[q]));
    assert(AUTO_MAX_PIXELS == 1920 * 1080);
}

/// Rates keep the order of their fractions.
pub proof fn law_rates_keep_the_order_of_their_fractions(a: CaptureFormat, b: CaptureFormat)
    requires
        a.fps_denominator > 0,
        b.fps_denominator > 0,
        a.fps_numerator * b.fps_denominator <= b.fps_numerator * a.fps_denominator,
    ensures
        a.rate_spec() <= b.rate_spec(),
{
    let (an, ad, bn, bd) = (
        a.fps_numerator as int,
        a.fps_denominator as int,
        b.fps_numerator as int,
        b.fps_denominator as int,
    );
    let r = RATE_ONE as int;
    assert((an * r) * bd <= (bn * r) * ad && 0 <= an * r && 0 <= bn * r) by (nonlinear_arith)
        requires
            an * bd <= bn * ad,
            0 <= an,
            0 <= bn,
            0 < r,
    {
        assert((an * bd) * r <= (bn * ad) * r);
    }
    crate::precision::lemma_nearest_order(an * r, ad, bn * r, bd, DOUBLE as int);
}

/// A format is fast enough where its rate lies no more than half a frame per second below
/// that of the output, but for a thousandth of a frame.
pub proof fn law_half_a_frame_is_forgiven(format: CaptureFormat, output_fps: u32)
    requires
        format.fps_denominator > 0,
    ensures
        ({
            let (num, den, fps) = (
                format.fps_numerator as int,
                format.fps_denominator as int,
                output_fps as int,
            );
            &&& 1000 * num >= (1000 * fps - 499) * den ==> crate::device::fast_enough(format, fps)
            &&& 1000 * num <= (1000 * fps - 501) * den ==> !crate::device::fast_enough(format, fps)
        }),
{
    let (num, den, fps) = (
        format.fps_numerator as int,
        format.fps_denominator as int,
        output_fps as int,
    );
    let (r, l) = (RATE_ONE as int, DOUBLE as int);
    let n = num * r;
    assert(0 <= n <= 0xffff_ffff * r) by (nonlinear_arith)
        requires
            n == num * r,
            0 <= num <= 0xffff_ffff,
            0 < r,
    ;
    let rate = format.rate_spec();
    crate::precision::lemma_nearest(n, den, l);
    crate::precision::lemma_nearest_error(n, den, l);
    assert(rate <= rate * den) by (nonlinear_arith)
        requires
            0 <= rate,
            1 <= den,
    ;
    // The rate is off by less than 2^-20 of a frame.
    let e = r / 0x10_0000;
    assert(n <= l * (r / 0x20_0000));
    assert(n - den * e <= rate * den <= n + den * e) by (nonlinear_arith)
        requires
            l * (rate * den) <= l * n + n + l * den,
            l * n <= l * (rate * den) + n + l * den,
            n <= l * (r / 0x20_0000),
            r / 0x20_0000 + 1 <= e,
            1 <= den,
            0 < l,
            0 <= r / 0x20_0000,
    {
        let t = r / 0x20_0000;
        assert(l * (rate * den - n) <= l * (t + den));
        assert(l * (n - rate * den) <= l * (t + den));
        assert(rate * den - n <= t + den);
        assert(n - rate * den <= t + den);
        assert(t + den <= den * (t + 1));
        assert(den * (t + 1) <= den * e);
    }
    let v = rate + r / 2;
    crate::precision::lemma_nearest_error(v, 1, l);
    let s = crate::precision::nearest(v, 1, l);
    assert(s * 1 == s && v <= l * (r / 0x4_0000));
    assert(v - r / 0x2_0000 <= s <= v + r / 0x2_0000);
    let (low, high) = ((1000 * fps - 499) * r, (1000 * fps - 501) * r);
    if 1000 * num >= (1000 * fps - 499) * den {
        assert(1000 * rate >= low - 1000 * e) by (nonlinear_arith)
            requires
                n - den * e <= rate * den,
                n == num * r,
                1000 * num >= (1000 * fps - 499) * den,
                low == (1000 * fps - 499) * r,
                0 < den,
                0 < r,
        {
            assert((1000 * num) * r >= ((1000 * fps - 499) * den) * r);
            assert(((1000 * fps - 499) * den) * r == low * den);
            assert((1000 * rate - low + 1000 * e) * den >= 0);
        }
        assert(low == 1000 * (fps * r) - 499 * r) by (nonlinear_arith)
            requires
                low == (1000 * fps - 499) * r,
        ;
    }
    if 1000 * num <= (1000 * fps - 501) * den {
        assert(1000 * rate <= high + 1000 * e) by (nonlinear_arith)
            requires
                rate * den <= n + den * e,
                n == num * r,
                1000 * num <= (1000 * fps - 501) * den,
                high == (1000 * fps - 501) * r,
                0 < den,
                0 < r,
        {
            assert((1000 * num) * r <= ((1000 * fps - 501) * den) * r);
            assert(((1000 * fps - 501) * den) * r == high * den);
            assert((high + 1000 * e - 1000 * rate) * den >= 0);
        }
        assert(high == 1000 * (fps * r) - 501 * r) by (nonlinear_arith)
            requires
                high == (1000 * fps - 501) * r,
        ;
    }
}

/// The virtual camera is known by its class in whatever case the link is written, and by
/// its name.
pub proof fn law_the_virtual_camera_is_known_in_any_case(
    name: Seq<char>,
    link: Seq<char>,
    other: Seq<char>,
)
    requires
        link.len() == other.len(),
        forall|i: int|
            0 <= i < link.len() ==> #[trigger] link[i] == other[i] || crate::device::ascii_lower(
                link[i],
            ) == crate::device::ascii_lower(other[i]),
    ensures
        crate::device::is_virtual(name, link) == crate::device::is_virtual(name, other),
        crate::device::is_virtual("ChromaFree"@, link),
{
    assert(crate::device::lowered(link) =~= crate::device::lowered(other));
}

} // verus!
