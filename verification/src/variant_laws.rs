//! Which model is picked for a frame, seen from outside.

use vstd::prelude::*;

use crate::frame::Dims;
use crate::variant::{ModelVariant, Skew};

verus! {

/// No model of a list has an aspect ratio that is closer to that of the frame than the
/// one that is picked, but for about a thousandth. How far apart two aspect ratios
/// lie is how much wider the wider of them is.
pub proof fn law_no_model_is_closer_in_shape(
    frame: Dims,
    available: Seq<ModelVariant>,
    i: int,
    j: int,
)
    requires
        frame.valid(),
        crate::variant::picked(frame, available, i),
        0 <= j < available.len(),
        available[j].width > 0,
        available[j].height > 0,
    ensures
        ({
            let (a, b) = (
                available[i].width * frame.height,
                available[i].height * frame.width,
            );
            let (c, d) = (
                available[j].width * frame.height,
                available[j].height * frame.width,
            );
            let (more, less) = if a >= b {
                (a, b)
            } else {
                (b, a)
            };
            let (other_more, other_less) = if c >= d {
                (c, d)
            } else {
                (d, c)
            };
            &&& available[i].width > 0
            &&& available[i].height > 0
            &&& 1_000_000 * (more * other_less) <= 1_001_001 * (other_more * less)
        }),
{
    let (w, h) = (frame.width, frame.height);
    lemma_products(available[i], frame);
    lemma_products(available[j], frame);
    assert(crate::variant::suits(frame, available, i));
    assert(available[j].skew_spec(frame) is Ratio);
    assert(crate::variant::has_ratio(frame, available));
    assert(crate::variant::about_as_close(
        available[i].skew_spec(frame),
        available[j].skew_spec(frame),
    ));
    if let (Skew::Ratio { num: n1, den: d1 }, Skew::Ratio { num: n2, den: d2 }) = (
        available[i].skew_spec(frame),
        available[j].skew_spec(frame),
    ) {
        let (x, y) = (n1 * d2, n2 * d1);
        assert(0 <= y) by (nonlinear_arith)
            requires
                y == n2 * d1,
                0 <= n2,
                0 <= d1,
        ;
    }
}

/// The products that aspect ratios are compared by can be counted.
proof fn lemma_products(variant: ModelVariant, frame: Dims)
    requires
        frame.valid(),
    ensures
        0 <= variant.width * frame.height <= u64::MAX,
        0 <= variant.height * frame.width <= u64::MAX,
{
    let (w, h, a, b) = (variant.width as int, variant.height as int, frame.width, frame.height);
    assert(0 <= w * b <= 0xffff_ffff * 0xffff_ffff && 0 <= h * a <= 0xffff_ffff * 0xffff_ffff)
        by (nonlinear_arith)
        requires
            0 <= w <= 0xffff_ffff,
            0 <= h <= 0xffff_ffff,
            0 <= a <= 0xffff_ffff,
            0 <= b <= 0xffff_ffff,
    ;
}

/// The models of a list, each on its side.
pub open spec fn on_their_side(available: Seq<ModelVariant>) -> Seq<ModelVariant> {
    Seq::new(
        available.len(),
        |i: int| ModelVariant { width: available[i].height, height: available[i].width },
    )
}

/// A frame on its side gets the same model as the frame, on its side.
pub proof fn law_a_turned_frame_gets_the_turned_model(
    frame: Dims,
    available: Seq<ModelVariant>,
    i: int,
)
    requires
        frame.valid(),
    ensures
        crate::variant::picked(frame, available, i) == crate::variant::picked(
            Dims { width: frame.height, height: frame.width },
            on_their_side(available),
            i,
        ),
{
    lemma_turned(frame, available);
    let side = Dims { width: frame.height, height: frame.width };
    let turned = on_their_side(available);
    if 0 <= i < available.len() {
        assert(crate::variant::suits(side, turned, i) == crate::variant::suits(frame, available, i));
        assert(turned[i].fits(side) == available[i].fits(frame));
        assert forall|j: int| 0 <= j < available.len() implies #[trigger] crate::variant::suits(
            frame,
            available,
            j,
        ) == crate::variant::suits(side, turned, j) && turned[j].pixel_count()
            == available[j].pixel_count() && turned[j].fits(side) == available[j].fits(frame) by {
            assert(turned[j].fits(side) == available[j].fits(frame));
        }
        assert forall|j: int| 0 <= j < available.len() implies turned[j].pixel_count()
            == available[j].pixel_count() && turned[j].fits(side) == available[j].fits(frame)
            && #[trigger] crate::variant::suits(side, turned, j) == crate::variant::suits(
            frame,
            available,
            j,
        ) by {
            assert(turned[j].fits(side) == available[j].fits(frame));
        }
    }
}

/// A model and a frame that are both turned compare as before.
proof fn lemma_turned(frame: Dims, available: Seq<ModelVariant>)
    ensures
        ({
            let side = Dims { width: frame.height, height: frame.width };
            let turned = on_their_side(available);
            &&& turned.len() == available.len()
            &&& forall|i: int|
                0 <= i < available.len() ==> {
                    &&& (#[trigger] turned[i]).skew_spec(side) == available[i].skew_spec(frame)
                    &&& turned[i].pixel_count() == available[i].pixel_count()
                    &&& turned[i].fits(side) == available[i].fits(frame)
                }
            &&& crate::variant::has_ratio(side, turned) == crate::variant::has_ratio(
                frame,
                available,
            )
            &&& forall|i: int|
                0 <= i < available.len() ==> #[trigger] crate::variant::suits(side, turned, i)
                    == crate::variant::suits(frame, available, i)
            &&& crate::variant::some_fits(side, turned) == crate::variant::some_fits(
                frame,
                available,
            )
        }),
{
    let side = Dims { width: frame.height, height: frame.width };
    let turned = on_their_side(available);
    assert forall|i: int| 0 <= i < available.len() implies {
        &&& (#[trigger] turned[i]).skew_spec(side) == available[i].skew_spec(frame)
        &&& turned[i].pixel_count() == available[i].pixel_count()
        &&& turned[i].fits(side) == available[i].fits(frame)
    } by {
        assert(turned[i].width * turned[i].height == available[i].width * available[i].height)
            by (nonlinear_arith)
            requires
                turned[i].width == available[i].height,
                turned[i].height == available[i].width,
        ;
    }
    if crate::variant::has_ratio(frame, available) {
        let i = choose|i: int|
            0 <= i < available.len() && (#[trigger] available[i]).skew_spec(frame) is Ratio;
        assert(turned[i].skew_spec(side) is Ratio);
    }
    if crate::variant::has_ratio(side, turned) {
        let i = choose|i: int|
            0 <= i < turned.len() && (#[trigger] turned[i]).skew_spec(side) is Ratio;
        assert(available[i].skew_spec(frame) is Ratio);
    }
    assert forall|i: int| 0 <= i < available.len() implies #[trigger] crate::variant::suits(
        side,
        turned,
        i,
    ) == crate::variant::suits(frame, available, i) by {
        if crate::variant::suits(frame, available, i) && crate::variant::has_ratio(
            frame,
            available,
        ) {
            assert forall|j: int|
                0 <= j < turned.len() && (#[trigger] turned[j]).skew_spec(side) is Ratio implies
                crate::variant::about_as_close(
                turned[i].skew_spec(side),
                turned[j].skew_spec(side),
            ) by {
                assert(available[j].skew_spec(frame) is Ratio);
            }
        }
        if crate::variant::suits(side, turned, i) && crate::variant::has_ratio(frame, available) {
            assert forall|j: int|
                0 <= j < available.len() && (#[trigger] available[j]).skew_spec(frame) is Ratio
                implies crate::variant::about_as_close(
                available[i].skew_spec(frame),
                available[j].skew_spec(frame),
            ) by {
                assert(turned[j].skew_spec(side) is Ratio);
            }
        }
    }
    if crate::variant::some_fits(frame, available) {
        let i = choose|i: int|
            0 <= i < available.len() && #[trigger] crate::variant::suits(frame, available, i)
                && available[i].fits(frame);
        assert(crate::variant::suits(side, turned, i) && turned[i].fits(side));
    }
    if crate::variant::some_fits(side, turned) {
        let i = choose|i: int|
            0 <= i < turned.len() && #[trigger] crate::variant::suits(side, turned, i)
                && turned[i].fits(side);
        assert(crate::variant::suits(frame, available, i) && available[i].fits(frame));
    }
}

} // verus!
