//! What the masks of a refiner show.

use vstd::prelude::*;

use crate::frame::Dims;
use crate::mask::{MaskParams, Refining, MAX_SMOOTHING};
use crate::precision::ONE;
use crate::scale::ScaleMode;

verus! {

/// Both masks come from the same smoothed and shaped opacity: where every cell is
/// shaped to one value, every byte of both masks has that value.
pub proof fn law_both_masks_show_one_opacity(refiner: Refining, alpha: Seq<u8>, value: u8)
    requires
        refiner.valid(),
        alpha.len() == refiner.history.len(),
        forall|i: int| 0 <= i < alpha.len() ==> #[trigger] refiner.shaped(alpha)[i] == value,
    ensures
        refiner.luma(alpha) == Seq::new(refiner.output.area() as nat, |i: int| value),
        refiner.chroma(alpha) == Seq::new(refiner.output.chroma_area() as nat, |i: int| value),
{
    let (w, h) = (refiner.model_width, refiner.model_height);
    let out = refiner.output;
    let shaped = refiner.shaped(alpha);
    crate::frame::lemma_chroma_is_half(out);
    let luma = crate::scale::sampling(w, h, out.width, out.height, 1, ScaleMode::Stretch);
    let chroma = crate::scale::sampling(
        w,
        h,
        out.chroma_width(),
        out.chroma_height(),
        1,
        ScaleMode::Stretch,
    );
    crate::scale::lemma_sampling_valid(w, h, out.width, out.height, 1, ScaleMode::Stretch);
    crate::scale::lemma_sampling_valid(
        w,
        h,
        out.chroma_width(),
        out.chroma_height(),
        1,
        ScaleMode::Stretch,
    );
    assert forall|i: int| 0 <= i < shaped.len() implies #[trigger] shaped[i] == seq![value][i
        % 1] by {
        assert(shaped[i] == refiner.shaped(alpha)[i]);
    }
    crate::scale::law_uniform_planes_stay_uniform(luma, shaped, seq![value]);
    crate::scale::law_uniform_planes_stay_uniform(chroma, shaped, seq![value]);
    assert(refiner.luma(alpha) =~= Seq::new(out.area() as nat, |i: int| value));
    assert(refiner.chroma(alpha) =~= Seq::new(out.chroma_area() as nat, |i: int| value));
}

/// Where every opacity lies at or below the lower threshold, both masks of the first
/// frame cover nothing, and where every one lies at or above the upper threshold, both
/// cover everything.
pub proof fn law_the_thresholds_hold_for_both_masks(
    refiner: Refining,
    params: MaskParams,
    alpha: Seq<u8>,
)
    requires
        refiner.valid(),
        alpha.len() == refiner.history.len(),
        params.edge_low < ONE,
    ensures
        ({
            let first = refiner.with_params(params).forgotten();
            let (low, high) = (params.edge_low as int, params.edge_high as int);
            let (luma, chroma) = (refiner.output.area(), refiner.output.chroma_area());
            &&& (forall|i: int| 0 <= i < alpha.len() ==> crate::mask::opacity(#[trigger] alpha[i] as int) <= low)
                ==> first.luma(alpha) == Seq::new(luma as nat, |i: int| 0u8) && first.chroma(alpha)
                == Seq::new(chroma as nat, |i: int| 0u8)
            &&& (forall|i: int|
                0 <= i < alpha.len() ==> crate::mask::opacity(#[trigger] alpha[i] as int) >= crate::mask::upper_threshold(
                    low,
                    high,
                )) ==> first.luma(alpha) == Seq::new(luma as nat, |i: int| 255u8) && first.chroma(
                alpha,
            ) == Seq::new(chroma as nat, |i: int| 255u8)
        }),
{
    let first = refiner.with_params(params).forgotten();
    let (low, high) = (params.edge_low as int, params.edge_high as int);
    lemma_weight(params.temporal_smoothing as int);
    assert(first.valid());
    if forall|i: int| 0 <= i < alpha.len() ==> crate::mask::opacity(#[trigger] alpha[i] as int) <= low {
        assert forall|i: int| 0 <= i < alpha.len() implies #[trigger] first.shaped(alpha)[i]
            == 0u8 by {
            crate::mask::law_edges_harden_outside_thresholds(low, high, alpha[i] as int);
        }
        law_both_masks_show_one_opacity(first, alpha, 0);
    }
    if forall|i: int|
        0 <= i < alpha.len() ==> crate::mask::opacity(#[trigger] alpha[i] as int) >= crate::mask::upper_threshold(low, high) {
        assert forall|i: int| 0 <= i < alpha.len() implies #[trigger] first.shaped(alpha)[i]
            == 255u8 by {
            crate::mask::law_edges_harden_outside_thresholds(low, high, alpha[i] as int);
        }
        law_both_masks_show_one_opacity(first, alpha, 255);
    }
}

proof fn lemma_weight(temporal_smoothing: int)
    requires
        0 <= temporal_smoothing,
    ensures
        0 <= crate::mask::history_weight(temporal_smoothing) <= 251,
{
    let one: int = 0x1000_0000_0000_0000;
    let limited = if temporal_smoothing > MAX_SMOOTHING {
        MAX_SMOOTHING as int
    } else {
        temporal_smoothing
    };
    vstd::arithmetic::div_mod::lemma_fundamental_div_mod(512 * limited + one, 2 * one);
    assert(crate::mask::history_weight(temporal_smoothing) == (512 * limited + one) / (2 * one));
}

/// The history counts with the share that is asked for, up to 98 hundredths: in 256ths
/// to the nearest.
pub proof fn law_the_history_counts_with_its_share(refiner: Refining, params: MaskParams)
    ensures
        ({
            let share = if params.temporal_smoothing < MAX_SMOOTHING {
                params.temporal_smoothing
            } else {
                MAX_SMOOTHING
            };
            let weight = refiner.with_params(params).weight;
            &&& -ONE <= 2 * (weight * ONE - 256 * share) <= ONE
            &&& 100 * MAX_SMOOTHING <= 99 * ONE
            &&& 97 * ONE <= 100 * MAX_SMOOTHING
        }),
{
}

/// What is remembered of a cell is, to within rounding, the mean of what was remembered
/// and of the new opacity, by the weight of the history; at first it is the opacity.
/// The cell is shaped by what is remembered, rounded to a byte.
pub proof fn law_cells_are_shaped_by_what_is_remembered(refiner: Refining, alpha: Seq<u8>, i: int)
    requires
        refiner.valid(),
        alpha.len() == refiner.history.len(),
        0 <= i < alpha.len(),
    ensures
        ({
            let (before, after) = (refiner.history[i], refiner.after(alpha).history[i]);
            let weight = if refiner.has_history {
                refiner.weight
            } else {
                0
            };
            let sum = before * weight + alpha[i] * 256 * (256 - weight);
            let byte = (after + 128) / 256;
            &&& sum - 256 < 256 * after <= sum
            &&& refiner.after(alpha).has_history
            &&& refiner.shaped(alpha)[i] == refiner.edges[if byte < 255 {
                byte
            } else {
                255
            }]
        }),
{
    let (h, a, k) = (refiner.history[i] as int, alpha[i] * 256, refiner.weight);
    crate::mask::lemma_smoothing_fits(h, a, k);
    crate::mask::lemma_smoothing_fits(h, a, 0);
    assert(h * 0 == 0);
}

/// Both masks show at each place what lies there among the cells: cells one or more
/// away from the place of a pixel, or of a chroma sample, have no part in its opacity.
pub proof fn law_masks_show_what_lies_there(
    refiner: Refining,
    alpha: Seq<u8>,
    other: Seq<u8>,
    column: int,
    row: int,
)
    requires
        refiner.valid(),
        alpha.len() == refiner.history.len(),
        other.len() == refiner.history.len(),
        0 <= column,
        0 <= row,
    ensures
        column < refiner.output.width && row < refiner.output.height && cells_agree(
            refiner,
            alpha,
            other,
            refiner.output.width,
            refiner.output.height,
            column,
            row,
        ) ==> refiner.luma(alpha)[row * refiner.output.width + column] == refiner.luma(other)[row
            * refiner.output.width + column],
        column < refiner.output.width / 2 && row < refiner.output.height / 2 && cells_agree(
            refiner,
            alpha,
            other,
            refiner.output.width / 2,
            refiner.output.height / 2,
            column,
            row,
        ) ==> refiner.chroma(alpha)[row * (refiner.output.width / 2) + column] == refiner.chroma(
            other,
        )[row * (refiner.output.width / 2) + column],
{
    let out = refiner.output;
    if column < out.width && row < out.height && cells_agree(
        refiner,
        alpha,
        other,
        out.width,
        out.height,
        column,
        row,
    ) {
        lemma_mask_in_place(refiner, alpha, other, out.width, out.height, column, row);
    }
    if column < out.width / 2 && row < out.height / 2 && cells_agree(
        refiner,
        alpha,
        other,
        out.width / 2,
        out.height / 2,
        column,
        row,
    ) {
        lemma_mask_in_place(refiner, alpha, other, out.width / 2, out.height / 2, column, row);
    }
}

/// Two rows of opacities are shaped alike near a place of a mask.
pub open spec fn cells_agree(
    refiner: Refining,
    alpha: Seq<u8>,
    other: Seq<u8>,
    width: int,
    height: int,
    column: int,
    row: int,
) -> bool {
    let (w, h) = (refiner.model_width, refiner.model_height);
    forall|x: int, y: int|
        #![trigger crate::geometry::near(column, x, w, width, w, 1), crate::geometry::near(row, y, h, height, h, 1)]
        0 <= x < w && 0 <= y < h && crate::geometry::near(column, x, w, width, w, 1)
            && crate::geometry::near(row, y, h, height, h, 1) ==> refiner.shaped(alpha)[y * w + x]
            == refiner.shaped(other)[y * w + x]
}

proof fn lemma_mask_in_place(
    refiner: Refining,
    alpha: Seq<u8>,
    other: Seq<u8>,
    width: int,
    height: int,
    column: int,
    row: int,
)
    requires
        refiner.valid(),
        0 < width <= u32::MAX,
        0 < height <= u32::MAX,
        0 <= column < width,
        0 <= row < height,
        cells_agree(refiner, alpha, other, width, height, column, row),
    ensures
        ({
            let s = crate::scale::sampling(
                refiner.model_width,
                refiner.model_height,
                width,
                height,
                1,
                ScaleMode::Stretch,
            );
            let at = row * width + column;
            s.scaled(refiner.shaped(alpha))[at] == s.scaled(refiner.shaped(other))[at]
        }),
{
    let (w, h) = (refiner.model_width, refiner.model_height);
    let (a, b) = (refiner.shaped(alpha), refiner.shaped(other));
    assert forall|x: int, y: int|
        #![trigger crate::geometry::near(column, x, w, width, w, 1), crate::geometry::near(row, y, h, height, h, 1)]
        0 <= x < w && 0 <= y < h && crate::geometry::near(column, x, w, width, w, 1)
            && crate::geometry::near(row, y, h, height, h, 1) implies a[(y * w + x) * 1 + 0] == b[(y
        * w + x) * 1 + 0] by {
        assert(refiner.shaped(alpha)[y * w + x] == refiner.shaped(other)[y * w + x]);
    }
    crate::geometry::law_scaled_planes_show_what_lies_there(
        Dims { width: w, height: h },
        Dims { width, height },
        1,
        ScaleMode::Stretch,
        a,
        b,
        column,
        row,
        0,
    );
}

/// Both masks rise evenly where the shaped opacity of the cells does, over the whole of the
/// output: chroma has the opacity that luma has at the same place.
pub proof fn law_both_masks_rise_evenly(
    refiner: Refining,
    alpha: Seq<u8>,
    base: int,
    slopes: (int, int),
    column: int,
    row: int,
)
    requires
        refiner.valid(),
        0 <= column,
        0 <= row,
        forall|x: int, y: int|
            0 <= x < refiner.model_width && 0 <= y < refiner.model_height
                ==> #[trigger] refiner.shaped(alpha)[y * refiner.model_width + x] == base
                + slopes.0 * x + slopes.1 * y,
    ensures
        ({
            let (w, h) = (refiner.model_width, refiner.model_height);
            let (luma_width, luma_height) = (refiner.output.width, refiner.output.height);
            let (width, height) = (luma_width / 2, luma_height / 2);
            &&& column < luma_width && row < luma_height ==> crate::gradient_laws::on_the_gradient(
                refiner.luma(alpha)[row * luma_width + column],
                base,
                slopes,
                (
                    crate::gradient_laws::spot(column, w, luma_width, w, 1),
                    crate::gradient_laws::spot(row, h, luma_height, h, 1),
                ),
                (2 * (luma_width * 1), 2 * (luma_height * 1)),
            )
            &&& column < width && row < height ==> crate::gradient_laws::on_the_gradient(
                refiner.chroma(alpha)[row * width + column],
                base,
                slopes,
                (
                    crate::gradient_laws::spot(column, w, width, w, 1),
                    crate::gradient_laws::spot(row, h, height, h, 1),
                ),
                (2 * (width * 1), 2 * (height * 1)),
            )
        }),
{
    let (w, h) = (refiner.model_width, refiner.model_height);
    let source = Dims { width: w, height: h };
    let shaped = refiner.shaped(alpha);
    let out = refiner.output;
    assert forall|x: int, y: int| 0 <= x < w && 0 <= y < h implies #[trigger] shaped[(y * w + x) * 1
        + 0] == base + slopes.0 * x + slopes.1 * y by {
        assert(shaped[y * w + x] == base + slopes.0 * x + slopes.1 * y);
    }
    if column < out.width && row < out.height {
        crate::gradient_laws::law_gradients_stay_gradients(
            source,
            out,
            1,
            ScaleMode::Stretch,
            shaped,
            column,
            row,
            0,
            base,
            slopes,
        );
    }
    if column < out.width / 2 && row < out.height / 2 {
        crate::gradient_laws::law_gradients_stay_gradients(
            source,
            Dims { width: out.width / 2, height: out.height / 2 },
            1,
            ScaleMode::Stretch,
            shaped,
            column,
            row,
            0,
            base,
            slopes,
        );
    }
}

} // verus!
