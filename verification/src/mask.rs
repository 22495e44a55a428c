//! Turning a model's opacity into masks for the luma and the chroma plane.

use vstd::prelude::*;

use crate::error::CoreError;
use crate::frame::{Dims, FrameSize};
use crate::precision::{round_to_digits, ONE, SINGLE};
use crate::scale::{PlaneScaler, ScaleMode};

verus! {

/// The greatest share of the history that is kept: 0.98 in single precision.
pub const MAX_SMOOTHING: u64 = 0xFAE_1480_0000_0000;

/// The distance of the number after one from one, in single precision.
pub const EPSILON: u64 = 0x20_0000_0000;

/// How a mask is treated. The numbers are of single precision, in units of 2^-60.
#[derive(Clone, Copy, Debug, PartialEq, Eq, Structural)]
pub struct MaskParams {
    /// The share of the earlier masks in the next one.
    pub temporal_smoothing: u64,
    /// Opacity up to here counts as none.
    pub edge_low: u64,
    /// Opacity from here on counts as full.
    pub edge_high: u64,
}

impl MaskParams {
    /// For models that remember earlier frames themselves.
    pub open spec fn for_recurrent_models() -> MaskParams {
        MaskParams { temporal_smoothing: 0, edge_low: 0, edge_high: ONE }
    }

    /// For models that see one frame at a time.
    pub open spec fn for_memoryless_models() -> MaskParams {
        MaskParams {
            temporal_smoothing: 0x999_99A0_0000_0000,
            edge_low: 0x4CC_CCD0_0000_0000,
            edge_high: 0xB33_3330_0000_0000,
        }
    }

    /// For models that remember earlier frames themselves.
    pub fn recurrent_model() -> (params: Self)
        ensures
            params == Self::for_recurrent_models(),
    {
        MaskParams { temporal_smoothing: 0, edge_low: 0, edge_high: ONE }
    }

    /// For models that see one frame at a time.
    pub fn memoryless_model() -> (params: Self)
        ensures
            params == Self::for_memoryless_models(),
    {
        MaskParams {
            temporal_smoothing: 0x999_99A0_0000_0000,
            edge_low: 0x4CC_CCD0_0000_0000,
            edge_high: 0xB33_3330_0000_0000,
        }
    }
}

impl Default for MaskParams {
    fn default() -> (params: Self)
        ensures
            params == MaskParams::for_recurrent_models(),
    {
        Self::recurrent_model()
    }
}

/// The share of the history in 256ths, rounded to the nearest.
pub open spec fn history_weight(temporal_smoothing: int) -> int {
    let limited = if temporal_smoothing > MAX_SMOOTHING {
        MAX_SMOOTHING as int
    } else {
        temporal_smoothing
    };
    (512 * limited + ONE) / (2 * ONE as int)
}

/// A byte of opacity as a share of 255.
pub open spec fn opacity(byte: int) -> int {
    crate::precision::nearest(byte * ONE, 255, SINGLE as int)
}

/// The upper threshold: not below the first number after the lower one, and not
/// above one.
pub open spec fn upper_threshold(low: int, high: int) -> int {
    let least = crate::precision::nearest(low + EPSILON, 1, SINGLE as int);
    let raised = if high < least {
        least
    } else {
        high
    };
    if raised > ONE {
        ONE as int
    } else {
        raised
    }
}

/// How far an opacity byte lies between two thresholds, from none to one.
pub open spec fn between(low: int, high: int, byte: int) -> int {
    let single = SINGLE as int;
    if opacity(byte) < low {
        0
    } else {
        let above = crate::precision::nearest(opacity(byte) - low, 1, single);
        let span = crate::precision::nearest(upper_threshold(low, high) - low, 1, single);
        let part = crate::precision::nearest(above * ONE, span, single);
        if part > ONE {
            ONE as int
        } else {
            part
        }
    }
}

/// The smooth step `t * t * (3 - 2 * t)`.
pub open spec fn smooth_step(t: int) -> int {
    let single = SINGLE as int;
    crate::precision::nearest(
        crate::precision::nearest(t * t, ONE as int, single) * crate::precision::nearest(
            3 * ONE - 2 * t,
            1,
            single,
        ),
        ONE as int,
        single,
    )
}

/// The opacity that a byte of opacity is shaped to: none up to the lower
/// threshold, full from the upper one on, and a smooth step of 255 in between,
/// rounded to the nearest. Every step of it is computed in single precision. A
/// lower threshold of one lets nothing through.
pub open spec fn shaped_edge(low: int, high: int, byte: int) -> int {
    if low >= ONE {
        0
    } else {
        let scaled = crate::precision::nearest(
            smooth_step(between(low, high, byte)) * 255,
            1,
            SINGLE as int,
        );
        let rounded = (scaled + ONE / 2) / (ONE as int);
        if rounded > 255 {
            255
        } else {
            rounded
        }
    }
}

/// The shaped opacity of every byte.
pub open spec fn edge_table(low: int, high: int) -> Seq<u8> {
    Seq::new(256, |i: int| shaped_edge(low, high, i) as u8)
}

/// What a refiner remembers and how it works.
#[verifier::ext_equal]
pub struct Refining {
    pub model_width: int,
    pub model_height: int,
    pub output: Dims,
    pub weight: int,
    pub edges: Seq<u8>,
    pub history: Seq<u16>,
    pub has_history: bool,
}

impl Refining {
    pub open spec fn valid(self) -> bool {
        &&& 0 < self.model_width <= u32::MAX
        &&& 0 < self.model_height <= u32::MAX
        &&& self.model_width * self.model_height <= usize::MAX
        &&& self.output.valid()
        &&& self.output.addressable(1)
        &&& 0 <= self.weight <= 251
        &&& self.edges.len() == 256
        &&& self.history.len() == self.model_width * self.model_height
    }

    /// The same refiner with other parameters.
    pub open spec fn with_params(self, params: MaskParams) -> Refining {
        Refining {
            weight: history_weight(params.temporal_smoothing as int),
            edges: edge_table(params.edge_low as int, params.edge_high as int),
            ..self
        }
    }

    /// An opacity in 256ths of a byte, smoothed over time.
    pub open spec fn smoothed(self, alpha: Seq<u8>, i: int) -> int {
        if self.has_history && self.weight > 0 {
            (self.history[i] * self.weight + alpha[i] * 256 * (256 - self.weight)) / 256
        } else {
            alpha[i] * 256
        }
    }

    /// The shaped opacity of each cell.
    pub open spec fn shaped(self, alpha: Seq<u8>) -> Seq<u8> {
        Seq::new(
            alpha.len(),
            |i: int|
                {
                    let rounded = (self.smoothed(alpha, i) + 128) / 256;
                    self.edges[if rounded > 255 {
                        255
                    } else {
                        rounded
                    }]
                },
        )
    }

    /// The refiner after a mask.
    pub open spec fn after(self, alpha: Seq<u8>) -> Refining {
        Refining {
            history: Seq::new(alpha.len(), |i: int| self.smoothed(alpha, i) as u16),
            has_history: true,
            ..self
        }
    }

    /// The refiner without its history.
    pub open spec fn forgotten(self) -> Refining {
        Refining { has_history: false, ..self }
    }

    /// The mask of the luma plane.
    pub open spec fn luma(self, alpha: Seq<u8>) -> Seq<u8> {
        crate::scale::sampling(
            self.model_width,
            self.model_height,
            self.output.width,
            self.output.height,
            1,
            ScaleMode::Stretch,
        ).scaled(self.shaped(alpha))
    }

    /// The mask of the chroma plane.
    pub open spec fn chroma(self, alpha: Seq<u8>) -> Seq<u8> {
        crate::scale::sampling(
            self.model_width,
            self.model_height,
            self.output.chroma_width(),
            self.output.chroma_height(),
            1,
            ScaleMode::Stretch,
        ).scaled(self.shaped(alpha))
    }
}

/// A mask for each plane.
pub struct RefinedMask<'a> {
    pub luma: &'a [u8],
    pub chroma: &'a [u8],
}

pub struct MaskRefiner {
    model_width: u32,
    model_height: u32,
    output: FrameSize,
    smoothing_weight: u32,
    edge_lookup: Vec<u8>,
    history: Vec<u16>,
    has_history: bool,
    luma_scaler: PlaneScaler,
    chroma_scaler: PlaneScaler,
    luma: Vec<u8>,
    chroma: Vec<u8>,
}

impl View for MaskRefiner {
    type V = Refining;

    closed spec fn view(&self) -> Refining {
        Refining {
            model_width: self.model_width as int,
            model_height: self.model_height as int,
            output: self.output@,
            weight: self.smoothing_weight as int,
            edges: self.edge_lookup@,
            history: self.history@,
            has_history: self.has_history,
        }
    }
}

/// The thresholds lie apart.
proof fn lemma_span(low: int, high: int)
    requires
        0 <= low < ONE,
        0 <= high,
    ensures
        low < upper_threshold(low, high) <= ONE,
        0 < crate::precision::nearest(upper_threshold(low, high) - low, 1, SINGLE as int) <= 2
            * ONE,
{
    let single = SINGLE as int;
    let least = crate::precision::nearest(low + EPSILON, 1, single);
    crate::precision::lemma_nearest_near(low + EPSILON, 1, single);
    assert(least > low) by (nonlinear_arith)
        requires
            single == 0x100_0000,
            single * (low + EPSILON) <= single * (least * 1) + (low + EPSILON),
            EPSILON == 0x20_0000_0000,
            low < 0x1000_0000_0000_0000,
    ;
    let gap = upper_threshold(low, high) - low;
    crate::precision::lemma_nearest(gap, 1, single);
    crate::precision::lemma_nearest_half(gap, 1, single);
}

fn edge_value(low: u64, high: u64, byte: u8) -> (value: u8)
    ensures
        value == shaped_edge(low as int, high as int, byte as int),
{
    if low >= ONE {
        return 0;
    }
    proof {
        lemma_span(low as int, high as int);
    }
    let t: u128 = edge_part(low, high, byte);
    proof {
        assert(t * t <= 0x1000_0000_0000_0000 * 0x1000_0000_0000_0000) by (nonlinear_arith)
            requires
                0 <= t <= 0x1000_0000_0000_0000,
        ;
    }
    let square: u128 = round_to_digits(t * t, ONE as u128, SINGLE);
    let rest: u128 = round_to_digits(3 * ONE as u128 - 2 * t, 1, SINGLE);
    proof {
        assert(square <= 2 * ONE) by (nonlinear_arith)
            requires
                square * 0x1000_0000_0000_0000 <= 2 * (t * t),
                t * t <= 0x1000_0000_0000_0000 * 0x1000_0000_0000_0000,
        ;
        assert(square * rest <= (2 * ONE) * (6 * ONE)) by (nonlinear_arith)
            requires
                0 <= square <= 2 * ONE,
                0 <= rest <= 6 * ONE,
        ;
    }
    let product: u128 = square * rest;
    let step: u128 = round_to_digits(product, ONE as u128, SINGLE);
    proof {
        assert(step <= 24 * ONE) by (nonlinear_arith)
            requires
                step * ONE <= 2 * product,
                product <= (2 * ONE) * (6 * ONE),
                ONE == 0x1000_0000_0000_0000,
        ;
    }
    let scaled: u128 = round_to_digits(step * 255, 1, SINGLE);
    let rounded: u128 = (scaled + (ONE / 2) as u128) / ONE as u128;
    if rounded > 255 {
        255
    } else {
        rounded as u8
    }
}

fn edge_part(low: u64, high: u64, byte: u8) -> (part: u128)
    requires
        low < ONE,
    ensures
        part == between(low as int, high as int, byte as int),
        part <= ONE,
{
    proof {
        lemma_span(low as int, high as int);
    }
    let opacity: u128 = round_to_digits(byte as u128 * ONE as u128, 255, SINGLE);
    if opacity < low as u128 {
        return 0;
    }
    let least: u128 = round_to_digits(low as u128 + EPSILON as u128, 1, SINGLE);
    let raised: u128 = if (high as u128) < least {
        least
    } else {
        high as u128
    };
    let top: u128 = if raised > ONE as u128 {
        ONE as u128
    } else {
        raised
    };
    let above: u128 = round_to_digits(opacity - low as u128, 1, SINGLE);
    let span: u128 = round_to_digits(top - low as u128, 1, SINGLE);
    let part: u128 = round_to_digits(above * ONE as u128, span, SINGLE);
    if part > ONE as u128 {
        ONE as u128
    } else {
        part
    }
}

fn edge_lookup(low: u64, high: u64) -> (table: Vec<u8>)
    ensures
        table@ == edge_table(low as int, high as int),
{
    let mut table: Vec<u8> = Vec::with_capacity(256);
    for i in 0..256u32
        invariant
            table@.len() == i,
            forall|j: int|
                0 <= j < i ==> #[trigger] table@[j] == shaped_edge(low as int, high as int, j)
                    as u8,
    {
        table.push(edge_value(low, high, i as u8));
    }
    proof {
        assert(table@ =~= edge_table(low as int, high as int));
    }
    table
}

impl MaskRefiner {
    pub closed spec fn wf(&self) -> bool {
        let size = self.output@;
        &&& self@.valid()
        &&& self.luma_scaler.wf()
        &&& self.luma_scaler@ == crate::scale::sampling(
            self.model_width as int,
            self.model_height as int,
            size.width,
            size.height,
            1,
            ScaleMode::Stretch,
        )
        &&& self.chroma_scaler.wf()
        &&& self.chroma_scaler@ == crate::scale::sampling(
            self.model_width as int,
            self.model_height as int,
            size.chroma_width(),
            size.chroma_height(),
            1,
            ScaleMode::Stretch,
        )
        &&& self.luma@.len() == size.area()
        &&& self.chroma@.len() == size.chroma_area()
    }

    /// What a well-formed refiner remembers is valid.
    pub proof fn lemma_wf(&self)
        requires
            self.wf(),
        ensures
            self@.valid(),
    {
    }

    pub fn new(model_width: u32, model_height: u32, output: FrameSize, params: MaskParams) -> (
        refiner: Self)
        requires
            0 < model_width,
            0 < model_height,
            model_width * model_height <= usize::MAX,
            output@.addressable(1),
        ensures
            refiner.wf(),
            refiner@ == (Refining {
                model_width: model_width as int,
                model_height: model_height as int,
                output: output@,
                weight: history_weight(params.temporal_smoothing as int),
                edges: edge_table(params.edge_low as int, params.edge_high as int),
                history: Seq::new((model_width * model_height) as nat, |i: int| 0u16),
                has_history: false,
            }),
    {
        proof {
            crate::arith::lemma_product_nonnegative(model_width as int, model_height as int);
        }
        let model_pixels: usize = model_width as usize * model_height as usize;
        let luma_len: usize = output.luma_len();
        let chroma_len: usize = output.chroma_len() / 2;
        let refiner = MaskRefiner {
            model_width,
            model_height,
            output,
            smoothing_weight: smoothing_weight(params.temporal_smoothing),
            edge_lookup: edge_lookup(params.edge_low, params.edge_high),
            history: vec![0; model_pixels],
            has_history: false,
            luma_scaler: PlaneScaler::new(
                model_width,
                model_height,
                output.width(),
                output.height(),
                1,
                ScaleMode::Stretch,
            ),
            chroma_scaler: PlaneScaler::new(
                model_width,
                model_height,
                output.chroma_width(),
                output.chroma_height(),
                1,
                ScaleMode::Stretch,
            ),
            luma: vec![0; luma_len],
            chroma: vec![0; chroma_len],
        };
        proof {
            assert(refiner.history@ =~= Seq::new(
                (model_width * model_height) as nat,
                |i: int| 0u16,
            ));
        }
        refiner
    }

    pub fn output(&self) -> (size: FrameSize)
        ensures
            size@ == self@.output,
    {
        self.output
    }

    pub fn model_dimensions(&self) -> (dimensions: (u32, u32))
        ensures
            dimensions.0 == self@.model_width,
            dimensions.1 == self@.model_height,
    {
        (self.model_width, self.model_height)
    }

    /// Changes the parameters and keeps the history.
    pub fn set_params(&mut self, params: MaskParams)
        requires
            old(self).wf(),
        ensures
            final(self).wf(),
            final(self)@ == old(self)@.with_params(params),
    {
        self.smoothing_weight = smoothing_weight(params.temporal_smoothing);
        self.edge_lookup = edge_lookup(params.edge_low, params.edge_high);
    }

    /// Forgets the earlier masks.
    pub fn reset(&mut self)
        requires
            old(self).wf(),
        ensures
            final(self).wf(),
            final(self)@ == old(self)@.forgotten(),
    {
        self.has_history = false;
    }

    /// Makes the masks of the next frame out of the opacity of each of the
    /// model's cells.
    pub fn refine<'a>(&'a mut self, alpha: &[u8]) -> (result: Result<RefinedMask<'a>, CoreError>)
        requires
            old(self).wf(),
        ensures
            final(self).wf(),
            match result {
                Ok(mask) => {
                    &&& alpha@.len() == old(self)@.history.len()
                    &&& mask.luma@ == old(self)@.luma(alpha@)
                    &&& mask.chroma@ == old(self)@.chroma(alpha@)
                    &&& mask.luma@.len() == old(self)@.output.area()
                    &&& mask.chroma@.len() == old(self)@.output.chroma_area()
                    &&& final(self)@ == old(self)@.after(alpha@)
                },
                Err(error) => {
                    &&& alpha@.len() != old(self)@.history.len()
                    &&& error == (CoreError::PlaneSizeMismatch {
                        expected: old(self)@.history.len() as usize,
                        actual: alpha@.len() as usize,
                    })
                    &&& final(self)@ == old(self)@
                },
            },
    {
        if alpha.len() != self.history.len() {
            return Err(
                CoreError::PlaneSizeMismatch { expected: self.history.len(), actual: alpha.len() },
            );
        }
        let ghost before = self@;
        let shaped: Vec<u8> = self.take_over(alpha);
        proof {
            let size = before.output;
            crate::frame::lemma_chroma_is_half(size);
        }
        let _ = self.luma_scaler.scale(shaped.as_slice(), self.luma.as_mut_slice());
        let _ = self.chroma_scaler.scale(shaped.as_slice(), self.chroma.as_mut_slice());
        Ok(RefinedMask { luma: self.luma.as_slice(), chroma: self.chroma.as_slice() })
    }

    /// Updates the history and returns the shaped opacity of each cell.
    fn take_over(&mut self, alpha: &[u8]) -> (shaped: Vec<u8>)
        requires
            old(self).wf(),
            alpha@.len() == old(self)@.history.len(),
        ensures
            final(self).wf(),
            final(self)@ == old(self)@.after(alpha@),
            shaped@ == old(self)@.shaped(alpha@),
    {
        let ghost before = self@;
        let keep: u32 = self.smoothing_weight;
        let take: u32 = 256 - keep;
        let blend_history: bool = self.has_history && keep > 0;
        let mut shaped: Vec<u8> = Vec::with_capacity(alpha.len());
        let mut history: Vec<u16> = Vec::with_capacity(alpha.len());
        let mut i: usize = 0;
        while i < alpha.len()
            invariant
                self.wf(),
                self@ == before,
                before.valid(),
                alpha@.len() == before.history.len(),
                keep == before.weight,
                take == 256 - keep,
                blend_history == (before.has_history && keep > 0),
                i <= alpha@.len(),
                shaped@.len() == i,
                history@.len() == i,
                forall|j: int|
                    0 <= j < i ==> #[trigger] shaped@[j] == before.shaped(alpha@)[j],
                forall|j: int|
                    0 <= j < i ==> #[trigger] history@[j] == before.after(alpha@).history[j],
            decreases alpha@.len() - i,
        {
            let current: u32 = alpha[i] as u32 * 256;
            let old: u32 = self.history[i] as u32;
            proof {
                lemma_smoothing_fits(old as int, current as int, keep as int);
            }
            let smoothed: u32 = if blend_history {
                (old * keep + current * take) / 256
            } else {
                current
            };
            assert(smoothed == before.smoothed(alpha@, i as int));
            history.push(smoothed as u16);
            let rounded: u32 = (smoothed + 128) / 256;
            let index: usize = if rounded > 255 {
                255
            } else {
                rounded as usize
            };
            shaped.push(self.edge_lookup[index]);
            i = i + 1;
        }
        self.history = history;
        self.has_history = true;
        proof {
            assert(shaped@ =~= before.shaped(alpha@));
            assert(self.history@ =~= before.after(alpha@).history);
        }
        shaped
    }
}

pub proof fn lemma_smoothing_fits(old: int, current: int, keep: int)
    by (nonlinear_arith)
    requires
        0 <= old <= 65_535,
        0 <= current <= 65_280,
        0 <= keep <= 256,
    ensures
        0 <= old * keep <= 65_535 * 256,
        0 <= current * (256 - keep) <= 65_535 * 256,
        0 <= old * keep + current * (256 - keep) <= 65_535 * 256,
{
}

fn smoothing_weight(temporal_smoothing: u64) -> (weight: u32)
    ensures
        weight == history_weight(temporal_smoothing as int),
        weight <= 251,
{
    let limited: u64 = if temporal_smoothing > MAX_SMOOTHING {
        MAX_SMOOTHING
    } else {
        temporal_smoothing
    };
    ((512 * limited as u128 + ONE as u128) / (2 * ONE as u128)) as u32
}

/// A refiner that was told to forget gives what a refiner without any history
/// gives, and remembers the same afterwards.
pub proof fn law_reset_forgets_the_history(first: Refining, second: Refining, alpha: Seq<u8>)
    requires
        first.valid(),
        second.valid(),
        first.forgotten() == (Refining { history: first.history, ..second.forgotten() }),
        alpha.len() == first.history.len(),
        alpha.len() == second.history.len(),
    ensures
        first.forgotten().shaped(alpha) == second.forgotten().shaped(alpha),
        first.forgotten().luma(alpha) == second.forgotten().luma(alpha),
        first.forgotten().chroma(alpha) == second.forgotten().chroma(alpha),
        first.forgotten().after(alpha) == second.forgotten().after(alpha),
{
    assert(first.forgotten().shaped(alpha) =~= second.forgotten().shaped(alpha));
    assert(first.forgotten().after(alpha) =~= second.forgotten().after(alpha));
}

/// Without smoothing a mask depends on its own frame alone.
pub proof fn law_no_smoothing_means_no_memory(refiner: Refining, alpha: Seq<u8>)
    requires
        refiner.valid(),
        refiner.weight == 0,
        alpha.len() == refiner.history.len(),
    ensures
        refiner.shaped(alpha) == refiner.forgotten().shaped(alpha),
        forall|i: int| 0 <= i < alpha.len() ==> refiner.shaped(alpha)[i]
            == refiner.edges[#[trigger] alpha[i] as int],
{
    assert(refiner.shaped(alpha) =~= refiner.forgotten().shaped(alpha));
}

/// Smoothing moves from the earlier opacity towards the new one and never past
/// either.
pub proof fn law_smoothing_moves_gradually(refiner: Refining, alpha: Seq<u8>, i: int)
    requires
        refiner.valid(),
        refiner.has_history,
        refiner.weight > 0,
        alpha.len() == refiner.history.len(),
        0 <= i < alpha.len(),
    ensures
        refiner.history[i] <= alpha[i] * 256 ==> refiner.history[i] <= refiner.smoothed(alpha, i)
            <= alpha[i] * 256,
        alpha[i] * 256 <= refiner.history[i] ==> alpha[i] * 256 <= refiner.smoothed(alpha, i)
            <= refiner.history[i],
{
    let (h, a, k) = (refiner.history[i] as int, alpha[i] * 256, refiner.weight);
    let sum = h * k + a * (256 - k);
    assert(h <= a ==> 256 * h <= sum <= 256 * a) by (nonlinear_arith)
        requires
            sum == h * k + a * (256 - k),
            0 <= k <= 256,
    ;
    assert(a <= h ==> 256 * a <= sum <= 256 * h) by (nonlinear_arith)
        requires
            sum == h * k + a * (256 - k),
            0 <= k <= 256,
    ;
}

/// Opacity outside the thresholds is hardened to none or to full.
pub proof fn law_edges_harden_outside_thresholds(low: int, high: int, byte: int)
    requires
        0 <= low < ONE,
        0 <= high,
        0 <= byte <= 255,
    ensures
        0 <= shaped_edge(low, high, byte) <= 255,
        opacity(byte) <= low ==> shaped_edge(low, high, byte) == 0,
        opacity(byte) >= upper_threshold(low, high) ==> shaped_edge(low, high, byte) == 255,
{
    let single = SINGLE as int;
    lemma_span(low, high);
    vstd::arithmetic::power2::lemma2_to64_rest();
    let t = between(low, high, byte);
    lemma_between(low, high, byte);
    let square = crate::precision::nearest(t * t, ONE as int, single);
    let rest = crate::precision::nearest(3 * ONE - 2 * t, 1, single);
    assert(0 <= t * t) by (nonlinear_arith);
    crate::precision::lemma_nearest(t * t, ONE as int, single);
    crate::precision::lemma_nearest(3 * ONE - 2 * t, 1, single);
    assert(0 <= square * rest) by (nonlinear_arith)
        requires
            0 <= square,
            0 <= rest,
    ;
    crate::precision::lemma_nearest(square * rest, ONE as int, single);
    crate::precision::lemma_nearest(smooth_step(t) * 255, 1, single);
    if opacity(byte) <= low {
        assert(t == 0) by {
            if opacity(byte) == low {
                let span = crate::precision::nearest(upper_threshold(low, high) - low, 1, single);
                crate::precision::lemma_nearest_exact(0, 1, single);
                crate::precision::lemma_nearest_exact(0, span, single);
                assert(0 * span == 0);
            }
        }
        crate::precision::lemma_nearest_exact(0, ONE as int, single);
        crate::precision::lemma_nearest_exact(0, 1, single);
        assert(0 * rest == 0);
    }
    if opacity(byte) >= upper_threshold(low, high) {
        let top = upper_threshold(low, high);
        let above = crate::precision::nearest(opacity(byte) - low, 1, single);
        let span = crate::precision::nearest(top - low, 1, single);
        crate::precision::lemma_nearest_order(top - low, 1, opacity(byte) - low, 1, single);
        crate::precision::lemma_nearest_kept(1, 60, span, single);
        assert(ONE * span <= above * ONE) by (nonlinear_arith)
            requires
                0 < span <= above,
        ;
        assert((ONE * span) * span <= (above * ONE) * span) by (nonlinear_arith)
            requires
                0 < span,
                ONE * span <= above * ONE,
        ;
        crate::precision::lemma_nearest_order(ONE * span, span, above * ONE, span, single);
        assert(t == ONE);
        crate::precision::lemma_nearest_kept(1, 60, ONE as int, single);
        crate::precision::lemma_nearest_kept(1, 60, 1, single);
        crate::precision::lemma_nearest_kept(255, 60, 1, single);
        assert(smooth_step(t) == ONE);
    }
}

proof fn lemma_between(low: int, high: int, byte: int)
    requires
        0 <= low < ONE,
        0 <= high,
        0 <= byte <= 255,
    ensures
        0 <= between(low, high, byte) <= ONE,
{
    let single = SINGLE as int;
    lemma_span(low, high);
    crate::precision::lemma_nearest(byte * ONE, 255, single);
    if opacity(byte) >= low {
        let above = crate::precision::nearest(opacity(byte) - low, 1, single);
        let span = crate::precision::nearest(upper_threshold(low, high) - low, 1, single);
        crate::precision::lemma_nearest(opacity(byte) - low, 1, single);
        crate::precision::lemma_nearest(above * ONE, span, single);
    }
}

/// A rounded smooth step lies close to the exact one.
proof fn lemma_step_error(t: int)
    requires
        0 <= t <= ONE,
    ensures
        ({
            let one = ONE as int;
            let exact = t * t * (3 * one - 2 * t);
            let step = smooth_step(t) * (one * one);
            &&& step <= exact + 0x100_0000_0000 * (one * one)
            &&& exact <= step + 0x100_0000_0000 * (one * one)
        }),
{
    let (one, single) = (ONE as int, SINGLE as int);
    let (tt, free) = (t * t, 3 * one - 2 * t);
    let q = crate::precision::nearest(tt, one, single);
    let r = crate::precision::nearest(free, 1, single);
    let s = crate::precision::nearest(q * r, one, single);
    // One part in 2^24 of one.
    let part: int = 0x10_0000_0000;
    assert(0 <= tt <= one * one && one * one == part * (single * one)) by (nonlinear_arith)
        requires
            tt == t * t,
            0 <= t <= one,
            one == 0x1000_0000_0000_0000,
            single == 0x100_0000,
            part == 0x10_0000_0000,
    ;
    crate::precision::lemma_nearest(tt, one, single);
    crate::precision::lemma_nearest(free, 1, single);
    crate::precision::lemma_nearest_error(tt, one, single);
    crate::precision::lemma_nearest_error(free, 1, single);
    assert(q * one <= tt + part * one + one && tt <= q * one + part * one + one)
        by (nonlinear_arith)
        requires
            single * (q * one) <= single * tt + tt + single * one,
            single * tt <= single * (q * one) + tt + single * one,
            tt <= part * (single * one),
            0 < single,
    ;
    assert(r <= free + 3 * part + 1 && free <= r + 3 * part + 1) by (nonlinear_arith)
        requires
            single * (r * 1) <= single * free + free + single * 1,
            single * free <= single * (r * 1) + free + single * 1,
            free <= 3 * one,
            one == part * single,
            0 < single,
    ;
    assert(q <= one + part + 1) by (nonlinear_arith)
        requires
            q * one <= tt + part * one + one,
            tt <= one * one,
            0 < one,
    ;
    assert(0 <= q * r <= 4 * (one * one)) by (nonlinear_arith)
        requires
            0 <= q <= one + part + 1,
            0 <= r <= 3 * one + 3 * part + 1,
            one == 0x1000_0000_0000_0000,
            part == 0x10_0000_0000,
    ;
    crate::precision::lemma_nearest_error(q * r, one, single);
    let product = q * r;
    assert(s * one <= product + (4 * part + 1) * one && product <= s * one + (4 * part + 1) * one)
        by (nonlinear_arith)
        requires
            single * (s * one) <= single * product + product + single * one,
            single * product <= single * (s * one) + product + single * one,
            product <= 4 * (one * one),
            one == part * single,
            0 < single,
    ;
    let exact = t * t * (3 * one - 2 * t);
    assert(exact == tt * free);
    // What the square's and the factor's rounding do to the product.
    assert(product * one == (q * one) * r) by (nonlinear_arith)
        requires
            product == q * r,
    ;
    let (e, f) = (q * one - tt, r - free);
    assert((q * one) * r == exact + e * r + tt * f) by (nonlinear_arith)
        requires
            exact == tt * free,
            e == q * one - tt,
            f == r - free,
    ;
    let wide = (part + 1) * one;
    assert(-(4 * one * wide) <= e * r <= 4 * one * wide) by (nonlinear_arith)
        requires
            -wide <= e <= wide,
            0 <= r <= 4 * one,
            0 <= wide,
    ;
    let gap = 3 * part + 1;
    assert(-(one * one * gap) <= tt * f <= one * one * gap) by (nonlinear_arith)
        requires
            0 <= tt <= one * one,
            -gap <= f <= gap,
            0 <= gap,
    ;
    let area = one * one;
    assert(4 * one * wide == 4 * (part + 1) * area) by (nonlinear_arith)
        requires
            wide == (part + 1) * one,
            area == one * one,
    ;
    assert(s * area == (s * one) * one && ((4 * part + 1) * one) * one == (4 * part + 1) * area)
        by (nonlinear_arith)
        requires
            area == one * one,
    ;
    assert((s * one) * one <= (product + (4 * part + 1) * one) * one && product * one <= (s * one
        + (4 * part + 1) * one) * one) by (nonlinear_arith)
        requires
            s * one <= product + (4 * part + 1) * one,
            product <= s * one + (4 * part + 1) * one,
            0 < one,
    ;
    assert((product + (4 * part + 1) * one) * one == product * one + ((4 * part + 1) * one) * one
        && (s * one + (4 * part + 1) * one) * one == (s * one) * one + ((4 * part + 1) * one) * one)
        by (nonlinear_arith);
    assert((4 * part + 1) * area + 4 * (part + 1) * area + area * gap <= 0x100_0000_0000 * area)
        by (nonlinear_arith)
        requires
            part == 0x10_0000_0000,
            gap == 3 * part + 1,
            0 <= area,
    ;
}

/// The smooth step of numbers that lie well apart keeps their order.
proof fn lemma_step_order(first: int, second: int)
    requires
        0 <= first,
        first + 0x8_0000_0000_0000 <= second <= ONE,
    ensures
        smooth_step(first) <= smooth_step(second),
{
    let one = ONE as int;
    let rise = second - first;
    let (m, n) = (first * first * (3 * one - 2 * first), second * second * (3 * one - 2 * second));
    lemma_step_error(first);
    lemma_step_error(second);
    assert(n - m == rise * (6 * (first * (one - second)) + rise * (3 * one - 2 * rise)))
        by (nonlinear_arith)
        requires
            rise == second - first,
            m == first * first * (3 * one - 2 * first),
            n == second * second * (3 * one - 2 * second),
    ;
    assert(0 <= first * (one - second)) by (nonlinear_arith)
        requires
            0 <= first,
            second <= one,
    ;
    assert(rise * one <= rise * (3 * one - 2 * rise)) by (nonlinear_arith)
        requires
            0 <= rise <= one,
    ;
    let slope = 6 * (first * (one - second)) + rise * (3 * one - 2 * rise);
    let area = one * one;
    assert(0x200_0000_0000 * area <= rise * slope) by (nonlinear_arith)
        requires
            0x8_0000_0000_0000 <= rise,
            rise * one <= slope,
            one == 0x1000_0000_0000_0000,
            area == one * one,
    {
        assert(rise * (rise * one) <= rise * slope);
        assert(0x8_0000_0000_0000 * 0x8_0000_0000_0000 <= rise * rise);
        assert((rise * rise) * one == rise * (rise * one));
    }
    let (a, b) = (smooth_step(first), smooth_step(second));
    assert(a <= b) by (nonlinear_arith)
        requires
            a * area <= b * area,
            0 < area,
    ;
}

/// Two opacity bytes lie well apart between the thresholds.
proof fn lemma_parts_apart(low: int, high: int, first: int, second: int)
    requires
        0 <= low < ONE,
        0 <= high,
        0 <= first < second <= 255,
        low <= opacity(first),
        between(low, high, second) < ONE,
    ensures
        between(low, high, first) + 0x8_0000_0000_0000 <= between(low, high, second),
{
    let (one, single) = (ONE as int, SINGLE as int);
    let part: int = 0x10_0000_0000;
    let (a, b) = (opacity(first), opacity(second));
    assert(0 <= first * one && first * one + one <= second * one <= 255 * one)
        by (nonlinear_arith)
        requires
            0 <= first,
            first + 1 <= second <= 255,
            0 < one,
    ;
    crate::precision::lemma_nearest_order(first * one, 255, second * one, 255, single);
    crate::precision::lemma_nearest_error(first * one, 255, single);
    crate::precision::lemma_nearest_error(second * one, 255, single);
    crate::precision::lemma_nearest_order(second * one, 255, 255 * one, 255, single);
    vstd::arithmetic::power2::lemma2_to64_rest();
    crate::precision::lemma_nearest_kept(1, 60, 255, single);
    assert(b <= one);
    assert(255 * a + one <= 255 * b + 510 * part + 510);
    let (c, d) = (
        crate::precision::nearest(a - low, 1, single),
        crate::precision::nearest(b - low, 1, single),
    );
    crate::precision::lemma_nearest_error(a - low, 1, single);
    crate::precision::lemma_nearest_error(b - low, 1, single);
    assert(c <= a - low + part + 1 && b - low <= d + part + 1);
    lemma_span(low, high);
    let gap = upper_threshold(low, high) - low;
    let span = crate::precision::nearest(gap, 1, single);
    crate::precision::lemma_nearest_order(gap, 1, one, 1, single);
    crate::precision::lemma_nearest_kept(1, 60, 1, single);
    assert(0 < span <= one);
    crate::precision::lemma_nearest(a - low, 1, single);
    crate::precision::lemma_nearest(b - low, 1, single);
    let (m, n) = (
        crate::precision::nearest(c * one, span, single),
        crate::precision::nearest(d * one, span, single),
    );
    let (cc, dd) = (c * one, d * one);
    assert(0 <= cc && 0 <= dd && cc <= dd) by (nonlinear_arith)
        requires
            0 <= c <= d,
            cc == c * one,
            dd == d * one,
            0 < one,
    ;
    assert(cc * span <= dd * span) by (nonlinear_arith)
        requires
            cc <= dd,
            0 < span,
    ;
    crate::precision::lemma_nearest_order(cc, span, dd, span, single);
    crate::precision::lemma_nearest(cc, span, single);
    crate::precision::lemma_nearest_error(cc, span, single);
    crate::precision::lemma_nearest_error(dd, span, single);
    assert(n < one && between(low, high, second) == n && between(low, high, first) == m);
    // An unclamped part is less than one, so what it was divided from is little more
    // than the span.
    let (mm, nn) = (m * span, n * span);
    assert(nn <= one * span) by (nonlinear_arith)
        requires
            n < one,
            0 < span,
            nn == n * span,
    ;
    assert(dd <= 3 * (one * span)) by (nonlinear_arith)
        requires
            single * dd <= single * nn + dd + single * span,
            nn <= one * span,
            0 < span,
            single == 0x100_0000,
            one == 0x1000_0000_0000_0000,
    ;
    assert(one * span == single * (part * span)) by (nonlinear_arith)
        requires
            one == single * part,
    ;
    assert(mm <= cc + 3 * (part * span) + span && dd <= nn + 3 * (part * span) + span);
    let wide = c + 0x8_0000_0000_0000 + 6 * part + 2;
    assert(wide <= d);
    assert(wide * one <= dd) by (nonlinear_arith)
        requires
            wide <= d,
            dd == d * one,
            0 < one,
    ;
    let far = 0x8_0000_0000_0000 + 6 * part + 2;
    assert(wide * one == cc + far * one && far * span <= far * one) by (nonlinear_arith)
        requires
            wide == c + far,
            cc == c * one,
            0 < span <= one,
            0 <= far,
    ;
    assert(far * span == 0x8_0000_0000_0000 * span + 6 * (part * span) + 2 * span)
        by (nonlinear_arith)
        requires
            far == 0x8_0000_0000_0000 + 6 * part + 2,
    ;
    assert(m + 0x8_0000_0000_0000 <= n) by (nonlinear_arith)
        requires
            mm + 0x8_0000_0000_0000 * span <= nn,
            mm == m * span,
            nn == n * span,
            0 < span,
    ;
}

/// Shaping keeps the order of opacities.
pub proof fn law_edges_keep_the_order(low: int, high: int, first: int, second: int)
    requires
        0 <= low,
        0 <= high,
        0 <= first <= second <= 255,
    ensures
        shaped_edge(low, high, first) <= shaped_edge(low, high, second),
{
    let (one, single) = (ONE as int, SINGLE as int);
    if low < one && first < second {
        law_edges_harden_outside_thresholds(low, high, first);
        law_edges_harden_outside_thresholds(low, high, second);
        lemma_between(low, high, first);
        lemma_between(low, high, second);
        if between(low, high, second) == one {
            vstd::arithmetic::power2::lemma2_to64_rest();
            crate::precision::lemma_nearest_kept(1, 60, one, single);
            crate::precision::lemma_nearest_kept(1, 60, 1, single);
            crate::precision::lemma_nearest_kept(255, 60, 1, single);
            assert(smooth_step(one) == one);
        } else if opacity(first) >= low {
            lemma_parts_apart(low, high, first, second);
            let (m, n) = (between(low, high, first), between(low, high, second));
            lemma_step_order(m, n);
            lemma_smooth_step(m);
            crate::precision::lemma_nearest_order(
                smooth_step(m) * 255,
                1,
                smooth_step(n) * 255,
                1,
                single,
            );
        }
    }
}

proof fn lemma_smooth_step(t: int)
    requires
        0 <= t <= ONE,
    ensures
        0 <= smooth_step(t),
{
    let (one, single) = (ONE as int, SINGLE as int);
    assert(0 <= t * t) by (nonlinear_arith);
    crate::precision::lemma_nearest(t * t, one, single);
    crate::precision::lemma_nearest(3 * one - 2 * t, 1, single);
    let square = crate::precision::nearest(t * t, one, single);
    let rest = crate::precision::nearest(3 * one - 2 * t, 1, single);
    assert(0 <= square * rest) by (nonlinear_arith)
        requires
            0 <= square,
            0 <= rest,
    ;
    crate::precision::lemma_nearest(square * rest, one, single);
}

} // verus!
