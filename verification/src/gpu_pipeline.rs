//! The pipeline on the graphics card: what is kept between frames, and which
//! shaders run for a frame.

use std::sync::Arc;

use vstd::prelude::*;

use crate::background::RgbImage;
use crate::blur::{shrink, BlurStrength, Grid, LEAST_FRACTION};
use crate::color::{ColorMatrix, Rgb};
use crate::frame::{copy_bytes, Bgra, BgraFrame, Dims, FrameSize, Nv12, Nv12Frame};
use crate::gpu::{
    constants,
    groups,
    orientation_map,
    AffineMap,
    Buffer,
    Constant,
    Element,
    GpuError,
    Launch,
    Pass,
    Shader,
    COMPOSITE_BLUR,
    COMPOSITE_COLOR,
    COMPOSITE_IMAGE,
    COMPOSITE_PASSTHROUGH,
};
use crate::mask::{MaskParams, MAX_SMOOTHING};
use crate::pipeline::{
    same_picture,
    share,
    BackgroundEffect,
    OutputFormat,
    PipelineSettings,
    SegmentationMethod,
};
use crate::precision::ONE;
use crate::variant::VariantPreference;

verus! {

/// What a model on the card was loaded for.
#[derive(Clone, Copy, Debug, PartialEq, Eq, Structural)]
pub struct GpuModelKey {
    pub method: SegmentationMethod,
    pub variant: VariantPreference,
    pub frame: FrameSize,
}

/// A model on the card.
#[derive(Debug, PartialEq, Eq)]
pub struct GpuModel {
    pub key: GpuModelKey,
    pub name: String,
    pub size: FrameSize,
}

impl GpuModel {
    /// The elements of the model's input and output.
    pub open spec fn element_spec(self) -> Element {
        match self.key.method {
            SegmentationMethod::Rvm => Element::Half,
            SegmentationMethod::MediaPipe => Element::Float,
        }
    }

    pub fn input_element(&self) -> (element: Element)
        ensures
            element == self.element_spec(),
    {
        match self.key.method {
            SegmentationMethod::Rvm => Element::Half,
            SegmentationMethod::MediaPipe => Element::Float,
        }
    }

    /// Whether the model remembers earlier frames.
    pub fn is_recurrent(&self) -> (recurrent: bool)
        ensures
            recurrent == (self.key.method is Rvm),
    {
        match self.key.method {
            SegmentationMethod::Rvm => true,
            SegmentationMethod::MediaPipe => false,
        }
    }
}

/// The buffers of a mask.
#[derive(Clone, Copy, Debug, PartialEq, Eq, Structural)]
pub struct MaskBuffers {
    pub size: FrameSize,
    pub history_valid: bool,
}

/// The buffers of a blur: one for each halving of the half-sized frame, and one
/// for the fractional step.
#[derive(Debug, PartialEq, Eq)]
pub struct BlurChain {
    pub strength: BlurStrength,
    pub levels: Vec<Grid>,
    pub fractional: Option<Grid>,
}

/// How often the half-sized frame is halved.
pub open spec fn chain_count(output: Dims, strength: BlurStrength) -> nat {
    crate::blur::level_count(
        output.chroma_width(),
        output.chroma_height(),
        ((strength.levels() - ONE) / ONE as int) as nat,
    )
}

/// The half-sized frame and its halvings.
pub open spec fn chain_levels(output: Dims, strength: BlurStrength) -> Seq<Grid> {
    Seq::new(
        chain_count(output, strength) + 1,
        |i: int|
            Grid {
                width: crate::blur::halvings(output.chroma_width(), i as nat) as u32,
                height: crate::blur::halvings(output.chroma_height(), i as nat) as u32,
            },
    )
}

impl BlurChain {
    /// The chain is the one for an output: as deep as the processor's blur of
    /// the chroma plane.
    pub open spec fn fits(self, output: Dims) -> bool {
        &&& self.strength.wf()
        &&& self.strength == self.strength.limited()
        &&& self.levels@ == chain_levels(output, self.strength)
        &&& self.fractional == crate::blur::fractional_step(
            output.chroma_width(),
            output.chroma_height(),
            self.strength.levels() - ONE,
            self.strength.factor as int,
        )
    }

    fn new(output: FrameSize, strength: BlurStrength) -> (chain: Self)
        requires
            strength.wf(),
        ensures
            chain.strength == strength.limited(),
            chain.fits(output@),
    {
        let strength = strength.clamped();
        let levels: u64 = strength.luma_levels() - ONE;
        let depth: u32 = (levels / ONE) as u32;
        let (cw, ch): (u32, u32) = (output.chroma_width(), output.chroma_height());
        let mut list: Vec<Grid> = Vec::new();
        list.push(Grid { width: cw, height: ch });
        let mut w: u32 = cw;
        let mut h: u32 = ch;
        let mut left: u32 = depth;
        let ghost total = crate::blur::level_count(cw as int, ch as int, depth as nat);
        while left > 0 && w >= 4 && h >= 4
            invariant
                0 < w <= cw,
                0 < h <= ch,
                left <= depth,
                list@.len() == depth - left + 1,
                w == crate::blur::halvings(cw as int, (list@.len() - 1) as nat),
                h == crate::blur::halvings(ch as int, (list@.len() - 1) as nat),
                total == list@.len() - 1 + crate::blur::level_count(
                    w as int,
                    h as int,
                    left as nat,
                ),
                forall|i: int|
                    0 <= i < list@.len() ==> #[trigger] list@[i] == (Grid {
                        width: crate::blur::halvings(cw as int, i as nat) as u32,
                        height: crate::blur::halvings(ch as int, i as nat) as u32,
                    }),
            decreases left,
        {
            w = w / 2 + w % 2;
            h = h / 2 + h % 2;
            list.push(Grid { width: w, height: h });
            left = left - 1;
        }
        assert(crate::blur::level_count(w as int, h as int, left as nat) == 0);
        let (frac_w, frac_h): (u32, u32) = (
            shrink(w, strength.factor),
            shrink(h, strength.factor),
        );
        let fractional: Option<Grid> = if left == 0 && levels % ONE > LEAST_FRACTION && (frac_w
            != w || frac_h != h) {
            Some(Grid { width: frac_w, height: frac_h })
        } else {
            None
        };
        proof {
            assert(list@ =~= chain_levels(output@, strength));
        }
        BlurChain { strength, levels: list, fractional }
    }
}

/// A blur from one buffer to another.
pub open spec fn blur_launch(
    shader: Shader,
    source: (Buffer, u32, u32),
    target: (Buffer, u32, u32),
    output: Dims,
) -> Launch {
    Launch {
        shader,
        constants: crate::gpu::filled(
            seq![
                Constant::Number(source.1),
                Constant::Number(source.2),
                Constant::Number(target.1),
                Constant::Number(target.2),
                Constant::Number(output.width as u32),
                Constant::Number(output.height as u32),
            ],
        ),
        shader_resource: Buffer::PlaceholderUpload,
        unordered: (source.0, target.0, Buffer::Placeholder, Buffer::Placeholder),
        groups: crate::gpu::groups_for(target.1 as int, target.2 as int),
    }
}

fn blur_pass(
    shader: Shader,
    source: (Buffer, u32, u32),
    target: (Buffer, u32, u32),
    output: FrameSize,
) -> (pass: Pass)
    ensures
        pass@ == blur_launch(shader, source, target, output@),
{
    let values: Vec<Constant> = vec![
        Constant::Number(source.1),
        Constant::Number(source.2),
        Constant::Number(target.1),
        Constant::Number(target.2),
        Constant::Number(output.width()),
        Constant::Number(output.height()),
    ];
    proof {
        assert(values@ =~= seq![
            Constant::Number(source.1),
            Constant::Number(source.2),
            Constant::Number(target.1),
            Constant::Number(target.2),
            Constant::Number(output@.width as u32),
            Constant::Number(output@.height as u32),
        ]);
    }
    Pass {
        shader,
        constants: constants(values),
        shader_resource: Buffer::PlaceholderUpload,
        unordered: (source.0, target.0, Buffer::Placeholder, Buffer::Placeholder),
        groups: groups(target.1, target.2),
    }
}

/// A level of a chain, as it stands or as it is being smoothed.
pub open spec fn level(levels: Seq<Grid>, i: int, smooth: bool) -> (Buffer, u32, u32) {
    (
        if smooth {
            Buffer::BlurScratch(i as usize)
        } else {
            Buffer::BlurData(i as usize)
        },
        levels[i].width,
        levels[i].height,
    )
}

/// The way down: each level is halved to the next.
pub open spec fn way_down(levels: Seq<Grid>, output: Dims) -> Seq<Launch> {
    Seq::new(
        (levels.len() - 1) as nat,
        |i: int|
            blur_launch(
                Shader::BlurDownsample,
                level(levels, i, false),
                level(levels, i + 1, false),
                output,
            ),
    )
}

/// The fractional step below the deepest level, where there is one.
pub open spec fn fractional_way(
    levels: Seq<Grid>,
    fractional: Option<Grid>,
    output: Dims,
) -> Seq<Launch> {
    let deepest = level(levels, levels.len() - 1, false);
    match fractional {
        Some(grid) => {
            let data = (Buffer::FractionalData, grid.width, grid.height);
            let scratch = (Buffer::FractionalScratch, grid.width, grid.height);
            seq![
                blur_launch(Shader::BlurResize, deepest, data, output),
                blur_launch(Shader::BlurTent, data, scratch, output),
                blur_launch(Shader::BlurResize, scratch, deepest, output),
            ]
        },
        None => Seq::empty(),
    }
}

/// The way up: each level is stretched to the one above it, which is then
/// smoothed.
pub open spec fn way_up(levels: Seq<Grid>, output: Dims) -> Seq<Launch> {
    Seq::new(
        (2 * (levels.len() - 1)) as nat,
        |k: int|
            {
                let parent = levels.len() - 2 - k / 2;
                if k % 2 == 0 {
                    blur_launch(
                        Shader::BlurResize,
                        level(levels, parent + 1, true),
                        level(levels, parent, false),
                        output,
                    )
                } else {
                    blur_launch(
                        Shader::BlurTent,
                        level(levels, parent, false),
                        level(levels, parent, true),
                        output,
                    )
                }
            },
    )
}

/// All runs of a blur.
pub open spec fn blur_way(chain: BlurChain, output: Dims) -> Seq<Launch> {
    let levels = chain.levels@;
    let (width, height) = (output.width as u32, output.height as u32);
    let deepest = levels.len() - 1;
    seq![
        blur_launch(
            Shader::BlurToHalf,
            (Buffer::Frame, width, height),
            level(levels, 0, false),
            output,
        ),
    ] + way_down(levels, output) + fractional_way(levels, chain.fractional, output) + seq![
        blur_launch(
            Shader::BlurTent,
            level(levels, deepest, false),
            level(levels, deepest, true),
            output,
        ),
    ] + way_up(levels, output) + seq![
        blur_launch(
            Shader::BlurFromHalf,
            level(levels, 0, true),
            (Buffer::BlurBackground, width, height),
            output,
        ),
    ]
}

fn data_at(levels: &Vec<Grid>, i: usize) -> (place: (Buffer, u32, u32))
    requires
        i < levels@.len(),
    ensures
        place == level(levels@, i as int, false),
{
    (Buffer::BlurData(i), levels[i].width, levels[i].height)
}

fn scratch_at(levels: &Vec<Grid>, i: usize) -> (place: (Buffer, u32, u32))
    requires
        i < levels@.len(),
    ensures
        place == level(levels@, i as int, true),
{
    (Buffer::BlurScratch(i), levels[i].width, levels[i].height)
}

impl BlurChain {
    /// The runs that blur the frame into the background.
    pub fn passes(&self, output: FrameSize) -> (passes: Vec<Pass>)
        requires
            self.levels@.len() > 0,
        ensures
            crate::gpu::launches(passes@) == blur_way(*self, output@),
    {
        let levels = &self.levels;
        let (width, height): (u32, u32) = (output.width(), output.height());
        let mut passes: Vec<Pass> = Vec::new();
        passes.push(
            blur_pass(
                Shader::BlurToHalf,
                (Buffer::Frame, width, height),
                data_at(levels, 0),
                output,
            ),
        );
        let mut i: usize = 0;
        while i < levels.len() - 1
            invariant
                *levels == self.levels,
                i < levels@.len(),
                passes@.len() == i + 1,
                passes@[0]@ == blur_launch(
                    Shader::BlurToHalf,
                    (Buffer::Frame, width, height),
                    level(levels@, 0, false),
                    output@,
                ),
                forall|j: int|
                    1 <= j <= i ==> (#[trigger] passes@[j])@ == blur_launch(
                        Shader::BlurDownsample,
                        level(levels@, j - 1, false),
                        level(levels@, j, false),
                        output@,
                    ),
            decreases levels@.len() - i,
        {
            passes.push(
                blur_pass(
                    Shader::BlurDownsample,
                    data_at(levels, i),
                    data_at(levels, i + 1),
                    output,
                ),
            );
            i = i + 1;
        }
        let ghost start = seq![
            blur_launch(
                Shader::BlurToHalf,
                (Buffer::Frame, width, height),
                level(levels@, 0, false),
                output@,
            ),
        ] + way_down(levels@, output@);
        proof {
            assert(crate::gpu::launches(passes@) =~= start);
        }
        let deepest: usize = levels.len() - 1;
        if let Some(grid) = self.fractional {
            let data = (Buffer::FractionalData, grid.width, grid.height);
            let scratch = (Buffer::FractionalScratch, grid.width, grid.height);
            passes.push(blur_pass(Shader::BlurResize, data_at(levels, deepest), data, output));
            passes.push(blur_pass(Shader::BlurTent, data, scratch, output));
            passes.push(blur_pass(Shader::BlurResize, scratch, data_at(levels, deepest), output));
        }
        let ghost middle = start + fractional_way(levels@, self.fractional, output@);
        proof {
            assert(crate::gpu::launches(passes@) =~= middle);
        }
        passes.push(
            blur_pass(
                Shader::BlurTent,
                data_at(levels, deepest),
                scratch_at(levels, deepest),
                output,
            ),
        );
        let ghost below = middle.push(
            blur_launch(
                Shader::BlurTent,
                level(levels@, deepest as int, false),
                level(levels@, deepest as int, true),
                output@,
            ),
        );
        proof {
            assert(crate::gpu::launches(passes@) =~= below);
        }
        let ghost up = way_up(levels@, output@);
        let mut index: usize = deepest;
        proof {
            assert(up.take(0) =~= Seq::<Launch>::empty());
            assert(below + up.take(0) =~= below);
        }
        while index > 0
            invariant
                *levels == self.levels,
                deepest == levels@.len() - 1,
                index <= deepest,
                up == way_up(levels@, output@),
                crate::gpu::launches(passes@) == below + up.take(2 * (deepest - index)),
            decreases index,
        {
            let ghost done = 2 * (deepest - index);
            let ghost before = passes@;
            passes.push(
                blur_pass(
                    Shader::BlurResize,
                    scratch_at(levels, index),
                    data_at(levels, index - 1),
                    output,
                ),
            );
            passes.push(
                blur_pass(
                    Shader::BlurTent,
                    data_at(levels, index - 1),
                    scratch_at(levels, index - 1),
                    output,
                ),
            );
            proof {
                assert(done / 2 == deepest - index && done % 2 == 0);
                assert((done + 1) / 2 == deepest - index && (done + 1) % 2 == 1);
                assert(passes@[before.len() as int]@ == up[done]);
                assert(passes@[before.len() as int + 1]@ == up[done + 1]);
                assert(crate::gpu::launches(passes@) =~= crate::gpu::launches(before).push(
                    up[done],
                ).push(up[done + 1]));
                assert(below + up.take(done + 2) =~= (below + up.take(done)).push(up[done]).push(
                    up[done + 1],
                ));
            }
            index = index - 1;
        }
        proof {
            assert(up.take(2 * deepest) =~= up);
        }
        let ghost before = passes@;
        passes.push(
            blur_pass(
                Shader::BlurFromHalf,
                scratch_at(levels, 0),
                (Buffer::BlurBackground, width, height),
                output,
            ),
        );
        proof {
            assert(crate::gpu::launches(passes@) =~= crate::gpu::launches(before).push(
                passes@.last()@,
            ));
            assert(crate::gpu::launches(passes@) =~= blur_way(*self, output@));
        }
        passes
    }
}

/// Every run of a blur but the first reads what the one before it wrote, at the
/// size at which it was written.
pub proof fn law_each_blur_reads_what_the_one_before_wrote(chain: BlurChain, output: Dims, i: int)
    requires
        chain.levels@.len() > 0,
        0 <= i,
        i + 1 < blur_way(chain, output).len(),
    ensures
        ({
            let (before, after) = (blur_way(chain, output)[i], blur_way(chain, output)[i + 1]);
            &&& before.unordered.1 == after.unordered.0
            &&& before.constants[2] == after.constants[0]
            &&& before.constants[3] == after.constants[1]
        }),
{
    let levels = chain.levels@;
    let n = levels.len() as int;
    let way = blur_way(chain, output);
    let down = way_down(levels, output);
    let fractional = fractional_way(levels, chain.fractional, output);
    let up = way_up(levels, output);
    let f = fractional.len() as int;
    assert(f == 0 || f == 3);
    assert(way.len() == 1 + (n - 1) + f + 1 + 2 * (n - 1) + 1);
    let (before, after) = (way[i], way[i + 1]);
    if i < n - 1 {
        assert(after == down[i]);
        if i > 0 {
            assert(before == down[i - 1]);
        }
    } else if i < n - 1 + f {
        let k = i - (n - 1);
        assert(after == fractional[k]);
        if k > 0 {
            assert(before == fractional[k - 1]);
        } else if i > 0 {
            assert(before == down[i - 1]);
        }
    } else if i == n - 1 + f {
        if f > 0 {
            assert(before == fractional[2]);
        } else if i > 0 {
            assert(before == down[i - 1]);
        }
    } else if i < n + f + 2 * (n - 1) {
        let k = i - (n + f);
        assert(after == up[k]);
        if k > 0 {
            assert(before == up[k - 1]);
            assert((k - 1) / 2 == if k % 2 == 0 {
                k / 2 - 1
            } else {
                k / 2
            });
        }
    } else {
        if n > 1 {
            assert(before == up[2 * (n - 1) - 1]);
            assert((2 * (n - 1) - 1) / 2 == n - 2 && (2 * (n - 1) - 1) % 2 == 1);
        }
    }
}

/// Where a mask comes from.
#[derive(Clone, Copy, Debug, PartialEq, Eq, Structural)]
pub enum MaskSource {
    Upload,
    Model(Element),
}

/// One thing to do for a frame.
#[derive(Clone, Copy, Debug, PartialEq, Eq, Structural)]
pub enum Work {
    /// Copy the camera's frame to the card.
    UploadCamera,
    /// See to the buffers of the blur.
    PrepareBlur,
    /// See to the background picture.
    PrepareImage,
    /// Start a list of runs; the first one of a frame frees the memory of the
    /// frame before.
    Begin { new_frame: bool },
    /// Turn, mirror and scale the camera's frame.
    Orient,
    /// Copy the given mask to the card.
    UploadMask,
    /// Hand the list of runs to the card.
    Submit,
    /// See to the model.
    PrepareModel,
    /// Convert the frame to the model's input.
    Preprocess,
    /// Run the model.
    RunModel,
    /// Smooth and shape the mask, of the model or as given.
    Refine { given: bool },
    /// Blur the background.
    Blur,
    /// Put the frame over its background.
    Composite,
    /// Copy the result back.
    ReadBack,
    /// Wait for the card.
    Wait,
}

/// What is prepared before the runs of a frame begin.
pub open spec fn preparation(effect: BackgroundEffect) -> Seq<Work> {
    match effect {
        BackgroundEffect::Blur { .. } => seq![Work::UploadCamera, Work::PrepareBlur],
        BackgroundEffect::Image(_) => seq![Work::UploadCamera, Work::PrepareImage],
        _ => seq![Work::UploadCamera],
    }
}

/// How the mask of a frame is made.
pub open spec fn masking(effect: BackgroundEffect, given: bool) -> Seq<Work> {
    if !effect.masked() {
        Seq::empty()
    } else if given {
        seq![Work::UploadMask, Work::Refine { given: true }]
    } else {
        seq![
            Work::Submit,
            Work::PrepareModel,
            Work::Begin { new_frame: false },
            Work::Preprocess,
            Work::Submit,
            Work::RunModel,
            Work::Begin { new_frame: false },
            Work::Refine { given: false },
        ]
    }
}

/// How the frame and its background are put together.
pub open spec fn finishing(effect: BackgroundEffect) -> Seq<Work> {
    (if effect is Blur {
        seq![Work::Blur]
    } else {
        Seq::empty()
    }) + seq![Work::Composite, Work::ReadBack, Work::Submit, Work::Wait]
}

/// Everything that is done for a frame, in its order.
pub open spec fn schedule_of(effect: BackgroundEffect, given: bool) -> Seq<Work> {
    preparation(effect) + seq![Work::Begin { new_frame: true }, Work::Orient] + masking(
        effect,
        given,
    ) + finishing(effect)
}

/// Lists what is to be done for a frame, given whether a mask comes with it.
pub fn schedule(effect: &BackgroundEffect, given: bool) -> (work: Vec<Work>)
    ensures
        work@ == schedule_of(*effect, given),
{
    let mut work: Vec<Work> = Vec::new();
    work.push(Work::UploadCamera);
    match effect {
        BackgroundEffect::Blur { .. } => {
            work.push(Work::PrepareBlur);
        },
        BackgroundEffect::Image(_) => {
            work.push(Work::PrepareImage);
        },
        _ => {},
    }
    assert(work@ =~= preparation(*effect));
    work.push(Work::Begin { new_frame: true });
    work.push(Work::Orient);
    let ghost start = work@;
    if effect.needs_mask() {
        if given {
            work.push(Work::UploadMask);
            work.push(Work::Refine { given: true });
        } else {
            work.push(Work::Submit);
            work.push(Work::PrepareModel);
            work.push(Work::Begin { new_frame: false });
            work.push(Work::Preprocess);
            work.push(Work::Submit);
            work.push(Work::RunModel);
            work.push(Work::Begin { new_frame: false });
            work.push(Work::Refine { given: false });
        }
    }
    assert(work@ =~= start + masking(*effect, given));
    let ghost masked = work@;
    if let BackgroundEffect::Blur { .. } = effect {
        work.push(Work::Blur);
    }
    work.push(Work::Composite);
    work.push(Work::ReadBack);
    work.push(Work::Submit);
    work.push(Work::Wait);
    assert(work@ =~= masked + finishing(*effect));
    assert(work@ =~= schedule_of(*effect, given));
    work
}

/// The pipeline on the graphics card, as its decisions see it; the buffers
/// themselves are held elsewhere.
pub struct GpuPipeline {
    pub settings: PipelineSettings,
    pub camera: Option<FrameSize>,
    pub model: Option<GpuModel>,
    pub mask: Option<MaskBuffers>,
    pub blur: Option<BlurChain>,
    pub image: Option<(Arc<RgbImage>, ColorMatrix)>,
}

/// The runs that lay the camera's frame over the output, one for each plane.
pub open spec fn orient_launch(
    camera: Dims,
    output: Dims,
    map: AffineMap,
    plane: u32,
) -> Launch {
    Launch {
        shader: Shader::OrientScale,
        constants: crate::gpu::filled(
            seq![
                Constant::Number(camera.width as u32),
                Constant::Number(camera.height as u32),
                Constant::Number(output.width as u32),
                Constant::Number(output.height as u32),
                Constant::Number(plane),
                Constant::Number(0),
                Constant::Number(0),
                Constant::Number(0),
                Constant::Double(map.xx),
                Constant::Double(map.xy),
                Constant::Double(map.x0),
                Constant::Double(map.yx),
                Constant::Double(map.yy),
                Constant::Double(map.y0),
            ],
        ),
        shader_resource: Buffer::Camera,
        unordered: (Buffer::Frame, Buffer::Placeholder, Buffer::Placeholder, Buffer::Placeholder),
        groups: if plane == 0 {
            crate::gpu::groups_for(output.width, output.height)
        } else {
            crate::gpu::groups_for(output.chroma_width(), output.chroma_height())
        },
    }
}

/// The share of the history that is kept, in units of 2^-60.
pub open spec fn kept_share(history_valid: bool, smoothing: u64) -> u64 {
    if !history_valid {
        0
    } else if smoothing > MAX_SMOOTHING {
        MAX_SMOOTHING
    } else {
        smoothing
    }
}

/// The run that smooths and shapes a mask.
pub open spec fn refine_launch(mask: MaskBuffers, params: MaskParams, source: MaskSource) -> Launch {
    let size = mask.size@;
    Launch {
        shader: match source {
            MaskSource::Upload => Shader::MaskFromUpload,
            MaskSource::Model(Element::Half) => Shader::MaskFromHalf,
            MaskSource::Model(Element::Float) => Shader::MaskFromFloat,
        },
        constants: crate::gpu::filled(
            seq![
                Constant::Number(size.width as u32),
                Constant::Number(size.height as u32),
                Constant::Number(
                    if params.temporal_smoothing > 0 {
                        1
                    } else {
                        0
                    },
                ),
                Constant::Number(0),
                crate::gpu::share(kept_share(mask.history_valid, params.temporal_smoothing)),
                crate::gpu::share(params.edge_low),
                crate::gpu::share(params.edge_high),
            ],
        ),
        shader_resource: match source {
            MaskSource::Upload => Buffer::MaskUpload,
            MaskSource::Model(_) => Buffer::PlaceholderUpload,
        },
        unordered: (
            match source {
                MaskSource::Model(Element::Half) => Buffer::ModelAlpha,
                _ => Buffer::Placeholder,
            },
            Buffer::MaskHistory,
            Buffer::Mask,
            match source {
                MaskSource::Model(Element::Float) => Buffer::ModelAlpha,
                _ => Buffer::Placeholder,
            },
        ),
        groups: crate::gpu::groups_for(size.width, size.height),
    }
}

/// The run that converts the frame to a model's input. Halves are written two at
/// a time.
pub open spec fn preprocess_launch(
    output: Dims,
    model: Dims,
    element: Element,
    matrix: ColorMatrix,
) -> Launch {
    let k = crate::gpu::inverse_constants(matrix);
    Launch {
        shader: match element {
            Element::Half => Shader::PreprocessHalf,
            Element::Float => Shader::PreprocessFloat,
        },
        constants: crate::gpu::filled(
            seq![
                Constant::Number(output.width as u32),
                Constant::Number(output.height as u32),
                Constant::Number(model.width as u32),
                Constant::Number(model.height as u32),
                k[0],
                k[1],
                k[2],
                k[3],
            ],
        ),
        shader_resource: Buffer::PlaceholderUpload,
        unordered: match element {
            Element::Half => (
                Buffer::Frame,
                Buffer::ModelInput,
                Buffer::Placeholder,
                Buffer::Placeholder,
            ),
            Element::Float => (
                Buffer::Frame,
                Buffer::Placeholder,
                Buffer::ModelInput,
                Buffer::Placeholder,
            ),
        },
        groups: crate::gpu::groups_for(
            match element {
                Element::Half => model.width / 2,
                Element::Float => model.width,
            },
            model.height,
        ),
    }
}

/// How an effect is put behind the frame, and the colour that it takes.
pub open spec fn composition(effect: BackgroundEffect) -> (u32, Rgb) {
    let black = Rgb { r: 0, g: 0, b: 0 };
    match effect {
        BackgroundEffect::Passthrough => (COMPOSITE_PASSTHROUGH, black),
        BackgroundEffect::Color(color) => (COMPOSITE_COLOR, color),
        BackgroundEffect::Transparent { fallback } => (COMPOSITE_COLOR, fallback),
        BackgroundEffect::Image(_) => (COMPOSITE_IMAGE, black),
        BackgroundEffect::Blur { .. } => (COMPOSITE_BLUR, black),
    }
}

fn nv12_groups(width: u32, height: u32) -> (count: (u32, u32))
    ensures
        count == crate::gpu::groups_for(width as int / 4, height as int + height as int / 2),
{
    let rows: u64 = height as u64 + (height / 2) as u64;
    let (across, _): (u32, u32) = groups(width / 4, 0);
    (across, ((rows + 15) / 16) as u32)
}

fn orient_pass(camera: FrameSize, output: FrameSize, map: AffineMap, plane: u32) -> (pass: Pass)
    ensures
        pass@ == orient_launch(camera@, output@, map, plane),
{
    let values: Vec<Constant> = vec![
        Constant::Number(camera.width()),
        Constant::Number(camera.height()),
        Constant::Number(output.width()),
        Constant::Number(output.height()),
        Constant::Number(plane),
        Constant::Number(0),
        Constant::Number(0),
        Constant::Number(0),
        Constant::Double(map.xx),
        Constant::Double(map.xy),
        Constant::Double(map.x0),
        Constant::Double(map.yx),
        Constant::Double(map.yy),
        Constant::Double(map.y0),
    ];
    let pass = Pass {
        shader: Shader::OrientScale,
        constants: constants(values),
        shader_resource: Buffer::Camera,
        unordered: (Buffer::Frame, Buffer::Placeholder, Buffer::Placeholder, Buffer::Placeholder),
        groups: if plane == 0 {
            groups(output.width(), output.height())
        } else {
            groups(output.chroma_width(), output.chroma_height())
        },
    };
    proof {
        assert(pass@ =~= orient_launch(camera@, output@, map, plane));
    }
    pass
}

fn refine_pass(mask: MaskBuffers, params: MaskParams, source: MaskSource) -> (pass: Pass)
    ensures
        pass@ == refine_launch(mask, params, source),
{
    let size = mask.size;
    let keep: u64 = if !mask.history_valid {
        0
    } else if params.temporal_smoothing > MAX_SMOOTHING {
        MAX_SMOOTHING
    } else {
        params.temporal_smoothing
    };
    let values: Vec<Constant> = vec![
        Constant::Number(size.width()),
        Constant::Number(size.height()),
        Constant::Number(
            if params.temporal_smoothing > 0 {
                1
            } else {
                0
            },
        ),
        Constant::Number(0),
        Constant::Fraction { numerator: keep as i128, denominator: ONE },
        Constant::Fraction { numerator: params.edge_low as i128, denominator: ONE },
        Constant::Fraction { numerator: params.edge_high as i128, denominator: ONE },
    ];
    let (shader, shader_resource, half, float) = match source {
        MaskSource::Upload => (
            Shader::MaskFromUpload,
            Buffer::MaskUpload,
            Buffer::Placeholder,
            Buffer::Placeholder,
        ),
        MaskSource::Model(Element::Half) => (
            Shader::MaskFromHalf,
            Buffer::PlaceholderUpload,
            Buffer::ModelAlpha,
            Buffer::Placeholder,
        ),
        MaskSource::Model(Element::Float) => (
            Shader::MaskFromFloat,
            Buffer::PlaceholderUpload,
            Buffer::Placeholder,
            Buffer::ModelAlpha,
        ),
    };
    let pass = Pass {
        shader,
        constants: constants(values),
        shader_resource,
        unordered: (half, Buffer::MaskHistory, Buffer::Mask, float),
        groups: groups(size.width(), size.height()),
    };
    proof {
        assert(pass@ =~= refine_launch(mask, params, source));
    }
    pass
}

fn preprocess_pass(
    output: FrameSize,
    model: FrameSize,
    element: Element,
    matrix: ColorMatrix,
) -> (pass: Pass)
    ensures
        pass@ == preprocess_launch(output@, model@, element, matrix),
{
    let k = matrix.inverse();
    let values: Vec<Constant> = vec![
        Constant::Number(output.width()),
        Constant::Number(output.height()),
        Constant::Number(model.width()),
        Constant::Number(model.height()),
        Constant::Fraction { numerator: k.red_v as i128, denominator: 256 },
        Constant::Fraction { numerator: k.green_u as i128, denominator: 256 },
        Constant::Fraction { numerator: k.green_v as i128, denominator: 256 },
        Constant::Fraction { numerator: k.blue_u as i128, denominator: 256 },
    ];
    let (shader, half, float, across) = match element {
        Element::Half => (
            Shader::PreprocessHalf,
            Buffer::ModelInput,
            Buffer::Placeholder,
            model.width() / 2,
        ),
        Element::Float => (
            Shader::PreprocessFloat,
            Buffer::Placeholder,
            Buffer::ModelInput,
            model.width(),
        ),
    };
    let pass = Pass {
        shader,
        constants: constants(values),
        shader_resource: Buffer::PlaceholderUpload,
        unordered: (Buffer::Frame, half, float, Buffer::Placeholder),
        groups: groups(across, model.height()),
    };
    proof {
        assert(pass@ =~= preprocess_launch(output@, model@, element, matrix));
    }
    pass
}

/// The run that clears the numbers of a buffer, up to a number of them.
pub open spec fn clear_launch(target: Buffer, width: u64, elements: u32) -> Launch {
    let held = (width as u32) / 4;
    let count = if elements < held {
        elements
    } else {
        held
    };
    Launch {
        shader: Shader::Clear,
        constants: crate::gpu::filled(seq![Constant::Number(count)]),
        shader_resource: Buffer::PlaceholderUpload,
        unordered: (target, Buffer::Placeholder, Buffer::Placeholder, Buffer::Placeholder),
        groups: (crate::gpu::ceil_div(count as int, 256) as u32, 1),
    }
}

/// Clears the numbers of a buffer that has a width in bytes.
pub fn clear(target: Buffer, width: u64, elements: u32) -> (pass: Pass)
    ensures
        pass@ == clear_launch(target, width, elements),
{
    let held: u32 = #[verifier::truncate]
    (width as u32) / 4;
    let count: u32 = if elements < held {
        elements
    } else {
        held
    };
    let values: Vec<Constant> = vec![Constant::Number(count)];
    let pass = Pass {
        shader: Shader::Clear,
        constants: constants(values),
        shader_resource: Buffer::PlaceholderUpload,
        unordered: (target, Buffer::Placeholder, Buffer::Placeholder, Buffer::Placeholder),
        groups: (((count as u64 + 255) / 256) as u32, 1),
    };
    proof {
        assert(pass@ =~= clear_launch(target, width, elements));
    }
    pass
}

/// Takes a frame over from the bytes that were copied back.
pub fn read_nv12(bytes: &[u8], frame: &mut Nv12Frame)
    requires
        old(frame).wf(),
        bytes@.len() >= old(frame)@.luma.len() + old(frame)@.chroma.len(),
    ensures
        final(frame).wf(),
        final(frame)@ == crate::source::contiguous_frame(old(frame)@.size, bytes@),
        final(frame)@ == (Nv12 {
            size: old(frame)@.size,
            luma: bytes@.take(old(frame)@.luma.len() as int),
            chroma: bytes@.subrange(
                old(frame)@.luma.len() as int,
                (old(frame)@.luma.len() + old(frame)@.chroma.len()) as int,
            ),
        }),
{
    let (luma, chroma) = frame.planes_mut();
    let luma_len: usize = luma.len();
    assert(bytes.len() == bytes@.len());
    let end: usize = luma_len + chroma.len();
    copy_bytes(vstd::slice::slice_subrange(bytes, 0, luma_len), luma);
    copy_bytes(vstd::slice::slice_subrange(bytes, luma_len, end), chroma);
    proof {
        assert(bytes@.subrange(0, luma_len as int) =~= bytes@.take(luma_len as int));
    }
}

/// Takes a frame over from the bytes that were copied back.
pub fn read_bgra(bytes: &[u8], frame: &mut BgraFrame)
    requires
        old(frame).wf(),
        bytes@.len() >= old(frame)@.data.len(),
    ensures
        final(frame).wf(),
        final(frame)@ == (Bgra {
            size: old(frame)@.size,
            data: bytes@.take(old(frame)@.data.len() as int),
        }),
{
    let data = frame.data_mut();
    let len: usize = data.len();
    copy_bytes(vstd::slice::slice_subrange(bytes, 0, len), data);
    proof {
        assert(bytes@.subrange(0, len as int) =~= bytes@.take(len as int));
    }
}

impl GpuPipeline {
    pub open spec fn wf(self) -> bool {
        &&& self.settings.effect.wf()
        &&& self.blur matches Some(chain) ==> chain.fits(self.settings.output@)
    }

    /// What the settings ask a model for.
    pub open spec fn model_key(self) -> GpuModelKey {
        GpuModelKey {
            method: self.settings.segmentation.method,
            variant: self.settings.segmentation.variant,
            frame: self.settings.output,
        }
    }

    /// How masks are treated: as set, or as it suits the model.
    pub open spec fn mask_spec(self) -> MaskParams {
        match self.settings.segmentation.mask {
            Some(params) => params,
            None => match self.model {
                Some(model) if !(model.key.method is Rvm) => MaskParams::for_memoryless_models(),
                _ => MaskParams::for_recurrent_models(),
            },
        }
    }

    /// The run that puts the frame over its background.
    pub open spec fn composite_launch(self, mask: Option<FrameSize>, format: OutputFormat) -> Launch {
        let output = self.settings.output@;
        let effect = self.settings.effect;
        let matrix = self.settings.matrix_spec();
        let (mode, color) = composition(effect);
        let background = matrix.yuv_of(color);
        let k = crate::gpu::inverse_constants(matrix);
        Launch {
            shader: match format {
                OutputFormat::Nv12 => Shader::CompositeNv12,
                OutputFormat::Bgra => Shader::CompositeBgra,
            },
            constants: crate::gpu::filled(
                seq![
                    Constant::Number(output.width as u32),
                    Constant::Number(output.height as u32),
                    Constant::Number(
                        match mask {
                            Some(size) => size@.width as u32,
                            None => 1,
                        },
                    ),
                    Constant::Number(
                        match mask {
                            Some(size) => size@.height as u32,
                            None => 1,
                        },
                    ),
                    Constant::Number(mode),
                    Constant::Number(
                        if effect is Transparent && format is Bgra {
                            1
                        } else {
                            0
                        },
                    ),
                    Constant::Number(0),
                    Constant::Number(0),
                    crate::gpu::byte(background.y),
                    crate::gpu::byte(background.u),
                    crate::gpu::byte(background.v),
                    k[0],
                    k[1],
                    k[2],
                    k[3],
                ],
            ),
            shader_resource: if effect is Image && self.image is Some {
                Buffer::Image
            } else {
                Buffer::PlaceholderUpload
            },
            unordered: (
                Buffer::Frame,
                if self.mask is Some {
                    Buffer::Mask
                } else {
                    Buffer::Placeholder
                },
                if self.blur is Some {
                    Buffer::BlurBackground
                } else {
                    Buffer::Placeholder
                },
                match format {
                    OutputFormat::Nv12 => Buffer::Nv12Output,
                    OutputFormat::Bgra => Buffer::BgraOutput,
                },
            ),
            groups: match format {
                OutputFormat::Nv12 => crate::gpu::groups_for(
                    output.width / 4,
                    output.height + output.height / 2,
                ),
                OutputFormat::Bgra => crate::gpu::groups_for(output.width, output.height),
            },
        }
    }

    pub fn new(settings: PipelineSettings) -> (pipeline: Self)
        requires
            settings.effect.wf(),
        ensures
            pipeline.wf(),
            pipeline.settings == settings,
            pipeline.camera is None,
            pipeline.model is None,
            pipeline.mask is None,
            pipeline.blur is None,
            pipeline.image is None,
    {
        GpuPipeline { settings, camera: None, model: None, mask: None, blur: None, image: None }
    }

    pub fn settings(&self) -> (settings: &PipelineSettings)
        ensures
            *settings == self.settings,
    {
        &self.settings
    }

    /// The name of the loaded model.
    pub fn active_model(&self) -> (name: Option<&str>)
        ensures
            match self.model {
                Some(model) => name matches Some(name) && name@ == model.name@,
                None => name is None,
            },
    {
        match &self.model {
            Some(model) => Some(model.name.as_str()),
            None => None,
        }
    }

    fn invalidate_history(&mut self)
        ensures
            final(self).mask == match old(self).mask {
                Some(mask) => Some(MaskBuffers { size: mask.size, history_valid: false }),
                None => None,
            },
            final(self).settings == old(self).settings,
            final(self).camera == old(self).camera,
            final(self).model == old(self).model,
            final(self).blur == old(self).blur,
            final(self).image == old(self).image,
    {
        if let Some(mask) = self.mask {
            self.mask = Some(MaskBuffers { size: mask.size, history_valid: false });
        }
    }

    /// Takes over new settings. Says whether the buffers of the output are to be
    /// made anew; everything that depends on their size is then given up.
    pub fn apply_settings(&mut self, settings: PipelineSettings) -> (resized: bool)
        requires
            old(self).wf(),
            settings.effect.wf(),
        ensures
            final(self).wf(),
            resized == (settings.output != old(self).settings.output),
            final(self).settings == settings,
            final(self).camera == old(self).camera,
            final(self).model == if resized || !settings.effect.masked() {
                None
            } else {
                old(self).model
            },
            final(self).mask == if resized || !settings.effect.masked() {
                None
            } else {
                match old(self).mask {
                    Some(mask) => Some(
                        MaskBuffers {
                            size: mask.size,
                            history_valid: mask.history_valid && settings.orientation
                                == old(self).settings.orientation,
                        },
                    ),
                    None => None,
                }
            },
            final(self).blur == if resized {
                None
            } else {
                old(self).blur
            },
            final(self).image == if resized {
                None
            } else {
                old(self).image
            },
    {
        let resized: bool = settings.output != self.settings.output;
        if resized {
            self.model = None;
            self.mask = None;
            self.blur = None;
            self.image = None;
        }
        if settings.orientation != self.settings.orientation {
            self.invalidate_history();
        }
        if !settings.effect.needs_mask() {
            self.model = None;
            self.mask = None;
        }
        self.settings = settings;
        resized
    }

    /// Forgets the earlier frames. Says whether the states of a model are to be
    /// cleared.
    pub fn reset_temporal_state(&mut self) -> (clear: bool)
        ensures
            clear == (old(self).model matches Some(model) && model.key.method is Rvm),
            final(self).mask == match old(self).mask {
                Some(mask) => Some(MaskBuffers { size: mask.size, history_valid: false }),
                None => None,
            },
            final(self).settings == old(self).settings,
            final(self).camera == old(self).camera,
            final(self).model == old(self).model,
            final(self).blur == old(self).blur,
            final(self).image == old(self).image,
    {
        self.invalidate_history();
        match &self.model {
            Some(model) => model.is_recurrent(),
            None => false,
        }
    }

    /// Takes note of the size of the camera's frames. Says whether a buffer for
    /// them is to be made; the history of the mask is then of no use.
    pub fn take_camera(&mut self, size: FrameSize) -> (fresh: bool)
        ensures
            fresh == (old(self).camera != Some(size)),
            final(self).camera == Some(size),
            final(self).mask == match old(self).mask {
                Some(mask) => Some(
                    MaskBuffers { size: mask.size, history_valid: mask.history_valid && !fresh },
                ),
                None => None,
            },
            final(self).settings == old(self).settings,
            final(self).model == old(self).model,
            final(self).blur == old(self).blur,
            final(self).image == old(self).image,
    {
        let same: bool = match self.camera {
            Some(known) => known == size,
            None => false,
        };
        if !same {
            self.camera = Some(size);
            self.invalidate_history();
        }
        !same
    }

    /// The runs that lay the camera's frame over the output.
    pub fn orient_and_scale(&self) -> (result: Result<(Pass, Pass), GpuError>)
        ensures
            match self.camera {
                Some(camera) => {
                    let output = self.settings.output@;
                    let map = crate::gpu::map_of(self.settings.orientation, camera@, output);
                    result matches Ok((luma, chroma)) && luma@ == orient_launch(
                        camera@,
                        output,
                        map,
                        0,
                    ) && chroma@ == orient_launch(camera@, output, map, 1)
                },
                None => result matches Err(error) && crate::gpu::is_inference_error(
                    error,
                    "camera frame not uploaded"@,
                ),
            },
    {
        let camera = match self.camera {
            Some(camera) => camera,
            None => return Err(GpuError::Inference("camera frame not uploaded".to_owned())),
        };
        let output = self.settings.output;
        let map = orientation_map(self.settings.orientation, camera, output);
        Ok((orient_pass(camera, output, map, 0), orient_pass(camera, output, map, 1)))
    }

    /// What a model is to be loaded for, where the one at hand is another. That
    /// one is given up.
    pub fn begin_model(&mut self) -> (wanted: Option<GpuModelKey>)
        ensures
            ({
                let key = old(self).model_key();
                let known = old(self).model matches Some(model) && model.key == key;
                &&& wanted == if known {
                    None
                } else {
                    Some(key)
                }
                &&& final(self).model == if known {
                    old(self).model
                } else {
                    None
                }
            }),
            final(self).settings == old(self).settings,
            final(self).camera == old(self).camera,
            final(self).mask == old(self).mask,
            final(self).blur == old(self).blur,
            final(self).image == old(self).image,
    {
        let key = GpuModelKey {
            method: self.settings.segmentation.method,
            variant: self.settings.segmentation.variant,
            frame: self.settings.output,
        };
        let known: bool = match &self.model {
            Some(model) => model.key == key,
            None => false,
        };
        if known {
            None
        } else {
            self.model = None;
            Some(key)
        }
    }

    /// A model was loaded. The mask of the one before it is given up.
    pub fn model_loaded(&mut self, model: GpuModel)
        ensures
            final(self).model == Some(model),
            final(self).mask is None,
            final(self).settings == old(self).settings,
            final(self).camera == old(self).camera,
            final(self).blur == old(self).blur,
            final(self).image == old(self).image,
    {
        self.model = Some(model);
        self.mask = None;
    }

    /// Sees to the buffers of a mask. Says whether they are to be made.
    pub fn ensure_mask_buffers(&mut self, size: FrameSize) -> (fresh: bool)
        ensures
            fresh == !(old(self).mask matches Some(mask) && mask.size == size),
            final(self).mask == if fresh {
                Some(MaskBuffers { size, history_valid: false })
            } else {
                old(self).mask
            },
            final(self).settings == old(self).settings,
            final(self).camera == old(self).camera,
            final(self).model == old(self).model,
            final(self).blur == old(self).blur,
            final(self).image == old(self).image,
    {
        let same: bool = match self.mask {
            Some(mask) => mask.size == size,
            None => false,
        };
        if !same {
            self.mask = Some(MaskBuffers { size, history_valid: false });
        }
        !same
    }

    /// How masks are treated: as set, or as it suits the model.
    pub fn mask_params(&self) -> (params: MaskParams)
        ensures
            params == self.mask_spec(),
    {
        match self.settings.segmentation.mask {
            Some(params) => params,
            None => {
                let recurrent: bool = match &self.model {
                    Some(model) => model.is_recurrent(),
                    None => true,
                };
                if recurrent {
                    MaskParams::recurrent_model()
                } else {
                    MaskParams::memoryless_model()
                }
            },
        }
    }

    /// The run that smooths and shapes the mask. Its history counts from then on
    /// where masks are smoothed at all.
    pub fn refine_mask(&mut self, source: MaskSource) -> (result: Result<Pass, GpuError>)
        ensures
            match old(self).mask {
                Some(mask) => {
                    let params = old(self).mask_spec();
                    &&& result matches Ok(pass) && pass@ == refine_launch(mask, params, source)
                    &&& final(self).mask == Some(
                        MaskBuffers {
                            size: mask.size,
                            history_valid: params.temporal_smoothing > 0,
                        },
                    )
                },
                None => {
                    &&& result matches Err(error) && crate::gpu::is_inference_error(
                        error,
                        "mask buffers missing"@,
                    )
                    &&& final(self).mask is None
                },
            },
            final(self).settings == old(self).settings,
            final(self).camera == old(self).camera,
            final(self).model == old(self).model,
            final(self).blur == old(self).blur,
            final(self).image == old(self).image,
    {
        let params = self.mask_params();
        match self.mask {
            Some(mask) => {
                self.mask = Some(
                    MaskBuffers {
                        size: mask.size,
                        history_valid: params.temporal_smoothing > 0,
                    },
                );
                Ok(refine_pass(mask, params, source))
            },
            None => Err(GpuError::Inference("mask buffers missing".to_owned())),
        }
    }

    /// Sees to the buffers of the blur. Says whether they are to be made.
    pub fn ensure_blur(&mut self, strength: BlurStrength) -> (fresh: bool)
        requires
            old(self).wf(),
            strength.wf(),
        ensures
            final(self).wf(),
            fresh == !(old(self).blur matches Some(chain) && chain.strength
                == strength.limited()),
            final(self).blur matches Some(chain) && chain.strength == strength.limited(),
            !fresh ==> final(self).blur == old(self).blur,
            final(self).settings == old(self).settings,
            final(self).camera == old(self).camera,
            final(self).model == old(self).model,
            final(self).mask == old(self).mask,
            final(self).image == old(self).image,
    {
        let wanted = strength.clamped();
        let same: bool = match &self.blur {
            Some(chain) => chain.strength == wanted,
            None => false,
        };
        if !same {
            self.blur = Some(BlurChain::new(self.settings.output, strength));
        }
        !same
    }

    /// The runs of the blur.
    pub fn run_blur(&self) -> (result: Result<Vec<Pass>, GpuError>)
        requires
            self.wf(),
        ensures
            match self.blur {
                Some(chain) => result matches Ok(passes) && crate::gpu::launches(passes@)
                    == blur_way(chain, self.settings.output@),
                None => result matches Err(error) && crate::gpu::is_inference_error(
                    error,
                    "blur chain missing"@,
                ),
            },
    {
        match &self.blur {
            Some(chain) => Ok(chain.passes(self.settings.output)),
            None => Err(GpuError::Inference("blur chain missing".to_owned())),
        }
    }

    /// Sees to the background picture. Says whether it is to be copied to the
    /// card. The same handle and the same matrix need no second copy; of another
    /// handle nothing is known, so it is copied.
    pub fn ensure_image(&mut self, source: &Arc<RgbImage>, matrix: ColorMatrix) -> (fresh: bool)
        ensures
            final(self).image == Some((*source, matrix)),
            !fresh ==> final(self).image == old(self).image,
            final(self).settings == old(self).settings,
            final(self).camera == old(self).camera,
            final(self).model == old(self).model,
            final(self).mask == old(self).mask,
            final(self).blur == old(self).blur,
    {
        let same: bool = match &self.image {
            Some((held, with)) => same_picture(held, source) && *with == matrix,
            None => false,
        };
        if !same {
            self.image = Some((share(source), matrix));
        }
        !same
    }

    /// The run that converts the frame to the model's input.
    pub fn preprocess(&self) -> (result: Result<Pass, GpuError>)
        ensures
            match self.model {
                Some(model) => result matches Ok(pass) && pass@ == preprocess_launch(
                    self.settings.output@,
                    model.size@,
                    model.element_spec(),
                    self.settings.matrix_spec(),
                ),
                None => result matches Err(error) && crate::gpu::is_inference_error(
                    error,
                    "model missing"@,
                ),
            },
    {
        match &self.model {
            Some(model) => Ok(
                preprocess_pass(
                    self.settings.output,
                    model.size,
                    model.input_element(),
                    self.settings.matrix(),
                ),
            ),
            None => Err(GpuError::Inference("model missing".to_owned())),
        }
    }

    /// The run that puts the frame over its background.
    pub fn composite(&self, mask: Option<FrameSize>, format: OutputFormat) -> (pass: Pass)
        ensures
            pass@ == self.composite_launch(mask, format),
    {
        let output = self.settings.output;
        let matrix = self.settings.matrix();
        let black = Rgb { r: 0, g: 0, b: 0 };
        let (mode, color): (u32, Rgb) = match &self.settings.effect {
            BackgroundEffect::Passthrough => (COMPOSITE_PASSTHROUGH, black),
            BackgroundEffect::Color(color) => (COMPOSITE_COLOR, *color),
            BackgroundEffect::Transparent { fallback } => (COMPOSITE_COLOR, *fallback),
            BackgroundEffect::Image(_) => (COMPOSITE_IMAGE, black),
            BackgroundEffect::Blur { .. } => (COMPOSITE_BLUR, black),
        };
        let transparent: bool = match (&self.settings.effect, format) {
            (BackgroundEffect::Transparent { .. }, OutputFormat::Bgra) => true,
            _ => false,
        };
        let pictured: bool = match (&self.settings.effect, &self.image) {
            (BackgroundEffect::Image(_), Some(_)) => true,
            _ => false,
        };
        let (mask_width, mask_height): (u32, u32) = match mask {
            Some(size) => (size.width(), size.height()),
            None => (1, 1),
        };
        let background = matrix.to_yuv(color);
        let k = matrix.inverse();
        let values: Vec<Constant> = vec![
            Constant::Number(output.width()),
            Constant::Number(output.height()),
            Constant::Number(mask_width),
            Constant::Number(mask_height),
            Constant::Number(mode),
            Constant::Number(
                if transparent {
                    1
                } else {
                    0
                },
            ),
            Constant::Number(0),
            Constant::Number(0),
            Constant::Fraction { numerator: background.y as i128, denominator: 1 },
            Constant::Fraction { numerator: background.u as i128, denominator: 1 },
            Constant::Fraction { numerator: background.v as i128, denominator: 1 },
            Constant::Fraction { numerator: k.red_v as i128, denominator: 256 },
            Constant::Fraction { numerator: k.green_u as i128, denominator: 256 },
            Constant::Fraction { numerator: k.green_v as i128, denominator: 256 },
            Constant::Fraction { numerator: k.blue_u as i128, denominator: 256 },
        ];
        let (width, height): (u32, u32) = (output.width(), output.height());
        let pass = Pass {
            shader: match format {
                OutputFormat::Nv12 => Shader::CompositeNv12,
                OutputFormat::Bgra => Shader::CompositeBgra,
            },
            constants: constants(values),
            shader_resource: if pictured {
                Buffer::Image
            } else {
                Buffer::PlaceholderUpload
            },
            unordered: (
                Buffer::Frame,
                if self.mask.is_some() {
                    Buffer::Mask
                } else {
                    Buffer::Placeholder
                },
                if self.blur.is_some() {
                    Buffer::BlurBackground
                } else {
                    Buffer::Placeholder
                },
                match format {
                    OutputFormat::Nv12 => Buffer::Nv12Output,
                    OutputFormat::Bgra => Buffer::BgraOutput,
                },
            ),
            groups: match format {
                OutputFormat::Nv12 => nv12_groups(width, height),
                OutputFormat::Bgra => groups(width, height),
            },
        };
        proof {
            assert(pass@ =~= self.composite_launch(mask, format));
        }
        pass
    }
}

} // verus!
