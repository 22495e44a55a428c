//! The way of a frame: turned, scaled to the output size, segmented and laid
//! over a background.

use std::sync::Arc;

use vstd::prelude::*;

use crate::background::RgbImage;
use crate::blur::{BackgroundBlur, BlurStrength};
use crate::color::{ColorMatrix, Rgb};
use crate::composite::{blend_nv12, nv12_to_bgra, Backdrop, Background};
use crate::error::CoreError;
use crate::frame::{Bgra, BgraFrame, Dims, FrameSize, Nv12, Nv12Frame};
use crate::mask::{MaskParams, MaskRefiner, Refining};
use crate::orientation::{Orientation, Rotation};
use crate::scale::{Nv12Scaler, ScaleMode};
use crate::segmentation::{InferenceDevice, MediaPipeVariant, SegmentationModel};
use crate::variant::{
    available_rvm_variants,
    select_variant,
    ModelVariant,
    VariantPreference,
};

verus! {

#[derive(Clone, Copy, Debug, Default, PartialEq, Eq, Hash, Structural)]
pub enum SegmentationMethod {
    #[default]
    Rvm,
    MediaPipe,
}

#[derive(Clone, Copy, Debug, PartialEq, Eq)]
pub struct SegmentationSettings {
    pub method: SegmentationMethod,
    pub variant: VariantPreference,
    pub device: InferenceDevice,
    pub mask: Option<MaskParams>,
}

impl Default for SegmentationSettings {
    fn default() -> (settings: Self)
        ensures
            settings == default_segmentation(),
    {
        SegmentationSettings {
            method: SegmentationMethod::Rvm,
            variant: VariantPreference::Auto,
            device: InferenceDevice::DirectMl { adapter_index: 0 },
            mask: None,
        }
    }
}

pub open spec fn default_segmentation() -> SegmentationSettings {
    SegmentationSettings {
        method: SegmentationMethod::Rvm,
        variant: VariantPreference::Auto,
        device: InferenceDevice::DirectMl { adapter_index: 0 },
        mask: None,
    }
}

#[derive(Clone, Debug, PartialEq, Eq)]
pub enum BackgroundEffect {
    Passthrough,
    Blur { strength: BlurStrength },
    Color(Rgb),
    Image(Arc<RgbImage>),
    Transparent { fallback: Rgb },
}

impl Default for BackgroundEffect {
    fn default() -> (effect: Self)
        ensures
            effect == default_effect(),
    {
        BackgroundEffect::Blur { strength: BlurStrength::half() }
    }
}

/// A blur of half the greatest strength.
pub open spec fn default_effect() -> BackgroundEffect {
    BackgroundEffect::Blur { strength: BlurStrength { amount: 0x800_0000_0000_0000, factor: 11_863_283 } }
}

impl BackgroundEffect {
    pub open spec fn wf(self) -> bool {
        match self {
            BackgroundEffect::Blur { strength } => strength.wf(),
            BackgroundEffect::Image(source) => source.wf(),
            _ => true,
        }
    }

    /// Whether the effect needs to know where the person is.
    pub open spec fn masked(self) -> bool {
        !(self is Passthrough)
    }

    pub fn needs_mask(&self) -> (needs: bool)
        ensures
            needs == self.masked(),
    {
        match self {
            BackgroundEffect::Passthrough => false,
            _ => true,
        }
    }
}

#[derive(Clone, Debug, PartialEq, Eq)]
pub struct PipelineSettings {
    pub output: FrameSize,
    pub orientation: Orientation,
    pub effect: BackgroundEffect,
    pub segmentation: SegmentationSettings,
    pub color_matrix: Option<ColorMatrix>,
}

impl PipelineSettings {
    pub open spec fn wf(self) -> bool {
        &&& self.output@.addressable(4)
        &&& self.effect.wf()
    }

    /// The matrix that colours are converted with: the given one, or the one for
    /// the shorter side of the output.
    pub open spec fn matrix_spec(self) -> ColorMatrix {
        match self.color_matrix {
            Some(matrix) => matrix,
            None => {
                let (w, h) = (self.output@.width, self.output@.height);
                let shorter = if h < w {
                    h
                } else {
                    w
                };
                if shorter >= 720 {
                    ColorMatrix::Bt709
                } else {
                    ColorMatrix::Bt601
                }
            },
        }
    }

    pub fn new(output: FrameSize) -> (settings: Self)
        ensures
            settings.output == output,
            settings.orientation == crate::orientation::upright(),
            settings.effect == default_effect(),
            settings.segmentation == default_segmentation(),
            settings.color_matrix is None,
            output@.addressable(4) ==> settings.wf(),
    {
        PipelineSettings {
            output,
            orientation: Orientation {
                rotation: Rotation::Upright,
                mirror_horizontal: false,
                mirror_vertical: false,
            },
            effect: BackgroundEffect::default(),
            segmentation: SegmentationSettings::default(),
            color_matrix: None,
        }
    }

    pub fn matrix(&self) -> (matrix: ColorMatrix)
        ensures
            matrix == self.matrix_spec(),
    {
        match self.color_matrix {
            Some(matrix) => matrix,
            None => {
                let (w, h): (u32, u32) = (self.output.width(), self.output.height());
                ColorMatrix::for_height(
                    if h < w {
                        h
                    } else {
                        w
                    },
                )
            },
        }
    }
}

#[derive(Clone, Copy, Debug, PartialEq, Eq, Hash, Structural)]
pub enum OutputFormat {
    Nv12,
    Bgra,
}

pub enum PipelineOutput<'a> {
    Nv12(&'a Nv12Frame),
    Bgra(&'a BgraFrame),
}

/// A frame that is ready to be shown.
pub enum Shown {
    Nv12(Nv12),
    Bgra(Bgra),
}

impl<'a> View for PipelineOutput<'a> {
    type V = Shown;

    open spec fn view(&self) -> Shown {
        match self {
            PipelineOutput::Nv12(frame) => Shown::Nv12(frame@),
            PipelineOutput::Bgra(frame) => Shown::Bgra(frame@),
        }
    }
}

/// A frame in an output format, opaque.
pub open spec fn in_format(frame: Nv12, matrix: ColorMatrix, format: OutputFormat) -> Shown {
    match format {
        OutputFormat::Nv12 => Shown::Nv12(frame),
        OutputFormat::Bgra => Shown::Bgra(crate::composite::bgra_of(frame, None, matrix)),
    }
}

/// What an effect puts behind a frame.
pub open spec fn backdrop_of(
    effect: BackgroundEffect,
    frame: Nv12,
    matrix: ColorMatrix,
) -> Backdrop {
    match effect {
        BackgroundEffect::Passthrough => Backdrop::Frame(frame),
        BackgroundEffect::Color(rgb) => Backdrop::Solid(matrix.yuv_of(rgb)),
        BackgroundEffect::Transparent { fallback } => Backdrop::Solid(matrix.yuv_of(fallback)),
        BackgroundEffect::Blur { strength } => Backdrop::Frame(
            crate::blur::blurred(frame, strength.limited()),
        ),
        BackgroundEffect::Image(source) => Backdrop::Frame(
            crate::background::frame_of_picture(source@, frame.size, matrix),
        ),
    }
}

/// What an effect makes of a frame, given the masks of the person in it.
/// Transparency comes out as alpha where the format has one.
pub open spec fn shown(
    effect: BackgroundEffect,
    frame: Nv12,
    luma: Seq<u8>,
    chroma: Seq<u8>,
    matrix: ColorMatrix,
    format: OutputFormat,
) -> Shown {
    if effect is Passthrough {
        in_format(frame, matrix, format)
    } else if effect is Transparent && format == OutputFormat::Bgra {
        Shown::Bgra(crate::composite::bgra_of(frame, Some(luma), matrix))
    } else {
        in_format(
            crate::composite::blended_frame(
                frame,
                backdrop_of(effect, frame, matrix),
                luma,
                chroma,
            ),
            matrix,
            format,
        )
    }
}

/// A camera frame, turned and scaled to fill the output.
pub open spec fn prepared_frame(input: Nv12, settings: PipelineSettings) -> Nv12 {
    crate::scale::scaled_frame(
        settings.orientation.oriented(input),
        settings.output@,
        ScaleMode::Fill,
    )
}

/// Where models come from.
pub trait ModelProvider {
    type Model: SegmentationModel;

    fn load(&self, settings: &SegmentationSettings, frame: FrameSize) -> Result<
        Self::Model,
        CoreError,
    >;
}

/// Which model file is to be loaded.
#[derive(Clone, Copy, Debug, PartialEq, Eq, Hash, Structural)]
pub enum ModelChoice {
    Rvm(ModelVariant),
    MediaPipe(MediaPipeVariant),
}

/// The model files of a directory.
pub struct OnnxModelProvider {
    models_dir: String,
    files: Vec<String>,
}

impl OnnxModelProvider {
    /// The directory.
    pub closed spec fn directory(&self) -> Seq<char> {
        self.models_dir@
    }

    /// The names of the files in the directory.
    pub closed spec fn file_names(&self) -> Seq<String> {
        self.files@
    }

    /// The sizes of the recurrent model that the directory holds.
    pub open spec fn rvm_sizes(&self) -> Seq<ModelVariant> {
        crate::variant::all_sizes().filter(
            |v: ModelVariant|
                crate::variant::names_file(self.file_names(), v.file_name_spec()),
        )
    }

    /// Whether a size of the recurrent model is the one for a frame.
    pub open spec fn resolves_to(
        &self,
        preference: VariantPreference,
        frame: Dims,
        result: Result<ModelVariant, CoreError>,
    ) -> bool {
        let sizes = self.rvm_sizes();
        match result {
            Ok(variant) => if crate::variant::wish_granted(sizes, preference) {
                preference == VariantPreference::Fixed(variant)
            } else {
                exists|i: int|
                    #[trigger] crate::variant::picked(frame, sizes, i) && variant == sizes[i]
            },
            Err(error) => {
                &&& error matches CoreError::ModelNotFound(text) && text@
                    == "no RVM variants in "@ + self.directory()
                &&& !crate::variant::wish_granted(sizes, preference)
                &&& forall|i: int|
                    0 <= i < sizes.len() ==> !#[trigger] crate::variant::suits(frame, sizes, i)
            },
        }
    }

    pub fn new(models_dir: String, files: Vec<String>) -> (provider: Self)
        ensures
            provider.directory() == models_dir@,
            provider.file_names() == files@,
    {
        OnnxModelProvider { models_dir, files }
    }

    /// The size of the recurrent model for a frame.
    pub fn resolve_rvm_variant(&self, preference: VariantPreference, frame: FrameSize) -> (result:
        Result<ModelVariant, CoreError>)
        ensures
            self.resolves_to(preference, frame@, result),
    {
        let available = available_rvm_variants(self.files.as_slice());
        match select_variant(frame, available.as_slice(), preference) {
            Some(variant) => Ok(variant),
            None => {
                let mut text = String::new();
                text.append("no RVM variants in ");
                text.append(self.models_dir.as_str());
                proof {
                    assert(text@ =~= "no RVM variants in "@ + self.models_dir@);
                }
                Err(CoreError::ModelNotFound(text))
            },
        }
    }

    /// The model that the settings ask for.
    pub fn select_model(&self, settings: &SegmentationSettings, frame: FrameSize) -> (result: Result<
        ModelChoice,
        CoreError,
    >)
        ensures
            match settings.method {
                SegmentationMethod::Rvm => match result {
                    Ok(ModelChoice::Rvm(variant)) => self.resolves_to(
                        settings.variant,
                        frame@,
                        Ok(variant),
                    ),
                    Ok(_) => false,
                    Err(error) => self.resolves_to(settings.variant, frame@, Err(error)),
                },
                SegmentationMethod::MediaPipe => result == Ok::<ModelChoice, CoreError>(
                    ModelChoice::MediaPipe(MediaPipeVariant::for_dims(frame@)),
                ),
            },
    {
        match settings.method {
            SegmentationMethod::Rvm => match self.resolve_rvm_variant(settings.variant, frame) {
                Ok(variant) => Ok(ModelChoice::Rvm(variant)),
                Err(error) => Err(error),
            },
            SegmentationMethod::MediaPipe => Ok(
                ModelChoice::MediaPipe(MediaPipeVariant::for_frame(frame)),
            ),
        }
    }
}

/// What a loaded model was loaded for.
#[derive(Clone, Copy, PartialEq, Eq, Structural)]
pub struct ModelKey {
    pub method: SegmentationMethod,
    pub variant: VariantPreference,
    pub device: InferenceDevice,
    pub frame: FrameSize,
}

impl ModelKey {
    pub open spec fn of(settings: SegmentationSettings, frame: FrameSize) -> ModelKey {
        ModelKey {
            method: settings.method,
            variant: settings.variant,
            device: settings.device,
            frame,
        }
    }

    fn new(settings: &SegmentationSettings, frame: FrameSize) -> (key: Self)
        ensures
            key == Self::of(*settings, frame),
    {
        ModelKey {
            method: settings.method,
            variant: settings.variant,
            device: settings.device,
            frame,
        }
    }

    fn same(&self, other: &ModelKey) -> (same: bool)
        ensures
            same == (*self == *other),
    {
        self.method == other.method && self.variant == other.variant && self.device
            == other.device && self.frame == other.frame
    }
}

struct Segmenter<M> {
    key: ModelKey,
    model: M,
    refiner: MaskRefiner,
}

struct ImageBackground {
    source: Arc<RgbImage>,
    size: FrameSize,
    matrix: ColorMatrix,
    frame: Nv12Frame,
}

/// Whether two handles share one picture, by `Arc::ptr_eq`. Handles to the same
/// allocation hold the same picture; nothing is claimed of others.
#[verifier::external_body]
pub(crate) fn same_picture(a: &Arc<RgbImage>, b: &Arc<RgbImage>) -> (same: bool)
    ensures
        same ==> *a == *b,
{
    Arc::ptr_eq(a, b)
}

/// Another handle to the same picture, by `Arc::clone`.
#[verifier::external_body]
pub(crate) fn share(picture: &Arc<RgbImage>) -> (shared: Arc<RgbImage>)
    ensures
        shared == *picture,
{
    Arc::clone(picture)
}

fn same_mask(a: &Option<MaskParams>, b: &Option<MaskParams>) -> (same: bool)
    ensures
        same == (*a == *b),
{
    match (a, b) {
        (Some(x), Some(y)) => *x == *y,
        (None, None) => true,
        _ => false,
    }
}

/// What a model asks for by itself for the treatment of its masks.
pub open spec fn suits<M: SegmentationModel>(model: M, params: MaskParams) -> bool {
    call_ensures(<M as SegmentationModel>::default_mask_params, (&model,), params)
}

/// A model has a grid of opacities.
pub open spec fn has_grid<M: SegmentationModel>(model: M, grid: FrameSize) -> bool {
    call_ensures(<M as SegmentationModel>::mask_size, (&model,), grid)
}

/// The model is what its source gave for the settings.
pub open spec fn loads<P: ModelProvider>(
    source: P,
    settings: PipelineSettings,
    model: P::Model,
) -> bool {
    call_ensures(
        <P as ModelProvider>::load,
        (&source, &settings.segmentation, settings.output),
        Ok::<P::Model, CoreError>(model),
    )
}

/// Why no model is there: its source refused it, or it has more cells than can
/// be counted.
pub open spec fn not_loaded<P: ModelProvider>(
    source: P,
    settings: PipelineSettings,
    error: CoreError,
) -> bool {
    ||| call_ensures(
        <P as ModelProvider>::load,
        (&source, &settings.segmentation, settings.output),
        Err::<P::Model, CoreError>(error),
    )
    ||| exists|model: P::Model, grid: FrameSize|
        {
            &&& loads(source, settings, model)
            &&& #[trigger] has_grid(model, grid)
            &&& !grid@.addressable(1)
            &&& error == CoreError::InvalidFrameSize {
                width: grid@.width as u32,
                height: grid@.height as u32,
            }
        }
}

/// What the masks of a model remember at first: nothing, on its grid, with the
/// treatment that the settings ask for, else the one that suits the model.
pub open spec fn starts<M: SegmentationModel>(
    model: M,
    settings: PipelineSettings,
    refining: Refining,
) -> bool {
    exists|grid: FrameSize, params: MaskParams|
        {
            &&& #[trigger] has_grid(model, grid)
            &&& refining == #[trigger] fresh_refining(grid@, settings.output@, params)
            &&& match settings.segmentation.mask {
                Some(given) => params == given,
                None => suits(model, params),
            }
        }
}

/// The opacities in the reply of a model, or why there are none.
pub open spec fn opacity(
    reply: Result<crate::segmentation::AlphaMask, CoreError>,
) -> Result<Seq<u8>, CoreError> {
    match reply {
        Ok(mask) => Ok(mask.data@),
        Err(error) => Err(error),
    }
}

/// Asks a model where the person is.
fn ask<M: SegmentationModel>(model: &mut M, frame: &Nv12Frame, matrix: ColorMatrix) -> (answer:
    Result<Vec<u8>, CoreError>)
    requires
        frame.wf(),
    ensures
        exists|asked: &mut M, reply: Result<crate::segmentation::AlphaMask, CoreError>|
            {
                &&& #[trigger] call_ensures(
                    <M as SegmentationModel>::segment,
                    (asked, frame, matrix),
                    reply,
                )
                &&& *asked == *old(model)
                &&& *final(asked) == *final(model)
                &&& match answer {
                    Ok(alpha) => opacity(reply) == Ok::<Seq<u8>, CoreError>(alpha@),
                    Err(error) => opacity(reply) == Err::<Seq<u8>, CoreError>(error),
                }
            },
{
    match model.segment(frame, matrix) {
        Ok(mask) => Ok(crate::frame::copied(mask.data)),
        Err(error) => Err(error),
    }
}

/// A refiner that has seen no mask yet.
pub open spec fn fresh_refining(mask: Dims, output: Dims, params: MaskParams) -> Refining {
    Refining {
        model_width: mask.width,
        model_height: mask.height,
        output,
        weight: crate::mask::history_weight(params.temporal_smoothing as int),
        edges: crate::mask::edge_table(params.edge_low as int, params.edge_high as int),
        history: Seq::new((mask.width * mask.height) as nat, |i: int| 0u16),
        has_history: false,
    }
}

/// The pipeline on the processor.
pub struct CpuPipeline<P: ModelProvider> {
    provider: P,
    settings: PipelineSettings,
    input_size: Option<FrameSize>,
    oriented: Option<Nv12Frame>,
    scaler: Option<Nv12Scaler>,
    frame: Nv12Frame,
    composed: Nv12Frame,
    bgra: BgraFrame,
    blurred: Nv12Frame,
    blur: Option<BackgroundBlur>,
    segmenter: Option<Segmenter<P::Model>>,
    image: Option<ImageBackground>,
}

impl<P: ModelProvider> CpuPipeline<P> {
    pub closed spec fn current(&self) -> PipelineSettings {
        self.settings
    }

    /// The last camera frame, turned and scaled.
    pub closed spec fn prepared(&self) -> Nv12 {
        self.frame@
    }

    /// The size of the last camera frame.
    pub closed spec fn seen(&self) -> Option<Dims> {
        match self.input_size {
            Some(size) => Some(size@),
            None => None,
        }
    }

    /// What the loaded model was loaded for.
    pub closed spec fn loaded(&self) -> Option<ModelKey> {
        match self.segmenter {
            Some(segmenter) => Some(segmenter.key),
            None => None,
        }
    }

    /// The loaded model.
    pub closed spec fn held(&self) -> Option<P::Model> {
        match self.segmenter {
            Some(segmenter) => Some(segmenter.model),
            None => None,
        }
    }

    /// Whoever loads the models.
    pub closed spec fn source(&self) -> P {
        self.provider
    }

    /// What the masks' refiner remembers.
    pub closed spec fn refining(&self) -> Option<Refining> {
        match self.segmenter {
            Some(segmenter) => Some(segmenter.refiner@),
            None => None,
        }
    }

    /// The buffers have the output size, the loaded model is the one that the
    /// settings ask for, and no model is held where the effect needs none.
    pub closed spec fn wf(&self) -> bool {
        let output = self.settings.output@;
        &&& self.settings.wf()
        &&& output.valid()
        &&& self.frame.wf()
        &&& self.frame@.size == output
        &&& self.composed.wf()
        &&& self.composed@.size == output
        &&& self.bgra.wf()
        &&& self.bgra@.size == output
        &&& self.blurred.wf()
        &&& self.blurred@.size == output
        &&& self.scaler matches Some(scaler) ==> scaler.wf() && scaler.scale_mode()
            == ScaleMode::Fill
        &&& self.blur matches Some(blur) ==> blur.wf() && blur.frame_size() == output
        &&& self.segmenter matches Some(segmenter) ==> {
            &&& segmenter.refiner.wf()
            &&& segmenter.refiner@.output == output
            &&& segmenter.key == ModelKey::of(self.settings.segmentation, self.settings.output)
            &&& self.settings.effect.masked()
        }
        &&& self.image matches Some(image) ==> {
            &&& image.frame.wf()
            &&& image.frame@ == crate::background::frame_of_picture(
                image.source@,
                image.size@,
                image.matrix,
            )
        }
        &&& self.input_size matches Some(size) ==> if self.settings.orientation
            == crate::orientation::upright() {
            self.oriented is None
        } else {
            self.oriented matches Some(oriented) && oriented.wf() && oriented@.size
                == self.settings.orientation.oriented_size(size@)
        }
    }

    /// The loaded model is the one that the settings ask for, and a model is
    /// held only where the effect needs one.
    pub proof fn law_the_model_follows_the_settings(&self)
        requires
            self.wf(),
        ensures
            self.current().wf(),
            self.loaded() matches Some(key) ==> key == ModelKey::of(
                self.current().segmentation,
                self.current().output,
            ) && self.current().effect.masked(),
            self.loaded() is Some <==> self.refining() is Some,
            self.loaded() is Some <==> self.held() is Some,
            self.refining() matches Some(refining) ==> refining.valid() && refining.output
                == self.current().output@,
            self.prepared().valid(),
            self.prepared().size == self.current().output@,
    {
        if let Some(segmenter) = self.segmenter {
            segmenter.refiner.lemma_wf();
        }
    }

    pub fn new(provider: P, settings: PipelineSettings) -> (pipeline: Self)
        requires
            settings.wf(),
        ensures
            pipeline.wf(),
            pipeline.current() == settings,
            pipeline.source() == provider,
            pipeline.loaded() is None,
            pipeline.held() is None,
            pipeline.seen() is None,
            pipeline.prepared() == Nv12::uniform(settings.output@, crate::color::yuv_black()),
    {
        let output = settings.output;
        let _: u32 = output.width();
        proof {
            crate::frame::lemma_chroma_is_half(output@);
        }
        CpuPipeline {
            provider,
            settings,
            input_size: None,
            oriented: None,
            scaler: None,
            frame: Nv12Frame::new(output),
            composed: Nv12Frame::new(output),
            bgra: BgraFrame::new(output),
            blurred: Nv12Frame::new(output),
            blur: None,
            segmenter: None,
            image: None,
        }
    }

    pub fn settings(&self) -> (settings: &PipelineSettings)
        ensures
            *settings == self.current(),
    {
        &self.settings
    }

    /// The name of the loaded model.
    pub fn active_model(&self) -> (name: Option<&str>)
        ensures
            name is Some <==> self.loaded() is Some,
            match self.held() {
                Some(model) => name matches Some(text) && call_ensures(
                    <P::Model as SegmentationModel>::name,
                    (&model,),
                    text,
                ),
                None => name is None,
            },
    {
        match &self.segmenter {
            Some(segmenter) => Some(segmenter.model.name()),
            None => None,
        }
    }

    /// Takes over new settings. What they leave as it was is kept: the model and
    /// its memory as long as the model and the output size stay the same.
    pub fn apply_settings(&mut self, settings: PipelineSettings)
        requires
            old(self).wf(),
            settings.wf(),
        ensures
            final(self).wf(),
            final(self).current() == settings,
            final(self).source() == old(self).source(),
            ({
                let key = ModelKey::of(settings.segmentation, settings.output);
                let before = old(self).current();
                let keeps = settings.effect.masked() && old(self).loaded() == Some(key);
                &&& final(self).loaded() == if keeps {
                    Some(key)
                } else {
                    None
                }
                &&& final(self).held() == if keeps {
                    old(self).held()
                } else {
                    None
                }
                &&& keeps && settings.segmentation.mask == before.segmentation.mask
                    ==> final(self).refining() == old(self).refining()
                &&& keeps && settings.segmentation.mask != before.segmentation.mask ==> {
                    match settings.segmentation.mask {
                        Some(params) => final(self).refining() == Some(
                            old(self).refining().unwrap().with_params(params),
                        ),
                        None => exists|params: MaskParams|
                            final(self).refining() == Some(
                                #[trigger] old(self).refining().unwrap().with_params(params),
                            ) && suits(old(self).held().unwrap(), params),
                    }
                }
                &&& final(self).prepared() == if settings.output@ == before.output@ {
                    old(self).prepared()
                } else {
                    Nv12::uniform(settings.output@, crate::color::yuv_black())
                }
                &&& final(self).seen() == if settings.orientation == before.orientation {
                    old(self).seen()
                } else {
                    None
                }
            }),
    {
        let output = settings.output;
        proof {
            output.lemma_known_by_view(self.settings.output);
        }
        if output != self.settings.output {
            let _: u32 = output.width();
            proof {
                crate::frame::lemma_chroma_is_half(output@);
            }
            self.frame = Nv12Frame::new(output);
            self.composed = Nv12Frame::new(output);
            self.bgra = BgraFrame::new(output);
            self.blurred = Nv12Frame::new(output);
            self.scaler = None;
            self.blur = None;
            self.segmenter = None;
            self.image = None;
        }
        if settings.orientation != self.settings.orientation {
            self.input_size = None;
        }
        let key = ModelKey::new(&settings.segmentation, output);
        let mask_changed: bool = !same_mask(
            &settings.segmentation.mask,
            &self.settings.segmentation.mask,
        );
        let keep: bool = settings.effect.needs_mask() && match &self.segmenter {
            Some(segmenter) => segmenter.key.same(&key),
            None => false,
        };
        if !keep {
            self.segmenter = None;
        } else if mask_changed {
            if let Some(segmenter) = &mut self.segmenter {
                let params: MaskParams = match settings.segmentation.mask {
                    Some(params) => params,
                    None => segmenter.model.default_mask_params(),
                };
                segmenter.refiner.set_params(params);
            }
        }
        self.settings = settings;
    }

    /// Forgets the earlier frames, in the model and in the masks.
    pub fn reset_temporal_state(&mut self)
        requires
            old(self).wf(),
        ensures
            final(self).wf(),
            final(self).current() == old(self).current(),
            final(self).prepared() == old(self).prepared(),
            final(self).seen() == old(self).seen(),
            final(self).source() == old(self).source(),
            final(self).loaded() == old(self).loaded(),
            match old(self).held() {
                Some(before) => exists|model: &mut P::Model|
                    {
                        &&& #[trigger] call_ensures(
                            <P::Model as SegmentationModel>::reset,
                            (model,),
                            (),
                        )
                        &&& *model == before
                        &&& final(self).held() == Some(*final(model))
                    },
                None => final(self).held() is None,
            },
            final(self).refining() == match old(self).refining() {
                Some(refining) => Some(refining.forgotten()),
                None => None,
            },
    {
        if let Some(segmenter) = &mut self.segmenter {
            segmenter.model.reset();
            segmenter.refiner.reset();
        }
    }

    /// Turns a camera frame and scales it to the output size. A frame of another
    /// size than the one before makes the masks forget.
    fn prepare_frame(&mut self, input: &Nv12Frame)
        requires
            old(self).wf(),
            input.wf(),
        ensures
            final(self).wf(),
            final(self).current() == old(self).current(),
            final(self).prepared() == prepared_frame(input@, old(self).current()),
            final(self).seen() == Some(input@.size),
            final(self).source() == old(self).source(),
            final(self).loaded() == old(self).loaded(),
            match old(self).held() {
                Some(before) => if old(self).seen() == Some(input@.size) {
                    final(self).held() == Some(before)
                } else {
                    exists|model: &mut P::Model|
                        {
                            &&& #[trigger] call_ensures(
                                <P::Model as SegmentationModel>::reset,
                                (model,),
                                (),
                            )
                            &&& *model == before
                            &&& final(self).held() == Some(*final(model))
                        }
                },
                None => final(self).held() is None,
            },
            final(self).refining() == match old(self).refining() {
                Some(refining) => Some(
                    if old(self).seen() == Some(input@.size) {
                        refining
                    } else {
                        refining.forgotten()
                    },
                ),
                None => None,
            },
    {
        let orientation = self.settings.orientation;
        let size = input.size();
        let oriented_size = orientation.output_size(size);
        proof {
            crate::orientation::law_oriented_frames_are_valid(orientation, input@);
            if orientation == crate::orientation::upright() {
                crate::orientation::law_upright_changes_nothing(input@);
            }
        }
        let known: bool = match self.input_size {
            Some(seen) => {
                proof {
                    seen.lemma_known_by_view(size);
                }
                seen == size
            },
            None => false,
        };
        if !known {
            self.input_size = Some(size);
            self.oriented = if orientation.is_identity() {
                None
            } else {
                Some(Nv12Frame::new(oriented_size))
            };
            self.scaler = None;
            self.reset_temporal_state();
        }
        if let Some(oriented) = &mut self.oriented {
            let _ = orientation.apply(input, oriented);
        }
        let output = self.settings.output;
        let fits: bool = match &self.scaler {
            Some(scaler) => {
                let (from, to) = (scaler.source(), scaler.target());
                proof {
                    from.lemma_known_by_view(oriented_size);
                    to.lemma_known_by_view(output);
                }
                from == oriented_size && to == output
            },
            None => false,
        };
        if !fits {
            self.scaler = Some(Nv12Scaler::new(oriented_size, output, ScaleMode::Fill));
        }
        if let Some(scaler) = &self.scaler {
            let _ = match &self.oriented {
                Some(oriented) => scaler.scale(oriented, &mut self.frame),
                None => scaler.scale(input, &mut self.frame),
            };
        }
    }

    /// Loads the model that the settings ask for, unless it is loaded already.
    fn ensure_segmenter(&mut self) -> (result: Result<(), CoreError>)
        requires
            old(self).wf(),
            old(self).current().effect.masked(),
        ensures
            final(self).wf(),
            final(self).current() == old(self).current(),
            final(self).prepared() == old(self).prepared(),
            final(self).seen() == old(self).seen(),
            final(self).source() == old(self).source(),
            final(self).loaded() is Some <==> result is Ok,
            old(self).loaded() is Some ==> {
                &&& result is Ok
                &&& final(self).held() == old(self).held()
                &&& final(self).refining() == old(self).refining()
            },
            old(self).loaded() is None ==> match result {
                Ok(()) => {
                    &&& final(self).held() matches Some(model) && loads(
                        old(self).source(),
                        old(self).current(),
                        model,
                    )
                    &&& final(self).refining() matches Some(refining) && starts(
                        final(self).held().unwrap(),
                        old(self).current(),
                        refining,
                    )
                },
                Err(error) => {
                    &&& final(self).held() is None
                    &&& final(self).refining() is None
                    &&& not_loaded(old(self).source(), old(self).current(), error)
                },
            },
    {
        if self.segmenter.is_some() {
            return Ok(());
        }
        let frame = self.settings.output;
        let settings = self.settings.segmentation;
        let key = ModelKey::new(&settings, frame);
        let model = match self.provider.load(&settings, frame) {
            Ok(model) => model,
            Err(error) => return Err(error),
        };
        let params: MaskParams = match settings.mask {
            Some(params) => params,
            None => model.default_mask_params(),
        };
        let mask_size = model.mask_size();
        let (width, height): (u32, u32) = (mask_size.width(), mask_size.height());
        proof {
            assert(has_grid(model, mask_size));
        }
        if (width as usize).checked_mul(height as usize).is_none() {
            assert(!mask_size@.addressable(1));
            return Err(CoreError::InvalidFrameSize { width, height });
        }
        let refiner = MaskRefiner::new(width, height, frame, params);
        proof {
            assert(refiner@ == fresh_refining(mask_size@, frame@, params));
        }
        self.segmenter = Some(Segmenter { key, model, refiner });
        Ok(())
    }

    /// Hands out a frame in a format.
    fn finish<'a>(&'a mut self, format: OutputFormat, matrix: ColorMatrix, passthrough: bool) -> (
        result: Result<PipelineOutput<'a>, CoreError>)
        requires
            old(self).wf(),
        ensures
            final(self).wf(),
            final(self).current() == old(self).current(),
            final(self).prepared() == old(self).prepared(),
            final(self).seen() == old(self).seen(),
            final(self).source() == old(self).source(),
            final(self).loaded() == old(self).loaded(),
            final(self).held() == old(self).held(),
            final(self).refining() == old(self).refining(),
            result matches Ok(output) && output@ == in_format(
                if passthrough {
                    old(self).frame@
                } else {
                    old(self).composed@
                },
                matrix,
                format,
            ),
    {
        let result: &Nv12Frame = if passthrough {
            &self.frame
        } else {
            &self.composed
        };
        match format {
            OutputFormat::Nv12 => Ok(PipelineOutput::Nv12(result)),
            OutputFormat::Bgra => {
                match nv12_to_bgra(result, None, matrix, &mut self.bgra) {
                    Ok(()) => Ok(PipelineOutput::Bgra(&self.bgra)),
                    Err(error) => Err(error),
                }
            },
        }
    }

    /// Lays the prepared frame over the background, given the opacity that the
    /// model gave each of its cells.
    #[verifier::rlimit(40)]
    pub fn compose<'a>(&'a mut self, alpha: &[u8], format: OutputFormat) -> (result: Result<
        PipelineOutput<'a>,
        CoreError,
    >)
        requires
            old(self).wf(),
        ensures
            final(self).wf(),
            final(self).current() == old(self).current(),
            final(self).prepared() == old(self).prepared(),
            final(self).seen() == old(self).seen(),
            final(self).source() == old(self).source(),
            final(self).loaded() == old(self).loaded(),
            final(self).held() == old(self).held(),
            match old(self).refining() {
                None => {
                    &&& result matches Err(CoreError::Inference(text)) && text@
                        == "segmenter unavailable"@
                    &&& final(self).refining() is None
                },
                Some(refining) => if alpha@.len() != refining.history.len() {
                    &&& result == Err::<PipelineOutput<'a>, CoreError>(
                        CoreError::PlaneSizeMismatch {
                            expected: refining.history.len() as usize,
                            actual: alpha@.len() as usize,
                        },
                    )
                    &&& final(self).refining() == Some(refining)
                } else {
                    &&& result matches Ok(output) && output@ == shown(
                        old(self).current().effect,
                        old(self).prepared(),
                        refining.luma(alpha@),
                        refining.chroma(alpha@),
                        old(self).current().matrix_spec(),
                        format,
                    )
                    &&& final(self).refining() == Some(refining.after(alpha@))
                },
            },
    {
        let matrix = self.settings.matrix();
        let output = self.settings.output;
        let _: u32 = output.width();
        let ghost before = self.refining();
        let ghost size = output@;
        proof {
            crate::frame::lemma_chroma_is_half(size);
        }
        let segmenter = match &mut self.segmenter {
            Some(segmenter) => segmenter,
            None => {
                let mut text = String::new();
                text.append("segmenter unavailable");
                proof {
                    assert(text@ =~= "segmenter unavailable"@);
                }
                return Err(CoreError::Inference(text));
            },
        };
        let mask = match segmenter.refiner.refine(alpha) {
            Ok(mask) => mask,
            Err(error) => return Err(error),
        };
        let blended: Result<(), CoreError> = match &self.settings.effect {
            BackgroundEffect::Passthrough => Ok(()),
            BackgroundEffect::Color(rgb) => blend_nv12(
                &self.frame,
                Background::Solid(matrix.to_yuv(*rgb)),
                mask.luma,
                mask.chroma,
                &mut self.composed,
            ),
            BackgroundEffect::Transparent { fallback } => {
                if format == OutputFormat::Bgra {
                    return match nv12_to_bgra(
                        &self.frame,
                        Some(mask.luma),
                        matrix,
                        &mut self.bgra,
                    ) {
                        Ok(()) => Ok(PipelineOutput::Bgra(&self.bgra)),
                        Err(error) => Err(error),
                    };
                }
                blend_nv12(
                    &self.frame,
                    Background::Solid(matrix.to_yuv(*fallback)),
                    mask.luma,
                    mask.chroma,
                    &mut self.composed,
                )
            },
            BackgroundEffect::Blur { strength } => {
                let fits: bool = match &self.blur {
                    Some(blur) => blur.strength() == strength.clamped(),
                    None => false,
                };
                if !fits {
                    self.blur = Some(BackgroundBlur::new(output, *strength));
                }
                if let Some(blur) = &self.blur {
                    let _ = blur.apply(&self.frame, &mut self.blurred);
                }
                blend_nv12(
                    &self.frame,
                    Background::Frame(&self.blurred),
                    mask.luma,
                    mask.chroma,
                    &mut self.composed,
                )
            },
            BackgroundEffect::Image(source) => {
                let fresh: bool = match &self.image {
                    Some(image) => {
                        proof {
                            image.size.lemma_known_by_view(output);
                        }
                        same_picture(&image.source, source) && image.size == output
                            && image.matrix == matrix
                    },
                    None => false,
                };
                if !fresh {
                    match source.to_nv12(output, matrix) {
                        Ok(frame) => {
                            self.image = Some(
                                ImageBackground {
                                    source: share(source),
                                    size: output,
                                    matrix,
                                    frame,
                                },
                            );
                        },
                        Err(error) => return Err(error),
                    }
                }
                match &self.image {
                    Some(image) => blend_nv12(
                        &self.frame,
                        Background::Frame(&image.frame),
                        mask.luma,
                        mask.chroma,
                        &mut self.composed,
                    ),
                    None => Ok(()),
                }
            },
        };
        match blended {
            Ok(()) => {},
            Err(error) => return Err(error),
        }
        let passthrough: bool = !self.settings.effect.needs_mask();
        self.finish(format, matrix, passthrough)
    }

    /// Takes a camera frame all the way. Without an effect no model is asked;
    /// with one, the model says where the person is. Whether that succeeds is up to
    /// the model and whoever loads it.
    #[verifier::rlimit(30)]
    pub fn process<'a>(&'a mut self, input: &Nv12Frame, format: OutputFormat) -> (result: Result<
        PipelineOutput<'a>,
        CoreError,
    >)
        requires
            old(self).wf(),
            input.wf(),
        ensures
            final(self).wf(),
            final(self).current() == old(self).current(),
            final(self).prepared() == prepared_frame(input@, old(self).current()),
            final(self).seen() == Some(input@.size),
            final(self).source() == old(self).source(),
            !old(self).current().effect.masked() ==> {
                &&& result matches Ok(output) && output@ == in_format(
                    prepared_frame(input@, old(self).current()),
                    old(self).current().matrix_spec(),
                    format,
                )
                &&& final(self).loaded() is None
                &&& final(self).held() is None
            },
            old(self).current().effect.masked() ==> match result {
                Ok(output) => exists|
                    asked: &mut P::Model,
                    given: &Nv12Frame,
                    mask: crate::segmentation::AlphaMask,
                    refining: Refining,
                |
                    {
                        &&& match old(self).held() {
                            Some(before) => if old(self).seen() == Some(input@.size) {
                                *asked == before
                            } else {
                                exists|model: &mut P::Model|
                                    {
                                        &&& #[trigger] call_ensures(
                                            <P::Model as SegmentationModel>::reset,
                                            (model,),
                                            (),
                                        )
                                        &&& *model == before
                                        &&& *final(model) == *asked
                                    }
                            },
                            None => loads(old(self).source(), old(self).current(), *asked),
                        }
                        &&& remembers(
                            old(self).refining(),
                            old(self).seen() == Some(input@.size),
                            old(self).current(),
                            *asked,
                            refining,
                        )
                        &&& #[trigger] call_ensures(
                            <P::Model as SegmentationModel>::segment,
                            (asked, given, old(self).current().matrix_spec()),
                            Ok::<crate::segmentation::AlphaMask, CoreError>(mask),
                        )
                        &&& given@ == prepared_frame(input@, old(self).current())
                        &&& final(self).held() == Some(*final(asked))
                        &&& mask.data@.len() == refining.history.len()
                        &&& final(self).refining() == Some(#[trigger] refining.after(mask.data@))
                        &&& output@ == shown(
                            old(self).current().effect,
                            prepared_frame(input@, old(self).current()),
                            refining.luma(mask.data@),
                            refining.chroma(mask.data@),
                            old(self).current().matrix_spec(),
                            format,
                        )
                    },
                Err(error) => {
                    ||| {
                        &&& old(self).held() is None
                        &&& final(self).held() is None
                        &&& final(self).refining() is None
                        &&& not_loaded(old(self).source(), old(self).current(), error)
                    }
                    ||| exists|
                        asked: &mut P::Model,
                        given: &Nv12Frame,
                        reply: Result<crate::segmentation::AlphaMask, CoreError>,
                        refining: Refining,
                    |
                        {
                            &&& match old(self).held() {
                                Some(before) => if old(self).seen() == Some(input@.size) {
                                    *asked == before
                                } else {
                                    exists|model: &mut P::Model|
                                        {
                                            &&& #[trigger] call_ensures(
                                                <P::Model as SegmentationModel>::reset,
                                                (model,),
                                                (),
                                            )
                                            &&& *model == before
                                            &&& *final(model) == *asked
                                        }
                                },
                                None => loads(old(self).source(), old(self).current(), *asked),
                            }
                            &&& remembers(
                                old(self).refining(),
                                old(self).seen() == Some(input@.size),
                                old(self).current(),
                                *asked,
                                refining,
                            )
                            &&& #[trigger] call_ensures(
                                <P::Model as SegmentationModel>::segment,
                                (asked, given, old(self).current().matrix_spec()),
                                reply,
                            )
                            &&& given@ == prepared_frame(input@, old(self).current())
                            &&& final(self).held() == Some(*final(asked))
                            &&& final(self).refining() == Some(refining)
                            &&& #[trigger] is_trouble(opacity(reply), refining, error)
                        }
                },
            },
    {
        self.prepare_frame(input);
        let matrix = self.settings.matrix();
        if !self.settings.effect.needs_mask() {
            return self.finish(format, matrix, true);
        }
        match self.ensure_segmenter() {
            Ok(()) => {},
            Err(error) => return Err(error),
        }
        let ghost ready = self.refining();
        let alpha: Vec<u8> = match &mut self.segmenter {
            Some(segmenter) => match ask(&mut segmenter.model, &self.frame, matrix) {
                Ok(alpha) => alpha,
                Err(error) => {
                    assert(is_trouble(Err(error), ready.unwrap(), error));
                    return Err(error);
                },
            },
            None => Vec::new(),
        };
        assert(self.refining() == ready);
        proof {
            let cells = ready.unwrap().history.len();
            if alpha@.len() != cells {
                assert(is_trouble(
                    Ok(alpha@),
                    ready.unwrap(),
                    CoreError::PlaneSizeMismatch {
                        expected: cells as usize,
                        actual: alpha@.len() as usize,
                    },
                ));
            }
        }
        self.compose(alpha.as_slice(), format)
    }
}

/// What the masks remember when a frame is composed: what they remembered
/// before, unless the camera's frame size changed, or nothing where the model
/// was loaded for this frame.
pub open spec fn remembers<M: SegmentationModel>(
    before: Option<Refining>,
    same_size: bool,
    settings: PipelineSettings,
    asked: M,
    now: Refining,
) -> bool {
    match before {
        Some(refining) => now == if same_size {
            refining
        } else {
            refining.forgotten()
        },
        None => starts(asked, settings, now),
    }
}

/// Why the answer of a model gives no frame: it has none, or not one opacity for
/// each cell.
pub open spec fn is_trouble(
    answer: Result<Seq<u8>, CoreError>,
    refining: Refining,
    error: CoreError,
) -> bool {
    match answer {
        Err(reason) => error == reason,
        Ok(alpha) => alpha.len() != refining.history.len() && error
            == CoreError::PlaneSizeMismatch {
            expected: refining.history.len() as usize,
            actual: alpha.len() as usize,
        },
    }
}

/// Whoever cannot take transparency sees the fallback colour instead, just as
/// if that colour were the effect.
pub proof fn law_transparency_falls_back_to_the_colour(
    fallback: Rgb,
    frame: Nv12,
    luma: Seq<u8>,
    chroma: Seq<u8>,
    matrix: ColorMatrix,
)
    ensures
        shown(
            BackgroundEffect::Transparent { fallback },
            frame,
            luma,
            chroma,
            matrix,
            OutputFormat::Nv12,
        ) == shown(
            BackgroundEffect::Color(fallback),
            frame,
            luma,
            chroma,
            matrix,
            OutputFormat::Nv12,
        ),
{
}

/// Where transparency can be taken, the colours are those of the camera and the
/// mask is the opacity.
pub proof fn law_transparency_carries_the_mask(
    fallback: Rgb,
    frame: Nv12,
    luma: Seq<u8>,
    chroma: Seq<u8>,
    matrix: ColorMatrix,
    pixel: int,
)
    requires
        frame.valid(),
        0 <= pixel < frame.size.area(),
    ensures
        ({
            let effect = BackgroundEffect::Transparent { fallback };
            &&& shown(effect, frame, luma, chroma, matrix, OutputFormat::Bgra) matches Shown::Bgra(
                carried,
            )
            &&& in_format(frame, matrix, OutputFormat::Bgra) matches Shown::Bgra(plain)
            &&& carried.data[pixel * 4] == plain.data[pixel * 4]
            &&& carried.data[pixel * 4 + 1] == plain.data[pixel * 4 + 1]
            &&& carried.data[pixel * 4 + 2] == plain.data[pixel * 4 + 2]
            &&& carried.data[pixel * 4 + 3] == luma[pixel]
            &&& plain.data[pixel * 4 + 3] == 255
        }),
{
}

} // verus!
