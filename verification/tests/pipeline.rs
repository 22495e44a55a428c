use std::cell::{Cell, RefCell};
use std::rc::Rc;
use std::sync::Arc;

use chromafree::background::RgbImage;
use chromafree::blur::BlurStrength;
use chromafree::color::{ColorMatrix, Rgb, Yuv};
use chromafree::error::CoreError;
use chromafree::frame::{FrameSize, Nv12Frame};
use chromafree::mask::MaskParams;
use chromafree::orientation::{Orientation, Rotation};
use chromafree::pipeline::{
    BackgroundEffect, CpuPipeline, ModelChoice, ModelProvider, OnnxModelProvider, OutputFormat, PipelineOutput,
    PipelineSettings, SegmentationMethod, SegmentationSettings,
};
use chromafree::processor::{wanted_adapter, Processor};
use chromafree::segmentation::{AlphaMask, InferenceDevice, MediaPipeVariant, SegmentationModel};
use chromafree::variant::{ModelVariant, VariantPreference};

const MASK_WIDTH: u32 = 64;
const MASK_HEIGHT: u32 = 36;

struct EllipseModel {
    alpha: Vec<u8>,
    segments: Rc<Cell<usize>>,
}

impl SegmentationModel for EllipseModel {
    fn name(&self) -> &str {
        "ellipse"
    }

    fn mask_size(&self) -> FrameSize {
        FrameSize::new(MASK_WIDTH, MASK_HEIGHT).unwrap()
    }

    fn default_mask_params(&self) -> MaskParams {
        MaskParams::recurrent_model()
    }

    fn segment<'a>(&'a mut self, _frame: &Nv12Frame, _matrix: ColorMatrix) -> Result<AlphaMask<'a>, CoreError> {
        self.segments.set(self.segments.get() + 1);
        Ok(AlphaMask {
            width: MASK_WIDTH,
            height: MASK_HEIGHT,
            data: &self.alpha,
        })
    }

    fn reset(&mut self) {}
}

#[derive(Clone, Default)]
struct Counters {
    loads: Rc<Cell<usize>>,
    segments: Rc<Cell<usize>>,
}

struct EllipseProvider(Counters);

impl ModelProvider for EllipseProvider {
    type Model = EllipseModel;

    fn load(&self, _settings: &SegmentationSettings, _frame: FrameSize) -> Result<EllipseModel, CoreError> {
        self.0.loads.set(self.0.loads.get() + 1);
        let alpha = (0..MASK_HEIGHT)
            .flat_map(|y| {
                (0..MASK_WIDTH).map(move |x| {
                    let dx = (x as f32 + 0.5) / MASK_WIDTH as f32 - 0.5;
                    let dy = (y as f32 + 0.5) / MASK_HEIGHT as f32 - 0.5;
                    if dx * dx / 0.04 + dy * dy / 0.09 < 1.0 {
                        255
                    } else {
                        0
                    }
                })
            })
            .collect();
        Ok(EllipseModel {
            alpha,
            segments: Rc::clone(&self.0.segments),
        })
    }
}

fn size(width: u32, height: u32) -> FrameSize {
    FrameSize::new(width, height).unwrap()
}

fn camera_frame() -> Nv12Frame {
    Nv12Frame::filled(size(1920, 1080), Yuv { y: 200, u: 90, v: 170 })
}

fn strongest() -> BlurStrength {
    BlurStrength {
        amount: 1 << 60,
        factor: 8_388_608,
    }
}

fn pipeline(effect: BackgroundEffect) -> (CpuPipeline<EllipseProvider>, Counters) {
    let counters = Counters::default();
    let mut settings = PipelineSettings::new(size(1280, 720));
    settings.effect = effect;
    settings.color_matrix = Some(ColorMatrix::Bt709);
    (
        CpuPipeline::new(EllipseProvider(counters.clone()), settings),
        counters,
    )
}

fn nv12(output: PipelineOutput<'_>) -> Nv12Frame {
    match output {
        PipelineOutput::Nv12(frame) => frame.clone(),
        PipelineOutput::Bgra(_) => panic!("expected NV12 output"),
    }
}

fn luma_at(frame: &Nv12Frame, x: u32, y: u32) -> u8 {
    frame.luma()[(y * frame.size().width() + x) as usize]
}

#[test]
fn passthrough_scales_to_output_and_never_loads_a_model() {
    let (mut pipeline, counters) = pipeline(BackgroundEffect::Passthrough);
    let out = nv12(pipeline.process(&camera_frame(), OutputFormat::Nv12).unwrap());
    assert_eq!(out, Nv12Frame::filled(size(1280, 720), Yuv { y: 200, u: 90, v: 170 }));
    assert_eq!(counters.loads.get(), 0);
}

#[test]
fn colour_background_keeps_the_person_and_replaces_the_rest() {
    let (mut pipeline, counters) = pipeline(BackgroundEffect::Color(Rgb::green_screen()));
    let out = nv12(pipeline.process(&camera_frame(), OutputFormat::Nv12).unwrap());
    let green = ColorMatrix::Bt709.to_yuv(Rgb::green_screen());
    assert_eq!(luma_at(&out, 640, 360), 200);
    assert_eq!(luma_at(&out, 10, 10), green.y);
    assert_eq!(&out.chroma()[..2], &[green.u, green.v]);
    assert!(pipeline.process(&camera_frame(), OutputFormat::Nv12).is_ok());
    assert_eq!(counters.loads.get(), 1);
    assert_eq!(counters.segments.get(), 2);
    assert_eq!(pipeline.active_model(), Some("ellipse"));
}

#[test]
fn transparent_effect_carries_the_mask_in_bgra_and_falls_back_to_colour_in_nv12() {
    let (mut pipeline, _) = pipeline(BackgroundEffect::Transparent {
        fallback: Rgb::blue_screen(),
    });
    match pipeline.process(&camera_frame(), OutputFormat::Bgra).unwrap() {
        PipelineOutput::Bgra(bgra) => {
            let alpha = |x: usize, y: usize| bgra.data()[(y * 1280 + x) * 4 + 3];
            assert_eq!(alpha(640, 360), 255);
            assert_eq!(alpha(5, 5), 0);
        }
        PipelineOutput::Nv12(_) => panic!("expected BGRA output"),
    }
    let out = nv12(pipeline.process(&camera_frame(), OutputFormat::Nv12).unwrap());
    assert_eq!(luma_at(&out, 5, 5), ColorMatrix::Bt709.to_yuv(Rgb::blue_screen()).y);
}

#[test]
fn image_background_is_prepared_once_and_used_behind_the_person() {
    let image = Arc::new(RgbImage::from_pixels(4, 4, [255u8, 0, 0].repeat(16)).unwrap());
    let (mut pipeline, _) = pipeline(BackgroundEffect::Image(Arc::clone(&image)));
    let out = nv12(pipeline.process(&camera_frame(), OutputFormat::Nv12).unwrap());
    assert_eq!(luma_at(&out, 3, 3), ColorMatrix::Bt709.to_yuv(Rgb::new(255, 0, 0)).y);
    assert_eq!(luma_at(&out, 640, 360), 200);
}

#[test]
fn another_picture_replaces_the_one_before_it() {
    let red = Arc::new(RgbImage::from_pixels(4, 4, [255u8, 0, 0].repeat(16)).unwrap());
    let blue = Arc::new(RgbImage::from_pixels(4, 4, [0u8, 0, 255].repeat(16)).unwrap());
    let (mut pipeline, _) = pipeline(BackgroundEffect::Image(red));
    assert!(pipeline.process(&camera_frame(), OutputFormat::Nv12).is_ok());
    let mut settings = pipeline.settings().clone();
    settings.effect = BackgroundEffect::Image(blue);
    pipeline.apply_settings(settings);
    let out = nv12(pipeline.process(&camera_frame(), OutputFormat::Nv12).unwrap());
    assert_eq!(luma_at(&out, 3, 3), ColorMatrix::Bt709.to_yuv(Rgb::new(0, 0, 255)).y);
}

#[test]
fn blur_changes_only_the_background() {
    let mut frame = camera_frame();
    for (i, value) in frame.planes_mut().0.iter_mut().enumerate() {
        *value = if (i % 1920 / 40 + i / 1920 / 40) % 2 == 0 {
            40
        } else {
            220
        };
    }
    let (mut blurred_pipeline, _) = pipeline(BackgroundEffect::Blur { strength: strongest() });
    let blurred = nv12(blurred_pipeline.process(&frame, OutputFormat::Nv12).unwrap());
    let (mut plain_pipeline, _) = pipeline(BackgroundEffect::Passthrough);
    let plain = nv12(plain_pipeline.process(&frame, OutputFormat::Nv12).unwrap());
    assert_eq!(luma_at(&blurred, 640, 360), luma_at(&plain, 640, 360));
    let background_changes = (0..100)
        .filter(|&x| luma_at(&blurred, x, 20) != luma_at(&plain, x, 20))
        .count();
    assert!(background_changes > 50, "{background_changes}");
}

#[test]
fn orientation_and_mask_tuning_do_not_reload_the_model_but_output_size_does() {
    let (mut pipeline, counters) = pipeline(BackgroundEffect::Color(Rgb::green_screen()));
    assert!(pipeline.process(&camera_frame(), OutputFormat::Nv12).is_ok());
    let mut settings = pipeline.settings().clone();
    settings.orientation = Orientation {
        rotation: Rotation::Clockwise90,
        mirror_horizontal: true,
        mirror_vertical: false,
    };
    settings.segmentation.mask = Some(MaskParams::memoryless_model());
    pipeline.apply_settings(settings.clone());
    assert!(pipeline.process(&camera_frame(), OutputFormat::Nv12).is_ok());
    assert_eq!(counters.loads.get(), 1);
    settings.output = size(640, 480);
    pipeline.apply_settings(settings);
    let out = nv12(pipeline.process(&camera_frame(), OutputFormat::Nv12).unwrap());
    assert_eq!(out.size(), size(640, 480));
    assert_eq!(counters.loads.get(), 2);
}

#[test]
fn an_effect_without_a_mask_gives_the_model_up() {
    let (mut pipeline, counters) = pipeline(BackgroundEffect::Color(Rgb::green_screen()));
    assert!(pipeline.process(&camera_frame(), OutputFormat::Nv12).is_ok());
    let mut settings = pipeline.settings().clone();
    settings.effect = BackgroundEffect::Passthrough;
    pipeline.apply_settings(settings.clone());
    assert_eq!(pipeline.active_model(), None);
    settings.effect = BackgroundEffect::Color(Rgb::blue_screen());
    pipeline.apply_settings(settings);
    assert!(pipeline.process(&camera_frame(), OutputFormat::Nv12).is_ok());
    assert_eq!(counters.loads.get(), 2);
    pipeline.reset_temporal_state();
    assert_eq!(pipeline.active_model(), Some("ellipse"));
}

/// A directory without a usable model.
struct Absent(OnnxModelProvider);

impl ModelProvider for Absent {
    type Model = EllipseModel;

    fn load(&self, settings: &SegmentationSettings, frame: FrameSize) -> Result<EllipseModel, CoreError> {
        match self.0.select_model(settings, frame) {
            Ok(_) => panic!("no model is there"),
            Err(error) => Err(error),
        }
    }
}

#[test]
fn missing_models_are_reported_instead_of_panicking() {
    let settings = PipelineSettings::new(size(1280, 720));
    let provider = Absent(OnnxModelProvider::new("chromafree-no-models".to_owned(), vec![]));
    let mut pipeline = CpuPipeline::new(provider, settings);
    assert!(matches!(
        pipeline.process(&camera_frame(), OutputFormat::Nv12),
        Err(CoreError::ModelNotFound(_))
    ));
}

#[test]
fn files_decide_which_model_is_loaded() {
    let files = vec![
        ModelVariant::new(640, 360).rvm_file_name(),
        ModelVariant::new(1280, 720).rvm_file_name(),
    ];
    let provider = OnnxModelProvider::new("models".to_owned(), files);
    let mut settings = SegmentationSettings::default();
    let picked = |settings: &SegmentationSettings, frame: FrameSize| match provider.select_model(settings, frame) {
        Ok(choice) => choice,
        Err(error) => panic!("{}", error.message()),
    };
    assert_eq!(picked(&settings, size(1920, 1080)), ModelChoice::Rvm(ModelVariant::new(1280, 720)));
    assert_eq!(picked(&settings, size(960, 540)), ModelChoice::Rvm(ModelVariant::new(640, 360)));
    settings.variant = VariantPreference::Fixed(ModelVariant::new(640, 360));
    assert_eq!(picked(&settings, size(1920, 1080)), ModelChoice::Rvm(ModelVariant::new(640, 360)));
    settings.method = SegmentationMethod::MediaPipe;
    assert_eq!(picked(&settings, size(1280, 720)), ModelChoice::MediaPipe(MediaPipeVariant::Landscape));
}

#[test]
fn frames_follow_the_orientation() {
    let (mut pipeline, _) = pipeline(BackgroundEffect::Passthrough);
    let mut settings = pipeline.settings().clone();
    settings.output = size(4, 4);
    settings.orientation.mirror_horizontal = true;
    pipeline.apply_settings(settings);
    let mut frame = Nv12Frame::new(size(4, 4));
    frame.planes_mut().0[0] = 200;
    let out = nv12(pipeline.process(&frame, OutputFormat::Nv12).unwrap());
    assert_eq!(&out.luma()[..4], &[16, 16, 16, 200]);
}

#[test]
fn settings_pick_their_matrix_by_the_shorter_side() {
    let mut settings = PipelineSettings::new(size(1280, 720));
    assert_eq!(settings.matrix(), ColorMatrix::Bt709);
    settings.output = size(640, 1280);
    assert_eq!(settings.matrix(), ColorMatrix::Bt601);
    settings.color_matrix = Some(ColorMatrix::Bt709);
    assert_eq!(settings.matrix(), ColorMatrix::Bt709);
}

#[test]
fn without_a_graphics_card_frames_are_processed_on_the_processor() {
    let mut settings = PipelineSettings::new(size(64, 64));
    assert_eq!(wanted_adapter(&settings), Some(0));
    let counters = Counters::default();
    let fallback: Processor<u8, EllipseProvider> =
        Processor::create(None, EllipseProvider(counters.clone()), settings.clone());
    assert_eq!(fallback.backend(), "CPU");
    assert!(!fallback.runs_on(InferenceDevice::DirectMl { adapter_index: 0 }));
    assert!(fallback.runs_on(InferenceDevice::Cpu { threads: 1 }));
    match &fallback {
        Processor::Cpu(pipeline) => assert_eq!(
            pipeline.settings().segmentation.device,
            InferenceDevice::Cpu { threads: 2 }
        ),
        Processor::Gpu(_, _) => panic!("no card was given"),
    }
    let card: Processor<u8, EllipseProvider> = Processor::create(
        Some((7, "Test Adapter".to_owned())),
        EllipseProvider(counters.clone()),
        settings.clone(),
    );
    assert_eq!(card.backend(), "GPU: Test Adapter");
    assert!(card.runs_on(InferenceDevice::DirectMl { adapter_index: 3 }));
    settings.segmentation.device = InferenceDevice::Cpu { threads: 5 };
    assert_eq!(wanted_adapter(&settings), None);
    let chosen: Processor<u8, EllipseProvider> =
        Processor::create(Some((7, "Test Adapter".to_owned())), EllipseProvider(counters), settings);
    assert_eq!(chosen.backend(), "CPU");
}

/// Writes down what it is asked and how often it is reset.
struct Witness {
    asked: Rc<RefCell<Vec<(Nv12Frame, ColorMatrix)>>>,
    resets: Rc<Cell<usize>>,
    alpha: Vec<u8>,
}

impl SegmentationModel for Witness {
    fn name(&self) -> &str {
        "witness"
    }

    fn mask_size(&self) -> FrameSize {
        size(4, 2)
    }

    fn default_mask_params(&self) -> MaskParams {
        MaskParams::recurrent_model()
    }

    fn segment<'a>(&'a mut self, frame: &Nv12Frame, matrix: ColorMatrix) -> Result<AlphaMask<'a>, CoreError> {
        self.asked.borrow_mut().push((frame.clone(), matrix));
        Ok(AlphaMask {
            width: 4,
            height: 2,
            data: &self.alpha,
        })
    }

    fn reset(&mut self) {
        self.resets.set(self.resets.get() + 1);
    }
}

struct WitnessProvider {
    asked: Rc<RefCell<Vec<(Nv12Frame, ColorMatrix)>>>,
    resets: Rc<Cell<usize>>,
    loaded: Rc<RefCell<Vec<(SegmentationSettings, FrameSize)>>>,
    cells: usize,
}

impl ModelProvider for WitnessProvider {
    type Model = Witness;

    fn load(&self, settings: &SegmentationSettings, frame: FrameSize) -> Result<Witness, CoreError> {
        self.loaded.borrow_mut().push((*settings, frame));
        Ok(Witness {
            asked: Rc::clone(&self.asked),
            resets: Rc::clone(&self.resets),
            alpha: vec![255; self.cells],
        })
    }
}

fn witness(cells: usize) -> WitnessProvider {
    WitnessProvider {
        asked: Rc::default(),
        resets: Rc::default(),
        loaded: Rc::default(),
        cells,
    }
}

#[test]
fn the_model_is_loaded_for_the_settings_and_asked_about_the_prepared_frame() {
    let provider = witness(8);
    let (asked, resets, loaded) = (
        Rc::clone(&provider.asked),
        Rc::clone(&provider.resets),
        Rc::clone(&provider.loaded),
    );
    let mut settings = PipelineSettings::new(size(64, 36));
    settings.effect = BackgroundEffect::Color(Rgb::green_screen());
    settings.color_matrix = Some(ColorMatrix::Bt601);
    settings.segmentation.method = SegmentationMethod::MediaPipe;
    settings.segmentation.device = InferenceDevice::Cpu { threads: 3 };
    let mut pipeline = CpuPipeline::new(provider, settings.clone());
    assert_eq!(pipeline.active_model(), None);
    let out = nv12(pipeline.process(&camera_frame(), OutputFormat::Nv12).unwrap());
    let prepared = Nv12Frame::filled(size(64, 36), Yuv { y: 200, u: 90, v: 170 });
    assert_eq!(out, prepared, "a full mask keeps the frame");
    assert_eq!(*asked.borrow(), vec![(prepared, ColorMatrix::Bt601)]);
    assert_eq!(*loaded.borrow(), vec![(settings.segmentation, size(64, 36))]);
    assert_eq!(pipeline.active_model(), Some("witness"));
    assert_eq!(resets.get(), 0);
    pipeline.reset_temporal_state();
    assert_eq!(resets.get(), 1);
    assert!(pipeline.process(&prepared_for(32, 18), OutputFormat::Nv12).is_ok());
    assert_eq!(resets.get(), 2, "frames of another size make the model forget");
}

fn prepared_for(width: u32, height: u32) -> Nv12Frame {
    Nv12Frame::filled(size(width, height), Yuv { y: 100, u: 100, v: 100 })
}

#[test]
fn a_mask_that_does_not_fit_its_grid_is_refused() {
    let mut settings = PipelineSettings::new(size(64, 36));
    settings.effect = BackgroundEffect::Color(Rgb::green_screen());
    let mut pipeline = CpuPipeline::new(witness(7), settings);
    assert_eq!(
        pipeline.process(&camera_frame(), OutputFormat::Nv12).err(),
        Some(CoreError::PlaneSizeMismatch { expected: 8, actual: 7 })
    );
}
