use std::sync::Arc;

use chromafree::background::RgbImage;
use chromafree::blur::{BlurStrength, Grid};
use chromafree::color::{ColorMatrix, Rgb};
use chromafree::double::Signed;
use chromafree::error::CoreError;
use chromafree::frame::{BgraFrame, FrameSize, Nv12Frame};
use chromafree::gpu::{
    buffer_width, frame_bytes, groups, orientation_map, tensor_bytes, AffineMap, Buffer, Constant, Element, GpuError,
    Pass, Shader,
};
use chromafree::gpu_model::{input_shape, load_mediapipe, load_rvm, next_turn, state_sets};
use chromafree::gpu_pipeline::{
    clear, read_bgra, read_nv12, schedule, GpuModel, GpuModelKey, GpuPipeline, MaskBuffers, MaskSource, Work,
};
use chromafree::mask::MaskParams;
use chromafree::orientation::{Orientation, Rotation};
use chromafree::pipeline::{BackgroundEffect, OutputFormat, PipelineSettings, SegmentationMethod};
use chromafree::segmentation::{ElementType, TensorInput};
use chromafree::variant::{ModelVariant, VariantPreference};

fn size(width: u32, height: u32) -> FrameSize {
    FrameSize::new(width, height).unwrap()
}

fn fault<T>(result: Result<T, GpuError>) -> String {
    match result {
        Ok(_) => panic!("expected an error"),
        Err(error) => error.message(),
    }
}

fn settings(effect: BackgroundEffect) -> PipelineSettings {
    let mut settings = PipelineSettings::new(size(64, 36));
    settings.effect = effect;
    settings
}

fn model(method: SegmentationMethod) -> GpuModel {
    GpuModel {
        key: GpuModelKey {
            method,
            variant: VariantPreference::Auto,
            frame: size(64, 36),
        },
        name: "model".to_owned(),
        size: size(32, 18),
    }
}

fn double(number: Signed) -> f64 {
    let size = number.size.whole as f64 + number.size.part as f64 / 2f64.powi(120);
    if number.negative {
        -size
    } else {
        size
    }
}

fn as_float(constant: Constant) -> f64 {
    match constant {
        Constant::Double(number) => double(number),
        Constant::Number(number) => f64::from(number),
        Constant::Fraction { numerator, denominator } => numerator as f64 / denominator as f64,
    }
}

#[test]
fn groups_cover_the_grid() {
    assert_eq!(groups(1280, 720), (80, 45));
    assert_eq!(groups(1281, 1), (81, 1));
    assert_eq!(groups(0, 0), (0, 0));
    let pass = Pass {
        shader: Shader::Clear,
        constants: vec![],
        shader_resource: Buffer::Frame,
        unordered: (Buffer::Frame, Buffer::Frame, Buffer::Frame, Buffer::Frame),
        groups: (0, 3),
    };
    assert_eq!(pass.launched(), (1, 3));
}

#[test]
fn buffers_are_measured_in_words() {
    assert_eq!((buffer_width(0), buffer_width(4), buffer_width(5)), (4, 4, 8));
    assert_eq!(frame_bytes(size(4, 2)), 48);
    assert_eq!(tensor_bytes(&[1, 3, 36, 64], Element::Half), Some(13824));
    assert_eq!(tensor_bytes(&[i64::MAX, i64::MAX], Element::Float), None);
}

fn float_map(orientation: Orientation, source: FrameSize, target: FrameSize) -> [f64; 6] {
    let oriented = orientation.output_size(source);
    let (ow, oh) = (f64::from(oriented.width()), f64::from(oriented.height()));
    let (tw, th) = (f64::from(target.width()), f64::from(target.height()));
    let scale = (tw / ow).max(th / oh);
    let (rw, rh) = (tw / scale, th / scale);
    let (rx, ry) = ((ow - rw) / 2.0, (oh - rh) / 2.0);
    let (sw, sh) = (f64::from(source.width()), f64::from(source.height()));
    let map = |ox: f64, oy: f64| {
        let (qx, qy) = (rx + ox * rw / tw, ry + oy * rh / th);
        let (mut sx, mut sy) = match orientation.rotation {
            Rotation::Upright => (qx, qy),
            Rotation::Clockwise90 => (qy, sh - qx),
            Rotation::Clockwise180 => (sw - qx, sh - qy),
            Rotation::Clockwise270 => (sw - qy, qx),
        };
        if orientation.mirror_horizontal {
            sx = sw - sx;
        }
        if orientation.mirror_vertical {
            sy = sh - sy;
        }
        (sx, sy)
    };
    let (x0, y0) = map(0.0, 0.0);
    let (x1, y1) = map(1.0, 0.0);
    let (x2, y2) = map(0.0, 1.0);
    [x1 - x0, x2 - x0, x0, y1 - y0, y2 - y0, y0]
}

#[test]
fn the_map_agrees_with_floating_point_numbers() {
    let rotations = [
        Rotation::Upright,
        Rotation::Clockwise90,
        Rotation::Clockwise180,
        Rotation::Clockwise270,
    ];
    for rotation in rotations {
        for (mirror_horizontal, mirror_vertical) in [(false, false), (true, false), (false, true), (true, true)] {
            let orientation = Orientation {
                rotation,
                mirror_horizontal,
                mirror_vertical,
            };
            for (source, target) in [
                (size(1920, 1080), size(1280, 720)),
                (size(640, 480), size(1280, 720)),
                (size(1366, 768), size(480, 640)),
                (size(800, 600), size(854, 480)),
                (size(2, 4_294_967_294), size(1_000_002, 6)),
            ] {
                let map: AffineMap = orientation_map(orientation, source, target);
                let numbers = [map.xx, map.xy, map.x0, map.yx, map.yy, map.y0].map(double);
                assert_eq!(numbers, float_map(orientation, source, target));
            }
        }
    }
}

#[test]
fn the_map_stays_inside_the_picture_but_for_rounding() {
    let map = orientation_map(rotated(Rotation::Upright), size(800, 600), size(854, 480));
    assert_eq!(double(map.x0), -2f64.powi(-44));
    let end = double(map.xx) * 854.0 + double(map.x0);
    assert!((end - 800.0).abs() < 1.0 / 1024.0);
    let map = orientation_map(rotated(Rotation::Clockwise90), size(8, 6), size(6, 8));
    // The middle of the target's first cell shows the middle of the lower left cell.
    assert_eq!(double(map.xx) * 0.5 + double(map.xy) * 0.5 + double(map.x0), 0.5);
    assert_eq!(double(map.yx) * 0.5 + double(map.yy) * 0.5 + double(map.y0), 5.5);
}

fn rotated(rotation: Rotation) -> Orientation {
    Orientation {
        rotation,
        mirror_horizontal: false,
        mirror_vertical: false,
    }
}

#[test]
fn frames_are_laid_over_the_output_plane_by_plane() {
    let mut pipeline = GpuPipeline::new(settings(BackgroundEffect::Passthrough));
    assert_eq!(
        fault(pipeline.orient_and_scale()),
        "inference failed: camera frame not uploaded"
    );
    assert!(pipeline.take_camera(size(128, 72)));
    assert!(!pipeline.take_camera(size(128, 72)));
    let (luma, chroma) = match pipeline.orient_and_scale() {
        Ok(passes) => passes,
        Err(error) => panic!("{}", error.message()),
    };
    assert_eq!(luma.shader, Shader::OrientScale);
    assert_eq!((luma.groups, chroma.groups), ((4, 3), (2, 2)));
    let values: Vec<f64> = luma.constants.iter().map(|c| as_float(*c)).collect();
    assert_eq!(
        values,
        vec![128.0, 72.0, 64.0, 36.0, 0.0, 0.0, 0.0, 0.0, 2.0, 0.0, 0.0, 0.0, 2.0, 0.0, 0.0, 0.0]
    );
    assert_eq!(chroma.constants[4], Constant::Number(1));
}

#[test]
fn masks_are_smoothed_only_with_a_history() {
    let mut pipeline = GpuPipeline::new(settings(BackgroundEffect::Color(Rgb::green_screen())));
    assert_eq!(
        fault(pipeline.refine_mask(MaskSource::Upload)),
        "inference failed: mask buffers missing"
    );
    assert!(pipeline.ensure_mask_buffers(size(32, 18)));
    assert!(!pipeline.ensure_mask_buffers(size(32, 18)));
    pipeline.model_loaded(model(SegmentationMethod::MediaPipe));
    assert_eq!(pipeline.mask, None);
    pipeline.ensure_mask_buffers(size(32, 18));
    assert_eq!(pipeline.mask_params(), MaskParams::memoryless_model());
    let keep = |pass: Pass| as_float(pass.constants[4]);
    let first = pipeline.refine_mask(MaskSource::Model(Element::Float)).ok().unwrap();
    assert_eq!(first.unordered.3, Buffer::ModelAlpha);
    assert_eq!(keep(first), 0.0);
    let second = pipeline.refine_mask(MaskSource::Model(Element::Float)).ok().unwrap();
    assert_eq!(keep(second), f64::from(0.6f32));
    pipeline.take_camera(size(2, 2));
    assert_eq!(
        pipeline.mask,
        Some(MaskBuffers {
            size: size(32, 18),
            history_valid: false
        })
    );
    assert!(!pipeline.reset_temporal_state());
    pipeline.model_loaded(model(SegmentationMethod::Rvm));
    assert!(pipeline.reset_temporal_state());
    assert_eq!(pipeline.mask_params(), MaskParams::recurrent_model());
}

#[test]
fn the_last_step_of_a_blur_is_of_single_precision() {
    let strength = BlurStrength {
        amount: (f64::from(0.1f32) * (1u64 << 60) as f64) as u64,
        factor: (2f32.powf(0.5) * 8_388_608.0) as u32,
    };
    assert_eq!(strength.luma_levels(), 3 << 59);
    let mut settings = settings(BackgroundEffect::Blur { strength });
    settings.output = size(67_108_864, 4);
    let mut pipeline = GpuPipeline::new(settings);
    assert!(pipeline.ensure_blur(strength));
    let width = (33_554_432f32 / 2f32.powf(0.5)).round() as u32;
    assert_eq!(width, 23_726_566);
    assert_eq!(
        pipeline.blur.as_ref().unwrap().fractional,
        Some(Grid { width, height: 2 })
    );
}

#[test]
fn blurs_go_down_and_up_again() {
    let mut pipeline = GpuPipeline::new(settings(BackgroundEffect::Blur {
        strength: BlurStrength::half(),
    }));
    assert_eq!(fault(pipeline.run_blur()), "inference failed: blur chain missing");
    assert!(pipeline.ensure_blur(BlurStrength::half()));
    assert!(!pipeline.ensure_blur(BlurStrength::half()));
    let chain = pipeline.blur.as_ref().unwrap();
    assert_eq!(
        chain.levels,
        vec![
            Grid { width: 32, height: 18 },
            Grid { width: 16, height: 9 },
            Grid { width: 8, height: 5 }
        ]
    );
    assert_eq!(chain.fractional, Some(Grid { width: 6, height: 4 }));
    let passes = pipeline.run_blur().ok().unwrap();
    let shaders: Vec<Shader> = passes.iter().map(|p| p.shader).collect();
    assert_eq!(
        shaders,
        vec![
            Shader::BlurToHalf,
            Shader::BlurDownsample,
            Shader::BlurDownsample,
            Shader::BlurResize,
            Shader::BlurTent,
            Shader::BlurResize,
            Shader::BlurTent,
            Shader::BlurResize,
            Shader::BlurTent,
            Shader::BlurResize,
            Shader::BlurTent,
            Shader::BlurFromHalf,
        ]
    );
    for pair in passes.windows(2) {
        assert_eq!(pair[0].unordered.1, pair[1].unordered.0);
    }
}

#[test]
fn frames_are_put_over_their_background() {
    let color = settings(BackgroundEffect::Transparent {
        fallback: Rgb::new(255, 255, 255),
    });
    let pipeline = GpuPipeline::new(color);
    let bgra = pipeline.composite(Some(size(32, 18)), OutputFormat::Bgra);
    assert_eq!((bgra.shader, bgra.groups), (Shader::CompositeBgra, (4, 3)));
    assert_eq!(bgra.constants[5], Constant::Number(1));
    assert_eq!(as_float(bgra.constants[8]), 235.0);
    assert_eq!(as_float(bgra.constants[11]), 409.0 / 256.0);
    let nv12 = pipeline.composite(None, OutputFormat::Nv12);
    assert_eq!((nv12.shader, nv12.groups), (Shader::CompositeNv12, (1, 4)));
    assert_eq!((nv12.constants[2], nv12.constants[5]), (Constant::Number(1), Constant::Number(0)));
    assert_eq!(nv12.constants.len(), 16);
    let plain = GpuPipeline::new(settings(BackgroundEffect::Passthrough));
    assert_eq!(plain.composite(None, OutputFormat::Nv12).constants[4], Constant::Number(3));
}

#[test]
fn models_are_loaded_once_for_what_they_are_needed_for() {
    let mut pipeline = GpuPipeline::new(settings(BackgroundEffect::Color(Rgb::green_screen())));
    assert_eq!(fault(pipeline.preprocess()), "inference failed: model missing");
    let key = pipeline.begin_model().unwrap();
    assert_eq!(key, model(SegmentationMethod::Rvm).key);
    pipeline.model_loaded(model(SegmentationMethod::Rvm));
    assert_eq!(pipeline.active_model(), Some("model"));
    assert_eq!(pipeline.begin_model(), None);
    let pass = pipeline.preprocess().ok().unwrap();
    assert_eq!((pass.shader, pass.groups), (Shader::PreprocessHalf, (1, 2)));
    assert_eq!(pass.unordered.1, Buffer::ModelInput);

    let mut other = pipeline.settings().clone();
    other.orientation.mirror_vertical = true;
    assert!(!pipeline.apply_settings(other.clone()));
    assert_eq!(pipeline.active_model(), Some("model"));
    other.output = size(32, 18);
    assert!(pipeline.apply_settings(other.clone()));
    assert_eq!(pipeline.active_model(), None);
    pipeline.model_loaded(model(SegmentationMethod::Rvm));
    other.effect = BackgroundEffect::Passthrough;
    pipeline.apply_settings(other);
    assert_eq!(pipeline.active_model(), None);
}

#[test]
fn pictures_are_copied_once() {
    let image = Arc::new(RgbImage::from_pixels(1, 1, vec![1, 2, 3]).unwrap());
    let mut pipeline = GpuPipeline::new(settings(BackgroundEffect::Image(Arc::clone(&image))));
    assert!(pipeline.ensure_image(&image, ColorMatrix::Bt601));
    assert!(!pipeline.ensure_image(&image, ColorMatrix::Bt601));
    assert!(pipeline.ensure_image(&image, ColorMatrix::Bt709));
    let copy = Arc::new(RgbImage::from_pixels(1, 1, vec![1, 2, 3]).unwrap());
    assert!(pipeline.ensure_image(&copy, ColorMatrix::Bt709));
    assert_eq!(pipeline.composite(None, OutputFormat::Nv12).shader_resource, Buffer::Image);
}

#[test]
fn work_is_done_in_order() {
    assert_eq!(
        schedule(&BackgroundEffect::Passthrough, false),
        vec![
            Work::UploadCamera,
            Work::Begin { new_frame: true },
            Work::Orient,
            Work::Composite,
            Work::ReadBack,
            Work::Submit,
            Work::Wait,
        ]
    );
    let blur = schedule(
        &BackgroundEffect::Blur {
            strength: BlurStrength::half(),
        },
        false,
    );
    assert_eq!(blur[1], Work::PrepareBlur);
    let run = blur.iter().position(|w| *w == Work::RunModel).unwrap();
    let refine = blur.iter().position(|w| *w == Work::Refine { given: false }).unwrap();
    assert!(run < refine);
    let given = schedule(&BackgroundEffect::Color(Rgb::green_screen()), true);
    assert!(given.contains(&Work::UploadMask) && !given.contains(&Work::RunModel));
}

#[test]
fn results_are_taken_over_from_what_was_copied_back() {
    let mut nv12 = Nv12Frame::new(size(2, 2));
    read_nv12(&[1, 2, 3, 4, 5, 6, 7], &mut nv12);
    assert_eq!((nv12.luma(), nv12.chroma()), (&[1u8, 2, 3, 4][..], &[5u8, 6][..]));
    let mut bgra = BgraFrame::new(size(2, 2));
    let bytes: Vec<u8> = (0..20).collect();
    read_bgra(&bytes, &mut bgra);
    assert_eq!(bgra.data(), &bytes[..16]);
    let pass = clear(Buffer::ModelState(0, 1), 1024, 1_000_000);
    assert_eq!((pass.constants[0], pass.groups), (Constant::Number(256), (1, 1)));
}

fn tensor(name: &str, shape: Vec<i64>) -> TensorInput {
    TensorInput {
        name: name.to_owned(),
        element: Some(ElementType::Float16),
        shape: Some(shape),
    }
}

#[test]
fn tensors_of_models_are_planned() {
    let mut inputs = vec![tensor("src", vec![1, 3, 360, 640])];
    for name in ["r1i", "r2i", "r3i", "r4i"] {
        inputs.push(tensor(name, vec![1, 16, 90, 160]));
    }
    let variant = ModelVariant::new(640, 360);
    let planned = load_rvm(&inputs, variant).ok().unwrap();
    assert_eq!(planned.name, "RVM MobileNetV3 fp16 640x360 (DirectML)");
    assert_eq!(planned.alpha, vec![1, 1, 360, 640]);
    assert_eq!(planned.states.len(), 4);
    assert_eq!(state_sets(0), (0, 1));
    assert_eq!(state_sets(next_turn(0)), (1, 0));
    inputs.pop();
    assert_eq!(fault(load_rvm(&inputs, variant)), "inference failed: model has no input `r4i`");
    assert_eq!(
        load_rvm(&inputs, ModelVariant::new(1, 2)).err(),
        Some(GpuError::Core(CoreError::InvalidFrameSize { width: 1, height: 2 }))
    );
    inputs[0].shape = Some(vec![1, -1]);
    assert_eq!(
        fault(input_shape(&inputs, "src")),
        "inference failed: input `src` has a dynamic shape"
    );
    inputs[0].shape = None;
    assert_eq!(
        fault(input_shape(&inputs, "src")),
        "inference failed: input `src` is not a tensor"
    );

    let picture = [tensor("image", vec![1, 144, 256, 3])];
    let planned = load_mediapipe(&picture, &["mask".to_owned()]).ok().unwrap();
    assert_eq!(planned.name, "MediaPipe Selfie Segmentation 256x144 (DirectML)");
    assert_eq!((planned.size, planned.alpha), (size(256, 144), vec![1, 144, 256, 1]));
    assert_eq!(fault(load_mediapipe(&[], &[])), "inference failed: model has no inputs");
    assert_eq!(fault(load_mediapipe(&picture, &[])), "inference failed: model has no outputs");
    assert_eq!(
        fault(load_mediapipe(&[tensor("image", vec![1, 2])], &["mask".to_owned()])),
        "inference failed: unexpected input shape [1, 2]"
    );
}

#[test]
fn errors_of_the_card_describe_themselves() {
    assert_eq!(GpuError::AdapterNotFound(3).message(), "no DirectX 12 adapter with index 3");
    assert_eq!(
        GpuError::Shader {
            entry: "main".to_owned(),
            message: "syntax".to_owned()
        }
        .message(),
        "shader `main` failed to compile: syntax"
    );
    assert_eq!(GpuError::Windows("0x1".to_owned()).message(), "Direct3D call failed: 0x1");
    assert_eq!(GpuError::DirectMl("none".to_owned()).message(), "DirectML is not available: none");
    assert_eq!(GpuError::DeviceRemoved("hung".to_owned()).message(), "the GPU device was removed: hung");
}
