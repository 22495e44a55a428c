use chromafree::color::{ColorMatrix, Rgb};
use chromafree::error::CoreError;
use chromafree::frame::{FrameSize, Nv12Frame};
use chromafree::mask::{MaskParams, MaskRefiner};
use chromafree::model_input::{ModelInputBuilder, TensorLayout};
use chromafree::segmentation::{
    check_alpha_len, check_mediapipe_input, check_rvm_inputs, rvm_model_name, ElementType, MediaPipeVariant, TensorInput,
};
use chromafree::variant::{
    all_rvm_variants, available_rvm_variants, landscape_rvm_variants, select_variant, ModelVariant, VariantPreference,
};
use half::f16;

fn size(width: u32, height: u32) -> FrameSize {
    FrameSize::new(width, height).unwrap()
}

/// A number in units of 2^-60.
fn units(value: f32) -> u64 {
    (f64::from(value) * (1u64 << 60) as f64) as u64
}

fn quantised(alpha: &[f32]) -> Vec<u8> {
    alpha.iter().map(|a| (a.clamp(0.0, 1.0) * 255.0 + 0.5) as u8).collect()
}

fn unit_table() -> Vec<f32> {
    (0..256).map(|i| i as f32 / 255.0).collect()
}

#[test]
fn identity_params_quantise_and_upscale() {
    let mut refiner = MaskRefiner::new(4, 2, size(8, 4), MaskParams::recurrent_model());
    let alpha = [1.0f32; 8];
    let mask = refiner.refine(&quantised(&alpha)).unwrap();
    assert!(mask.luma.iter().all(|&v| v == 255));
    assert_eq!(mask.luma.len(), 32);
    assert_eq!(mask.chroma.len(), 8);
    assert!(mask.chroma.iter().all(|&v| v == 255));
}

#[test]
fn edge_shaping_hardens_values_outside_thresholds() {
    let params = MaskParams {
        temporal_smoothing: 0,
        edge_low: units(0.3),
        edge_high: units(0.7),
    };
    let mut refiner = MaskRefiner::new(4, 1, size(4, 2), params);
    let mask = refiner.refine(&quantised(&[0.2f32, 0.5, 0.8, 0.29])).unwrap();
    assert_eq!(mask.luma[0], 0);
    assert_eq!(mask.luma[2], 255);
    assert!((120..=135).contains(&mask.luma[1]), "{}", mask.luma[1]);
}

#[test]
fn temporal_smoothing_moves_gradually_and_reset_forgets_history() {
    let params = MaskParams {
        temporal_smoothing: units(0.5),
        edge_low: 0,
        edge_high: units(1.0),
    };
    let mut refiner = MaskRefiner::new(2, 2, size(2, 2), params);
    refiner.refine(&quantised(&[0.0f32; 4])).unwrap();
    let second = refiner.refine(&quantised(&[1.0f32; 4])).unwrap().luma[0];
    assert!((120..=135).contains(&second), "{second}");
    let third = refiner.refine(&quantised(&[1.0f32; 4])).unwrap().luma[0];
    assert!(third > second);
    refiner.reset();
    assert_eq!(refiner.refine(&quantised(&[0.0f32; 4])).unwrap().luma[0], 0);
}

#[test]
fn wrong_alpha_length_is_rejected() {
    let mut refiner = MaskRefiner::new(4, 2, size(8, 4), MaskParams::default());
    assert!(refiner.refine(&quantised(&[0.0f32; 3])).is_err());
}

#[test]
fn edges_follow_a_smooth_step() {
    let params = MaskParams {
        temporal_smoothing: 0,
        edge_low: 0,
        edge_high: units(1.0),
    };
    let mut refiner = MaskRefiner::new(2, 2, size(2, 2), params);
    let mask = refiner.refine(&[0, 64, 128, 255]).unwrap();
    let expected: Vec<u8> = [0u8, 64, 128, 255]
        .iter()
        .map(|&v| {
            let t = f32::from(v) / 255.0;
            (t * t * (3.0 - 2.0 * t) * 255.0).round() as u8
        })
        .collect();
    assert_eq!(mask.luma, expected.as_slice());
}

#[test]
fn edges_are_shaped_in_single_precision_and_keep_the_order() {
    let bytes: Vec<u8> = (0..=255).collect();
    for (low, high) in [(0.0f32, 1.0f32), (0.3, 0.7), (0.1, 0.1), (0.9, 0.2), (0.501_953_1, 0.503), (0.999, 1.0)] {
        let params = MaskParams {
            temporal_smoothing: 0,
            edge_low: units(low),
            edge_high: units(high),
        };
        let mut refiner = MaskRefiner::new(256, 2, size(256, 2), params);
        let alpha: Vec<u8> = bytes.iter().chain(&bytes).copied().collect();
        let mask = refiner.refine(&alpha).unwrap();
        let top = high.max(low + f32::EPSILON).min(1.0);
        let expected: Vec<u8> = bytes
            .iter()
            .map(|&v| {
                let t = ((f32::from(v) / 255.0 - low) / (top - low)).clamp(0.0, 1.0);
                (t * t * (3.0 - 2.0 * t) * 255.0).round() as u8
            })
            .collect();
        assert_eq!(&mask.luma[..256], expected.as_slice(), "{low} {high}");
        assert!(mask.luma[..256].windows(2).all(|pair| pair[0] <= pair[1]));
    }
}

#[test]
fn the_history_is_weighed_in_256ths() {
    let params = MaskParams {
        temporal_smoothing: units(0.501_953_125),
        edge_low: 0,
        edge_high: units(1.0),
    };
    let mut refiner = MaskRefiner::new(2, 2, size(2, 2), params);
    refiner.refine(&[0; 4]).unwrap();
    // A weight of 129 leaves 127 parts of the new opacity.
    let opacity = f32::from((255u16 * 127 + 128) >> 8) / 255.0;
    let expected = (opacity * opacity * (3.0 - 2.0 * opacity) * 255.0).round() as u8;
    assert_eq!(refiner.refine(&[255; 4]).unwrap().luma[0], expected);
}

#[test]
fn changed_parameters_keep_the_history() {
    let smooth = MaskParams {
        temporal_smoothing: units(0.5),
        edge_low: 0,
        edge_high: units(1.0),
    };
    let mut refiner = MaskRefiner::new(2, 2, size(2, 2), MaskParams::recurrent_model());
    refiner.refine(&[255; 4]).unwrap();
    refiner.set_params(smooth);
    assert!(refiner.refine(&[0; 4]).unwrap().luma[0] > 100);
    assert_eq!(refiner.output(), size(2, 2));
    assert_eq!(refiner.model_dimensions(), (2, 2));
}

fn solid(width: u32, height: u32, rgb: Rgb, matrix: ColorMatrix) -> Nv12Frame {
    Nv12Frame::filled(size(width, height), matrix.to_yuv(rgb))
}

#[test]
fn nchw_planes_hold_red_green_blue_in_unit_range() {
    let matrix = ColorMatrix::Bt709;
    let frame = solid(1280, 720, Rgb::new(255, 128, 0), matrix);
    let mut builder = ModelInputBuilder::<f32>::new(
        frame.size(),
        size(64, 36),
        TensorLayout::Nchw,
        matrix,
        unit_table(),
    );
    assert_eq!(builder.shape(), [1, 3, 36, 64]);
    let tensor = builder.build(&frame).unwrap();
    let pixels = 64 * 36;
    assert!(tensor[..pixels].iter().all(|v| (v - 1.0).abs() < 0.02));
    assert!(tensor[pixels..2 * pixels].iter().all(|v| (v - 0.5).abs() < 0.02));
    assert!(tensor[2 * pixels..].iter().all(|v| v.abs() < 0.02));
}

#[test]
fn nhwc_interleaves_channels_and_f16_matches_f32() {
    let matrix = ColorMatrix::Bt601;
    let frame = solid(640, 480, Rgb::green_screen(), matrix);
    let model = size(256, 144);
    let half_table: Vec<f16> = unit_table().into_iter().map(f16::from_f32).collect();
    let mut full = ModelInputBuilder::<f32>::new(frame.size(), model, TensorLayout::Nhwc, matrix, unit_table());
    let mut half = ModelInputBuilder::<f16>::new(frame.size(), model, TensorLayout::Nhwc, matrix, half_table);
    let a = full.build(&frame).unwrap().to_vec();
    let b = half.build(&frame).unwrap();
    assert_eq!(full.shape(), [1, 144, 256, 3]);
    assert!(a[1] > 0.6 && a[0] < 0.02);
    for (x, y) in a.iter().zip(b.iter()) {
        assert!((x - y.to_f32()).abs() < 1e-3);
    }
}

#[test]
fn layouts_hold_the_same_elements() {
    let matrix = ColorMatrix::Bt601;
    let bytes: Vec<u8> = (0..=255).collect();
    let mut frame = Nv12Frame::new(size(4, 2));
    for (i, value) in frame.planes_mut().0.iter_mut().enumerate() {
        *value = 20 + 25 * i as u8;
    }
    let mut planar = ModelInputBuilder::<u8>::new(size(4, 2), size(4, 2), TensorLayout::Nchw, matrix, bytes.clone());
    let mut mixed = ModelInputBuilder::<u8>::new(size(4, 2), size(4, 2), TensorLayout::Nhwc, matrix, bytes);
    let a = planar.build(&frame).unwrap().to_vec();
    let b = mixed.build(&frame).unwrap();
    for pixel in 0..8 {
        for channel in 0..3 {
            assert_eq!(a[channel * 8 + pixel], b[pixel * 3 + channel]);
        }
    }
    let other = Nv12Frame::new(size(2, 2));
    assert!(planar.build(&other).is_err());
}

#[test]
fn auto_picks_largest_matching_aspect_that_fits_the_frame() {
    let all = all_rvm_variants();
    let pick = |w, h| select_variant(size(w, h), &all, VariantPreference::Auto).unwrap();
    assert_eq!(pick(1920, 1080), ModelVariant::new(1920, 1080));
    assert_eq!(pick(1280, 720), ModelVariant::new(1280, 720));
    assert_eq!(pick(3840, 2160), ModelVariant::new(2560, 1440));
    assert_eq!(pick(1920, 1200), ModelVariant::new(1920, 1200));
    assert_eq!(pick(1440, 900), ModelVariant::new(1440, 900));
    assert_eq!(pick(1280, 960), ModelVariant::new(1280, 960));
    assert_eq!(pick(1024, 768), ModelVariant::new(1024, 768));
    assert_eq!(pick(1080, 1920), ModelVariant::new(1080, 1920));
}

#[test]
fn auto_uses_smallest_matching_variant_when_frame_is_smaller_than_all() {
    let all = all_rvm_variants();
    assert_eq!(
        select_variant(size(320, 180), &all, VariantPreference::Auto),
        Some(ModelVariant::new(640, 360))
    );
}

#[test]
fn auto_falls_back_to_nearest_aspect_ratio() {
    let all = all_rvm_variants();
    assert_eq!(
        select_variant(size(1366, 768), &all, VariantPreference::Auto),
        Some(ModelVariant::new(1280, 720))
    );
}

#[test]
fn fixed_preference_is_honoured_when_available_regardless_of_frame() {
    let all = all_rvm_variants();
    let wanted = ModelVariant::new(2560, 1600);
    assert_eq!(
        select_variant(size(640, 480), &all, VariantPreference::Fixed(wanted)),
        Some(wanted)
    );
    let missing = ModelVariant::new(123, 456);
    assert_eq!(
        select_variant(size(1280, 720), &all, VariantPreference::Fixed(missing)),
        Some(ModelVariant::new(1280, 720))
    );
}

#[test]
fn empty_catalogue_selects_nothing() {
    assert_eq!(select_variant(size(1280, 720), &[], VariantPreference::Auto), None);
}

#[test]
fn available_variants_are_those_whose_file_is_there() {
    let files: Vec<String> = vec![
        "notes.txt".to_owned(),
        ModelVariant::new(640, 360).rvm_file_name(),
        ModelVariant::new(360, 640).rvm_file_name(),
    ];
    assert_eq!(
        available_rvm_variants(&files),
        vec![ModelVariant::new(640, 360), ModelVariant::new(360, 640)]
    );
    assert_eq!(all_rvm_variants().len(), 2 * landscape_rvm_variants().len());
}

fn tensor(name: &str, element: ElementType, shape: Vec<i64>) -> TensorInput {
    TensorInput {
        name: name.to_owned(),
        element: Some(element),
        shape: Some(shape),
    }
}

fn rvm_inputs() -> Vec<TensorInput> {
    let mut inputs = vec![tensor("src", ElementType::Float16, vec![1, 3, 360, 640])];
    for name in ["r1i", "r2i", "r3i", "r4i"] {
        inputs.push(tensor(name, ElementType::Float16, vec![1, 16, 90, 160]));
    }
    inputs
}

fn fault<T>(result: Result<T, CoreError>) -> String {
    match result {
        Ok(_) => panic!("expected an error"),
        Err(error) => error.message(),
    }
}

#[test]
fn recurrent_models_are_checked_input_by_input() {
    let variant = ModelVariant::new(640, 360);
    let usable = match check_rvm_inputs(&rvm_inputs(), variant) {
        Ok(usable) => usable,
        Err(error) => panic!("{}", error.message()),
    };
    assert_eq!(usable.model_size, size(640, 360));
    assert_eq!(usable.states, vec![vec![1, 16, 90, 160]; 4]);
    assert_eq!(rvm_model_name(variant), "RVM MobileNetV3 fp16 640x360");

    let mut inputs = rvm_inputs();
    inputs[2].name = "other".to_owned();
    assert!(fault(check_rvm_inputs(&inputs, variant)).contains("input #2 is `other`, expected `r2i`"));
    let mut inputs = rvm_inputs();
    inputs[0].shape = Some(vec![1, 3, -1, 640]);
    assert!(fault(check_rvm_inputs(&inputs, variant)).contains("input `src` has dynamic shape [1, 3, -1, 640]"));
    let mut inputs = rvm_inputs();
    inputs[4].element = Some(ElementType::Float32);
    assert!(fault(check_rvm_inputs(&inputs, variant)).contains("input `r4i` is not "));
    let mut inputs = rvm_inputs();
    inputs.pop();
    assert!(fault(check_rvm_inputs(&inputs, variant)).contains("missing input #4 (r4i)"));
    assert!(fault(check_rvm_inputs(&rvm_inputs(), ModelVariant::new(640, 480)))
        .contains("src shape [1, 3, 360, 640] does not match variant 640x480"));
    assert!(matches!(
        check_rvm_inputs(&rvm_inputs(), ModelVariant::new(641, 360)),
        Err(CoreError::InvalidFrameSize { width: 641, height: 360 })
    ));
}

#[test]
fn memoryless_models_are_checked_by_their_picture() {
    let usable = check_mediapipe_input(&[tensor("input", ElementType::Float32, vec![1, 144, 256, 3])]);
    let usable = match usable {
        Ok(usable) => usable,
        Err(error) => panic!("{}", error.message()),
    };
    assert_eq!(usable.model_size, size(256, 144));
    assert_eq!(usable.name, "MediaPipe Selfie Segmentation 256x144");
    assert!(fault(check_mediapipe_input(&[])).contains("model has no inputs"));
    assert!(fault(check_mediapipe_input(&[tensor("input", ElementType::Float32, vec![1, 3, 144, 256])]))
        .contains("unexpected input shape [1, 3, 144, 256]"));
    assert!(matches!(
        check_mediapipe_input(&[tensor("input", ElementType::Float32, vec![1, 143, 256, 3])]),
        Err(CoreError::InvalidFrameSize { width: 256, height: 143 })
    ));
    assert_eq!(MediaPipeVariant::for_frame(size(480, 480)), MediaPipeVariant::Square);
    assert_eq!(MediaPipeVariant::for_frame(size(1280, 720)), MediaPipeVariant::Landscape);
}

#[test]
fn models_must_return_a_value_for_each_cell() {
    assert!(check_alpha_len(4, 4, "pha").is_ok());
    assert!(fault(check_alpha_len(4, 3, "pha")).contains("pha has 3 values"));
}
