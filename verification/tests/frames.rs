use chromafree::background::RgbImage;
use chromafree::blur::{BackgroundBlur, BlurStrength};
use chromafree::color::{ColorMatrix, Rgb, Yuv};
use chromafree::composite::{blend, blend_nv12, nv12_to_bgra, Background};
use chromafree::error::CoreError;
use chromafree::frame::{BgraFrame, FrameSize, Mask, Nv12Frame};
use chromafree::orientation::{Orientation, Rotation};
use chromafree::scale::{Nv12Scaler, PlaneScaler, ScaleMode};

fn size(width: u32, height: u32) -> FrameSize {
    FrameSize::new(width, height).unwrap()
}

/// A number in units of 2^-60.
fn units(value: f32) -> u64 {
    (f64::from(value) * (1u64 << 60) as f64) as u64
}

fn strength(value: f32) -> BlurStrength {
    let levels = 1.0 + value.clamp(0.0, 1.0) * 5.0;
    BlurStrength {
        amount: units(value.clamp(0.0, 1.0)),
        factor: (2f32.powf(levels - levels.floor()) * 8_388_608.0).round() as u32,
    }
}

#[test]
fn frame_size_rejects_odd_and_zero_dimensions() {
    assert!(FrameSize::new(1280, 720).is_ok());
    assert_eq!(FrameSize::new(641, 360), Err(CoreError::InvalidFrameSize { width: 641, height: 360 }));
    assert!(FrameSize::new(640, 0).is_err());
}

#[test]
fn nv12_plane_lengths_follow_size() {
    let size = size(6, 4);
    let frame = Nv12Frame::new(size);
    assert_eq!(frame.luma().len(), 24);
    assert_eq!(frame.chroma().len(), 12);
    assert!(frame.luma().iter().all(|&y| y == Yuv::black().y));
    assert!(Nv12Frame::from_planes(size, vec![0; 24], vec![0; 11]).is_err());
}

#[test]
fn planes_of_the_wrong_length_are_named() {
    assert_eq!(
        Nv12Frame::from_planes(size(6, 4), vec![0; 23], vec![0; 12]),
        Err(CoreError::PlaneSizeMismatch { expected: 24, actual: 23 })
    );
    assert_eq!(
        Nv12Frame::from_planes(size(6, 4), vec![0; 24], vec![0; 11]),
        Err(CoreError::PlaneSizeMismatch { expected: 12, actual: 11 })
    );
    assert_eq!(
        BgraFrame::from_data(size(2, 2), vec![0; 15]),
        Err(CoreError::PlaneSizeMismatch { expected: 16, actual: 15 })
    );
}

#[test]
fn frames_are_copied_only_to_frames_of_their_size() {
    let source = Nv12Frame::filled(size(4, 2), Yuv { y: 1, u: 2, v: 3 });
    let mut target = Nv12Frame::new(size(4, 2));
    target.copy_from(&source).unwrap();
    assert_eq!(target, source);
    let mut other = Nv12Frame::new(size(2, 4));
    assert_eq!(
        other.copy_from(&source),
        Err(CoreError::FrameSizeMismatch {
            expected_width: 2,
            expected_height: 4,
            actual_width: 4,
            actual_height: 2
        })
    );
    assert_eq!(size(4, 2).swapped(), size(2, 4));
}

#[test]
fn errors_describe_themselves() {
    assert_eq!(
        CoreError::InvalidFrameSize { width: 641, height: 360 }.message(),
        "frame size 641x360 must be non-zero and even in both dimensions"
    );
}

#[test]
fn masks_have_a_byte_for_each_cell() {
    let mask = Mask::new(3, 5);
    assert_eq!(mask.data().len(), 15);
}

#[test]
fn round_trip_stays_within_rounding_error() {
    for matrix in [ColorMatrix::Bt601, ColorMatrix::Bt709] {
        for rgb in [
            Rgb::new(0, 0, 0),
            Rgb::new(255, 255, 255),
            Rgb::green_screen(),
            Rgb::blue_screen(),
            Rgb::new(200, 30, 90),
        ] {
            let back = matrix.to_rgb(matrix.to_yuv(rgb));
            for (a, b) in [(rgb.r, back.r), (rgb.g, back.g), (rgb.b, back.b)] {
                assert!(a.abs_diff(b) <= 3, "{matrix:?} {rgb:?} -> {back:?}");
            }
        }
    }
}

#[test]
fn black_and_white_map_to_limited_range() {
    assert_eq!(ColorMatrix::Bt709.to_yuv(Rgb::new(0, 0, 0)), Yuv::black());
    assert_eq!(ColorMatrix::Bt601.to_yuv(Rgb::new(255, 255, 255)).y, 235);
    assert_eq!(ColorMatrix::for_height(720), ColorMatrix::Bt709);
    assert_eq!(ColorMatrix::for_height(480), ColorMatrix::Bt601);
}

#[test]
fn colours_convert_to_exact_values() {
    assert_eq!(ColorMatrix::Bt601.to_yuv(Rgb::new(255, 0, 0)), Yuv { y: 82, u: 90, v: 240 });
    assert_eq!(ColorMatrix::Bt709.to_yuv(Rgb::new(255, 0, 0)), Yuv { y: 63, u: 102, v: 240 });
    assert_eq!(ColorMatrix::Bt601.to_rgb(Yuv { y: 235, u: 128, v: 128 }), Rgb::new(255, 255, 255));
    assert_eq!(ColorMatrix::Bt709.to_rgb(Yuv { y: 255, u: 255, v: 255 }), Rgb::new(255, 183, 255));
}

#[test]
fn luma_grows_with_red_green_and_blue() {
    for matrix in [ColorMatrix::Bt601, ColorMatrix::Bt709] {
        let luma = |r: u8, g: u8, b: u8| matrix.to_yuv(Rgb::new(r, g, b)).y;
        for value in 0..255u8 {
            assert!(luma(value, 40, 200) <= luma(value + 1, 40, 200));
            assert!(luma(40, value, 200) <= luma(40, value + 1, 200));
            assert!(luma(200, 40, value) <= luma(200, 40, value + 1));
        }
    }
}

#[test]
fn solid_image_converts_to_uniform_nv12() {
    let matrix = ColorMatrix::Bt709;
    let image = RgbImage::from_pixels(3, 5, [0u8, 71, 187].repeat(15)).unwrap();
    let frame = image.to_nv12(size(64, 36), matrix).unwrap();
    let expected = matrix.to_yuv(Rgb::blue_screen());
    assert_eq!(frame, Nv12Frame::filled(frame.size(), expected));
}

#[test]
fn png_bytes_round_trip_through_decoder() {
    let mut png = Vec::new();
    let buffer = image::RgbImage::from_pixel(4, 4, image::Rgb([255, 0, 0]));
    buffer
        .write_to(&mut std::io::Cursor::new(&mut png), image::ImageFormat::Png)
        .unwrap();
    let decoded = RgbImage::decode(&png).unwrap();
    assert_eq!((decoded.width(), decoded.height()), (4, 4));
    assert_eq!(&decoded.pixels()[..3], &[255, 0, 0]);
    assert!(RgbImage::decode(b"not an image").is_err());
}

#[test]
fn grey_pictures_with_opacity_become_rgb() {
    let mut png = Vec::new();
    let buffer = image::GrayAlphaImage::from_pixel(2, 1, image::LumaA([77, 3]));
    buffer
        .write_to(&mut std::io::Cursor::new(&mut png), image::ImageFormat::Png)
        .unwrap();
    let decoded = RgbImage::decode(&png).unwrap();
    assert_eq!((decoded.width(), decoded.height()), (2, 1));
    assert_eq!(decoded.pixels(), &[77, 77, 77, 77, 77, 77]);
}

#[test]
fn what_a_decoder_reports_is_passed_on() {
    assert_eq!(
        RgbImage::from_decoded(Err("broken".to_owned())),
        Err(CoreError::Image("broken".to_owned()))
    );
    let made = RgbImage::from_decoded(Ok((1, 2, vec![1, 2, 3, 4, 5, 6]))).unwrap();
    assert_eq!(made.pixels(), &[1, 2, 3, 4, 5, 6]);
    assert!(RgbImage::from_decoded(Ok((2, 2, vec![0; 11]))).is_err());
}

#[test]
fn uniform_frame_stays_uniform() {
    let size = size(320, 180);
    let color = Yuv { y: 100, u: 60, v: 200 };
    let source = Nv12Frame::filled(size, color);
    let mut target = Nv12Frame::new(size);
    BackgroundBlur::new(size, strength(0.6)).apply(&source, &mut target).unwrap();
    assert_eq!(target, source);
}

#[test]
fn sharp_edge_is_spread_and_energy_is_roughly_preserved() {
    let size = size(256, 64);
    let mut source = Nv12Frame::filled(size, Yuv::black());
    for row in source.planes_mut().0.chunks_exact_mut(256) {
        row[128..].fill(235);
    }
    let mut target = Nv12Frame::new(size);
    let blur = BackgroundBlur::new(size, strength(0.4));
    blur.apply(&source, &mut target).unwrap();
    let row = &target.luma()[32 * 256..33 * 256];
    assert!(row[124] > 16 && row[124] < 235);
    assert!(row[132] > 16 && row[132] < 235);
    let before: u64 = source.luma().iter().map(|&v| u64::from(v)).sum();
    let after: u64 = target.luma().iter().map(|&v| u64::from(v)).sum();
    assert!(before.abs_diff(after) * 50 < before);
}

#[test]
fn stronger_blur_spreads_further() {
    let size = size(512, 256);
    let mut source = Nv12Frame::filled(size, Yuv::black());
    for row in source.planes_mut().0.chunks_exact_mut(512) {
        row[256..].fill(235);
    }
    let spread = |value: f32| {
        let mut target = Nv12Frame::new(size);
        BackgroundBlur::new(size, strength(value)).apply(&source, &mut target).unwrap();
        target.luma()[128 * 512..129 * 512]
            .iter()
            .filter(|&&v| v > 20 && v < 230)
            .count()
    };
    assert!(spread(0.8) > spread(0.2));
    let steps: Vec<usize> = [0.0, 0.1, 0.25, 0.4, 0.5, 0.6, 0.75, 0.9, 1.0].iter().map(|&s| spread(s)).collect();
    assert!(steps.windows(2).all(|w| w[1] >= w[0]), "{steps:?}");
}

#[test]
fn tiny_frames_do_not_panic() {
    let size = size(2, 2);
    let source = Nv12Frame::filled(size, Yuv { y: 50, u: 1, v: 2 });
    let mut target = Nv12Frame::new(size);
    BackgroundBlur::new(size, strength(1.0)).apply(&source, &mut target).unwrap();
    assert_eq!(target, source);
}

#[test]
fn blurs_refuse_frames_of_another_size() {
    let blur = BackgroundBlur::new(size(8, 8), strength(0.5));
    let source = Nv12Frame::new(size(8, 4));
    let mut target = Nv12Frame::new(size(8, 8));
    assert_eq!(
        blur.apply(&source, &mut target),
        Err(CoreError::FrameSizeMismatch {
            expected_width: 8,
            expected_height: 8,
            actual_width: 8,
            actual_height: 4
        })
    );
    assert_eq!(blur.size(), size(8, 8));
    assert_eq!(blur.strength(), strength(0.5));
}

#[test]
fn halving_averages_four_pixels() {
    let half = chromafree::blur::downsample(&[0, 10, 20, 30, 40, 50, 60, 70], 4, 2, 1);
    assert_eq!(half, vec![25, 45]);
    assert_eq!(chromafree::blur::tent(&[0, 40, 0], 3, 1, 1), vec![10, 20, 10]);
}

fn numbered_frame(width: u32, height: u32) -> Nv12Frame {
    let size = size(width, height);
    let luma = (0..size.luma_len()).map(|i| i as u8).collect();
    let chroma = (0..size.chroma_len()).map(|i| 100 + i as u8).collect();
    Nv12Frame::from_planes(size, luma, chroma).unwrap()
}

fn apply(orientation: Orientation, source: &Nv12Frame) -> Nv12Frame {
    let mut out = Nv12Frame::new(orientation.output_size(source.size()));
    orientation.apply(source, &mut out).unwrap();
    out
}

fn rotation(rotation: Rotation) -> Orientation {
    Orientation {
        rotation,
        ..Default::default()
    }
}

#[test]
fn rotate_clockwise_90_moves_bottom_left_to_top_left() {
    let source = numbered_frame(4, 2);
    let out = apply(rotation(Rotation::Clockwise90), &source);
    assert_eq!(out.size(), size(2, 4));
    assert_eq!(out.luma(), &[4, 0, 5, 1, 6, 2, 7, 3]);
    assert_eq!(out.chroma(), &[100, 101, 102, 103]);
}

#[test]
fn rotate_180_reverses_pixels_and_keeps_chroma_pairs() {
    let source = numbered_frame(4, 2);
    let out = apply(rotation(Rotation::Clockwise180), &source);
    assert_eq!(out.luma(), &[7, 6, 5, 4, 3, 2, 1, 0]);
    assert_eq!(out.chroma(), &[102, 103, 100, 101]);
}

#[test]
fn mirror_horizontal_reverses_each_row() {
    let source = numbered_frame(4, 2);
    let out = apply(
        Orientation {
            mirror_horizontal: true,
            ..Default::default()
        },
        &source,
    );
    assert_eq!(out.luma(), &[3, 2, 1, 0, 7, 6, 5, 4]);
}

#[test]
fn mirroring_comes_before_turning() {
    let source = numbered_frame(4, 2);
    let both = Orientation {
        rotation: Rotation::Clockwise90,
        mirror_horizontal: true,
        mirror_vertical: false,
    };
    let mirrored = apply(
        Orientation {
            mirror_horizontal: true,
            ..Default::default()
        },
        &source,
    );
    assert_eq!(apply(both, &source), apply(rotation(Rotation::Clockwise90), &mirrored));
    assert_eq!(apply(Orientation::default(), &source), source);
    assert!(Orientation::default().is_identity());
}

#[test]
fn four_quarter_turns_restore_the_original() {
    let source = numbered_frame(6, 4);
    let mut frame = source.clone();
    for _ in 0..4 {
        frame = apply(rotation(Rotation::Clockwise90), &frame);
    }
    assert_eq!(frame, source);
    let half = apply(rotation(Rotation::Clockwise180), &source);
    assert_eq!(apply(rotation(Rotation::Clockwise180), &half), source);
}

#[test]
fn clockwise_270_inverts_clockwise_90() {
    let source = numbered_frame(6, 4);
    let turned = apply(rotation(Rotation::Clockwise90), &source);
    assert_eq!(apply(rotation(Rotation::Clockwise270), &turned), source);
}

#[test]
fn mismatched_destination_is_rejected() {
    let source = numbered_frame(4, 2);
    let mut out = Nv12Frame::new(size(4, 2));
    assert!(rotation(Rotation::Clockwise90).apply(&source, &mut out).is_err());
}

#[test]
fn identity_scale_copies_plane() {
    let scaler = PlaneScaler::new(4, 3, 4, 3, 1, ScaleMode::Fill);
    let source: Vec<u8> = (0..12).map(|i| i * 10).collect();
    let mut target = vec![0; 12];
    scaler.scale(&source, &mut target).unwrap();
    assert_eq!(target, source);
}

#[test]
fn upscale_interpolates_between_neighbours() {
    let scaler = PlaneScaler::new(2, 1, 4, 1, 1, ScaleMode::Stretch);
    let mut target = vec![0; 4];
    scaler.scale(&[0, 200], &mut target).unwrap();
    assert_eq!(target, vec![0, 50, 150, 200]);
}

#[test]
fn downscale_by_two_averages_pairs() {
    let scaler = PlaneScaler::new(4, 2, 2, 1, 1, ScaleMode::Stretch);
    let mut target = vec![0; 2];
    scaler.scale(&[0, 100, 200, 40, 20, 120, 220, 60], &mut target).unwrap();
    assert_eq!(target, vec![60, 130]);
}

#[test]
fn fill_mode_crops_the_centre_of_a_wider_source() {
    let source: Vec<u8> = [0u8, 0, 90, 90, 180, 180, 0, 0].repeat(2);
    let scaler = PlaneScaler::new(8, 2, 4, 2, 1, ScaleMode::Fill);
    let mut target = vec![0; 8];
    scaler.scale(&source, &mut target).unwrap();
    assert_eq!(&target[..4], &[90, 90, 180, 180]);
}

/// Sampling positions in double precision: a pixel and 256ths to the next one.
fn double_taps(source: u32, target: u32, start: f64, length: f64) -> Vec<(usize, u32)> {
    (0..target)
        .map(|i| {
            let position = ((f64::from(i) + 0.5) * length / f64::from(target) - 0.5 + start)
                .clamp(0.0, f64::from(source - 1));
            let index = position.floor();
            let fraction = ((position - index) * 256.0).round() as u32;
            if fraction >= 256 {
                (index as usize + 1, 0)
            } else {
                (index as usize, fraction)
            }
        })
        .collect()
}

#[test]
fn planes_are_sampled_in_double_precision() {
    for (sw, sh, tw, th) in [
        (1366u32, 4u32, 1536u32, 2u32),
        (4, 1366, 2, 1536),
        (683, 8, 768, 9),
        (1366, 6, 1536, 7),
        (35, 7, 1280, 256),
        (7, 35, 256, 1280),
        (1280, 6, 35, 2),
        (1000, 3, 512, 3),
        (3, 5, 3, 5),
        (1, 1, 9, 4),
    ] {
        let source: Vec<u8> = (0..sw * sh).map(|i| (i.wrapping_mul(2_654_435_761) >> 24) as u8).collect();
        for mode in [ScaleMode::Fill, ScaleMode::Stretch] {
            let scale = (f64::from(tw) / f64::from(sw)).max(f64::from(th) / f64::from(sh));
            let span = |source: u32, target: u32| match mode {
                ScaleMode::Stretch => (0.0, f64::from(source)),
                ScaleMode::Fill => {
                    let length = f64::from(target) / scale;
                    ((f64::from(source) - length) / 2.0, length)
                }
            };
            let (x, width) = span(sw, tw);
            let (y, height) = span(sh, th);
            let (columns, rows) = (double_taps(sw, tw, x, width), double_taps(sh, th, y, height));
            let byte = |column: usize, row: usize| {
                let (column, row) = (column.min(sw as usize - 1), row.min(sh as usize - 1));
                u32::from(source[row * sw as usize + column])
            };
            let mut expected = Vec::new();
            for &(row, fy) in &rows {
                for &(column, fx) in &columns {
                    let upper = byte(column, row) * (256 - fx) + byte(column + 1, row) * fx;
                    let lower = byte(column, row + 1) * (256 - fx) + byte(column + 1, row + 1) * fx;
                    expected.push(((upper * (256 - fy) + lower * fy + 32_768) >> 16) as u8);
                }
            }
            let mut target = vec![0; (tw * th) as usize];
            PlaneScaler::new(sw, sh, tw, th, 1, mode).scale(&source, &mut target).unwrap();
            assert_eq!(target, expected, "{sw}x{sh} to {tw}x{th} {mode:?}");
        }
    }
}

#[test]
fn chroma_channels_are_scaled_independently() {
    let scaler = PlaneScaler::new(2, 1, 4, 1, 2, ScaleMode::Stretch);
    let mut target = vec![0; 8];
    scaler.scale(&[0, 255, 200, 55], &mut target).unwrap();
    assert_eq!(target, vec![0, 255, 50, 205, 150, 105, 200, 55]);
}

#[test]
fn scalers_refuse_planes_of_another_length() {
    let scaler = PlaneScaler::new(2, 2, 4, 4, 1, ScaleMode::Stretch);
    assert_eq!((scaler.source_len(), scaler.target_len()), (4, 16));
    let mut target = vec![0; 16];
    assert_eq!(
        scaler.scale(&[0; 3], &mut target),
        Err(CoreError::PlaneSizeMismatch { expected: 4, actual: 3 })
    );
    assert_eq!(
        scaler.scale(&[0; 4], &mut target[..15]),
        Err(CoreError::PlaneSizeMismatch { expected: 16, actual: 15 })
    );
}

#[test]
fn uniform_nv12_frame_stays_uniform_after_scaling() {
    let color = Yuv { y: 81, u: 90, v: 240 };
    let source = Nv12Frame::filled(size(1920, 1080), color);
    let target_size = size(640, 480);
    let mut target = Nv12Frame::new(target_size);
    let scaler = Nv12Scaler::new(source.size(), target_size, ScaleMode::Fill);
    scaler.scale(&source, &mut target).unwrap();
    assert_eq!(target, Nv12Frame::filled(target_size, color));
    assert_eq!((scaler.source(), scaler.target()), (source.size(), target_size));
}

#[test]
fn blend_endpoints_are_exact() {
    for fg in [0u8, 17, 128, 255] {
        for bg in [0u8, 99, 255] {
            assert_eq!(blend(fg, bg, 255), fg);
            assert_eq!(blend(fg, bg, 0), bg);
        }
    }
    assert_eq!(blend(200, 100, 128), 150);
}

#[test]
fn solid_background_replaces_masked_out_pixels() {
    let foreground = Nv12Frame::filled(size(4, 2), Yuv { y: 200, u: 10, v: 20 });
    let green = ColorMatrix::Bt709.to_yuv(Rgb::green_screen());
    let luma_mask = [255, 255, 0, 0, 255, 255, 0, 0];
    let chroma_mask = [255, 0];
    let mut target = Nv12Frame::new(size(4, 2));
    blend_nv12(&foreground, Background::Solid(green), &luma_mask, &chroma_mask, &mut target).unwrap();
    assert_eq!(target.luma(), &[200, 200, green.y, green.y, 200, 200, green.y, green.y]);
    assert_eq!(target.chroma(), &[10, 20, green.u, green.v]);
}

#[test]
fn frame_background_is_blended_per_pixel() {
    let foreground = Nv12Frame::filled(size(4, 2), Yuv { y: 235, u: 128, v: 128 });
    let background = Nv12Frame::filled(size(4, 2), Yuv { y: 16, u: 128, v: 128 });
    let mut target = Nv12Frame::new(size(4, 2));
    blend_nv12(&foreground, Background::Frame(&background), &[128; 8], &[128; 2], &mut target).unwrap();
    assert!(target.luma().iter().all(|&v| v == 126));
}

#[test]
fn bgra_conversion_carries_mask_as_alpha() {
    let matrix = ColorMatrix::Bt601;
    let frame = Nv12Frame::filled(size(4, 2), matrix.to_yuv(Rgb::new(250, 10, 10)));
    let mut target = BgraFrame::new(size(4, 2));
    let alpha = [0, 64, 128, 255, 1, 2, 3, 4];
    nv12_to_bgra(&frame, Some(&alpha), matrix, &mut target).unwrap();
    let first = &target.data()[..4];
    assert!(first[2] > 240 && first[0] < 20 && first[1] < 20);
    let alphas: Vec<u8> = target.data().chunks_exact(4).map(|p| p[3]).collect();
    assert_eq!(alphas, alpha);
    nv12_to_bgra(&frame, None, matrix, &mut target).unwrap();
    assert!(target.data().chunks_exact(4).all(|p| p[3] == 255));
}

#[test]
fn mismatched_masks_are_rejected() {
    let frame = Nv12Frame::new(size(4, 2));
    let mut target = Nv12Frame::new(size(4, 2));
    assert!(blend_nv12(&frame, Background::Solid(Yuv::black()), &[0; 7], &[0; 2], &mut target).is_err());
}

#[test]
fn backgrounds_of_another_size_are_rejected() {
    let frame = Nv12Frame::new(size(4, 2));
    let background = Nv12Frame::new(size(2, 2));
    let mut target = Nv12Frame::new(size(4, 2));
    assert!(matches!(
        blend_nv12(&frame, Background::Frame(&background), &[0; 8], &[0; 2], &mut target),
        Err(CoreError::FrameSizeMismatch { .. })
    ));
    let mut bgra = BgraFrame::new(size(2, 2));
    assert!(matches!(
        nv12_to_bgra(&frame, None, ColorMatrix::Bt601, &mut bgra),
        Err(CoreError::FrameSizeMismatch { .. })
    ));
}
