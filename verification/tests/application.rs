use std::sync::Arc;

use chromafree::background::RgbImage;
use chromafree::blur::BlurStrength;
use chromafree::camera::{rank_formats, CameraOpenError, MediaFoundationCameras, Opening};
use chromafree::color::{ColorMatrix, Rgb};
use chromafree::config::{
    format_color, parse_color, parse_quality, CameraConfig, Config, ConfigError, DeviceConfig, EffectMode,
    EncodingConfig, FormatConfig, MethodConfig, NumberFault, OutputConfig, GREEN_SCREEN,
};
use chromafree::device::{
    camera_formats, chromafree_camera_present, is_virtual_chromafree_camera, list_cameras, native_type, CameraDevice,
    CaptureError, CaptureFormat, Encoding, FOURCC_MJPG, SUBTYPE_CODE, VIDEO_FORMAT_BASE,
};
use chromafree::error::CoreError;
use chromafree::frame::{BgraFrame, FrameSize, Nv12Frame};
use chromafree::i18n::{ChosenLanguage, Language};
use chromafree::icon::icon_rgba;
use chromafree::mask::MaskParams;
use chromafree::orientation::Rotation;
use chromafree::pipeline::{BackgroundEffect, PipelineOutput};
use chromafree::preview::{render_preview, PreviewFrame, PREVIEW_CHECKER_LIGHT};
use chromafree::region::PixelFormat;
use chromafree::segmentation::InferenceDevice;
use chromafree::source::{capture_age, copy_contiguous, copy_pitched, SyntheticSource};
use chromafree::status::{status_lines, EngineState, EngineStatus, VirtualCameraState};
use chromafree::variant::{ModelVariant, VariantPreference};
use chromafree::window::{
    aspect_label, camera_selected, choose_image, color_preset, commit, config_from_window, format_index, format_names,
    fps_names, list_for_window, listed_camera, output_names, quality_names, reset_mask, show_config, Commit,
    WindowValues,
};

fn size(width: u32, height: u32) -> FrameSize {
    FrameSize::new(width, height).unwrap()
}

/// A number in units of 2^-60.
fn units(value: f32) -> u64 {
    (f64::from(value) * (1u64 << 60) as f64) as u64
}

fn format(width: u32, height: u32, fps: u32, encoding: Encoding) -> CaptureFormat {
    CaptureFormat {
        width,
        height,
        fps_numerator: fps,
        fps_denominator: 1,
        encoding,
    }
}

fn device(name: &str, link: &str) -> CameraDevice {
    CameraDevice {
        name: name.to_owned(),
        symbolic_link: link.to_owned(),
    }
}

#[test]
fn formats_are_ranked_by_size_then_native_encoding_then_lowest_sufficient_fps() {
    let formats = [
        format(3840, 2160, 30, Encoding::Mjpeg),
        format(1920, 1080, 15, Encoding::Nv12),
        format(1920, 1080, 30, Encoding::Mjpeg),
        format(1920, 1080, 60, Encoding::Nv12),
        format(1920, 1080, 30, Encoding::Nv12),
        format(1280, 720, 60, Encoding::Nv12),
        format(640, 480, 30, Encoding::Other(1)),
    ];
    let ranked = rank_formats(&formats, 30);
    assert_eq!(&ranked[..3], &[formats[4], formats[3], formats[2]]);
    assert_eq!(ranked.len(), 6);
    assert_eq!(rank_formats(&formats, 60)[0], formats[3]);
    assert_eq!(
        rank_formats(&[format(640, 480, 15, Encoding::Yuy2)], 30),
        vec![format(640, 480, 15, Encoding::Yuy2)]
    );
}

#[test]
fn the_configured_camera_is_found_or_named() {
    let cameras = [device("One", "a"), device("Two", "b")];
    let mut wish = CameraConfig::default();
    assert_eq!(MediaFoundationCameras::find(&wish, &cameras).unwrap().name, "One");
    assert_eq!(
        MediaFoundationCameras::find(&wish, &[]).unwrap_err(),
        CameraOpenError::NoCamera
    );
    wish.symbolic_link = Some("b".to_owned());
    assert_eq!(MediaFoundationCameras::find(&wish, &cameras).unwrap().name, "Two");
    wish.symbolic_link = Some("c".to_owned());
    let missing = MediaFoundationCameras::find(&wish, &cameras).unwrap_err();
    assert_eq!(missing.message(), "camera c is not connected");
    wish.name = Some("Three".to_owned());
    let missing = MediaFoundationCameras::find(&wish, &cameras).unwrap_err();
    assert_eq!(missing, CameraOpenError::Missing("Three".to_owned()));
    assert_eq!(CameraOpenError::NoCamera.message(), "no camera is connected");
}

#[test]
fn a_camera_is_opened_in_the_wanted_format_or_the_best_one() {
    let formats = [
        format(640, 480, 30, Encoding::Yuy2),
        format(1280, 720, 30, Encoding::Nv12),
    ];
    let wanted = FormatConfig::from_capture(&formats[0]);
    assert_eq!(MediaFoundationCameras::candidates(&formats, wanted, 30), vec![formats[0]]);
    let absent = FormatConfig::from_capture(&format(320, 240, 30, Encoding::Nv12));
    assert_eq!(
        MediaFoundationCameras::candidates(&formats, absent, 30),
        vec![formats[1], formats[0]]
    );
    let mut opening = Opening::new(&device("Cam", "x"), vec![formats[1]]);
    assert_eq!(opening.next(), Ok(formats[1]));
    opening.failed("busy".to_owned());
    assert_eq!(opening.next(), Err(CameraOpenError::Other("busy".to_owned())));
    let mut none = Opening::new(&device("Cam", "x"), vec![]);
    assert_eq!(none.next().unwrap_err().message(), "camera Cam offers no usable format");
}

#[test]
fn virtual_camera_is_recognised_by_name_or_clsid() {
    assert!(is_virtual_chromafree_camera(
        "ChromaFree",
        r"\\?\SWD#VCAMDEVAPI#something"
    ));
    assert!(is_virtual_chromafree_camera(
        "renamed",
        r"\\?\SWD#VCAMDEVAPI#{4525794b-703e-444b-a81d-2b278b2ad0e4}#x"
    ));
    assert!(!is_virtual_chromafree_camera(
        "USB Camera",
        r"\\?\USB#VID_046D&PID_085C#1"
    ));
}

#[test]
fn the_virtual_camera_is_left_out_of_the_list() {
    let devices = vec![
        device("USB Camera", "usb"),
        device("ChromaFree", "virtual"),
        device("Other", "{4525794B-703E-444B-A81D-2B278B2AD0E4}"),
    ];
    assert!(chromafree_camera_present(&devices));
    let cameras = list_cameras(devices);
    assert_eq!(cameras, vec![device("USB Camera", "usb")]);
    assert!(!chromafree_camera_present(&cameras));
}

#[test]
fn encodings_are_named_after_fourcc() {
    let mjpg = u128::from(FOURCC_MJPG) * SUBTYPE_CODE + VIDEO_FORMAT_BASE;
    assert_eq!(Encoding::from_subtype(mjpg).name(), "MJPEG");
    assert_eq!(Encoding::Other(u32::from_le_bytes(*b"H264")).name(), "H264");
}

#[test]
fn rates_are_of_double_precision() {
    let rated = |numerator: u32, denominator: u32, encoding: Encoding| CaptureFormat {
        fps_numerator: numerator,
        fps_denominator: denominator,
        ..format(640, 480, 1, encoding)
    };
    assert_eq!(rated(107, 40, Encoding::Nv12).label(), "640x480 @ 2.67 fps NV12");
    assert_eq!(rated(7, 0, Encoding::Nv12).label(), "640x480 @ 7.00 fps NV12");
    // The two rates differ by less than the precision, so the encoding decides.
    let mjpeg = rated(4_294_967_294, 4_294_967_293, Encoding::Mjpeg);
    let nv12 = rated(4_294_967_295, 4_294_967_294, Encoding::Nv12);
    assert_eq!(camera_formats(&[mjpeg, nv12]), vec![nv12, mjpeg]);
    for (numerator, denominator) in [(107u32, 40u32), (30_000, 1001), (1, 3), (4_294_967_295, 7), (59, 200), (9, 8)] {
        let shown = format!("640x480 @ {:.2} fps NV12", f64::from(numerator) / f64::from(denominator));
        assert_eq!(rated(numerator, denominator, Encoding::Nv12).label(), shown);
    }
}

#[test]
fn formats_come_from_media_types_and_are_listed_once() {
    let nv12 = u128::from(u32::from_le_bytes(*b"NV12")) * SUBTYPE_CODE + VIDEO_FORMAT_BASE;
    let made = CaptureFormat::from_media_type(nv12, (1280u64 << 32) | 720, Some((30000u64 << 32) | 1001));
    assert_eq!(made.label(), "1280x720 @ 29.97 fps NV12");
    assert_eq!(made.packed_size(), (1280u64 << 32) | 720);
    let unrated = CaptureFormat::from_media_type(nv12, (640u64 << 32) | 480, None);
    assert_eq!(unrated, format(640, 480, 30, Encoding::Nv12));
    let types = [
        unrated,
        made,
        unrated,
        format(1280, 720, 60, Encoding::Mjpeg),
        format(8, 8, 30, Encoding::Other(5)),
    ];
    assert_eq!(
        camera_formats(&types),
        vec![format(1280, 720, 60, Encoding::Mjpeg), made, unrated]
    );
    assert_eq!(native_type(&types, made), Some(1));
    assert_eq!(native_type(&types, format(1, 1, 1, Encoding::Nv12)), None);
}

#[test]
fn parses_language_codes() {
    assert_eq!(Language::parse("pl-PL"), Some(Language::Polish));
    assert_eq!(Language::parse("EN_us"), Some(Language::English));
    assert_eq!(Language::parse("de"), None);
}

#[test]
fn the_language_follows_the_wish_and_then_the_system() {
    assert_eq!(Language::current(Some(" pl "), 0x0409), Language::Polish);
    assert_eq!(Language::current(Some("de"), 0x0415), Language::Polish);
    assert_eq!(Language::current(None, 0x0409), Language::English);
    assert_eq!(Language::Polish.code(), "pl");
}

#[test]
fn the_language_is_chosen_once() {
    let mut chosen = ChosenLanguage { language: None };
    assert_eq!(chosen.current(Some("pl"), 0x0409), Language::Polish);
    assert_eq!(chosen.current(Some("en"), 0x0409), Language::Polish);
    assert_eq!(chosen.current(None, 0x0409), Language::Polish);
    let mut other = ChosenLanguage { language: None };
    assert_eq!(other.current(None, 0x0409), Language::English);
    assert_eq!(other.current(Some("pl"), 0x0415), Language::English);
}

#[test]
fn synthetic_source_is_paced_and_moves() {
    let mut now = 0u64;
    let mut source = SyntheticSource::new(size(64, 36), 100, now);
    now += source.wait(now);
    let first = source.read(now).luma().to_vec();
    for _ in 0..9 {
        now += source.wait(now);
        source.read(now);
    }
    assert!(now >= 85_000_000, "{now:?}");
    now += source.wait(now);
    assert_ne!(source.read(now).luma(), first.as_slice());
    assert_eq!(source.frame_number(), 11);
    assert_eq!(source.size(), size(64, 36));
}

#[test]
fn camera_buffers_are_copied_row_by_row() {
    let mut frame = Nv12Frame::new(size(2, 2));
    copy_contiguous(&mut frame, &[1, 2, 3, 4, 5, 6, 7]).unwrap();
    assert_eq!((frame.luma(), frame.chroma()), (&[1u8, 2, 3, 4][..], &[5u8, 6][..]));
    assert_eq!(
        copy_contiguous(&mut frame, &[0; 5]),
        Err(CaptureError::ShortBuffer { expected: 6, actual: 5 })
    );
    copy_pitched(&mut frame, &[9, 8, 0, 7, 6, 0, 5, 4], 0, 3);
    assert_eq!((frame.luma(), frame.chroma()), (&[9u8, 8, 7, 6][..], &[5u8, 4][..]));
    copy_pitched(&mut frame, &[5, 4, 7, 6, 9, 8], 4, -2);
    assert_eq!((frame.luma(), frame.chroma()), (&[9u8, 8, 7, 6][..], &[5u8, 4][..]));
    assert_eq!(capture_age(50, Some(20)), Some(3000));
    assert_eq!(capture_age(20, Some(50)), None);
    assert_eq!(capture_age(20, None), None);
}

#[test]
fn capture_errors_describe_themselves() {
    assert_eq!(
        CaptureError::ShortBuffer { expected: 6, actual: 5 }.message(),
        "camera frame buffer has 5 bytes, expected at least 6"
    );
    assert_eq!(CaptureError::StreamEnded.message(), "camera stopped delivering frames");
}

#[test]
fn missing_file_gives_defaults_that_map_to_pipeline_settings() {
    let config = Config::default();
    let settings = config.pipeline_settings(None).unwrap();
    assert_eq!(settings.output, size(1280, 720));
    assert_eq!(
        settings.effect,
        BackgroundEffect::Blur {
            strength: BlurStrength::half()
        }
    );
    assert_eq!(settings.segmentation.variant, VariantPreference::Auto);
    assert_eq!(settings.segmentation.mask, None);
}

#[test]
fn values_map_to_core_types() {
    let mut config = Config::default();
    config.orientation.rotation = 270;
    config.orientation.mirror_horizontal = true;
    config.segmentation.device = DeviceConfig::Cpu;
    config.segmentation.quality = "1280x720".to_owned();
    config.segmentation.method = MethodConfig::MediaPipe;
    config.segmentation.edge_high = Some(units(0.9));
    config.effect.mode = EffectMode::Image;
    let settings = config.pipeline_settings(None).unwrap();
    assert_eq!(settings.orientation.rotation, Rotation::Clockwise270);
    assert!(settings.orientation.mirror_horizontal);
    assert!(matches!(settings.segmentation.device, InferenceDevice::Cpu { .. }));
    assert_eq!(
        settings.segmentation.variant,
        VariantPreference::Fixed(ModelVariant::new(1280, 720))
    );
    let mask = settings.segmentation.mask.unwrap();
    assert_eq!(mask.edge_high, units(0.9));
    assert_eq!(mask.edge_low, MaskParams::memoryless_model().edge_low);
    assert!(matches!(settings.effect, BackgroundEffect::Color(_)));
}

#[test]
fn partial_file_keeps_defaults_for_missing_fields() {
    let mut config = Config::default();
    config.effect.mode = EffectMode::Transparent;
    config.effect.color = "#0047BB".to_owned();
    assert_eq!(config.output, OutputConfig::default());
    let settings = config.pipeline_settings(None).unwrap();
    assert_eq!(
        settings.effect,
        BackgroundEffect::Transparent {
            fallback: Rgb { r: 0, g: 71, b: 187 }
        }
    );
}

#[test]
fn invalid_values_are_rejected() {
    assert!(parse_color("green").is_err());
    assert!(parse_quality("big").is_err());
    assert_eq!(format_color(parse_color("#00b140").unwrap()), GREEN_SCREEN);
    let mut config = Config::default();
    config.output.width = 1281;
    assert!(config.pipeline_settings(None).is_err());
}

#[test]
fn each_fault_of_a_configuration_is_told_apart() {
    assert_eq!(parse_color("green"), Err(ConfigError::Color("green".to_owned())));
    assert_eq!(parse_color(" ##0047bb "), Ok(Rgb::blue_screen()));
    assert_eq!(parse_quality("AUTO"), Ok(VariantPreference::Auto));
    assert_eq!(parse_quality("big"), Err(ConfigError::Quality("big".to_owned())));
    assert_eq!(parse_quality("x2"), Err(ConfigError::Number(NumberFault::Empty)));
    assert_eq!(parse_quality("1x2y"), Err(ConfigError::Number(NumberFault::InvalidDigit)));
    assert_eq!(
        parse_quality("4294967296x2"),
        Err(ConfigError::Number(NumberFault::TooLarge))
    );
    assert_eq!(
        parse_quality("+640x0360"),
        Ok(VariantPreference::Fixed(ModelVariant::new(640, 360)))
    );
    let mut config = Config::default();
    config.output.height = 0;
    assert_eq!(
        config.pipeline_settings(None),
        Err(ConfigError::Size(CoreError::InvalidFrameSize { width: 1280, height: 0 }))
    );
    assert_eq!(
        ConfigError::Color("x".to_owned()).message(),
        "color x must look like #RRGGBB"
    );
    assert_eq!(
        ConfigError::Number(NumberFault::InvalidDigit).message(),
        "nope".parse::<u32>().unwrap_err().to_string()
    );
    assert_eq!(
        ConfigError::Number(NumberFault::TooLarge).message(),
        "4294967296".parse::<u32>().unwrap_err().to_string()
    );
    assert_eq!(
        ConfigError::Number(NumberFault::Empty).message(),
        "".parse::<u32>().unwrap_err().to_string()
    );
}

#[test]
fn a_picture_is_used_where_it_could_be_loaded() {
    let mut config = Config::default();
    config.effect.mode = EffectMode::Image;
    let image = Arc::new(RgbImage::from_pixels(1, 1, vec![1, 2, 3]).unwrap());
    let settings = config.pipeline_settings(Some(Arc::clone(&image))).unwrap();
    assert_eq!(settings.effect, BackgroundEffect::Image(image));
}

#[test]
fn configured_formats_survive_the_way_there_and_back() {
    let config = FormatConfig {
        width: 1920,
        height: 1080,
        fps_numerator: 30,
        fps_denominator: 1,
        encoding: EncodingConfig::Mjpeg,
    };
    assert_eq!(FormatConfig::from_capture(&config.to_capture()), Some(config));
    assert_eq!(FormatConfig::from_capture(&format(2, 2, 1, Encoding::Other(3))), None);
}

#[test]
fn status_lines_describe_problems_in_each_language() {
    let mut status = EngineStatus {
        state: EngineState::CameraMissing("OBSBOT".to_owned()),
        virtual_camera: VirtualCameraState::Registered,
        ..EngineStatus::default()
    };
    let (headline, _, virtual_camera, problem) = status_lines(&status, Language::Polish);
    assert!(headline.contains("OBSBOT"));
    assert!(virtual_camera.contains("dostępna"));
    assert!(problem);
    let (_, _, virtual_camera, _) = status_lines(&status, Language::English);
    assert!(virtual_camera.contains("available"));

    status.state = EngineState::Running;
    status.fps = 30;
    status.consumer_format = Some(PixelFormat::Bgra);
    let (headline, details, _, problem) = status_lines(&status, Language::Polish);
    assert!(headline.contains("30 kl./s"));
    assert!(details.contains("ARGB32"));
    assert!(!problem);
}

#[test]
fn status_lines_are_put_together_exactly() {
    let status = EngineStatus {
        state: EngineState::Running,
        virtual_camera: VirtualCameraState::Unavailable("denied".to_owned()),
        camera: Some(("Cam".to_owned(), format(640, 480, 30, Encoding::Nv12))),
        consumer_format: Some(PixelFormat::Nv12),
        backend: Some("CPU".to_owned()),
        model: Some("ellipse".to_owned()),
        fps: 29,
        processing_tenths: 123,
        latency_ms: Some(45),
        warning: Some("slow".to_owned()),
    };
    let (headline, details, virtual_camera, problem) = status_lines(&status, Language::English);
    assert_eq!(headline, "Running: 29 fps, 12.3 ms per frame, latency 45 ms");
    assert_eq!(
        details,
        "Camera: Cam, 640x480 @ 30.00 fps NV12 • CPU • Model: ellipse • Consumer: NV12 • Warning: slow"
    );
    assert_eq!(
        virtual_camera,
        "The virtual camera is unavailable. Reinstall ChromaFree to register vcam-source.dll. (denied)"
    );
    assert!(problem);
    let (headline, details, virtual_camera, problem) = status_lines(&EngineStatus::default(), Language::English);
    assert_eq!(headline, "Waiting for an app to use the ChromaFree camera");
    assert_eq!((details.as_str(), virtual_camera.as_str(), problem), ("", "", false));
}

#[test]
fn preview_keeps_output_resolution_and_shows_transparency_on_a_checkerboard() {
    let size = size(1280, 720);
    let mut frame = BgraFrame::new(size);
    for pixel in frame.data_mut().chunks_exact_mut(4) {
        pixel.copy_from_slice(&[10, 20, 30, 255]);
    }
    frame.data_mut()[3] = 0;
    let mut preview = PreviewFrame::default();
    render_preview(&PipelineOutput::Bgra(&frame), ColorMatrix::Bt709, &mut preview);
    assert_eq!((preview.width, preview.height), (1280, 720));
    let light = PREVIEW_CHECKER_LIGHT;
    assert_eq!(&preview.rgba[..4], &[light, light, light, 255]);
    assert_eq!(&preview.rgba[4..8], &[30, 20, 10, 255]);

    let green = ColorMatrix::Bt709.to_yuv(Rgb::green_screen());
    let nv12 = Nv12Frame::filled(size, green);
    render_preview(&PipelineOutput::Nv12(&nv12), ColorMatrix::Bt709, &mut preview);
    let expected = ColorMatrix::Bt709.to_rgb(green);
    assert_eq!(
        &preview.rgba[preview.rgba.len() - 4..],
        &[expected.r, expected.g, expected.b, 255]
    );
    assert_eq!(aspect_label(ModelVariant::new(1280, 720)), "16:9");
    assert_eq!(aspect_label(ModelVariant::new(1080, 1440)), "3:4");
}

#[test]
fn the_checkerboard_changes_every_sixteen_pixels() {
    let frame = BgraFrame::new(size(34, 18));
    let mut preview = PreviewFrame::default();
    render_preview(&PipelineOutput::Bgra(&frame), ColorMatrix::Bt601, &mut preview);
    let grey = |x: usize, y: usize| preview.rgba[(y * 34 + x) * 4];
    assert_eq!((grey(15, 0), grey(16, 0), grey(32, 0)), (204, 153, 204));
    assert_eq!((grey(0, 16), grey(16, 16)), (153, 204));
}

#[test]
fn aspect_ratios_are_named() {
    assert_eq!(aspect_label(ModelVariant::new(720, 1280)), "9:16");
    assert_eq!(aspect_label(ModelVariant::new(1280, 800)), "16:10");
    assert_eq!(aspect_label(ModelVariant::new(800, 1280)), "10:16");
    assert_eq!(aspect_label(ModelVariant::new(640, 480)), "4:3");
    assert_eq!(aspect_label(ModelVariant::new(640, 640)), "");
}

#[test]
fn lists_of_the_window_are_named() {
    assert_eq!(output_names()[2], "1280×720");
    assert_eq!(fps_names(Language::Polish), vec!["15 kl./s", "24 kl./s", "30 kl./s", "60 kl./s"]);
    assert_eq!(
        quality_names(&[ModelVariant::new(640, 360)], Language::English),
        vec!["Automatic", "640×360 16:9"]
    );
    assert_eq!(
        format_names(&[format(640, 480, 30, Encoding::Yuy2)], Language::Polish),
        vec!["Automatycznie", "640x480 @ 30.00 fps YUY2"]
    );
}

#[test]
fn absent_cameras_stay_on_the_list() {
    let cameras = [device("One", "a"), device("Two", "b")];
    let mut wish = CameraConfig::default();
    let list = list_for_window(&cameras, &wish, Language::English);
    assert_eq!((list.names.len(), list.index, list.message.as_str()), (2, 0, ""));
    wish.symbolic_link = Some("b".to_owned());
    assert_eq!(list_for_window(&cameras, &wish, Language::English).index, 1);
    assert_eq!(listed_camera(&cameras, &wish).unwrap().name, "Two");
    wish.symbolic_link = Some("gone".to_owned());
    let list = list_for_window(&cameras, &wish, Language::English);
    assert_eq!(list.names, vec!["One", "Two", "gone (not connected)"]);
    assert_eq!(list.index, 2);
    assert_eq!(
        list.message,
        "The saved camera is not connected. Connect it or choose another one."
    );
    assert_eq!(listed_camera(&cameras, &wish), None);
    let list = list_for_window(&[], &wish, Language::English);
    assert_eq!(list.message, "No camera detected. Connect a camera and click Refresh.");
}

fn untouched(config: &Config) -> WindowValues {
    let shown = show_config(config, &[ModelVariant::new(640, 360)]);
    WindowValues {
        camera_index: 0,
        format_index: 0,
        output_index: shown.output_index as i32,
        fps_index: shown.fps_index as i32,
        rotation_index: i32::from(shown.rotation_index),
        mirror_horizontal: shown.mirror_horizontal,
        mirror_vertical: shown.mirror_vertical,
        effect_index: shown.effect_index as i32,
        blur: shown.blur,
        color_text: shown.color_text,
        method_index: shown.method_index as i32,
        quality_index: shown.quality_index as i32,
        device_index: shown.device_index as i32,
        edge_low: shown.mask.edge_low,
        edge_high: shown.mask.edge_high,
        smoothing: shown.mask.temporal_smoothing,
    }
}

#[test]
fn untouched_controls_change_nothing() {
    let mut config = Config::default();
    config.segmentation.quality = "640x360".to_owned();
    config.orientation.rotation = 90;
    let values = untouched(&config);
    assert_eq!(values.quality_index, 1);
    let variants = [ModelVariant::new(640, 360)];
    let read = config_from_window(&config, &values, &[], &[], &variants);
    assert_eq!(read, config);
    assert_eq!(commit(&config, &read), Commit::Unchanged);
}

#[test]
fn controls_are_read_one_by_one() {
    let config = Config::default();
    let cameras = [device("One", "a"), device("Two", "b")];
    let formats = [format(640, 480, 30, Encoding::Yuy2)];
    let mut values = untouched(&config);
    values.camera_index = 1;
    values.format_index = 1;
    values.output_index = 4;
    values.fps_index = 3;
    values.rotation_index = 9;
    values.effect_index = 2;
    values.blur = BlurStrength {
        amount: units(2.0),
        factor: 8_388_608,
    };
    values.color_text = "0047bb".to_owned();
    values.device_index = 1;
    values.edge_low = units(0.5);
    values.edge_high = units(0.4);
    let read = config_from_window(&config, &values, &cameras, &formats, &[]);
    assert_eq!(read.camera.symbolic_link.as_deref(), Some("b"));
    assert_eq!(read.camera.name.as_deref(), Some("Two"));
    assert_eq!(read.camera.format, FormatConfig::from_capture(&formats[0]));
    assert_eq!((read.output.width, read.output.height, read.output.fps), (1920, 1080, 60));
    assert_eq!(read.orientation.rotation, 270);
    assert_eq!(read.effect.mode, EffectMode::Color);
    assert_eq!(read.effect.blur.amount, units(1.0));
    assert_eq!(read.effect.color, "#0047BB");
    assert_eq!(read.segmentation.device, DeviceConfig::Cpu);
    assert_eq!(read.segmentation.edge_low, Some(units(0.5)));
    assert_eq!(read.segmentation.edge_high, Some(units(0.5f32 + 0.01)));
    assert_eq!(commit(&config, &read), Commit::Changed { camera: true });

    values.method_index = 1;
    let other = config_from_window(&config, &values, &cameras, &formats, &[]);
    assert_eq!(other.segmentation.method, MethodConfig::MediaPipe);
    assert_eq!(other.segmentation.edge_low, None);
    assert_eq!(format_index(&formats, read.camera.format), 1);
    assert_eq!(format_index(&[], read.camera.format), 0);
}

#[test]
fn buttons_change_one_thing_each() {
    let mut config = Config::default();
    config.segmentation.edge_low = Some(1);
    let cameras = [device("One", "a")];
    let picked = camera_selected(&config, &cameras, -1).unwrap();
    assert_eq!(picked.camera.symbolic_link.as_deref(), Some("a"));
    assert!(camera_selected(&config, &cameras, 1).is_none());
    assert_eq!(color_preset(&config, "#0047BB").effect.color, "#0047BB");
    let image = choose_image(&config, "b.png".to_owned());
    assert_eq!((image.effect.mode, image.effect.image_path.as_deref()), (EffectMode::Image, Some("b.png")));
    assert_eq!(reset_mask(&config).segmentation.edge_low, None);
    assert_eq!(
        commit(&config, &color_preset(&config, "#0047BB")),
        Commit::Changed { camera: false }
    );
}

#[test]
fn the_disc_fades_outwards() {
    let size = 64usize;
    let icon = icon_rgba(size as u32);
    let row: Vec<u8> = (size / 2..size).map(|x| icon[(size / 2 * size + x) * 4 + 3]).collect();
    assert!(row.windows(2).all(|pair| pair[0] >= pair[1]));
    assert_eq!((row[0], icon[3]), (255, 0));
}

#[test]
fn the_icon_is_a_disc_with_a_lens() {
    for size in [1usize, 2, 3, 32, 33, 1000] {
        assert_icon(size);
    }
    assert!(icon_rgba(0).is_empty());
}

fn assert_icon(size: usize) {
    let icon = icon_rgba(size as u32);
    assert_eq!(icon.len(), size * size * 4);
    let center = size as f32 / 2.0;
    let outer = center - 0.5;
    let inner = outer * 0.45;
    for y in 0..size {
        for x in 0..size {
            let distance = ((x as f32 + 0.5 - center).powi(2) + (y as f32 + 0.5 - center).powi(2)).sqrt();
            let coverage = (outer - distance + 0.5).clamp(0.0, 1.0);
            let color: [u8; 3] = if distance < inner {
                [24, 26, 30]
            } else if distance < inner + 1.5 {
                [230, 240, 235]
            } else {
                [0, 177, 64]
            };
            let pixel = &icon[(y * size + x) * 4..(y * size + x) * 4 + 4];
            assert_eq!(pixel, &[color[0], color[1], color[2], (coverage * 255.0) as u8], "{size} {x} {y}");
        }
    }
}
