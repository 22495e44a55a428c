use std::sync::Arc;
use std::time::Duration;

use chromafree::background::RgbImage;
use chromafree::camera::CameraOpenError;
use chromafree::channel::ObjectNames;
use chromafree::config::{Config, DeviceConfig, EffectMode};
use chromafree::device::{CaptureFormat, Encoding};
use chromafree::engine::{
    camera_changed, output_mode, Adjustment, Change, Delivery, EngineCommand, EngineOptions, Move, Order, Step, Worker,
    CAMERA_CLOSE_DELAY, RETRY_DELAY,
};
use chromafree::pipeline::OutputFormat;
use chromafree::region::{OutputMode, PixelFormat};
use chromafree::status::{EngineState, EngineStatus, VirtualCameraState};

const MILLISECOND: u64 = 1_000_000;
const CLOSE_DELAY: u64 = 300 * MILLISECOND;

fn test_config(width: u32, height: u32) -> Config {
    let mut config = Config::default();
    config.output.width = width;
    config.output.height = height;
    config.effect.mode = EffectMode::Passthrough;
    config.segmentation.device = DeviceConfig::Cpu;
    config
}

fn options(register_virtual_camera: bool) -> EngineOptions {
    EngineOptions {
        names: ObjectNames::with_prefix("Local\\engine-test-"),
        models_dir: "no-models".to_owned(),
        register_virtual_camera,
        camera_close_delay: CLOSE_DELAY,
    }
}

fn camera_format() -> CaptureFormat {
    CaptureFormat {
        width: 640,
        height: 360,
        fps_numerator: 30,
        fps_denominator: 1,
        encoding: Encoding::Nv12,
    }
}

/// The engine with a simulated clock and a camera that always opens.
struct Simulation {
    worker: Worker,
    now: u64,
    opened: usize,
    live: usize,
    published: usize,
    previews: usize,
    active: bool,
    statuses: Vec<EngineStatus>,
}

impl Simulation {
    fn new(config: Config) -> Self {
        Simulation {
            worker: Worker::new(options(false), config, 0),
            now: 0,
            opened: 0,
            live: 0,
            published: 0,
            previews: 0,
            active: false,
            statuses: vec![],
        }
    }

    fn notify(&mut self) {
        self.statuses.push(self.worker.status().clone());
    }

    /// Goes round the loop once. Says how long it would have waited.
    fn turn(&mut self, consumer: Option<PixelFormat>) -> Option<u64> {
        if self.worker.consumer_seen(consumer) {
            self.notify();
        }
        let next = self.worker.decide(consumer.is_some(), self.now);
        if next.notify {
            self.notify();
        }
        if next.deactivate {
            self.active = false;
        }
        match next.step {
            Step::Again => {
                self.live = 0;
                None
            }
            Step::WaitForever => Some(u64::MAX),
            Step::WaitFor(time) => Some(time),
            Step::Open => {
                self.opened += 1;
                self.live += 1;
                let next = self
                    .worker
                    .session_opened("synthetic".to_owned(), camera_format(), "CPU".to_owned(), self.now);
                assert_eq!(
                    next,
                    Move {
                        notify: true,
                        deactivate: false,
                        step: Step::Process
                    }
                );
                self.notify();
                self.frame(consumer);
                None
            }
            Step::Process => {
                self.frame(consumer);
                None
            }
        }
    }

    fn frame(&mut self, consumer: Option<PixelFormat>) {
        self.now += 33 * MILLISECOND;
        let delivery = self.worker.delivery(consumer.is_some());
        if delivery.publish {
            self.published += 1;
            self.active = true;
        }
        if delivery.deactivate {
            self.active = false;
        }
        if delivery.preview {
            self.previews += 1;
        }
        if self.worker.frame_done(4 * MILLISECOND, None, None, self.now) {
            self.notify();
        }
    }
}

#[test]
fn engine_follows_consumers_formats_preview_and_settings() {
    let mut engine = Simulation::new(test_config(320, 180));
    assert_eq!(
        output_mode(engine.worker.config()),
        OutputMode {
            width: 320,
            height: 180,
            fps_numerator: 30,
            fps_denominator: 1
        }
    );
    assert_eq!(engine.turn(None), Some(u64::MAX));
    engine.now += 200 * MILLISECOND;
    assert_eq!(engine.opened, 0, "camera opened without a consumer");

    engine.turn(Some(PixelFormat::Nv12));
    assert_eq!(engine.worker.output_format(Some(PixelFormat::Nv12)), OutputFormat::Nv12);
    assert!(engine.active);
    engine.turn(Some(PixelFormat::Bgra));
    assert_eq!(engine.worker.output_format(Some(PixelFormat::Bgra)), OutputFormat::Bgra);
    assert_eq!(engine.opened, 1, "format change reopened the camera");

    let change = engine.worker.apply_config(test_config(640, 360));
    assert!(change.output && !change.virtual_camera && !change.camera && !change.background);
    assert_eq!(output_mode(engine.worker.config()).width, 640);
    assert_eq!(engine.worker.adjustment(true), Adjustment::Update);
    let streaming = engine.now;
    while engine.now - streaming < 1300 * MILLISECOND {
        engine.turn(Some(PixelFormat::Bgra));
    }

    assert_eq!(engine.turn(None), Some(CLOSE_DELAY));
    assert!(!engine.active);
    engine.now += CLOSE_DELAY - 1;
    assert_eq!(engine.turn(None), Some(1));
    assert_eq!(engine.live, 1);
    engine.now += 1;
    assert_eq!(engine.turn(None), None);
    assert_eq!(engine.live, 0, "camera to close after the delay");

    engine.worker.set_preview(true);
    let published = engine.published;
    for _ in 0..5 {
        engine.turn(None);
    }
    assert!(engine.previews >= 5);
    assert!(!engine.active, "preview alone must not publish frames");
    assert_eq!(engine.published, published);
    engine.worker.set_preview(false);
    engine.turn(None);
    engine.now += CLOSE_DELAY;
    engine.turn(None);
    assert_eq!(engine.live, 0, "camera to close after preview");

    assert!(engine.statuses.iter().any(|s| s.state == EngineState::Running && s.fps > 20));
    assert!(engine.statuses.iter().any(|s| s.backend.as_deref() == Some("CPU")));
    assert_eq!(engine.statuses.last().map(|s| &s.state), Some(&EngineState::Idle));
}

#[test]
fn a_consumer_that_comes_back_in_time_finds_the_camera_open() {
    let mut engine = Simulation::new(test_config(320, 180));
    engine.turn(Some(PixelFormat::Nv12));
    assert_eq!(engine.turn(None), Some(CLOSE_DELAY));
    engine.now += CLOSE_DELAY / 2;
    engine.turn(Some(PixelFormat::Nv12));
    assert_eq!(engine.opened, 1);
    assert_eq!(engine.turn(None), Some(CLOSE_DELAY));
}

#[test]
fn missing_cameras_are_reported_once_and_tried_again() {
    let mut worker = Worker::new(options(false), Config::default(), 0);
    let retry = |notify| Move {
        notify,
        deactivate: true,
        step: Step::WaitFor(RETRY_DELAY),
    };
    assert_eq!(worker.camera_unavailable(CameraOpenError::NoCamera), retry(true));
    assert_eq!(worker.camera_unavailable(CameraOpenError::NoCamera), retry(false));
    assert_eq!(worker.status().state, EngineState::NoCamera);
    assert_eq!(
        worker.camera_unavailable(CameraOpenError::Missing("X".to_owned())),
        retry(true)
    );
    assert_eq!(worker.status().state, EngineState::CameraMissing("X".to_owned()));
    assert_eq!(
        worker.camera_unavailable(CameraOpenError::Other("odd".to_owned())),
        retry(true)
    );
    assert_eq!(worker.status().state, EngineState::Error("odd".to_owned()));
    assert_eq!(worker.settings_refused("bad".to_owned()), retry(true));
    assert_eq!(worker.status().state, EngineState::Error("bad".to_owned()));
    assert_eq!(CAMERA_CLOSE_DELAY, 5_000_000_000);
}

#[test]
fn the_preview_alone_publishes_nothing() {
    let mut worker = Worker::new(options(false), Config::default(), 0);
    let delivery = |publish, preview| Delivery {
        publish,
        deactivate: !publish,
        preview,
    };
    assert_eq!(worker.delivery(true), delivery(true, false));
    assert_eq!(worker.obey(EngineCommand::SetPreview(true)), Order::Nothing);
    assert_eq!(worker.delivery(false), delivery(false, true));
    assert_eq!(worker.delivery(true), delivery(true, true));
}

#[test]
fn commands_change_the_configuration_or_end_the_engine() {
    let mut worker = Worker::new(options(false), test_config(320, 180), 0);
    worker.session_opened("Cam".to_owned(), camera_format(), "CPU".to_owned(), 0);
    let order = worker.obey(EngineCommand::Apply(Box::new(test_config(640, 360))));
    assert_eq!(
        order,
        Order::Adjust(Change {
            output: true,
            virtual_camera: false,
            background: false,
            camera: false
        })
    );
    assert_eq!(worker.config().output.width, 640);
    assert_eq!(
        worker.obey(EngineCommand::Shutdown),
        Order::Halt(Move {
            notify: false,
            deactivate: true,
            step: Step::Again
        })
    );
    assert_eq!(worker.decide(true, 1).step, Step::Open, "no camera is held after the end");
}

#[test]
fn a_failed_frame_ends_the_session() {
    let mut worker = Worker::new(options(false), Config::default(), 0);
    worker.session_opened("Cam".to_owned(), camera_format(), "CPU".to_owned(), 0);
    assert_eq!(worker.decide(true, 5).step, Step::Process);
    assert_eq!(worker.frame_failed("lost".to_owned()).step, Step::WaitFor(RETRY_DELAY));
    assert_eq!(worker.decide(true, 6).step, Step::Open);
    assert_eq!(worker.adjustment(false), Adjustment::Nothing);
}

#[test]
fn rates_and_times_are_rounded() {
    let mut worker = Worker::new(options(false), Config::default(), 0);
    for _ in 0..29 {
        assert!(!worker.frame_done(1_250_000, Some(40_500_000), None, 999_999_999));
    }
    assert!(worker.frame_done(1_250_000, Some(40_500_000), Some("m".to_owned()), 1_000_000_000));
    let status = worker.status();
    assert_eq!((status.fps, status.processing_tenths), (30, 12));
    assert_eq!(status.latency_ms, Some(40));
    assert_eq!(status.model.as_deref(), Some("m"));
    assert!(!worker.frame_done(5, None, None, 1_500_000_000));
}

#[test]
fn rates_and_times_are_of_single_precision() {
    for (frames, passed) in [(63u32, 2_000_000_001u64), (61, 2_000_000_001), (31, 1_016_393_443), (30, 1_000_000_000)] {
        let mut worker = Worker::new(options(false), Config::default(), 0);
        for _ in 1..frames {
            assert!(!worker.frame_done(7_777_777, None, None, 1));
        }
        assert!(worker.frame_done(7_777_777, None, None, passed));
        let rate = frames as f32 / Duration::from_nanos(passed).as_secs_f32();
        assert_eq!(format!("{}", worker.status().fps), format!("{rate:.0}"));
    }
    let mut worker = Worker::new(options(false), Config::default(), 0);
    for _ in 1..63 {
        worker.frame_done(0, None, None, 1);
    }
    assert!(worker.frame_done(0, None, None, 2_000_000_001));
    assert_eq!(worker.status().fps, 32);
}

#[test]
fn times_that_cannot_be_added_up_have_no_room() {
    let mut worker = Worker::new(options(false), Config::default(), 0);
    assert!(worker.has_room(u64::MAX, Some(u64::MAX)));
    worker.frame_done(1, Some(2), None, 10);
    assert!(worker.has_room(u64::MAX - 1, Some(u64::MAX - 2)));
    assert!(!worker.has_room(u64::MAX, None));
    assert!(!worker.has_room(0, Some(u64::MAX - 1)));
}

#[test]
fn the_virtual_camera_is_registered_where_it_is_asked_for() {
    let mut quiet = Worker::new(options(false), Config::default(), 0);
    assert!(!quiet.begin_registration());
    let mut worker = Worker::new(options(true), Config::default(), 0);
    assert!(worker.begin_registration());
    worker.registered(Ok(()));
    assert_eq!(worker.status().virtual_camera, VirtualCameraState::Registered);
    let mut config = Config::default();
    config.output.fps = 60;
    let change = worker.apply_config(config);
    assert!(change.output && change.virtual_camera);
    worker.registered(Err("denied".to_owned()));
    assert_eq!(
        worker.status().virtual_camera,
        VirtualCameraState::Unavailable("denied".to_owned())
    );
    worker.startup_failed("no services".to_owned());
    assert_eq!(worker.status().state, EngineState::Error("no services".to_owned()));
}

#[test]
fn backgrounds_are_loaded_when_they_are_needed() {
    let mut config = Config::default();
    config.effect.mode = EffectMode::Image;
    config.effect.image_path = Some("a.png".to_owned());
    let mut worker = Worker::new(options(false), config.clone(), 0);
    assert_eq!(worker.begin_background().as_deref(), Some("a.png"));
    let image = Arc::new(RgbImage::from_pixels(1, 1, vec![1, 2, 3]).unwrap());
    worker.background_loaded("a.png".to_owned(), Ok(Arc::clone(&image)));
    assert_eq!(worker.begin_background(), None);
    assert!(Arc::ptr_eq(&worker.background_image().unwrap(), &image));
    config.effect.image_path = Some("b.png".to_owned());
    assert!(worker.apply_config(config.clone()).background);
    assert_eq!(worker.begin_background().as_deref(), Some("b.png"));
    worker.background_loaded("b.png".to_owned(), Err("broken".to_owned()));
    assert_eq!(worker.status().warning.as_deref(), Some("b.png: broken"));
    assert_eq!(worker.background_image(), None);
    config.effect.mode = EffectMode::Blur;
    assert!(worker.apply_config(config).background);
    assert_eq!(worker.begin_background(), None);
}

#[test]
fn another_camera_closes_the_one_that_is_open() {
    let mut worker = Worker::new(options(false), Config::default(), 0);
    worker.session_opened("Cam".to_owned(), camera_format(), "CPU".to_owned(), 0);
    let mut config = Config::default();
    config.camera.symbolic_link = Some("other".to_owned());
    assert!(camera_changed(&worker.config().camera, &config.camera));
    assert!(worker.apply_config(config).camera);
    worker.camera_closed();
    assert_eq!(worker.status().state, EngineState::Idle);
    assert_eq!(worker.decide(true, 1).step, Step::Open);
    worker.warn("careful".to_owned());
    worker.backend_changed("GPU: x".to_owned());
    assert_eq!(worker.status().warning.as_deref(), Some("careful"));
    assert_eq!(worker.status().backend.as_deref(), Some("GPU: x"));
    worker.stopped();
    assert_eq!(worker.decide(false, 2).step, Step::WaitForever);
}

#[test]
fn transparent_effects_are_previewed_with_their_opacity() {
    let mut config = Config::default();
    let worker = Worker::new(options(false), config.clone(), 0);
    assert_eq!(worker.output_format(None), OutputFormat::Nv12);
    config.effect.mode = EffectMode::Transparent;
    let worker = Worker::new(options(false), config, 0);
    assert_eq!(worker.output_format(None), OutputFormat::Bgra);
    assert_eq!(worker.output_format(Some(PixelFormat::Nv12)), OutputFormat::Nv12);
}
