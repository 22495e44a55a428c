//! The decisions of the engine: when a camera is opened and closed, what is
//! published, and what is reported.

use std::sync::Arc;

use vstd::prelude::*;

use crate::background::RgbImage;
use crate::camera::CameraOpenError;
use crate::channel::ObjectNames;
use crate::config::{same_format, same_optional, CameraConfig, Choices, Config, EffectMode};
use crate::device::CaptureFormat;
use crate::pipeline::{share, OutputFormat};
use crate::precision::{round_to_digits, round_to_even, SINGLE};
use crate::region::{OutputMode, PixelFormat};
use crate::status::{Activity, EngineState, EngineStatus, Presence, Report, VirtualCameraState};

verus! {

/// How long to wait before a camera is tried again, in nanoseconds.
pub const RETRY_DELAY: u64 = 2_000_000_000;

/// How often rates and times are reported, in nanoseconds.
pub const STATS_INTERVAL: u64 = 1_000_000_000;

/// How long the camera stays open while nobody uses it, in nanoseconds.
pub const CAMERA_CLOSE_DELAY: u64 = 5_000_000_000;

/// What an engine is started with.
pub struct EngineOptions {
    pub names: ObjectNames,
    pub models_dir: String,
    pub register_virtual_camera: bool,
    /// In nanoseconds.
    pub camera_close_delay: u64,
}

/// What an engine is told to do.
pub enum EngineCommand {
    Apply(Box<Config>),
    SetPreview(bool),
    Shutdown,
}

/// The mode of the output that a configuration asks for.
pub open spec fn mode_for(output: crate::config::OutputConfig) -> OutputMode {
    OutputMode {
        width: output.width,
        height: output.height,
        fps_numerator: output.fps,
        fps_denominator: 1,
    }
}

pub fn output_mode(config: &Config) -> (mode: OutputMode)
    ensures
        mode == mode_for(config.output),
{
    OutputMode {
        width: config.output.width,
        height: config.output.height,
        fps_numerator: config.output.fps,
        fps_denominator: 1,
    }
}

/// Another camera or another format of it is configured.
pub open spec fn other_camera(
    previous: crate::config::CameraChoice,
    current: crate::config::CameraChoice,
) -> bool {
    previous.symbolic_link != current.symbolic_link || previous.format != current.format
}

pub fn camera_changed(previous: &CameraConfig, current: &CameraConfig) -> (changed: bool)
    ensures
        changed == other_camera(previous@, current@),
{
    !same_optional(&previous.symbolic_link, &current.symbolic_link) || !same_format(
        previous.format,
        current.format,
    )
}

/// The frames since the last report: when counting began, how many there were,
/// the work on them and their age, in nanoseconds.
#[derive(Clone, Copy, Debug, PartialEq, Eq, Structural)]
pub struct Stats {
    pub started: u64,
    pub frames: u32,
    pub processing: u64,
    pub latency: u64,
    pub latency_samples: u32,
}

/// One second, in the unit of [`seconds`].
pub const SECOND: u128 = 0x40_0000_0000_0000;

/// One frame per second, in the unit of [`frame_rate`].
pub const FRAME_PER_SECOND: u128 = 0x200_0000;

/// Nanoseconds as seconds in single precision, in units of 2^-54: the whole
/// seconds and the part of a second are converted by themselves and added up.
pub open spec fn seconds(nanoseconds: int) -> int {
    let single = SINGLE as int;
    let whole = crate::precision::nearest(nanoseconds / 1_000_000_000, 1, single);
    let rest = crate::precision::nearest(nanoseconds % 1_000_000_000, 1, single);
    let part = crate::precision::nearest(rest * SECOND, 1_000_000_000, single);
    crate::precision::nearest(whole * SECOND + part, 1, single)
}

/// Frames divided by seconds in single precision, in units of 2^-25. That is fine
/// enough from a quarter of a frame on; what is less shows as none.
pub open spec fn frame_rate(frames: int, nanoseconds: int) -> int {
    let single = SINGLE as int;
    crate::precision::nearest(
        crate::precision::nearest(frames, 1, single) * (SECOND * FRAME_PER_SECOND),
        seconds(nanoseconds),
        single,
    )
}

/// Milliseconds for each of a number of frames in single precision, in units of
/// 2^-54.
pub open spec fn milliseconds_each(nanoseconds: int, frames: int) -> int {
    let single = SINGLE as int;
    crate::precision::nearest(
        crate::precision::nearest(seconds(nanoseconds) * 1000, 1, single),
        crate::precision::nearest(frames, 1, single),
        single,
    )
}

fn to_seconds(nanoseconds: u64) -> (time: u128)
    ensures
        time == seconds(nanoseconds as int),
        time <= 0x1000_0000_0000_0000_0000_0000,
        nanoseconds >= 1_000_000_000 ==> time >= 0x20_0000_0000_0000,
{
    let whole: u128 = round_to_digits((nanoseconds / 1_000_000_000) as u128, 1, SINGLE);
    let rest: u128 = round_to_digits((nanoseconds % 1_000_000_000) as u128, 1, SINGLE);
    assert(rest * SECOND <= 2_000_000_000 * SECOND);
    let part: u128 = round_to_digits(rest * SECOND, 1_000_000_000, SINGLE);
    assert(whole * SECOND <= 40_000_000_000 * SECOND);
    let sum: u128 = whole * SECOND + part;
    proof {
        if nanoseconds >= 1_000_000_000 {
            crate::precision::lemma_nearest_half(
                nanoseconds as int / 1_000_000_000,
                1,
                SINGLE as int,
            );
            crate::precision::lemma_nearest_half(sum as int, 1, SINGLE as int);
        }
    }
    round_to_digits(sum, 1, SINGLE)
}

fn shown_rate(frames: u32, nanoseconds: u64) -> (fps: u64)
    requires
        nanoseconds >= STATS_INTERVAL,
    ensures
        fps == crate::precision::to_even(frame_rate(frames as int, nanoseconds as int), FRAME_PER_SECOND as int),
{
    let count: u128 = round_to_digits(frames as u128, 1, SINGLE);
    let time: u128 = to_seconds(nanoseconds);
    assert(count * (SECOND * FRAME_PER_SECOND) <= 0x2_0000_0000 * (SECOND * FRAME_PER_SECOND));
    let all: u128 = count * (SECOND * FRAME_PER_SECOND);
    let rate: u128 = round_to_digits(all, time, SINGLE);
    proof {
        assert(rate <= 0x1000_0000_0000_0000) by (nonlinear_arith)
            requires
                rate * time <= 2 * all,
                all <= 0x2_0000_0000 * (0x40_0000_0000_0000 * 0x200_0000),
                time >= 0x20_0000_0000_0000,
        ;
    }
    round_to_even(rate, FRAME_PER_SECOND) as u64
}

fn time_each(nanoseconds: u64, frames: u32) -> (time: u128)
    requires
        0 < frames,
    ensures
        time == milliseconds_each(nanoseconds as int, frames as int),
        time <= 0x100_0000_0000_0000_0000_0000_0000,
{
    let all: u128 = round_to_digits(to_seconds(nanoseconds) * 1000, 1, SINGLE);
    let count: u128 = round_to_digits(frames as u128, 1, SINGLE);
    proof {
        crate::precision::lemma_nearest_half(frames as int, 1, SINGLE as int);
    }
    let time: u128 = round_to_digits(all, count, SINGLE);
    proof {
        assert(time <= 2 * all) by (nonlinear_arith)
            requires
                time * count <= 2 * all,
                0 < count,
                0 <= time,
        ;
    }
    time
}

impl Stats {
    /// Nothing was counted yet.
    pub open spec fn none(now: u64) -> Stats {
        Stats { started: now, frames: 0, processing: 0, latency: 0, latency_samples: 0 }
    }

    /// One more frame can be counted.
    pub open spec fn roomy(self, processing: u64, age: Option<u64>) -> bool {
        &&& self.frames < u32::MAX
        &&& self.processing + processing <= u64::MAX
        &&& age matches Some(age) ==> self.latency + age <= u64::MAX && self.latency_samples
            < u32::MAX
    }

    /// One more frame.
    pub open spec fn plus(self, processing: u64, age: Option<u64>) -> Stats {
        Stats {
            started: self.started,
            frames: (self.frames + 1) as u32,
            processing: (self.processing + processing) as u64,
            latency: match age {
                Some(age) => (self.latency + age) as u64,
                None => self.latency,
            },
            latency_samples: match age {
                Some(_) => (self.latency_samples + 1) as u32,
                None => self.latency_samples,
            },
        }
    }

    /// The time since counting began; none where the clock stands before it.
    pub open spec fn elapsed(self, now: u64) -> int {
        if now >= self.started {
            now - self.started
        } else {
            0
        }
    }

    pub fn new(now: u64) -> (stats: Self)
        ensures
            stats == Self::none(now),
    {
        Stats { started: now, frames: 0, processing: 0, latency: 0, latency_samples: 0 }
    }

    fn count(&mut self, processing: u64, age: Option<u64>)
        requires
            old(self).roomy(processing, age),
        ensures
            *final(self) == old(self).plus(processing, age),
    {
        self.frames = self.frames + 1;
        self.processing = self.processing + processing;
        if let Some(age) = age {
            self.latency = self.latency + age;
            self.latency_samples = self.latency_samples + 1;
        }
    }
}

/// A report with the rates and times of the frames that were counted. They are
/// numbers of single precision, rounded to what is shown of them.
pub open spec fn measured(report: Report, stats: Stats, now: u64, model: Option<Seq<char>>) -> Report {
    Report {
        fps: crate::precision::to_even(
            frame_rate(stats.frames as int, stats.elapsed(now)),
            FRAME_PER_SECOND as int,
        ) as u64,
        processing_tenths: crate::precision::to_even(
            10 * milliseconds_each(stats.processing as int, stats.frames as int),
            SECOND as int,
        ) as u64,
        latency_ms: if stats.latency_samples > 0 {
            Some(
                crate::precision::to_even(
                    milliseconds_each(stats.latency as int, stats.latency_samples as int),
                    SECOND as int,
                ) as u64,
            )
        } else {
            None
        },
        model,
        ..report
    }
}

/// Everything that the engine's decisions rest on.
#[verifier::ext_equal]
pub struct Desk {
    pub config: Choices,
    pub report: Report,
    pub registers: bool,
    pub close_delay: u64,
    pub session: bool,
    pub virtual_camera: bool,
    pub background: Option<(Seq<char>, Arc<RgbImage>)>,
    pub preview: bool,
    pub unused_since: Option<u64>,
    pub stats: Stats,
}

impl Desk {
    /// While a camera is open the engine is running and says which camera it is,
    /// and a virtual camera that is there is reported.
    pub open spec fn sound(self) -> bool {
        &&& self.session ==> self.report.state is Running && self.report.camera is Some
        &&& self.report.virtual_camera is Disabled ==> !self.virtual_camera
    }
}

/// What to do next.
#[derive(Clone, Copy, Debug, PartialEq, Eq, Structural)]
pub enum Step {
    /// The camera was given up: close it, then go round again.
    Again,
    /// Wait until a consumer comes or goes.
    WaitForever,
    /// Wait until a consumer comes or goes, but not longer than this, in
    /// nanoseconds.
    WaitFor(u64),
    /// Open a camera, then process a frame.
    Open,
    /// Process a frame.
    Process,
}

/// What to do next, after telling the observer or the consumers where that is
/// called for.
#[derive(Clone, Copy, Debug, PartialEq, Eq, Structural)]
pub struct Move {
    /// Tell the observer the new status.
    pub notify: bool,
    /// Mark the producer as inactive.
    pub deactivate: bool,
    pub step: Step,
}

/// The move after something failed.
pub open spec fn retry(notify: bool) -> Move {
    Move { notify, deactivate: true, step: Step::WaitFor(RETRY_DELAY) }
}

/// What is left of the delay after which an unused camera is closed.
pub open spec fn delay_left(close_delay: u64, since: u64, now: u64) -> int {
    let passed = if now >= since {
        now - since
    } else {
        0
    };
    if passed >= close_delay {
        0
    } else {
        close_delay - passed
    }
}

/// What happens while nobody uses the camera.
pub open spec fn unused(desk: Desk, now: u64) -> (Desk, Move) {
    if !desk.session {
        if desk.report.state is Running {
            (
                Desk {
                    report: Report { state: Activity::Idle, fps: 0, ..desk.report },
                    ..desk
                },
                Move { notify: true, deactivate: true, step: Step::WaitForever },
            )
        } else {
            (desk, Move { notify: false, deactivate: true, step: Step::WaitForever })
        }
    } else {
        let since = match desk.unused_since {
            Some(since) => since,
            None => now,
        };
        let left = delay_left(desk.close_delay, since, now);
        if left == 0 {
            (
                Desk {
                    session: false,
                    unused_since: None,
                    report: Report { state: Activity::Idle, camera: None, fps: 0, ..desk.report },
                    ..desk
                },
                Move { notify: true, deactivate: false, step: Step::Again },
            )
        } else {
            (
                Desk { unused_since: Some(since), ..desk },
                Move { notify: false, deactivate: true, step: Step::WaitFor(left as u64) },
            )
        }
    }
}

/// What the engine does next, given whether a consumer is there.
pub open spec fn decided(desk: Desk, consumer_active: bool, now: u64) -> (Desk, Move) {
    if !consumer_active && !desk.preview {
        unused(desk, now)
    } else {
        (
            Desk { unused_since: None, ..desk },
            Move {
                notify: false,
                deactivate: false,
                step: if desk.session {
                    Step::Process
                } else {
                    Step::Open
                },
            },
        )
    }
}

/// What an operation does that neither decides nor opens a camera: it may lose
/// the camera, and leaves alone since when it is unused and how long it is kept.
pub open spec fn keeps_watch(before: Desk, after: Desk) -> bool {
    &&& after.session ==> before.session
    &&& after.unused_since == before.unused_since
    &&& after.close_delay == before.close_delay
}

/// Where a processed frame goes.
#[derive(Clone, Copy, Debug, PartialEq, Eq, Structural)]
pub struct Delivery {
    /// Hand the frame to the consumers.
    pub publish: bool,
    /// Mark the producer as inactive.
    pub deactivate: bool,
    /// Show the same frame to the observer.
    pub preview: bool,
}

/// A frame is published for a consumer and shown where the preview is on.
pub open spec fn delivered(desk: Desk, consumer_active: bool) -> Delivery {
    Delivery { publish: consumer_active, deactivate: !consumer_active, preview: desk.preview }
}

/// The last move of an engine: the camera is closed and the producer is marked
/// as inactive.
pub open spec fn halt() -> Move {
    Move { notify: false, deactivate: true, step: Step::Again }
}

/// An engine that has stopped.
pub open spec fn at_rest(desk: Desk) -> Desk {
    Desk { session: false, virtual_camera: false, ..desk }
}

/// The format of the frames: the one that the consumer asks for, or the one that
/// suits the effect.
pub open spec fn frame_format(consumer: Option<PixelFormat>, mode: EffectMode) -> OutputFormat {
    match consumer {
        Some(PixelFormat::Bgra) => OutputFormat::Bgra,
        Some(PixelFormat::Nv12) => OutputFormat::Nv12,
        None => if mode is Transparent {
            OutputFormat::Bgra
        } else {
            OutputFormat::Nv12
        },
    }
}

/// The state in which a camera is missing.
pub open spec fn camera_trouble(error: CameraOpenError) -> Activity {
    match error {
        CameraOpenError::NoCamera => Activity::NoCamera,
        CameraOpenError::Missing(name) => Activity::CameraMissing(name@),
        CameraOpenError::Other(error) => Activity::Error(error@),
    }
}

/// What a new configuration changes.
#[derive(Clone, Copy, Debug, PartialEq, Eq, Structural)]
pub struct Change {
    /// The output mode is to be published.
    pub output: bool,
    /// The virtual camera is to be registered anew.
    pub virtual_camera: bool,
    /// The background is to be looked after.
    pub background: bool,
    /// The camera is to be closed.
    pub camera: bool,
}

/// What a configuration changes.
pub open spec fn changes(desk: Desk, config: Choices) -> Change {
    let output = desk.config.output != config.output;
    Change {
        output,
        virtual_camera: output && desk.virtual_camera,
        background: desk.config.image_path != config.image_path || desk.config.mode
            != config.mode,
        camera: other_camera(desk.config.camera, config.camera),
    }
}

/// An engine with another configuration.
pub open spec fn configured(desk: Desk, config: Choices) -> Desk {
    Desk {
        config,
        virtual_camera: desk.virtual_camera && desk.config.output == config.output,
        ..desk
    }
}

/// What a command calls for.
#[derive(Clone, Copy, Debug, PartialEq, Eq, Structural)]
pub enum Order {
    Nothing,
    /// The configuration changed.
    Adjust(Change),
    /// The engine stops.
    Halt(Move),
}

/// What becomes of the processor of a session after a change of settings.
#[derive(Clone, Copy, Debug, PartialEq, Eq, Structural)]
pub enum Adjustment {
    /// There is no session.
    Nothing,
    /// The settings ask for another device.
    Recreate,
    /// The processor takes the settings over.
    Update,
}

/// The path of the background picture that a configuration needs.
pub open spec fn wanted_picture(config: Choices) -> Option<Seq<char>> {
    if config.mode is Image {
        config.image_path
    } else {
        None
    }
}

/// The background that is held is the one that is needed.
pub open spec fn has_picture(desk: Desk, path: Seq<char>) -> bool {
    desk.background matches Some((held, _)) && held == path
}

/// A background and the path that it was loaded from.
pub open spec fn background_view(background: Option<(String, Arc<RgbImage>)>) -> Option<
    (Seq<char>, Arc<RgbImage>),
> {
    match background {
        Some((path, image)) => Some((path@, image)),
        None => None,
    }
}

/// The engine as its decisions see it; the camera, the processor and the virtual
/// camera are held elsewhere.
pub struct Worker {
    options: EngineOptions,
    config: Config,
    status: EngineStatus,
    session: bool,
    virtual_camera: bool,
    background: Option<(String, Arc<RgbImage>)>,
    preview_enabled: bool,
    unused_since: Option<u64>,
    stats: Stats,
}

impl View for Worker {
    type V = Desk;

    closed spec fn view(&self) -> Desk {
        Desk {
            config: self.config@,
            report: self.status@,
            registers: self.options.register_virtual_camera,
            close_delay: self.options.camera_close_delay,
            session: self.session,
            virtual_camera: self.virtual_camera,
            background: background_view(self.background),
            preview: self.preview_enabled,
            unused_since: self.unused_since,
            stats: self.stats,
        }
    }
}

impl Worker {
    pub fn new(options: EngineOptions, config: Config, now: u64) -> (worker: Self)
        ensures
            worker@.sound(),
            worker@ == (Desk {
                config: config@,
                report: crate::status::quiet(),
                registers: options.register_virtual_camera,
                close_delay: options.camera_close_delay,
                session: false,
                virtual_camera: false,
                background: None,
                preview: false,
                unused_since: None,
                stats: Stats::none(now),
            }),
    {
        Worker {
            options,
            config,
            status: EngineStatus::default(),
            session: false,
            virtual_camera: false,
            background: None,
            preview_enabled: false,
            unused_since: None,
            stats: Stats::new(now),
        }
    }

    pub fn config(&self) -> (config: &Config)
        ensures
            config@ == self@.config,
    {
        &self.config
    }

    pub fn status(&self) -> (status: &EngineStatus)
        ensures
            status@ == self@.report,
    {
        &self.status
    }

    pub fn preview_enabled(&self) -> (enabled: bool)
        ensures
            enabled == self@.preview,
    {
        self.preview_enabled
    }

    /// The video services of the system could not be started.
    pub fn startup_failed(&mut self, error: String)
        ensures
            old(self)@.sound() && !old(self)@.session ==> final(self)@.sound(),
            keeps_watch(old(self)@, final(self)@),
            final(self)@ == (Desk {
                report: Report { state: Activity::Error(error@), ..old(self)@.report },
                ..old(self)@
            }),
    {
        self.status.state = EngineState::Error(error);
    }

    /// Whether a virtual camera is to be registered. One that was there before is
    /// given up.
    pub fn begin_registration(&mut self) -> (wanted: bool)
        ensures
            old(self)@.sound() ==> final(self)@.sound(),
            keeps_watch(old(self)@, final(self)@),
            wanted == old(self)@.registers,
            final(self)@ == if wanted {
                Desk { virtual_camera: false, ..old(self)@ }
            } else {
                old(self)@
            },
    {
        if self.options.register_virtual_camera {
            self.virtual_camera = false;
            true
        } else {
            false
        }
    }

    /// The virtual camera was registered, or could not be.
    pub fn registered(&mut self, result: Result<(), String>)
        ensures
            old(self)@.sound() ==> final(self)@.sound(),
            keeps_watch(old(self)@, final(self)@),
            final(self)@ == (match result {
                Ok(()) => Desk {
                    virtual_camera: true,
                    report: Report { virtual_camera: Presence::Registered, ..old(self)@.report },
                    ..old(self)@
                },
                Err(error) => Desk {
                    report: Report {
                        virtual_camera: Presence::Unavailable(error@),
                        ..old(self)@.report
                    },
                    ..old(self)@
                },
            }),
    {
        match result {
            Ok(()) => {
                self.virtual_camera = true;
                self.status.virtual_camera = VirtualCameraState::Registered;
            },
            Err(error) => {
                self.status.virtual_camera = VirtualCameraState::Unavailable(error);
            },
        }
    }

    /// The path of the background picture that is to be loaded, if any. A picture
    /// that is no longer needed is given up.
    pub fn begin_background(&mut self) -> (path: Option<String>)
        ensures
            old(self)@.sound() ==> final(self)@.sound(),
            keeps_watch(old(self)@, final(self)@),
            match wanted_picture(old(self)@.config) {
                None => path is None && final(self)@ == (Desk { background: None, ..old(self)@ }),
                Some(wanted) => {
                    &&& final(self)@ == old(self)@
                    &&& if has_picture(old(self)@, wanted) {
                        path is None
                    } else {
                        path matches Some(path) && path@ == wanted
                    }
                },
            },
    {
        if let EffectMode::Image = self.config.effect.mode {
            if let Some(wanted) = &self.config.effect.image_path {
                if let Some((held, _)) = &self.background {
                    if *held == *wanted {
                        return None;
                    }
                }
                return Some(wanted.clone());
            }
        }
        self.background = None;
        None
    }

    /// The background picture was loaded, or could not be.
    pub fn background_loaded(&mut self, path: String, result: Result<Arc<RgbImage>, String>)
        ensures
            old(self)@.sound() ==> final(self)@.sound(),
            keeps_watch(old(self)@, final(self)@),
            final(self)@ == (match result {
                Ok(image) => Desk { background: Some((path@, image)), ..old(self)@ },
                Err(error) => Desk {
                    background: None,
                    report: Report {
                        warning: Some(path@ + ": "@ + error@),
                        ..old(self)@.report
                    },
                    ..old(self)@
                },
            }),
    {
        match result {
            Ok(image) => {
                self.background = Some((path, image));
            },
            Err(error) => {
                let mut warning = String::new();
                warning.append(path.as_str());
                warning.append(": ");
                warning.append(error.as_str());
                proof {
                    assert(warning@ =~= path@ + ": "@ + error@);
                }
                self.background = None;
                self.status.warning = Some(warning);
            },
        }
    }

    /// The background picture.
    pub fn background_image(&self) -> (image: Option<Arc<RgbImage>>)
        ensures
            match self@.background {
                Some((_, held)) => image == Some(held),
                None => image is None,
            },
    {
        match &self.background {
            Some((_, image)) => Some(share(image)),
            None => None,
        }
    }

    pub fn set_preview(&mut self, enabled: bool)
        ensures
            old(self)@.sound() ==> final(self)@.sound(),
            keeps_watch(old(self)@, final(self)@),
            final(self)@ == (Desk { preview: enabled, ..old(self)@ }),
    {
        self.preview_enabled = enabled;
    }

    /// Takes note of the format that the consumers ask for. Says whether the
    /// observer is to be told.
    pub fn consumer_seen(&mut self, format: Option<PixelFormat>) -> (notify: bool)
        ensures
            old(self)@.sound() ==> final(self)@.sound(),
            keeps_watch(old(self)@, final(self)@),
            notify == (old(self)@.report.consumer_format != format),
            final(self)@ == (Desk {
                report: Report { consumer_format: format, ..old(self)@.report },
                ..old(self)@
            }),
    {
        let same: bool = match (self.status.consumer_format, format) {
            (Some(a), Some(b)) => a == b,
            (None, None) => true,
            _ => false,
        };
        if !same {
            self.status.consumer_format = format;
        }
        !same
    }

    /// Decides what to do next.
    pub fn decide(&mut self, consumer_active: bool, now: u64) -> (next: Move)
        ensures
            old(self)@.sound() ==> final(self)@.sound(),
            (final(self)@, next) == decided(old(self)@, consumer_active, now),
    {
        if !consumer_active && !self.preview_enabled {
            return self.wait_while_unused(now);
        }
        self.unused_since = None;
        Move {
            notify: false,
            deactivate: false,
            step: if self.session {
                Step::Process
            } else {
                Step::Open
            },
        }
    }

    fn wait_while_unused(&mut self, now: u64) -> (next: Move)
        ensures
            old(self)@.sound() ==> final(self)@.sound(),
            (final(self)@, next) == unused(old(self)@, now),
    {
        if !self.session {
            let mut notify: bool = false;
            if let EngineState::Running = self.status.state {
                self.status.state = EngineState::Idle;
                self.status.fps = 0;
                notify = true;
            }
            return Move { notify, deactivate: true, step: Step::WaitForever };
        }
        let since: u64 = match self.unused_since {
            Some(since) => since,
            None => now,
        };
        let passed: u64 = if now >= since {
            now - since
        } else {
            0
        };
        let left: u64 = if passed >= self.options.camera_close_delay {
            0
        } else {
            self.options.camera_close_delay - passed
        };
        if left == 0 {
            self.session = false;
            self.unused_since = None;
            self.status.state = EngineState::Idle;
            self.status.camera = None;
            self.status.fps = 0;
            return Move { notify: true, deactivate: false, step: Step::Again };
        }
        self.unused_since = Some(since);
        Move { notify: false, deactivate: true, step: Step::WaitFor(left) }
    }

    /// The format of the next frame.
    pub fn output_format(&self, consumer: Option<PixelFormat>) -> (format: OutputFormat)
        ensures
            format == frame_format(consumer, self@.config.mode),
    {
        match consumer {
            Some(PixelFormat::Bgra) => OutputFormat::Bgra,
            Some(PixelFormat::Nv12) => OutputFormat::Nv12,
            None => match self.config.effect.mode {
                EffectMode::Transparent => OutputFormat::Bgra,
                _ => OutputFormat::Nv12,
            },
        }
    }

    /// Where the frame goes that was just processed.
    pub fn delivery(&self, consumer_active: bool) -> (delivery: Delivery)
        ensures
            delivery == delivered(self@, consumer_active),
    {
        Delivery {
            publish: consumer_active,
            deactivate: !consumer_active,
            preview: self.preview_enabled,
        }
    }

    /// No camera could be opened.
    pub fn camera_unavailable(&mut self, error: CameraOpenError) -> (next: Move)
        ensures
            old(self)@.sound() && !old(self)@.session ==> final(self)@.sound(),
            keeps_watch(old(self)@, final(self)@),
            next == retry(old(self)@.report.state != camera_trouble(error)),
            final(self)@ == (Desk {
                report: Report { state: camera_trouble(error), ..old(self)@.report },
                ..old(self)@
            }),
    {
        let state = match error {
            CameraOpenError::NoCamera => EngineState::NoCamera,
            CameraOpenError::Missing(name) => EngineState::CameraMissing(name),
            CameraOpenError::Other(error) => EngineState::Error(error),
        };
        let notify: bool = !self.status.state.same(&state);
        if notify {
            self.status.state = state;
        }
        Move { notify, deactivate: true, step: Step::WaitFor(RETRY_DELAY) }
    }

    /// The configuration is of no use to the pipeline.
    pub fn settings_refused(&mut self, error: String) -> (next: Move)
        ensures
            old(self)@.sound() && !old(self)@.session ==> final(self)@.sound(),
            keeps_watch(old(self)@, final(self)@),
            next == retry(true),
            final(self)@ == (Desk {
                report: Report { state: Activity::Error(error@), ..old(self)@.report },
                ..old(self)@
            }),
    {
        self.status.state = EngineState::Error(error);
        Move { notify: true, deactivate: true, step: Step::WaitFor(RETRY_DELAY) }
    }

    /// A camera is open and its frames can be processed.
    pub fn session_opened(
        &mut self,
        camera: String,
        format: CaptureFormat,
        backend: String,
        now: u64,
    ) -> (next: Move)
        ensures
            old(self)@.sound() ==> final(self)@.sound(),
            next == (Move { notify: true, deactivate: false, step: Step::Process }),
            final(self)@ == (Desk {
                session: true,
                stats: Stats::none(now),
                report: Report {
                    state: Activity::Running,
                    camera: Some((camera@, format)),
                    backend: Some(backend@),
                    warning: None,
                    ..old(self)@.report
                },
                ..old(self)@
            }),
    {
        self.status.state = EngineState::Running;
        self.status.camera = Some((camera, format));
        self.status.backend = Some(backend);
        self.status.warning = None;
        self.stats = Stats::new(now);
        self.session = true;
        Move { notify: true, deactivate: false, step: Step::Process }
    }

    /// A frame could not be processed.
    pub fn frame_failed(&mut self, error: String) -> (next: Move)
        ensures
            old(self)@.sound() ==> final(self)@.sound(),
            keeps_watch(old(self)@, final(self)@),
            next == retry(true),
            final(self)@ == (Desk {
                session: false,
                report: Report { state: Activity::Error(error@), ..old(self)@.report },
                ..old(self)@
            }),
    {
        self.session = false;
        self.status.state = EngineState::Error(error);
        Move { notify: true, deactivate: true, step: Step::WaitFor(RETRY_DELAY) }
    }

    /// Whether one more frame can be counted.
    pub fn has_room(&self, processing: u64, age: Option<u64>) -> (room: bool)
        ensures
            room == self@.stats.roomy(processing, age),
    {
        let late: bool = match age {
            Some(age) => self.stats.latency <= u64::MAX - age && self.stats.latency_samples
                < u32::MAX,
            None => true,
        };
        self.stats.frames < u32::MAX && self.stats.processing <= u64::MAX - processing && late
    }

    /// A frame was processed. Says whether the observer is to be told.
    pub fn frame_done(
        &mut self,
        processing: u64,
        age: Option<u64>,
        model: Option<String>,
        now: u64,
    ) -> (notify: bool)
        requires
            old(self)@.stats.roomy(processing, age),
        ensures
            old(self)@.sound() ==> final(self)@.sound(),
            keeps_watch(old(self)@, final(self)@),
            ({
                let stats = old(self)@.stats.plus(processing, age);
                &&& notify == (stats.elapsed(now) >= STATS_INTERVAL)
                &&& final(self)@ == if notify {
                    Desk {
                        stats: Stats::none(now),
                        report: measured(
                            old(self)@.report,
                            stats,
                            now,
                            crate::config::text_of(model),
                        ),
                        ..old(self)@
                    }
                } else {
                    Desk { stats, ..old(self)@ }
                }
            }),
    {
        self.stats.count(processing, age);
        let stats = self.stats;
        let elapsed: u64 = if now >= stats.started {
            now - stats.started
        } else {
            0
        };
        if elapsed < STATS_INTERVAL {
            return false;
        }
        self.status.fps = shown_rate(stats.frames, elapsed);
        self.status.processing_tenths = round_to_even(
            10 * time_each(stats.processing, stats.frames),
            SECOND,
        ) as u64;
        self.status.latency_ms = if stats.latency_samples > 0 {
            Some(
                round_to_even(time_each(stats.latency, stats.latency_samples), SECOND) as u64,
            )
        } else {
            None
        };
        self.status.model = model;
        self.stats = Stats::new(now);
        true
    }

    /// Takes over a configuration and says what it changes.
    pub fn apply_config(&mut self, config: Config) -> (change: Change)
        ensures
            old(self)@.sound() ==> final(self)@.sound(),
            keeps_watch(old(self)@, final(self)@),
            change == changes(old(self)@, config@),
            final(self)@ == configured(old(self)@, config@),
    {
        let output: bool = self.config.output != config.output;
        let change = Change {
            output,
            virtual_camera: output && self.virtual_camera,
            background: !same_optional(&self.config.effect.image_path, &config.effect.image_path)
                || self.config.effect.mode != config.effect.mode,
            camera: camera_changed(&self.config.camera, &config.camera),
        };
        if output {
            self.virtual_camera = false;
        }
        self.config = config;
        change
    }

    /// The camera was closed because another one is configured.
    pub fn camera_closed(&mut self)
        ensures
            old(self)@.sound() ==> final(self)@.sound(),
            keeps_watch(old(self)@, final(self)@),
            final(self)@ == (Desk {
                session: false,
                report: Report { state: Activity::Idle, ..old(self)@.report },
                ..old(self)@
            }),
    {
        self.session = false;
        self.status.state = EngineState::Idle;
    }

    /// Something went wrong that does not stop the engine.
    pub fn warn(&mut self, warning: String)
        ensures
            old(self)@.sound() ==> final(self)@.sound(),
            keeps_watch(old(self)@, final(self)@),
            final(self)@ == (Desk {
                report: Report { warning: Some(warning@), ..old(self)@.report },
                ..old(self)@
            }),
    {
        self.status.warning = Some(warning);
    }

    /// What becomes of the processor, given whether it runs on the device that
    /// the settings ask for.
    pub fn adjustment(&self, suits: bool) -> (adjustment: Adjustment)
        ensures
            adjustment == if !self@.session {
                Adjustment::Nothing
            } else if suits {
                Adjustment::Update
            } else {
                Adjustment::Recreate
            },
    {
        if !self.session {
            Adjustment::Nothing
        } else if suits {
            Adjustment::Update
        } else {
            Adjustment::Recreate
        }
    }

    /// The processor was replaced.
    pub fn backend_changed(&mut self, backend: String)
        ensures
            old(self)@.sound() ==> final(self)@.sound(),
            keeps_watch(old(self)@, final(self)@),
            final(self)@ == (Desk {
                report: Report { backend: Some(backend@), ..old(self)@.report },
                ..old(self)@
            }),
    {
        self.status.backend = Some(backend);
    }

    /// The engine stops. Says what is left to do.
    pub fn stopped(&mut self) -> (last: Move)
        ensures
            old(self)@.sound() ==> final(self)@.sound(),
            keeps_watch(old(self)@, final(self)@),
            last == halt(),
            final(self)@ == at_rest(old(self)@),
    {
        self.session = false;
        self.virtual_camera = false;
        Move { notify: false, deactivate: true, step: Step::Again }
    }

    /// Takes a command.
    pub fn obey(&mut self, command: EngineCommand) -> (order: Order)
        ensures
            old(self)@.sound() ==> final(self)@.sound(),
            keeps_watch(old(self)@, final(self)@),
            match command {
                EngineCommand::Apply(config) => {
                    &&& order == Order::Adjust(changes(old(self)@, config@))
                    &&& final(self)@ == configured(old(self)@, config@)
                },
                EngineCommand::SetPreview(enabled) => {
                    &&& order == Order::Nothing
                    &&& final(self)@ == (Desk { preview: enabled, ..old(self)@ })
                },
                EngineCommand::Shutdown => {
                    &&& order == Order::Halt(halt())
                    &&& final(self)@ == at_rest(old(self)@)
                },
            },
    {
        match command {
            EngineCommand::Apply(config) => Order::Adjust(self.apply_config(*config)),
            EngineCommand::SetPreview(enabled) => {
                self.set_preview(enabled);
                Order::Nothing
            },
            EngineCommand::Shutdown => Order::Halt(self.stopped()),
        }
    }
}

/// A camera is opened only for a consumer or for the preview.
pub proof fn law_a_camera_is_opened_only_for_someone(desk: Desk, consumer_active: bool, now: u64)
    ensures
        decided(desk, consumer_active, now).1.step is Open ==> consumer_active || desk.preview,
        !consumer_active && !desk.preview ==> !(decided(desk, consumer_active, now).1.step
            is Process),
        decided(desk, consumer_active, now).0.session ==> desk.session,
{
}

/// A camera that nobody uses is kept for the delay, counted from the first time
/// that nobody was there, and closed when it is over.
pub proof fn law_an_unused_camera_is_closed_after_the_delay(desk: Desk, first: u64, later: u64)
    requires
        desk.session,
        !desk.preview,
        desk.unused_since is None,
        first <= later,
        0 < desk.close_delay,
    ensures
        ({
            let waiting = decided(desk, false, first).0;
            &&& waiting.session
            &&& waiting.unused_since == Some(first)
            &&& decided(waiting, false, later).0.session <==> later - first < desk.close_delay
            &&& later - first < desk.close_delay ==> decided(waiting, false, later).1.step
                == Step::WaitFor((desk.close_delay - (later - first)) as u64)
        }),
{
}

/// Whoever comes back in time finds the camera open, and the delay starts anew.
pub proof fn law_coming_back_in_time_keeps_the_camera(desk: Desk, first: u64, back: u64)
    requires
        desk.session,
        !desk.preview,
        desk.unused_since is None,
        0 < desk.close_delay,
    ensures
        ({
            let waiting = decided(desk, false, first).0;
            decided(waiting, true, back) == (
                desk,
                Move { notify: false, deactivate: false, step: Step::Process },
            )
        }),
{
}

/// The preview alone publishes nothing: without a consumer the producer is
/// marked as inactive, whatever the observer is shown.
pub proof fn law_the_preview_alone_publishes_nothing(desk: Desk)
    ensures
        !delivered(desk, false).publish,
        delivered(desk, false).deactivate,
        delivered(desk, false).preview <==> desk.preview,
        delivered(desk, true).publish,
        !delivered(desk, true).deactivate,
{
}

/// After the end no camera is held, no virtual camera is there, and the producer
/// is marked as inactive.
pub proof fn law_nothing_is_held_after_the_end(desk: Desk)
    ensures
        !at_rest(desk).session,
        !at_rest(desk).virtual_camera,
        halt().deactivate,
        halt().step is Again,
{
}

/// One turn of the engine's loop.
pub struct Turn {
    /// The engine when it decides, with the commands carried out.
    pub before: Desk,
    pub consumer_active: bool,
    pub now: u64,
    /// The engine when it waits for the next turn.
    pub after: Desk,
}

impl Turn {
    /// A consumer is there or the preview is on.
    pub open spec fn used(self) -> bool {
        self.consumer_active || self.before.preview
    }

    /// What the engine decides.
    pub open spec fn step(self) -> Step {
        decided(self.before, self.consumer_active, self.now).1.step
    }

    /// A frame is handed to the consumers.
    pub open spec fn publishes(self) -> bool {
        (self.step() is Open || self.step() is Process) && delivered(
            self.before,
            self.consumer_active,
        ).publish
    }

    /// What follows the decision: a camera is opened or not where one is asked
    /// for; all other operations keep watch.
    pub open spec fn follows(self) -> bool {
        let desk = decided(self.before, self.consumer_active, self.now).0;
        if self.step() is Open {
            &&& self.after.unused_since == desk.unused_since
            &&& self.after.close_delay == desk.close_delay
        } else {
            keeps_watch(desk, self.after)
        }
    }
}

/// The turns of a run: it begins without a camera, commands come between two
/// turns, and the clock does not go back.
pub open spec fn is_run(turns: Seq<Turn>) -> bool {
    &&& turns.len() > 0 ==> !turns[0].before.session && turns[0].before.unused_since is None
    &&& forall|i: int| 0 <= i < turns.len() ==> (#[trigger] turns[i]).follows()
    &&& forall|i: int, j: int|
        0 <= i && j == i + 1 && j < turns.len() ==> keeps_watch(
            (#[trigger] turns[i]).after,
            (#[trigger] turns[j]).before,
        ) && turns[i].now <= turns[j].now
}

/// What holds after every turn of a run.
proof fn lemma_since_is_past(turns: Seq<Turn>, i: int)
    requires
        is_run(turns),
        0 <= i < turns.len(),
    ensures
        turns[i].before.unused_since matches Some(since) ==> since <= turns[i].now,
        turns[i].after.unused_since matches Some(since) ==> since <= turns[i].now,
        turns[i].before.close_delay == turns[0].before.close_delay,
        turns[i].after.close_delay == turns[0].before.close_delay,
    decreases i,
{
    assert(turns[i].follows());
    if i > 0 {
        lemma_since_is_past(turns, i - 1);
    }
}

/// The clock of a run does not go back.
proof fn lemma_clock(turns: Seq<Turn>, i: int, j: int)
    requires
        is_run(turns),
        0 <= i <= j < turns.len(),
    ensures
        turns[i].now <= turns[j].now,
    decreases j - i,
{
    if i < j {
        lemma_clock(turns, i, j - 1);
        assert(turns[j - 1].now <= turns[j].now);
    }
}

/// While nobody is there, a camera that is still held is counted as unused from
/// the first of these turns on, or from before.
proof fn lemma_waiting(turns: Seq<Turn>, i: int, j: int)
    requires
        is_run(turns),
        0 <= i <= j < turns.len(),
        forall|k: int| i <= k <= j ==> !(#[trigger] turns[k]).used(),
    ensures
        turns[j].after.session ==> {
            &&& turns[j].after.unused_since matches Some(since) && since <= turns[i].now
                && delay_left(turns[0].before.close_delay, since, turns[j].now) > 0
        },
    decreases j - i,
{
    assert(turns[j].follows());
    assert(!turns[j].used());
    lemma_since_is_past(turns, j);
    if i < j {
        lemma_waiting(turns, i, j - 1);
        assert(keeps_watch(turns[j - 1].after, turns[j].before));
    }
}

/// In every run a camera is opened only in a turn in which it is used and while
/// none is held; a camera that was not used for the delay is held no longer; and
/// a frame is published only for a consumer.
pub proof fn law_a_run_holds_the_camera_only_while_it_is_used(turns: Seq<Turn>, i: int, j: int)
    requires
        is_run(turns),
        0 <= i <= j < turns.len(),
    ensures
        turns[i].step() is Open ==> turns[i].used() && !turns[i].before.session,
        (forall|k: int| i <= k <= j ==> !(#[trigger] turns[k]).used()) && turns[j].now
            - turns[i].now >= turns[0].before.close_delay ==> !turns[j].after.session,
        turns[i].publishes() ==> turns[i].consumer_active,
{
    if forall|k: int| i <= k <= j ==> !(#[trigger] turns[k]).used() {
        lemma_waiting(turns, i, j);
        lemma_clock(turns, i, j);
    }
}

} // verus!
