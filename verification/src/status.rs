//! What the engine is doing, and how the window says so.

use vstd::prelude::*;

use crate::config::copy_optional;
use crate::device::CaptureFormat;
use crate::i18n::Language;
use crate::region::PixelFormat;
use crate::text::{push_decimal, push_tenths};

verus! {

#[derive(Debug, PartialEq, Eq)]
pub enum EngineState {
    Idle,
    Running,
    NoCamera,
    CameraMissing(String),
    CameraBusy,
    Error(String),
}

/// A state of the engine.
#[verifier::ext_equal]
pub enum Activity {
    Idle,
    Running,
    NoCamera,
    CameraMissing(Seq<char>),
    CameraBusy,
    Error(Seq<char>),
}

impl View for EngineState {
    type V = Activity;

    open spec fn view(&self) -> Activity {
        match self {
            EngineState::Idle => Activity::Idle,
            EngineState::Running => Activity::Running,
            EngineState::NoCamera => Activity::NoCamera,
            EngineState::CameraMissing(name) => Activity::CameraMissing(name@),
            EngineState::CameraBusy => Activity::CameraBusy,
            EngineState::Error(error) => Activity::Error(error@),
        }
    }
}

impl Clone for EngineState {
    fn clone(&self) -> (copy: Self)
        ensures
            copy@ == self@,
    {
        match self {
            EngineState::Idle => EngineState::Idle,
            EngineState::Running => EngineState::Running,
            EngineState::NoCamera => EngineState::NoCamera,
            EngineState::CameraMissing(name) => EngineState::CameraMissing(name.clone()),
            EngineState::CameraBusy => EngineState::CameraBusy,
            EngineState::Error(error) => EngineState::Error(error.clone()),
        }
    }
}

impl EngineState {
    /// Whether two states are the same.
    pub fn same(&self, other: &EngineState) -> (same: bool)
        ensures
            same == (self@ == other@),
    {
        match (self, other) {
            (EngineState::Idle, EngineState::Idle) => true,
            (EngineState::Running, EngineState::Running) => true,
            (EngineState::NoCamera, EngineState::NoCamera) => true,
            (EngineState::CameraBusy, EngineState::CameraBusy) => true,
            (EngineState::CameraMissing(a), EngineState::CameraMissing(b)) => *a == *b,
            (EngineState::Error(a), EngineState::Error(b)) => *a == *b,
            _ => false,
        }
    }
}

#[derive(Debug, PartialEq, Eq)]
pub enum VirtualCameraState {
    Disabled,
    Registered,
    Unavailable(String),
}

/// A state of the virtual camera.
#[verifier::ext_equal]
pub enum Presence {
    Disabled,
    Registered,
    Unavailable(Seq<char>),
}

impl View for VirtualCameraState {
    type V = Presence;

    open spec fn view(&self) -> Presence {
        match self {
            VirtualCameraState::Disabled => Presence::Disabled,
            VirtualCameraState::Registered => Presence::Registered,
            VirtualCameraState::Unavailable(error) => Presence::Unavailable(error@),
        }
    }
}

impl Clone for VirtualCameraState {
    fn clone(&self) -> (copy: Self)
        ensures
            copy@ == self@,
    {
        match self {
            VirtualCameraState::Disabled => VirtualCameraState::Disabled,
            VirtualCameraState::Registered => VirtualCameraState::Registered,
            VirtualCameraState::Unavailable(error) => {
                VirtualCameraState::Unavailable(error.clone())
            },
        }
    }
}

/// What the engine reports of itself. Rates and times are rounded to what is
/// shown: whole frames per second, tenths of a millisecond for the work on a
/// frame, whole milliseconds for the latency.
#[derive(Debug, PartialEq, Eq)]
pub struct EngineStatus {
    pub state: EngineState,
    pub virtual_camera: VirtualCameraState,
    pub camera: Option<(String, CaptureFormat)>,
    pub consumer_format: Option<PixelFormat>,
    pub backend: Option<String>,
    pub model: Option<String>,
    pub fps: u64,
    pub processing_tenths: u64,
    pub latency_ms: Option<u64>,
    pub warning: Option<String>,
}

/// A report of the engine.
#[verifier::ext_equal]
pub struct Report {
    pub state: Activity,
    pub virtual_camera: Presence,
    pub camera: Option<(Seq<char>, CaptureFormat)>,
    pub consumer_format: Option<PixelFormat>,
    pub backend: Option<Seq<char>>,
    pub model: Option<Seq<char>>,
    pub fps: u64,
    pub processing_tenths: u64,
    pub latency_ms: Option<u64>,
    pub warning: Option<Seq<char>>,
}

/// A camera and the format it is open in.
pub open spec fn camera_view(camera: Option<(String, CaptureFormat)>) -> Option<
    (Seq<char>, CaptureFormat),
> {
    match camera {
        Some((name, format)) => Some((name@, format)),
        None => None,
    }
}

impl View for EngineStatus {
    type V = Report;

    open spec fn view(&self) -> Report {
        Report {
            state: self.state@,
            virtual_camera: self.virtual_camera@,
            camera: camera_view(self.camera),
            consumer_format: self.consumer_format,
            backend: crate::config::text_of(self.backend),
            model: crate::config::text_of(self.model),
            fps: self.fps,
            processing_tenths: self.processing_tenths,
            latency_ms: self.latency_ms,
            warning: crate::config::text_of(self.warning),
        }
    }
}

impl Clone for EngineStatus {
    fn clone(&self) -> (copy: Self)
        ensures
            copy@ == self@,
    {
        EngineStatus {
            state: self.state.clone(),
            virtual_camera: self.virtual_camera.clone(),
            camera: match &self.camera {
                Some((name, format)) => Some((name.clone(), *format)),
                None => None,
            },
            consumer_format: self.consumer_format,
            backend: copy_optional(&self.backend),
            model: copy_optional(&self.model),
            fps: self.fps,
            processing_tenths: self.processing_tenths,
            latency_ms: self.latency_ms,
            warning: copy_optional(&self.warning),
        }
    }
}

/// The report of an engine that has done nothing yet.
pub open spec fn quiet() -> Report {
    Report {
        state: Activity::Idle,
        virtual_camera: Presence::Disabled,
        camera: None,
        consumer_format: None,
        backend: None,
        model: None,
        fps: 0,
        processing_tenths: 0,
        latency_ms: None,
        warning: None,
    }
}

impl Default for EngineStatus {
    fn default() -> (status: Self)
        ensures
            status@ == quiet(),
    {
        EngineStatus {
            state: EngineState::Idle,
            virtual_camera: VirtualCameraState::Disabled,
            camera: None,
            consumer_format: None,
            backend: None,
            model: None,
            fps: 0,
            processing_tenths: 0,
            latency_ms: None,
            warning: None,
        }
    }
}

/// One of two texts, by language.
pub open spec fn said(language: Language, english: Seq<char>, polish: Seq<char>) -> Seq<char> {
    match language {
        Language::English => english,
        Language::Polish => polish,
    }
}

/// A rate in words.
pub open spec fn rate_text(fps: Seq<char>, language: Language) -> Seq<char> {
    fps + said(language, " fps"@, " kl./s"@)
}

/// What stands at the head of the window.
pub open spec fn headline_text(status: Report, language: Language) -> Seq<char> {
    match status.state {
        Activity::Idle => said(
            language,
            "Waiting for an app to use the ChromaFree camera"@,
            "Czeka na aplikację, która użyje kamery ChromaFree"@,
        ),
        Activity::Running => {
            let start = said(language, "Running: "@, "Działa: "@) + rate_text(
                crate::text::decimal(status.fps as nat),
                language,
            ) + ", "@ + crate::text::tenths_text(status.processing_tenths as nat) + said(
                language,
                " ms per frame"@,
                " ms na klatkę"@,
            );
            match status.latency_ms {
                Some(latency) => start + said(language, ", latency "@, ", opóźnienie "@)
                    + crate::text::decimal(latency as nat) + " ms"@,
                None => start,
            }
        },
        Activity::NoCamera => said(
            language,
            "No camera detected"@,
            "Nie wykryto żadnej kamery"@,
        ),
        Activity::CameraMissing(name) => said(language, "The camera \""@, "Kamera „"@) + name
            + said(
            language,
            "\" is not connected. Choose another one on the Camera tab."@,
            "” nie jest podłączona. Wybierz inną w zakładce Kamera."@,
        ),
        Activity::CameraBusy => said(
            language,
            "The camera is used by another app or there is not enough USB bandwidth. Close the program that uses the camera directly and ChromaFree will try again."@,
            "Kamera jest zajęta przez inną aplikację albo brakuje przepustowości USB. Zamknij program, który używa kamery bezpośrednio, a ChromaFree spróbuje ponownie."@,
        ),
        Activity::Error(error) => said(language, "Error: "@, "Błąd: "@) + error,
    }
}

/// The camera that is open.
pub open spec fn camera_detail(status: Report, language: Language) -> Seq<Seq<char>> {
    match status.camera {
        Some((name, format)) => seq![
            said(language, "Camera: "@, "Kamera: "@) + name + ", "@ + format.label_spec(),
        ],
        None => Seq::empty(),
    }
}

/// Where frames are processed.
pub open spec fn backend_detail(status: Report) -> Seq<Seq<char>> {
    match status.backend {
        Some(backend) => seq![backend],
        None => Seq::empty(),
    }
}

/// The model in use.
pub open spec fn model_detail(status: Report) -> Seq<Seq<char>> {
    match status.model {
        Some(model) => seq!["Model: "@ + model],
        None => Seq::empty(),
    }
}

/// The format of the frames that are asked for.
pub open spec fn consumer_detail(status: Report, language: Language) -> Seq<Seq<char>> {
    match status.consumer_format {
        Some(PixelFormat::Nv12) => seq![said(language, "Consumer: NV12"@, "Odbiorca: NV12"@)],
        Some(PixelFormat::Bgra) => seq![
            said(
                language,
                "Consumer: ARGB32 with transparency"@,
                "Odbiorca: ARGB32 z przezroczystością"@,
            ),
        ],
        None => Seq::empty(),
    }
}

/// What went wrong without stopping the engine.
pub open spec fn warning_detail(status: Report, language: Language) -> Seq<Seq<char>> {
    match status.warning {
        Some(warning) => seq![said(language, "Warning: "@, "Uwaga: "@) + warning],
        None => Seq::empty(),
    }
}

/// The details below the headline, in their order.
pub open spec fn details_of(status: Report, language: Language) -> Seq<Seq<char>> {
    camera_detail(status, language) + backend_detail(status) + model_detail(status)
        + consumer_detail(status, language) + warning_detail(status, language)
}

/// Texts with bullets between them.
pub open spec fn bulleted(parts: Seq<Seq<char>>) -> Seq<char>
    decreases parts.len(),
{
    if parts.len() == 0 {
        Seq::empty()
    } else if parts.len() == 1 {
        parts[0]
    } else {
        bulleted(parts.drop_last()) + " • "@ + parts.last()
    }
}

/// What is said of the virtual camera.
pub open spec fn virtual_camera_text(state: Presence, language: Language) -> Seq<char> {
    match state {
        Presence::Disabled => Seq::empty(),
        Presence::Registered => said(
            language,
            "The \"ChromaFree\" virtual camera is available in other apps."@,
            "Wirtualna kamera „ChromaFree” jest dostępna w innych aplikacjach."@,
        ),
        Presence::Unavailable(error) => said(
            language,
            "The virtual camera is unavailable. Reinstall ChromaFree to register vcam-source.dll. ("@,
            "Wirtualna kamera jest niedostępna. Zainstaluj ChromaFree ponownie, aby zarejestrować vcam-source.dll. ("@,
        ) + error + ")"@,
    }
}

/// Something needs attention.
pub open spec fn is_problem(status: Report) -> bool {
    !(status.state is Idle || status.state is Running) || status.virtual_camera is Unavailable
}

/// A rate in words.
pub fn fps_label(fps: u64, language: Language) -> (label: String)
    ensures
        label@ == rate_text(crate::text::decimal(fps as nat), language),
{
    let mut label = String::new();
    push_decimal(&mut label, fps);
    label.append(language.pick(" fps", " kl./s"));
    proof {
        assert(label@ =~= rate_text(crate::text::decimal(fps as nat), language));
    }
    label
}

fn headline(status: &EngineStatus, language: Language) -> (text: String)
    ensures
        text@ == headline_text(status@, language),
{
    let mut text = String::new();
    match &status.state {
        EngineState::Idle => {
            text.append(
                language.pick(
                    "Waiting for an app to use the ChromaFree camera",
                    "Czeka na aplikację, która użyje kamery ChromaFree",
                ),
            );
        },
        EngineState::Running => {
            text.append(language.pick("Running: ", "Działa: "));
            text.append(fps_label(status.fps, language).as_str());
            text.append(", ");
            push_tenths(&mut text, status.processing_tenths);
            text.append(language.pick(" ms per frame", " ms na klatkę"));
            if let Some(latency) = status.latency_ms {
                text.append(language.pick(", latency ", ", opóźnienie "));
                push_decimal(&mut text, latency);
                text.append(" ms");
            }
        },
        EngineState::NoCamera => {
            text.append(language.pick("No camera detected", "Nie wykryto żadnej kamery"));
        },
        EngineState::CameraMissing(name) => {
            text.append(language.pick("The camera \"", "Kamera „"));
            text.append(name.as_str());
            text.append(
                language.pick(
                    "\" is not connected. Choose another one on the Camera tab.",
                    "” nie jest podłączona. Wybierz inną w zakładce Kamera.",
                ),
            );
        },
        EngineState::CameraBusy => {
            text.append(
                language.pick(
                    "The camera is used by another app or there is not enough USB bandwidth. Close the program that uses the camera directly and ChromaFree will try again.",
                    "Kamera jest zajęta przez inną aplikację albo brakuje przepustowości USB. Zamknij program, który używa kamery bezpośrednio, a ChromaFree spróbuje ponownie.",
                ),
            );
        },
        EngineState::Error(error) => {
            text.append(language.pick("Error: ", "Błąd: "));
            text.append(error.as_str());
        },
    }
    proof {
        assert(text@ =~= headline_text(status@, language));
    }
    text
}

/// Appends a detail behind those that are there already.
fn add_detail(text: &mut String, first: bool, Ghost(parts): Ghost<Seq<Seq<char>>>, detail: &str)
    requires
        first == (parts.len() == 0),
        old(text)@ == bulleted(parts),
    ensures
        final(text)@ == bulleted(parts.push(detail@)),
{
    if !first {
        text.append(" • ");
    }
    text.append(detail);
    proof {
        let more = parts.push(detail@);
        assert(more.drop_last() =~= parts);
        if parts.len() > 0 {
            assert(text@ =~= bulleted(parts) + " • "@ + detail@);
        } else {
            assert(text@ =~= detail@);
        }
    }
}

fn details(status: &EngineStatus, language: Language) -> (text: String)
    ensures
        text@ == bulleted(details_of(status@, language)),
{
    let mut text = String::new();
    let mut first: bool = true;
    let ghost mut parts: Seq<Seq<char>> = Seq::empty();
    assert(text@ =~= bulleted(parts));
    if let Some((name, format)) = &status.camera {
        let mut part = String::new();
        part.append(language.pick("Camera: ", "Kamera: "));
        part.append(name.as_str());
        part.append(", ");
        part.append(format.label().as_str());
        add_detail(&mut text, first, Ghost(parts), part.as_str());
        first = false;
        proof {
            parts = parts.push(part@);
            assert(part@ =~= camera_detail(status@, language)[0]);
        }
    }
    assert(parts =~= camera_detail(status@, language));
    let ghost before = parts;
    if let Some(backend) = &status.backend {
        add_detail(&mut text, first, Ghost(parts), backend.as_str());
        first = false;
        proof {
            parts = parts.push(backend@);
        }
    }
    assert(parts =~= before + backend_detail(status@));
    let ghost before = parts;
    if let Some(model) = &status.model {
        let mut part = String::new();
        part.append("Model: ");
        part.append(model.as_str());
        add_detail(&mut text, first, Ghost(parts), part.as_str());
        first = false;
        proof {
            parts = parts.push(part@);
            assert(part@ =~= model_detail(status@)[0]);
        }
    }
    assert(parts =~= before + model_detail(status@));
    let ghost before = parts;
    if let Some(format) = status.consumer_format {
        let part = match format {
            PixelFormat::Nv12 => language.pick("Consumer: NV12", "Odbiorca: NV12"),
            PixelFormat::Bgra => language.pick(
                "Consumer: ARGB32 with transparency",
                "Odbiorca: ARGB32 z przezroczystością",
            ),
        };
        add_detail(&mut text, first, Ghost(parts), part);
        first = false;
        proof {
            parts = parts.push(part@);
        }
    }
    assert(parts =~= before + consumer_detail(status@, language));
    let ghost before = parts;
    if let Some(warning) = &status.warning {
        let mut part = String::new();
        part.append(language.pick("Warning: ", "Uwaga: "));
        part.append(warning.as_str());
        add_detail(&mut text, first, Ghost(parts), part.as_str());
        proof {
            parts = parts.push(part@);
            assert(part@ =~= warning_detail(status@, language)[0]);
        }
    }
    assert(parts =~= before + warning_detail(status@, language));
    assert(parts =~= details_of(status@, language));
    text
}

fn virtual_camera_line(state: &VirtualCameraState, language: Language) -> (text: String)
    ensures
        text@ == virtual_camera_text(state@, language),
{
    let mut text = String::new();
    match state {
        VirtualCameraState::Disabled => {},
        VirtualCameraState::Registered => {
            text.append(
                language.pick(
                    "The \"ChromaFree\" virtual camera is available in other apps.",
                    "Wirtualna kamera „ChromaFree” jest dostępna w innych aplikacjach.",
                ),
            );
        },
        VirtualCameraState::Unavailable(error) => {
            text.append(
                language.pick(
                    "The virtual camera is unavailable. Reinstall ChromaFree to register vcam-source.dll. (",
                    "Wirtualna kamera jest niedostępna. Zainstaluj ChromaFree ponownie, aby zarejestrować vcam-source.dll. (",
                ),
            );
            text.append(error.as_str());
            text.append(")");
        },
    }
    proof {
        assert(text@ =~= virtual_camera_text(state@, language));
    }
    text
}

/// The headline, the details, the line on the virtual camera, and whether
/// something needs attention.
pub fn status_lines(status: &EngineStatus, language: Language) -> (lines: (
    String,
    String,
    String,
    bool,
))
    ensures
        lines.0@ == headline_text(status@, language),
        lines.1@ == bulleted(details_of(status@, language)),
        lines.2@ == virtual_camera_text(status@.virtual_camera, language),
        lines.3 == is_problem(status@),
{
    let fine: bool = match &status.state {
        EngineState::Idle => true,
        EngineState::Running => true,
        _ => false,
    };
    let absent: bool = match &status.virtual_camera {
        VirtualCameraState::Unavailable(_) => true,
        _ => false,
    };
    (
        headline(status, language),
        details(status, language),
        virtual_camera_line(&status.virtual_camera, language),
        !fine || absent,
    )
}

} // verus!
