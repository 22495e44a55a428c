//! The settings window: what its controls show, and what they mean.

use vstd::prelude::*;

use crate::blur::BlurStrength;
use crate::camera::find_link;
use crate::color::Rgb;
use crate::config::{
    copy_optional,
    format_color,
    parse_color,
    parse_quality,
    CameraChoice,
    CameraConfig,
    Choices,
    Config,
    DeviceConfig,
    EffectConfig,
    EffectMode,
    FormatConfig,
    MethodConfig,
    OrientationConfig,
    OutputConfig,
    SegmentationConfig,
};
use crate::device::{native_type, CameraDevice, CaptureFormat};
use crate::i18n::{tr, Language};
use crate::mask::MaskParams;
use crate::precision::{round_to_digits, ONE, SINGLE};
use crate::status::fps_label;
use crate::text::push_decimal;
use crate::variant::{ModelVariant, VariantPreference};

verus! {

/// A change of a slider up to this one is none: 0.005 in single precision.
pub const SLIDER_STEP: u64 = 0x14_7AE1_4000_0000;

/// The least distance between the two thresholds: 0.01 in single precision.
pub const EDGE_GAP: u64 = 0x28_F5C2_8000_0000;

/// The preset that is shown where the output is of no preset.
pub const DEFAULT_PRESET: usize = 2;

/// The texts of a list.
pub open spec fn texts(list: Seq<String>) -> Seq<Seq<char>> {
    Seq::new(list.len(), |i: int| list[i]@)
}

/// The sizes of the output that can be picked.
pub open spec fn output_sizes() -> Seq<(u32, u32)> {
    seq![
        (640u32, 360u32),
        (960u32, 540u32),
        (1280u32, 720u32),
        (1600u32, 900u32),
        (1920u32, 1080u32),
        (1280u32, 800u32),
        (1920u32, 1200u32),
        (640u32, 480u32),
        (960u32, 720u32),
        (1440u32, 1080u32),
    ]
}

pub fn output_presets() -> (presets: Vec<(u32, u32)>)
    ensures
        presets@ == output_sizes(),
{
    let presets: Vec<(u32, u32)> = vec![
        (640u32, 360u32),
        (960u32, 540u32),
        (1280u32, 720u32),
        (1600u32, 900u32),
        (1920u32, 1080u32),
        (1280u32, 800u32),
        (1920u32, 1200u32),
        (640u32, 480u32),
        (960u32, 720u32),
        (1440u32, 1080u32),
    ];
    assert(presets@ =~= output_sizes());
    presets
}

/// The rates of the output that can be picked.
pub open spec fn output_rates() -> Seq<u32> {
    seq![15u32, 24u32, 30u32, 60u32]
}

pub fn fps_presets() -> (presets: Vec<u32>)
    ensures
        presets@ == output_rates(),
{
    let presets: Vec<u32> = vec![15u32, 24u32, 30u32, 60u32];
    assert(presets@ =~= output_rates());
    presets
}

/// The effects that can be picked.
pub open spec fn effects() -> Seq<EffectMode> {
    seq![
        EffectMode::Passthrough,
        EffectMode::Blur,
        EffectMode::Color,
        EffectMode::Image,
        EffectMode::Transparent,
    ]
}

pub fn effect_modes() -> (modes: Vec<EffectMode>)
    ensures
        modes@ == effects(),
{
    let modes: Vec<EffectMode> = vec![
        EffectMode::Passthrough,
        EffectMode::Blur,
        EffectMode::Color,
        EffectMode::Image,
        EffectMode::Transparent,
    ];
    assert(modes@ =~= effects());
    modes
}

/// The label of the choice that leaves it to the application.
pub fn auto_label(language: Language) -> (label: String)
    ensures
        label@ == crate::status::said(language, "Automatic"@, "Automatycznie"@),
{
    tr(language, "Automatic", "Automatycznie").to_owned()
}

/// A size in words.
pub open spec fn size_text(width: u32, height: u32) -> Seq<char> {
    crate::text::decimal(width as nat) + "×"@ + crate::text::decimal(height as nat)
}

fn size_label(width: u32, height: u32) -> (label: String)
    ensures
        label@ == size_text(width, height),
{
    let mut label = String::new();
    push_decimal(&mut label, width as u64);
    label.append("×");
    push_decimal(&mut label, height as u64);
    proof {
        assert(label@ =~= size_text(width, height));
    }
    label
}

/// The names of the output sizes.
pub fn output_names() -> (names: Vec<String>)
    ensures
        texts(names@) == Seq::new(
            output_sizes().len(),
            |i: int| size_text(output_sizes()[i].0, output_sizes()[i].1),
        ),
{
    let presets = output_presets();
    let mut names: Vec<String> = Vec::new();
    for i in 0..presets.len()
        invariant
            presets@ == output_sizes(),
            names@.len() == i,
            forall|j: int|
                0 <= j < i ==> (#[trigger] names@[j])@ == size_text(
                    presets@[j].0,
                    presets@[j].1,
                ),
    {
        names.push(size_label(presets[i].0, presets[i].1));
    }
    names
}

/// The names of the rates.
pub fn fps_names(language: Language) -> (names: Vec<String>)
    ensures
        texts(names@) == Seq::new(
            output_rates().len(),
            |i: int|
                crate::status::rate_text(
                    crate::text::decimal(output_rates()[i] as nat),
                    language,
                ),
        ),
{
    let presets = fps_presets();
    let mut names: Vec<String> = Vec::new();
    for i in 0..presets.len()
        invariant
            presets@ == output_rates(),
            names@.len() == i,
            forall|j: int|
                0 <= j < i ==> (#[trigger] names@[j])@ == crate::status::rate_text(
                    crate::text::decimal(presets@[j] as nat),
                    language,
                ),
    {
        names.push(fps_label(presets[i] as u64, language));
    }
    names
}

/// The aspect ratio of a model size, where it is one of the common ones.
pub open spec fn aspect_text(variant: ModelVariant) -> Seq<char> {
    let portrait = variant.height > variant.width;
    let (w, h) = if portrait {
        (variant.height as int, variant.width as int)
    } else {
        (variant.width as int, variant.height as int)
    };
    if w * 9 == h * 16 {
        if portrait {
            "9:16"@
        } else {
            "16:9"@
        }
    } else if w * 10 == h * 16 {
        if portrait {
            "10:16"@
        } else {
            "16:10"@
        }
    } else if w * 3 == h * 4 {
        if portrait {
            "3:4"@
        } else {
            "4:3"@
        }
    } else {
        ""@
    }
}

pub fn aspect_label(variant: ModelVariant) -> (label: &'static str)
    ensures
        label@ == aspect_text(variant),
{
    let portrait: bool = variant.height > variant.width;
    let (w, h): (u64, u64) = if portrait {
        (variant.height as u64, variant.width as u64)
    } else {
        (variant.width as u64, variant.height as u64)
    };
    if w * 9 == h * 16 {
        if portrait {
            "9:16"
        } else {
            "16:9"
        }
    } else if w * 10 == h * 16 {
        if portrait {
            "10:16"
        } else {
            "16:10"
        }
    } else if w * 3 == h * 4 {
        if portrait {
            "3:4"
        } else {
            "4:3"
        }
    } else {
        ""
    }
}

/// A model size in words.
pub open spec fn quality_text(variant: ModelVariant) -> Seq<char> {
    size_text(variant.width, variant.height) + " "@ + aspect_text(variant)
}

/// The names of the model sizes, behind the automatic choice.
pub fn quality_names(variants: &[ModelVariant], language: Language) -> (names: Vec<String>)
    ensures
        texts(names@) == seq![crate::status::said(language, "Automatic"@, "Automatycznie"@)]
            + Seq::new(variants@.len(), |i: int| quality_text(variants@[i])),
{
    let mut names: Vec<String> = Vec::new();
    names.push(auto_label(language));
    for i in 0..variants.len()
        invariant
            names@.len() == i + 1,
            names@[0]@ == crate::status::said(language, "Automatic"@, "Automatycznie"@),
            forall|j: int|
                1 <= j <= i ==> (#[trigger] names@[j])@ == quality_text(variants@[j - 1]),
    {
        let variant = variants[i];
        let mut name = size_label(variant.width, variant.height);
        name.append(" ");
        name.append(aspect_label(variant));
        proof {
            assert(name@ =~= quality_text(variant));
        }
        names.push(name);
    }
    names
}

/// The names of the formats, behind the automatic choice.
pub fn format_names(formats: &[CaptureFormat], language: Language) -> (names: Vec<String>)
    ensures
        texts(names@) == seq![crate::status::said(language, "Automatic"@, "Automatycznie"@)]
            + Seq::new(formats@.len(), |i: int| formats@[i].label_spec()),
{
    let mut names: Vec<String> = Vec::new();
    names.push(auto_label(language));
    for i in 0..formats.len()
        invariant
            names@.len() == i + 1,
            names@[0]@ == crate::status::said(language, "Automatic"@, "Automatycznie"@),
            forall|j: int|
                1 <= j <= i ==> (#[trigger] names@[j])@ == formats@[j - 1].label_spec(),
    {
        names.push(formats[i].label());
    }
    names
}

/// The list of cameras: their names, the one that is picked, and a message.
#[derive(Debug, PartialEq, Eq)]
pub struct CameraList {
    pub names: Vec<String>,
    pub index: usize,
    pub message: String,
}

/// The names of the cameras.
pub open spec fn camera_names(cameras: Seq<CameraDevice>) -> Seq<Seq<char>> {
    Seq::new(cameras.len(), |i: int| cameras[i].name@)
}

/// The configured camera is not there.
pub open spec fn is_absent(cameras: Seq<CameraDevice>, camera: CameraChoice) -> bool {
    camera.symbolic_link matches Some(link) && crate::camera::link_place(cameras, link) is None
}

/// The name that is listed for a camera that is not there.
pub open spec fn absent_name(camera: CameraChoice, language: Language) -> Seq<char> {
    (match camera.name {
        Some(name) => name,
        None => camera.symbolic_link.unwrap(),
    }) + " ("@ + crate::status::said(language, "not connected"@, "niepodłączona"@) + ")"@
}

/// What the window says below the list of cameras.
pub open spec fn camera_message(
    cameras: Seq<CameraDevice>,
    camera: CameraChoice,
    language: Language,
) -> Seq<char> {
    if cameras.len() == 0 {
        crate::status::said(
            language,
            "No camera detected. Connect a camera and click Refresh."@,
            "Nie wykryto żadnej kamery. Podłącz kamerę i kliknij Odśwież."@,
        )
    } else if is_absent(cameras, camera) {
        crate::status::said(
            language,
            "The saved camera is not connected. Connect it or choose another one."@,
            "Zapamiętana kamera nie jest podłączona. Podłącz ją albo wybierz inną."@,
        )
    } else {
        Seq::empty()
    }
}

/// Lists the cameras. The configured one is listed even if it is not there.
pub fn list_for_window(
    cameras: &[CameraDevice],
    camera: &CameraConfig,
    language: Language,
) -> (list: CameraList)
    ensures
        texts(list.names@) == if is_absent(cameras@, camera@) {
            camera_names(cameras@).push(absent_name(camera@, language))
        } else {
            camera_names(cameras@)
        },
        list.index == match camera@.symbolic_link {
            None => 0,
            Some(link) => match crate::camera::link_place(cameras@, link) {
                Some(place) => place,
                None => cameras@.len() as int,
            },
        },
        list.message@ == camera_message(cameras@, camera@, language),
{
    let mut names: Vec<String> = Vec::new();
    for i in 0..cameras.len()
        invariant
            names@.len() == i,
            forall|j: int| 0 <= j < i ==> (#[trigger] names@[j])@ == cameras@[j].name@,
    {
        names.push(cameras[i].name.clone());
    }
    assert(texts(names@) =~= camera_names(cameras@));
    let mut absent: bool = false;
    let mut index: usize = 0;
    if let Some(link) = &camera.symbolic_link {
        match find_link(cameras, link) {
            Some(place) => {
                index = place;
            },
            None => {
                absent = true;
                index = cameras.len();
                let mut name = match &camera.name {
                    Some(name) => name.clone(),
                    None => link.clone(),
                };
                name.append(" (");
                name.append(tr(language, "not connected", "niepodłączona"));
                name.append(")");
                proof {
                    assert(name@ =~= absent_name(camera@, language));
                }
                let ghost before = names@;
                names.push(name);
                proof {
                    assert(texts(names@) =~= texts(before).push(name@));
                }
            },
        }
    }
    let message = if cameras.len() == 0 {
        tr(
            language,
            "No camera detected. Connect a camera and click Refresh.",
            "Nie wykryto żadnej kamery. Podłącz kamerę i kliknij Odśwież.",
        ).to_owned()
    } else if absent {
        tr(
            language,
            "The saved camera is not connected. Connect it or choose another one.",
            "Zapamiętana kamera nie jest podłączona. Podłącz ją albo wybierz inną.",
        ).to_owned()
    } else {
        String::new()
    };
    proof {
        if cameras@.len() > 0 && !absent {
            assert(message@ =~= Seq::<char>::empty());
        }
    }
    CameraList { names, index, message }
}

/// The camera whose formats are listed: the configured one, or the first, if it
/// is there.
pub fn listed_camera<'a>(cameras: &'a [CameraDevice], camera: &CameraConfig) -> (listed: Option<
    &'a CameraDevice,
>)
    ensures
        match camera@.symbolic_link {
            Some(link) => match crate::camera::link_place(cameras@, link) {
                Some(place) => listed == Some(&cameras@[place]),
                None => listed is None,
            },
            None => if cameras@.len() > 0 {
                listed == Some(&cameras@[0])
            } else {
                listed is None
            },
        },
{
    match &camera.symbolic_link {
        Some(link) => match find_link(cameras, link) {
            Some(place) => Some(&cameras[place]),
            None => None,
        },
        None => if cameras.len() > 0 {
            Some(&cameras[0])
        } else {
            None
        },
    }
}

/// The place of the first entry that is equal to a value, or another.
pub open spec fn place_or<T>(list: Seq<T>, value: T, other: int) -> int
    decreases list.len(),
{
    if list.len() == 0 {
        other
    } else if list[0] == value {
        0
    } else {
        let rest = place_or(list.drop_first(), value, -1);
        if rest < 0 {
            other
        } else {
            rest + 1
        }
    }
}

proof fn lemma_place<T>(list: Seq<T>, value: T, other: int, at: int)
    requires
        0 <= at <= list.len(),
        forall|i: int| 0 <= i < at ==> list[i] != value,
        at < list.len() ==> list[at] == value,
    ensures
        place_or(list, value, other) == if at < list.len() {
            at
        } else {
            other
        },
    decreases list.len(),
{
    if at > 0 {
        let rest = list.drop_first();
        assert forall|i: int| 0 <= i < at - 1 implies rest[i] != value by {
            assert(rest[i] == list[i + 1]);
        }
        lemma_place(rest, value, -1, at - 1);
    }
}

/// Where the configured format stands on the list behind the automatic choice.
pub open spec fn format_place(formats: Seq<CaptureFormat>, wanted: Option<FormatConfig>) -> int {
    match wanted {
        Some(format) => place_or(formats, format.capture(), -1) + 1,
        None => 0,
    }
}

pub fn format_index(formats: &[CaptureFormat], wanted: Option<FormatConfig>) -> (index: usize)
    ensures
        index == format_place(formats@, wanted),
{
    match wanted {
        Some(format) => match native_type(formats, format.to_capture()) {
            Some(place) => {
                proof {
                    lemma_place(formats@, format.capture(), -1, place as int);
                    assert(formats.len() == formats@.len());
                }
                place + 1
            },
            None => {
                proof {
                    assert forall|i: int| 0 <= i < formats@.len() implies formats@[i]
                        != format.capture() by {
                        assert(!formats@.contains(format.capture()));
                    }
                    lemma_place(formats@, format.capture(), -1, formats@.len() as int);
                }
                0
            },
        },
        None => 0,
    }
}

/// What the controls show. Sliders are in units of 2^-60.
#[derive(Debug, PartialEq, Eq)]
pub struct ShownConfig {
    pub output_index: usize,
    pub fps_index: usize,
    pub rotation_index: u16,
    pub mirror_horizontal: bool,
    pub mirror_vertical: bool,
    pub effect_index: usize,
    pub blur: BlurStrength,
    pub color_text: String,
    /// The colour of the swatch, where the text names one.
    pub color_swatch: Option<Rgb>,
    pub image_path: String,
    pub method_index: usize,
    pub quality_index: usize,
    pub device_index: usize,
    pub mask: MaskParams,
}

/// Where the configured model size stands on the list behind the automatic
/// choice.
pub open spec fn quality_place(variants: Seq<ModelVariant>, quality: Seq<char>) -> int {
    if crate::config::says_auto(quality) {
        0
    } else {
        match crate::config::first_x(quality) {
            None => 0,
            Some(at) => match (
                crate::config::number_of(quality.take(at)),
                crate::config::number_of(quality.skip(at + 1)),
            ) {
                (Ok(width), Ok(height)) => {
                    place_or(variants, ModelVariant { width, height }, -1) + 1
                },
                _ => 0,
            },
        }
    }
}

/// The treatment of masks that is in force.
pub open spec fn mask_in_force(config: Config) -> MaskParams {
    match config.mask_spec() {
        Some(params) => params,
        None => Config::default_mask(config.segmentation.method),
    }
}

fn current_mask(config: &Config) -> (params: MaskParams)
    ensures
        params == mask_in_force(*config),
{
    match config.mask_params() {
        Some(params) => params,
        None => Config::default_mask_params(config.segmentation.method),
    }
}

fn output_index(width: u32, height: u32) -> (index: usize)
    ensures
        index == place_or(output_sizes(), (width, height), DEFAULT_PRESET as int),
{
    let presets = output_presets();
    let mut i: usize = 0;
    while i < presets.len()
        invariant
            presets@ == output_sizes(),
            i <= presets@.len(),
            forall|j: int| 0 <= j < i ==> presets@[j] != (width, height),
        decreases presets@.len() - i,
    {
        if presets[i].0 == width && presets[i].1 == height {
            proof {
                lemma_place(presets@, (width, height), DEFAULT_PRESET as int, i as int);
            }
            return i;
        }
        i = i + 1;
    }
    proof {
        lemma_place(presets@, (width, height), DEFAULT_PRESET as int, i as int);
    }
    DEFAULT_PRESET
}

fn fps_index(fps: u32) -> (index: usize)
    ensures
        index == place_or(output_rates(), fps, DEFAULT_PRESET as int),
{
    let presets = fps_presets();
    let mut i: usize = 0;
    while i < presets.len()
        invariant
            presets@ == output_rates(),
            i <= presets@.len(),
            forall|j: int| 0 <= j < i ==> presets@[j] != fps,
        decreases presets@.len() - i,
    {
        if presets[i] == fps {
            proof {
                lemma_place(presets@, fps, DEFAULT_PRESET as int, i as int);
            }
            return i;
        }
        i = i + 1;
    }
    proof {
        lemma_place(presets@, fps, DEFAULT_PRESET as int, i as int);
    }
    DEFAULT_PRESET
}

fn effect_index(mode: EffectMode) -> (index: usize)
    ensures
        index == place_or(effects(), mode, 1),
{
    let modes = effect_modes();
    let mut i: usize = 0;
    while i < modes.len()
        invariant
            modes@ == effects(),
            i <= modes@.len(),
            forall|j: int| 0 <= j < i ==> modes@[j] != mode,
        decreases modes@.len() - i,
    {
        if modes[i] == mode {
            proof {
                lemma_place(modes@, mode, 1, i as int);
            }
            return i;
        }
        i = i + 1;
    }
    proof {
        lemma_place(modes@, mode, 1, i as int);
    }
    1
}

fn quality_index(variants: &[ModelVariant], quality: &str) -> (index: usize)
    ensures
        index == quality_place(variants@, quality@),
{
    if let Ok(VariantPreference::Fixed(variant)) = parse_quality(quality) {
        let mut i: usize = 0;
        while i < variants.len()
            invariant
                i <= variants@.len(),
                forall|j: int| 0 <= j < i ==> variants@[j] != variant,
                quality_place(variants@, quality@) == place_or(variants@, variant, -1) + 1,
            decreases variants@.len() - i,
        {
            if variants[i] == variant {
                proof {
                    lemma_place(variants@, variant, -1, i as int);
                    assert(variants.len() == variants@.len());
                }
                return i + 1;
            }
            i = i + 1;
        }
        proof {
            lemma_place(variants@, variant, -1, i as int);
        }
    }
    0
}

/// What the controls show of a configuration.
pub fn show_config(config: &Config, variants: &[ModelVariant]) -> (shown: ShownConfig)
    ensures
        shown.output_index == place_or(
            output_sizes(),
            (config.output.width, config.output.height),
            DEFAULT_PRESET as int,
        ),
        shown.fps_index == place_or(output_rates(), config.output.fps, DEFAULT_PRESET as int),
        shown.rotation_index == config.orientation.rotation % 360 / 90,
        shown.mirror_horizontal == config.orientation.mirror_horizontal,
        shown.mirror_vertical == config.orientation.mirror_vertical,
        shown.effect_index == place_or(effects(), config.effect.mode, 1),
        shown.blur == config.effect.blur,
        shown.color_text@ == config.effect.color@,
        shown.color_swatch == crate::config::color_of(config.effect.color@),
        shown.image_path@ == match config@.image_path {
            Some(path) => path,
            None => Seq::empty(),
        },
        shown.method_index == if config.segmentation.method is Rvm {
            0int
        } else {
            1int
        },
        shown.quality_index == quality_place(variants@, config.segmentation.quality@),
        shown.device_index == if config.segmentation.device is Gpu {
            0int
        } else {
            1int
        },
        shown.mask == mask_in_force(*config),
{
    let image_path = match &config.effect.image_path {
        Some(path) => path.clone(),
        None => String::new(),
    };
    proof {
        if config.effect.image_path is None {
            assert(image_path@ =~= Seq::<char>::empty());
        }
    }
    ShownConfig {
        output_index: output_index(config.output.width, config.output.height),
        fps_index: fps_index(config.output.fps),
        rotation_index: config.orientation.rotation % 360 / 90,
        mirror_horizontal: config.orientation.mirror_horizontal,
        mirror_vertical: config.orientation.mirror_vertical,
        effect_index: effect_index(config.effect.mode),
        blur: config.effect.blur,
        color_text: config.effect.color.clone(),
        color_swatch: match parse_color(config.effect.color.as_str()) {
            Ok(color) => Some(color),
            Err(_) => None,
        },
        image_path,
        method_index: match config.segmentation.method {
            MethodConfig::Rvm => 0,
            MethodConfig::MediaPipe => 1,
        },
        quality_index: quality_index(variants, config.segmentation.quality.as_str()),
        device_index: match config.segmentation.device {
            DeviceConfig::Gpu => 0,
            DeviceConfig::Cpu => 1,
        },
        mask: current_mask(config),
    }
}

/// What the controls hold. Sliders are numbers of single precision, in units of
/// 2^-60.
#[derive(Debug, PartialEq, Eq)]
pub struct WindowValues {
    pub camera_index: i32,
    pub format_index: i32,
    pub output_index: i32,
    pub fps_index: i32,
    pub rotation_index: i32,
    pub mirror_horizontal: bool,
    pub mirror_vertical: bool,
    pub effect_index: i32,
    pub blur: BlurStrength,
    pub color_text: String,
    pub method_index: i32,
    pub quality_index: i32,
    pub device_index: i32,
    pub edge_low: u64,
    pub edge_high: u64,
    pub smoothing: u64,
}

/// The entry of a list that is picked. Indices below the list count as its first
/// entry.
pub open spec fn entry<T>(list: Seq<T>, index: i32) -> Option<T> {
    let place = if index < 0 {
        0
    } else {
        index as int
    };
    if place < list.len() {
        Some(list[place])
    } else {
        None
    }
}

/// The entry of a list that is picked, where the list stands behind the automatic
/// choice.
pub open spec fn entry_behind_auto<T>(list: Seq<T>, index: i32) -> Option<T> {
    if 1 <= index <= list.len() {
        Some(list[index - 1])
    } else {
        None
    }
}

/// Two slider positions differ.
pub open spec fn differs(a: u64, b: u64) -> bool {
    let distance = if a >= b {
        a - b
    } else {
        b - a
    };
    crate::precision::nearest(distance, 1, SINGLE as int) > SLIDER_STEP
}

/// The higher threshold, a little above the lower one.
pub open spec fn raised(high: u64, low: u64) -> u64 {
    let least = crate::precision::nearest(low + EDGE_GAP, 1, SINGLE as int);
    let raised = if high >= least {
        high as int
    } else {
        least
    };
    if raised > ONE {
        ONE
    } else {
        raised as u64
    }
}

impl WindowValues {
    /// The method that is picked.
    pub open spec fn method(self) -> MethodConfig {
        if self.method_index == 1 {
            MethodConfig::MediaPipe
        } else {
            MethodConfig::Rvm
        }
    }

    /// A slider of the mask was moved.
    pub open spec fn mask_moved(self, mask: MaskParams) -> bool {
        differs(self.edge_low, mask.edge_low) || differs(self.edge_high, mask.edge_high) || differs(
            self.smoothing,
            mask.temporal_smoothing,
        )
    }

    /// The camera and the format that are picked.
    pub open spec fn camera_meant(
        self,
        before: CameraChoice,
        cameras: Seq<CameraDevice>,
        formats: Seq<CaptureFormat>,
    ) -> CameraChoice {
        let format = match entry_behind_auto(formats, self.format_index) {
            Some(format) => FormatConfig::of_capture(format),
            None => None,
        };
        match entry(cameras, self.camera_index) {
            Some(camera) => CameraChoice {
                symbolic_link: Some(camera.symbolic_link@),
                name: Some(camera.name@),
                format,
            },
            None => CameraChoice { format, ..before },
        }
    }

    /// The output that is picked.
    pub open spec fn output_meant(self, before: OutputConfig) -> OutputConfig {
        let (width, height) = match entry(output_sizes(), self.output_index) {
            Some(size) => size,
            None => (before.width, before.height),
        };
        OutputConfig {
            width,
            height,
            fps: match entry(output_rates(), self.fps_index) {
                Some(fps) => fps,
                None => before.fps,
            },
        }
    }

    /// The orientation that is picked.
    pub open spec fn orientation_meant(self) -> OrientationConfig {
        OrientationConfig {
            rotation: if self.rotation_index <= 0 {
                0
            } else if self.rotation_index >= 3 {
                270
            } else {
                (self.rotation_index * 90) as u16
            },
            mirror_horizontal: self.mirror_horizontal,
            mirror_vertical: self.mirror_vertical,
        }
    }

    /// The thresholds and the smoothing that are set, where a slider was moved.
    /// Another method starts with its usual ones.
    pub open spec fn mask_meant(self, current: Config) -> (Option<u64>, Option<u64>, Option<u64>) {
        let before = current@;
        if self.method() != before.method {
            (None, None, None)
        } else if self.mask_moved(mask_in_force(current)) {
            (
                Some(self.edge_low),
                Some(raised(self.edge_high, self.edge_low)),
                Some(self.smoothing),
            )
        } else {
            (before.edge_low, before.edge_high, before.temporal_smoothing)
        }
    }

    /// The model size that is picked.
    pub open spec fn quality_meant(self, variants: Seq<ModelVariant>) -> Seq<char> {
        match entry_behind_auto(variants, self.quality_index) {
            Some(variant) => crate::config::size_choice(variant),
            None => "auto"@,
        }
    }

    /// What the controls mean, where they replace a configuration.
    pub open spec fn meaning(
        self,
        current: Config,
        cameras: Seq<CameraDevice>,
        formats: Seq<CaptureFormat>,
        variants: Seq<ModelVariant>,
    ) -> Choices {
        let before = current@;
        let mask = self.mask_meant(current);
        Choices {
            camera: self.camera_meant(before.camera, cameras, formats),
            output: self.output_meant(before.output),
            orientation: self.orientation_meant(),
            mode: match entry(effects(), self.effect_index) {
                Some(mode) => mode,
                None => before.mode,
            },
            blur: self.blur.limited(),
            color: match crate::config::color_of(self.color_text@) {
                Some(color) => crate::config::color_text(color),
                None => before.color,
            },
            image_path: before.image_path,
            method: self.method(),
            quality: self.quality_meant(variants),
            device: if self.device_index == 1 {
                DeviceConfig::Cpu
            } else {
                DeviceConfig::Gpu
            },
            edge_low: mask.0,
            edge_high: mask.1,
            temporal_smoothing: mask.2,
        }
    }
}

fn pick_place(len: usize, index: i32) -> (place: Option<usize>)
    ensures
        match place {
            Some(place) => place < len && place == (if index < 0 {
                0
            } else {
                index as int
            }),
            None => (if index < 0 {
                0
            } else {
                index as int
            }) >= len,
        },
{
    let place: usize = if index < 0 {
        0
    } else {
        index as usize
    };
    if place < len {
        Some(place)
    } else {
        None
    }
}

fn pick_place_behind_auto(len: usize, index: i32) -> (place: Option<usize>)
    ensures
        match place {
            Some(place) => 1 <= index <= len && place == index - 1,
            None => !(1 <= index <= len),
        },
{
    if index < 1 {
        return None;
    }
    let place: usize = index as usize - 1;
    if place < len {
        Some(place)
    } else {
        None
    }
}

fn is_different(a: u64, b: u64) -> (different: bool)
    ensures
        different == differs(a, b),
{
    let distance: u64 = if a >= b {
        a - b
    } else {
        b - a
    };
    round_to_digits(distance as u128, 1, SINGLE) > SLIDER_STEP as u128
}

fn raise(high: u64, low: u64) -> (result: u64)
    ensures
        result == raised(high, low),
{
    let least: u128 = round_to_digits(low as u128 + EDGE_GAP as u128, 1, SINGLE);
    let raised: u128 = if high as u128 >= least {
        high as u128
    } else {
        least
    };
    if raised > ONE as u128 {
        ONE
    } else {
        raised as u64
    }
}

fn picked_quality(window: &WindowValues, variants: &[ModelVariant]) -> (text: String)
    ensures
        text@ == window.quality_meant(variants@),
{
    match pick_place_behind_auto(variants.len(), window.quality_index) {
        Some(place) => {
            let variant = variants[place];
            let mut text = String::new();
            push_decimal(&mut text, variant.width as u64);
            text.append("x");
            push_decimal(&mut text, variant.height as u64);
            proof {
                assert(text@ =~= window.quality_meant(variants@));
            }
            text
        },
        None => "auto".to_owned(),
    }
}

fn picked_camera(
    current: &CameraConfig,
    window: &WindowValues,
    cameras: &[CameraDevice],
    formats: &[CaptureFormat],
) -> (config: CameraConfig)
    ensures
        config@ == window.camera_meant(current@, cameras@, formats@),
{
    let mut config = current.clone();
    if let Some(place) = pick_place(cameras.len(), window.camera_index) {
        config.symbolic_link = Some(cameras[place].symbolic_link.clone());
        config.name = Some(cameras[place].name.clone());
    }
    config.format = match pick_place_behind_auto(formats.len(), window.format_index) {
        Some(place) => FormatConfig::from_capture(&formats[place]),
        None => None,
    };
    config
}

fn picked_output(current: &OutputConfig, window: &WindowValues) -> (config: OutputConfig)
    ensures
        config == window.output_meant(*current),
{
    let mut config = *current;
    let sizes = output_presets();
    if let Some(place) = pick_place(sizes.len(), window.output_index) {
        config.width = sizes[place].0;
        config.height = sizes[place].1;
    }
    let rates = fps_presets();
    if let Some(place) = pick_place(rates.len(), window.fps_index) {
        config.fps = rates[place];
    }
    config
}

fn picked_effect(current: &EffectConfig, window: &WindowValues) -> (config: EffectConfig)
    ensures
        config.mode == (match entry(effects(), window.effect_index) {
            Some(mode) => mode,
            None => current.mode,
        }),
        config.blur == window.blur.limited(),
        config.color@ == (match crate::config::color_of(window.color_text@) {
            Some(color) => crate::config::color_text(color),
            None => current.color@,
        }),
        crate::config::text_of(config.image_path) == crate::config::text_of(current.image_path),
{
    let modes = effect_modes();
    EffectConfig {
        mode: match pick_place(modes.len(), window.effect_index) {
            Some(place) => modes[place],
            None => current.mode,
        },
        blur: window.blur.clamped(),
        color: match parse_color(window.color_text.as_str()) {
            Ok(color) => format_color(color),
            Err(_) => current.color.clone(),
        },
        image_path: copy_optional(&current.image_path),
    }
}

fn picked_mask(current: &Config, window: &WindowValues) -> (mask: (
    Option<u64>,
    Option<u64>,
    Option<u64>,
))
    ensures
        mask == window.mask_meant(*current),
{
    let method = if window.method_index == 1 {
        MethodConfig::MediaPipe
    } else {
        MethodConfig::Rvm
    };
    if method != current.segmentation.method {
        return (None, None, None);
    }
    let mask = current_mask(current);
    if is_different(window.edge_low, mask.edge_low) || is_different(
        window.edge_high,
        mask.edge_high,
    ) || is_different(window.smoothing, mask.temporal_smoothing) {
        (
            Some(window.edge_low),
            Some(raise(window.edge_high, window.edge_low)),
            Some(window.smoothing),
        )
    } else {
        let s = &current.segmentation;
        (s.edge_low, s.edge_high, s.temporal_smoothing)
    }
}

/// Reads the controls.
pub fn config_from_window(
    current: &Config,
    window: &WindowValues,
    cameras: &[CameraDevice],
    formats: &[CaptureFormat],
    variants: &[ModelVariant],
) -> (config: Config)
    ensures
        config@ == window.meaning(*current, cameras@, formats@, variants@),
{
    let (edge_low, edge_high, temporal_smoothing): (
        Option<u64>,
        Option<u64>,
        Option<u64>,
    ) = picked_mask(current, window);
    Config {
        camera: picked_camera(&current.camera, window, cameras, formats),
        output: picked_output(&current.output, window),
        orientation: OrientationConfig {
            rotation: if window.rotation_index <= 0 {
                0
            } else if window.rotation_index >= 3 {
                270
            } else {
                (window.rotation_index * 90) as u16
            },
            mirror_horizontal: window.mirror_horizontal,
            mirror_vertical: window.mirror_vertical,
        },
        effect: picked_effect(&current.effect, window),
        segmentation: SegmentationConfig {
            method: if window.method_index == 1 {
                MethodConfig::MediaPipe
            } else {
                MethodConfig::Rvm
            },
            quality: picked_quality(window, variants),
            device: if window.device_index == 1 {
                DeviceConfig::Cpu
            } else {
                DeviceConfig::Gpu
            },
            edge_low,
            edge_high,
            temporal_smoothing,
        },
    }
}

/// What is to be done about an edited configuration.
#[derive(Clone, Copy, Debug, PartialEq, Eq, Structural)]
pub enum Commit {
    /// It is the one in force: show it again.
    Unchanged,
    /// Save it, hand it to the engine and show it; look for the cameras again
    /// where their choice changed.
    Changed { camera: bool },
}

pub fn commit(current: &Config, edited: &Config) -> (commit: Commit)
    ensures
        commit == if edited@ == current@ {
            Commit::Unchanged
        } else {
            Commit::Changed { camera: edited@.camera != current@.camera }
        },
{
    if edited.same(current) {
        Commit::Unchanged
    } else {
        Commit::Changed { camera: !edited.camera.same(&current.camera) }
    }
}

/// The configuration with another camera, whose format is left to the
/// application.
pub fn camera_selected(current: &Config, cameras: &[CameraDevice], index: i32) -> (config: Option<
    Config,
>)
    ensures
        match entry(cameras@, index) {
            Some(camera) => config matches Some(config) && config@ == (Choices {
                camera: CameraChoice {
                    symbolic_link: Some(camera.symbolic_link@),
                    name: Some(camera.name@),
                    format: None,
                },
                ..current@
            }),
            None => config is None,
        },
{
    match pick_place(cameras.len(), index) {
        Some(place) => {
            let mut config = current.clone();
            config.camera.symbolic_link = Some(cameras[place].symbolic_link.clone());
            config.camera.name = Some(cameras[place].name.clone());
            config.camera.format = None;
            Some(config)
        },
        None => None,
    }
}

/// The configuration with another colour.
pub fn color_preset(current: &Config, color: &str) -> (config: Config)
    ensures
        config@ == (Choices { color: color@, ..current@ }),
{
    let mut config = current.clone();
    config.effect.color = color.to_owned();
    config
}

/// The configuration with a background picture.
pub fn choose_image(current: &Config, path: String) -> (config: Config)
    ensures
        config@ == (Choices {
            image_path: Some(path@),
            mode: EffectMode::Image,
            ..current@
        }),
{
    let mut config = current.clone();
    config.effect.image_path = Some(path);
    config.effect.mode = EffectMode::Image;
    config
}

/// The configuration with the usual treatment of masks.
pub fn reset_mask(current: &Config) -> (config: Config)
    ensures
        config@ == (Choices {
            edge_low: None,
            edge_high: None,
            temporal_smoothing: None,
            ..current@
        }),
{
    let mut config = current.clone();
    config.segmentation.edge_low = None;
    config.segmentation.edge_high = None;
    config.segmentation.temporal_smoothing = None;
    config
}

impl WindowValues {
    /// The controls hold what they show of a configuration.
    pub open spec fn untouched(
        self,
        config: Config,
        cameras: Seq<CameraDevice>,
        formats: Seq<CaptureFormat>,
        variants: Seq<ModelVariant>,
    ) -> bool {
        &&& self.camera_index == match config@.camera.symbolic_link {
            None => 0,
            Some(link) => match crate::camera::link_place(cameras, link) {
                Some(place) => place,
                None => cameras.len() as int,
            },
        }
        &&& self.format_index == format_place(formats, config@.camera.format)
        &&& self.output_index == place_or(
            output_sizes(),
            (config.output.width, config.output.height),
            DEFAULT_PRESET as int,
        )
        &&& self.fps_index == place_or(output_rates(), config.output.fps, DEFAULT_PRESET as int)
        &&& self.rotation_index == config.orientation.rotation % 360 / 90
        &&& self.mirror_horizontal == config.orientation.mirror_horizontal
        &&& self.mirror_vertical == config.orientation.mirror_vertical
        &&& self.effect_index == place_or(effects(), config.effect.mode, 1)
        &&& self.blur == config.effect.blur
        &&& self.color_text@ == config.effect.color@
        &&& self.method_index == if config.segmentation.method is Rvm {
            0int
        } else {
            1int
        }
        &&& self.quality_index == quality_place(variants, config.segmentation.quality@)
        &&& self.device_index == if config.segmentation.device is Gpu {
            0int
        } else {
            1int
        }
        &&& self.edge_low == mask_in_force(config).edge_low
        &&& self.edge_high == mask_in_force(config).edge_high
        &&& self.smoothing == mask_in_force(config).temporal_smoothing
    }
}

/// The controls can express a configuration: everything in it is on the lists of
/// the window, and written as the window writes it.
pub open spec fn expressible(
    config: Config,
    cameras: Seq<CameraDevice>,
    formats: Seq<CaptureFormat>,
    variants: Seq<ModelVariant>,
) -> bool {
    &&& match config@.camera.symbolic_link {
        None => cameras.len() == 0,
        Some(link) => crate::camera::link_place(cameras, link) matches Some(place)
            ==> config@.camera.name == Some(cameras[place].name@),
    }
    &&& config.camera.format matches Some(format) ==> formats.contains(format.capture())
    &&& output_sizes().contains((config.output.width, config.output.height))
    &&& output_rates().contains(config.output.fps)
    &&& config.orientation.rotation < 360 && config.orientation.rotation % 90 == 0
    &&& config.effect.blur == config.effect.blur.limited()
    &&& crate::config::color_of(config.effect.color@) matches Some(color) ==> config.effect.color@
        == crate::config::color_text(color)
    &&& config.segmentation.quality@ == "auto"@ || exists|i: int|
        0 <= i < variants.len() && config.segmentation.quality@ == crate::config::size_choice(
            #[trigger] variants[i],
        )
}

proof fn lemma_place_found<T>(list: Seq<T>, value: T, other: int)
    requires
        list.contains(value),
    ensures
        0 <= place_or(list, value, other) < list.len(),
        list[place_or(list, value, other)] == value,
    decreases list.len(),
{
    if list[0] != value {
        let rest = list.drop_first();
        let i = choose|i: int| 0 <= i < list.len() && list[i] == value;
        assert(rest[i - 1] == value);
        lemma_place_found(rest, value, -1);
    }
}

proof fn lemma_auto_is_auto()
    ensures
        crate::config::says_auto("auto"@),
{
    reveal_strlit("auto");
    assert(crate::device::lowered("auto"@) =~= seq!['a', 'u', 't', 'o']);
}

proof fn lemma_quality_stays(values: WindowValues, quality: Seq<char>, variants: Seq<ModelVariant>)
    requires
        values.quality_index == quality_place(variants, quality),
        quality == "auto"@ || exists|i: int|
            0 <= i < variants.len() && quality == crate::config::size_choice(#[trigger] variants[i]),
    ensures
        values.quality_meant(variants) == quality,
{
    if quality == "auto"@ {
        lemma_auto_is_auto();
    } else {
        let i = choose|i: int|
            0 <= i < variants.len() && quality == crate::config::size_choice(#[trigger] variants[i]);
        let variant = variants[i];
        crate::config::law_model_sizes_round_trip(variant);
        assert(variants.contains(variant));
        lemma_place_found(variants, variant, -1);
    }
}

/// Controls that nobody touched mean the configuration that they show.
pub proof fn law_untouched_controls_change_nothing(
    values: WindowValues,
    config: Config,
    cameras: Seq<CameraDevice>,
    formats: Seq<CaptureFormat>,
    variants: Seq<ModelVariant>,
)
    requires
        values.untouched(config, cameras, formats, variants),
        expressible(config, cameras, formats, variants),
    ensures
        values.meaning(config, cameras, formats, variants) == config@,
{
    let meant = values.meaning(config, cameras, formats, variants);
    lemma_place_found(
        output_sizes(),
        (config.output.width, config.output.height),
        DEFAULT_PRESET as int,
    );
    lemma_place_found(output_rates(), config.output.fps, DEFAULT_PRESET as int);
    assert(effects()[0] is Passthrough && effects()[1] is Blur && effects()[2] is Color
        && effects()[3] is Image && effects()[4] is Transparent);
    assert(effects().contains(config.effect.mode));
    lemma_place_found(effects(), config.effect.mode, 1);
    lemma_quality_stays(values, config.segmentation.quality@, variants);
    if let Some(format) = config.camera.format {
        lemma_place_found(formats, format.capture(), -1);
        crate::config::law_formats_round_trip(format.capture(), format);
    }
    if let Some(link) = config@.camera.symbolic_link {
        crate::camera::law_no_other_camera_stands_in(cameras, link);
    }
    assert(meant.camera =~= config@.camera);
    assert(meant.output == config@.output);
    assert(meant.orientation == config@.orientation);
    assert(meant =~= config@);
}

} // verus!
