//! The configuration, and what it means to the pipeline.

use std::sync::Arc;

use vstd::prelude::*;

use crate::background::RgbImage;
use crate::blur::BlurStrength;
use crate::color::Rgb;
use crate::device::{characters, lower, CaptureFormat, Encoding};
use crate::error::CoreError;
use crate::frame::{Dims, FrameSize};
use crate::i18n::trim;
use crate::mask::MaskParams;
use crate::orientation::{Orientation, Rotation};
use crate::pipeline::{
    BackgroundEffect,
    PipelineSettings,
    SegmentationMethod,
    SegmentationSettings,
};
use crate::segmentation::InferenceDevice;
use crate::precision::ONE;
use crate::variant::{ModelVariant, VariantPreference};

verus! {

/// The green of a studio backdrop.
pub const GREEN_SCREEN: &'static str = "#00B140";

/// The blue of a studio backdrop.
pub const BLUE_SCREEN: &'static str = "#0047BB";

/// The folder of the configuration, below that of the user's application data.
pub const CONFIG_FOLDER: &'static str = "ChromaFree";

/// The name of the configuration file.
pub const CONFIG_NAME: &'static str = "config.toml";

/// How many threads a model gets on the processor.
pub const CPU_INFERENCE_THREADS: usize = 2;

/// The greatest share of the earlier masks that can be configured: 0.95 in single
/// precision.
pub const MAX_TEMPORAL_SMOOTHING: u64 = 0xF33_3330_0000_0000;

#[derive(Clone, Copy, Debug, PartialEq, Eq, Structural)]
pub enum EncodingConfig {
    Nv12,
    Yuy2,
    Mjpeg,
}

#[derive(Clone, Copy, Debug, PartialEq, Eq, Structural)]
pub struct FormatConfig {
    pub width: u32,
    pub height: u32,
    pub fps_numerator: u32,
    pub fps_denominator: u32,
    pub encoding: EncodingConfig,
}

#[derive(Debug, PartialEq, Eq)]
pub struct CameraConfig {
    pub symbolic_link: Option<String>,
    pub name: Option<String>,
    pub format: Option<FormatConfig>,
}

impl Default for CameraConfig {
    fn default() -> (config: Self)
        ensures
            config.symbolic_link is None,
            config.name is None,
            config.format is None,
    {
        CameraConfig { symbolic_link: None, name: None, format: None }
    }
}

#[derive(Clone, Copy, Debug, PartialEq, Eq, Structural)]
pub struct OutputConfig {
    pub width: u32,
    pub height: u32,
    pub fps: u32,
}

impl Default for OutputConfig {
    fn default() -> (config: Self)
        ensures
            config == (OutputConfig { width: 1280, height: 720, fps: 30 }),
    {
        OutputConfig { width: 1280, height: 720, fps: 30 }
    }
}

#[derive(Clone, Copy, Debug, PartialEq, Eq, Structural)]
pub struct OrientationConfig {
    pub rotation: u16,
    pub mirror_horizontal: bool,
    pub mirror_vertical: bool,
}

impl Default for OrientationConfig {
    fn default() -> (config: Self)
        ensures
            config == (OrientationConfig {
                rotation: 0,
                mirror_horizontal: false,
                mirror_vertical: false,
            }),
    {
        OrientationConfig { rotation: 0, mirror_horizontal: false, mirror_vertical: false }
    }
}

#[derive(Clone, Copy, Debug, Default, PartialEq, Eq, Structural)]
pub enum EffectMode {
    Passthrough,
    #[default]
    Blur,
    Color,
    Image,
    Transparent,
}

#[derive(Debug, PartialEq, Eq)]
pub struct EffectConfig {
    pub mode: EffectMode,
    pub blur: BlurStrength,
    pub color: String,
    pub image_path: Option<String>,
}

impl Default for EffectConfig {
    fn default() -> (config: Self)
        ensures
            config.mode == EffectMode::Blur,
            config.blur == (BlurStrength { amount: 0x800_0000_0000_0000, factor: 11_863_283 }),
            config.color@ == GREEN_SCREEN@,
            config.image_path is None,
    {
        EffectConfig {
            mode: EffectMode::Blur,
            blur: BlurStrength::half(),
            color: GREEN_SCREEN.to_owned(),
            image_path: None,
        }
    }
}

#[derive(Clone, Copy, Debug, Default, PartialEq, Eq, Structural)]
pub enum MethodConfig {
    #[default]
    Rvm,
    MediaPipe,
}

#[derive(Clone, Copy, Debug, Default, PartialEq, Eq, Structural)]
pub enum DeviceConfig {
    #[default]
    Gpu,
    Cpu,
}

/// How a model is run and its masks are treated; thresholds and shares are
/// numbers of single precision, in units of 2^-60.
#[derive(Debug, PartialEq, Eq)]
pub struct SegmentationConfig {
    pub method: MethodConfig,
    pub quality: String,
    pub device: DeviceConfig,
    pub edge_low: Option<u64>,
    pub edge_high: Option<u64>,
    pub temporal_smoothing: Option<u64>,
}

impl Default for SegmentationConfig {
    fn default() -> (config: Self)
        ensures
            config.method == MethodConfig::Rvm,
            config.quality@ == "auto"@,
            config.device == DeviceConfig::Gpu,
            config.edge_low is None,
            config.edge_high is None,
            config.temporal_smoothing is None,
    {
        SegmentationConfig {
            method: MethodConfig::Rvm,
            quality: "auto".to_owned(),
            device: DeviceConfig::Gpu,
            edge_low: None,
            edge_high: None,
            temporal_smoothing: None,
        }
    }
}

#[derive(Debug, PartialEq, Eq)]
pub struct Config {
    pub camera: CameraConfig,
    pub output: OutputConfig,
    pub orientation: OrientationConfig,
    pub effect: EffectConfig,
    pub segmentation: SegmentationConfig,
}

impl Default for Config {
    fn default() -> (config: Self)
        ensures
            config.camera.symbolic_link is None,
            config.camera.name is None,
            config.camera.format is None,
            config.output == (OutputConfig { width: 1280, height: 720, fps: 30 }),
            config.orientation == (OrientationConfig {
                rotation: 0,
                mirror_horizontal: false,
                mirror_vertical: false,
            }),
            config.effect.mode == EffectMode::Blur,
            config.effect.blur == (BlurStrength { amount: 0x800_0000_0000_0000, factor: 11_863_283 }),
            config.effect.color@ == GREEN_SCREEN@,
            config.effect.image_path is None,
            config.segmentation.method == MethodConfig::Rvm,
            config.segmentation.quality@ == "auto"@,
            config.segmentation.device == DeviceConfig::Gpu,
            config.segmentation.edge_low is None,
            config.segmentation.edge_high is None,
            config.segmentation.temporal_smoothing is None,
    {
        Config {
            camera: CameraConfig::default(),
            output: OutputConfig::default(),
            orientation: OrientationConfig::default(),
            effect: EffectConfig::default(),
            segmentation: SegmentationConfig::default(),
        }
    }
}

/// What is wrong with a number.
#[derive(Clone, Copy, Debug, PartialEq, Eq, Structural)]
pub enum NumberFault {
    Empty,
    InvalidDigit,
    TooLarge,
}

/// Why a configuration is refused.
#[derive(Debug, PartialEq, Eq)]
pub enum ConfigError {
    Color(String),
    Quality(String),
    Number(NumberFault),
    Size(CoreError),
}

impl ConfigError {
    /// The text that describes this error.
    pub open spec fn text(self) -> Seq<char> {
        match self {
            ConfigError::Color(color) => "color "@ + color@ + " must look like #RRGGBB"@,
            ConfigError::Quality(quality) => {
                "quality "@ + quality@ + " must be auto or WIDTHxHEIGHT"@
            },
            ConfigError::Number(NumberFault::Empty) => "cannot parse integer from empty string"@,
            ConfigError::Number(NumberFault::InvalidDigit) => "invalid digit found in string"@,
            ConfigError::Number(NumberFault::TooLarge) => {
                "number too large to fit in target type"@
            },
            ConfigError::Size(error) => error.text(),
        }
    }

    /// Describes the error in one line.
    pub fn message(&self) -> (message: String)
        ensures
            message@ == self.text(),
    {
        let mut message = String::new();
        match self {
            ConfigError::Color(color) => {
                message.append("color ");
                message.append(color.as_str());
                message.append(" must look like #RRGGBB");
            },
            ConfigError::Quality(quality) => {
                message.append("quality ");
                message.append(quality.as_str());
                message.append(" must be auto or WIDTHxHEIGHT");
            },
            ConfigError::Number(NumberFault::Empty) => {
                message.append("cannot parse integer from empty string");
            },
            ConfigError::Number(NumberFault::InvalidDigit) => {
                message.append("invalid digit found in string");
            },
            ConfigError::Number(NumberFault::TooLarge) => {
                message.append("number too large to fit in target type");
            },
            ConfigError::Size(error) => {
                message.append(error.message().as_str());
            },
        }
        proof {
            assert(message@ =~= self.text());
        }
        message
    }
}

impl FormatConfig {
    /// The configuration of a capture format. Formats that cannot be decoded
    /// have none.
    pub open spec fn of_capture(format: CaptureFormat) -> Option<FormatConfig> {
        match format.encoding {
            Encoding::Nv12 => Some(Self::with_encoding(format, EncodingConfig::Nv12)),
            Encoding::Yuy2 => Some(Self::with_encoding(format, EncodingConfig::Yuy2)),
            Encoding::Mjpeg => Some(Self::with_encoding(format, EncodingConfig::Mjpeg)),
            Encoding::Other(_) => None,
        }
    }

    pub open spec fn with_encoding(
        format: CaptureFormat,
        encoding: EncodingConfig,
    ) -> FormatConfig {
        FormatConfig {
            width: format.width,
            height: format.height,
            fps_numerator: format.fps_numerator,
            fps_denominator: format.fps_denominator,
            encoding,
        }
    }

    /// The capture format of a configuration.
    pub open spec fn capture(self) -> CaptureFormat {
        CaptureFormat {
            width: self.width,
            height: self.height,
            fps_numerator: self.fps_numerator,
            fps_denominator: self.fps_denominator,
            encoding: match self.encoding {
                EncodingConfig::Nv12 => Encoding::Nv12,
                EncodingConfig::Yuy2 => Encoding::Yuy2,
                EncodingConfig::Mjpeg => Encoding::Mjpeg,
            },
        }
    }

    pub fn from_capture(format: &CaptureFormat) -> (config: Option<Self>)
        ensures
            config == Self::of_capture(*format),
    {
        let encoding = match format.encoding {
            Encoding::Nv12 => EncodingConfig::Nv12,
            Encoding::Yuy2 => EncodingConfig::Yuy2,
            Encoding::Mjpeg => EncodingConfig::Mjpeg,
            Encoding::Other(_) => return None,
        };
        Some(
            FormatConfig {
                width: format.width,
                height: format.height,
                fps_numerator: format.fps_numerator,
                fps_denominator: format.fps_denominator,
                encoding,
            },
        )
    }

    pub fn to_capture(self) -> (format: CaptureFormat)
        ensures
            format == self.capture(),
    {
        CaptureFormat {
            width: self.width,
            height: self.height,
            fps_numerator: self.fps_numerator,
            fps_denominator: self.fps_denominator,
            encoding: match self.encoding {
                EncodingConfig::Nv12 => Encoding::Nv12,
                EncodingConfig::Yuy2 => Encoding::Yuy2,
                EncodingConfig::Mjpeg => Encoding::Mjpeg,
            },
        }
    }
}

/// A configured format is the capture format that it was made of, and the other
/// way round.
pub proof fn law_formats_round_trip(format: CaptureFormat, config: FormatConfig)
    ensures
        FormatConfig::of_capture(format) matches Some(made) ==> made.capture() == format,
        FormatConfig::of_capture(format) is Some <==> format.decodable(),
        FormatConfig::of_capture(config.capture()) == Some(config),
{
}

/// A hexadecimal digit of ASCII.
pub open spec fn is_hex(c: char) -> bool {
    ||| '0' <= c && c <= '9'
    ||| 'a' <= c && c <= 'f'
    ||| 'A' <= c && c <= 'F'
}

/// The value of a hexadecimal digit.
pub open spec fn hex_value(c: char) -> int {
    if '0' <= c && c <= '9' {
        c as u32 - 48
    } else if 'a' <= c && c <= 'f' {
        c as u32 - 87
    } else {
        c as u32 - 55
    }
}

/// A text without the number signs in front of it.
pub open spec fn without_hashes(text: Seq<char>) -> Seq<char>
    decreases text.len(),
{
    if text.len() > 0 && text[0] == '#' {
        without_hashes(text.drop_first())
    } else {
        text
    }
}

/// The colour that a text such as `#00B140` names; white space around it and the
/// number sign are optional.
pub open spec fn color_of(text: Seq<char>) -> Option<Rgb> {
    let hex = without_hashes(crate::i18n::trimmed(text));
    if hex.len() == 6 && (forall|i: int| 0 <= i < 6 ==> is_hex(#[trigger] hex[i])) {
        Some(
            Rgb {
                r: (16 * hex_value(hex[0]) + hex_value(hex[1])) as u8,
                g: (16 * hex_value(hex[2]) + hex_value(hex[3])) as u8,
                b: (16 * hex_value(hex[4]) + hex_value(hex[5])) as u8,
            },
        )
    } else {
        None
    }
}

fn hex_digit_value(c: char) -> (value: Option<u8>)
    ensures
        match value {
            Some(digit) => is_hex(c) && digit == hex_value(c) && digit < 16,
            None => !is_hex(c),
        },
{
    if '0' <= c && c <= '9' {
        Some(c as u8 - 48)
    } else if 'a' <= c && c <= 'f' {
        Some(c as u8 - 87)
    } else if 'A' <= c && c <= 'F' {
        Some(c as u8 - 55)
    } else {
        None
    }
}

pub fn parse_color(text: &str) -> (result: Result<Rgb, ConfigError>)
    ensures
        match result {
            Ok(color) => color_of(text@) == Some(color),
            Err(error) => color_of(text@) is None && (error matches ConfigError::Color(shown)
                && shown@ == text@),
        },
{
    let chars = trim(text);
    let mut start: usize = 0;
    proof {
        assert(chars@.skip(0) =~= chars@);
    }
    while start < chars.len() && chars[start] == '#'
        invariant
            start <= chars@.len(),
            without_hashes(chars@) == without_hashes(chars@.skip(start as int)),
        decreases chars@.len() - start,
    {
        proof {
            assert(chars@.skip(start as int).drop_first() =~= chars@.skip(start + 1));
        }
        start = start + 1;
    }
    let ghost hex = chars@.skip(start as int);
    assert(without_hashes(chars@) == hex);
    let total: usize = chars.len();
    if total - start != 6 {
        return Err(ConfigError::Color(text.to_owned()));
    }
    let mut digits: [u8; 6] = [0, 0, 0, 0, 0, 0];
    let mut i: usize = 0;
    while i < 6
        invariant
            i <= 6,
            start + 6 == total,
            total == chars@.len(),
            hex == chars@.skip(start as int),
            without_hashes(chars@) == hex,
            chars@ == crate::i18n::trimmed(text@),
            forall|j: int|
                0 <= j < i ==> is_hex(#[trigger] hex[j]) && digits[j] == hex_value(hex[j])
                    && digits[j] < 16,
        decreases 6 - i,
    {
        assert(hex[i as int] == chars@[start + i]);
        match hex_digit_value(chars[start + i]) {
            Some(digit) => {
                digits[i] = digit;
            },
            None => {
                return Err(ConfigError::Color(text.to_owned()));
            },
        }
        i = i + 1;
    }
    assert(is_hex(hex[0]) && is_hex(hex[1]) && is_hex(hex[2]) && is_hex(hex[3]) && is_hex(hex[4])
        && is_hex(hex[5]));
    Ok(
        Rgb {
            r: 16 * digits[0] + digits[1],
            g: 16 * digits[2] + digits[3],
            b: 16 * digits[4] + digits[5],
        },
    )
}

/// The character of a hexadecimal digit, in upper case.
pub open spec fn upper_hex_char(digit: int) -> char {
    if digit < 10 {
        (48 + digit) as char
    } else {
        (55 + digit) as char
    }
}

/// The text of a colour.
pub open spec fn color_text(color: Rgb) -> Seq<char> {
    seq![
        '#',
        upper_hex_char(color.r as int / 16),
        upper_hex_char(color.r as int % 16),
        upper_hex_char(color.g as int / 16),
        upper_hex_char(color.g as int % 16),
        upper_hex_char(color.b as int / 16),
        upper_hex_char(color.b as int % 16),
    ]
}

fn upper_hex(digit: u8) -> (c: char)
    requires
        digit < 16,
    ensures
        c == upper_hex_char(digit as int),
{
    if digit < 10 {
        (48 + digit) as char
    } else {
        (55 + digit) as char
    }
}

pub fn format_color(color: Rgb) -> (text: String)
    ensures
        text@ == color_text(color),
{
    let mut text = String::new();
    text.push('#');
    text.push(upper_hex(color.r / 16));
    text.push(upper_hex(color.r % 16));
    text.push(upper_hex(color.g / 16));
    text.push(upper_hex(color.g % 16));
    text.push(upper_hex(color.b / 16));
    text.push(upper_hex(color.b % 16));
    proof {
        assert(text@ =~= color_text(color));
    }
    text
}

/// The text of a colour names that colour.
pub proof fn law_colors_round_trip(color: Rgb)
    ensures
        color_of(color_text(color)) == Some(color),
{
    let text = color_text(color);
    assert(!crate::i18n::is_white(text[0]));
    assert(crate::i18n::trimmed_start(text) == text);
    lemma_upper_hex(color.b as int % 16);
    assert(text.last() == upper_hex_char(color.b as int % 16));
    assert(crate::i18n::trimmed_end(text) == text);
    let hex = text.drop_first();
    lemma_upper_hex(color.r as int / 16);
    lemma_upper_hex(color.r as int % 16);
    lemma_upper_hex(color.g as int / 16);
    lemma_upper_hex(color.g as int % 16);
    lemma_upper_hex(color.b as int / 16);
    reveal_with_fuel(without_hashes, 2);
    assert(hex[0] == upper_hex_char(color.r as int / 16));
    assert(without_hashes(text) == hex);
    assert forall|i: int| 0 <= i < 6 implies is_hex(#[trigger] hex[i]) by {
        assert(hex[i] == text[i + 1]);
    }
}

proof fn lemma_upper_hex(digit: int)
    requires
        0 <= digit < 16,
    ensures
        is_hex(upper_hex_char(digit)),
        hex_value(upper_hex_char(digit)) == digit,
        !crate::i18n::is_white(upper_hex_char(digit)),
        upper_hex_char(digit) != '#',
{
}

/// A number in decimal digits, read from left to right after what was read
/// already. A plus sign in front was taken off.
pub open spec fn number_from(read: int, text: Seq<char>) -> Result<u32, NumberFault>
    decreases text.len(),
{
    if text.len() == 0 {
        Ok(read as u32)
    } else if !('0' <= text[0] && text[0] <= '9') {
        Err(NumberFault::InvalidDigit)
    } else if read * 10 + (text[0] as u32 - 48) > u32::MAX {
        Err(NumberFault::TooLarge)
    } else {
        number_from(read * 10 + (text[0] as u32 - 48), text.drop_first())
    }
}

/// The number that a text is.
pub open spec fn number_of(text: Seq<char>) -> Result<u32, NumberFault> {
    if text.len() == 0 {
        Err(NumberFault::Empty)
    } else if text[0] == '+' && text.len() > 1 {
        number_from(0, text.drop_first())
    } else {
        number_from(0, text)
    }
}

/// Reads a number out of part of a text.
fn read_number(chars: &[char], from: usize, to: usize) -> (result: Result<u32, NumberFault>)
    requires
        from <= to <= chars@.len(),
    ensures
        result == number_of(chars@.subrange(from as int, to as int)),
{
    let ghost text = chars@.subrange(from as int, to as int);
    if from == to {
        return Err(NumberFault::Empty);
    }
    let mut at: usize = if chars[from] == '+' && to - from > 1 {
        from + 1
    } else {
        from
    };
    let mut read: u64 = 0;
    proof {
        if at > from {
            assert(text.drop_first() =~= chars@.subrange(at as int, to as int));
        }
    }
    while at < to
        invariant
            from <= at <= to <= chars@.len(),
            text == chars@.subrange(from as int, to as int),
            read <= u32::MAX,
            number_of(text) == number_from(
                read as int,
                chars@.subrange(at as int, to as int),
            ),
        decreases to - at,
    {
        let ghost rest = chars@.subrange(at as int, to as int);
        proof {
            assert(rest[0] == chars@[at as int]);
            assert(rest.drop_first() =~= chars@.subrange(at + 1, to as int));
        }
        let c: char = chars[at];
        if !('0' <= c && c <= '9') {
            return Err(NumberFault::InvalidDigit);
        }
        read = read * 10 + (c as u64 - 48);
        if read > u32::MAX as u64 {
            return Err(NumberFault::TooLarge);
        }
        at = at + 1;
    }
    Ok(read as u32)
}

/// Where the first x of a text stands.
pub open spec fn first_x(text: Seq<char>) -> Option<int>
    decreases text.len(),
{
    if text.len() == 0 {
        None
    } else if text[0] == 'x' {
        Some(0)
    } else {
        match first_x(text.drop_first()) {
            Some(at) => Some(at + 1),
            None => None,
        }
    }
}

proof fn lemma_first_x(text: Seq<char>, at: int)
    requires
        0 <= at <= text.len(),
        forall|i: int| 0 <= i < at ==> #[trigger] text[i] != 'x',
        at == text.len() || text[at] == 'x',
    ensures
        first_x(text) == if at == text.len() {
            None
        } else {
            Some(at)
        },
    decreases at,
{
    if at > 0 {
        lemma_first_x(text.drop_first(), at - 1);
    }
}

/// A text is the word that leaves the choice to the application.
pub open spec fn says_auto(text: Seq<char>) -> bool {
    crate::device::lowered(text) == seq!['a', 'u', 't', 'o']
}

/// Whether a text names a model size, or why not.
pub open spec fn quality_of(
    text: Seq<char>,
    result: Result<VariantPreference, ConfigError>,
) -> bool {
    if says_auto(text) {
        result == Ok::<VariantPreference, ConfigError>(VariantPreference::Auto)
    } else {
        match first_x(text) {
            None => result matches Err(ConfigError::Quality(shown)) && shown@ == text,
            Some(at) => {
                let width = number_of(text.take(at));
                let height = number_of(text.skip(at + 1));
                match (width, height) {
                    (Err(fault), _) => result == Err::<VariantPreference, ConfigError>(
                        ConfigError::Number(fault),
                    ),
                    (Ok(_), Err(fault)) => result == Err::<VariantPreference, ConfigError>(
                        ConfigError::Number(fault),
                    ),
                    (Ok(width), Ok(height)) => result == Ok::<VariantPreference, ConfigError>(
                        VariantPreference::Fixed(ModelVariant { width, height }),
                    ),
                }
            },
        }
    }
}

fn is_auto(chars: &[char]) -> (result: bool)
    ensures
        result == says_auto(chars@),
{
    let ghost low = crate::device::lowered(chars@);
    let ghost word = seq!['a', 'u', 't', 'o'];
    if chars.len() != 4 {
        assert(low.len() != word.len());
        return false;
    }
    let (a, b, c, d): (char, char, char, char) = (
        lower(chars[0]),
        lower(chars[1]),
        lower(chars[2]),
        lower(chars[3]),
    );
    assert(low =~= seq![a, b, c, d]);
    assert(low[0] == a && low[1] == b && low[2] == c && low[3] == d);
    assert(word[0] == 'a' && word[1] == 'u' && word[2] == 't' && word[3] == 'o');
    a == 'a' && b == 'u' && c == 't' && d == 'o'
}

pub fn parse_quality(text: &str) -> (result: Result<VariantPreference, ConfigError>)
    ensures
        quality_of(text@, result),
{
    let chars = characters(text);
    if is_auto(chars.as_slice()) {
        return Ok(VariantPreference::Auto);
    }
    let mut at: usize = 0;
    while at < chars.len() && chars[at] != 'x'
        invariant
            at <= chars@.len(),
            forall|i: int| 0 <= i < at ==> #[trigger] chars@[i] != 'x',
        decreases chars@.len() - at,
    {
        at = at + 1;
    }
    proof {
        lemma_first_x(chars@, at as int);
    }
    if at == chars.len() {
        return Err(ConfigError::Quality(text.to_owned()));
    }
    proof {
        assert(chars@.subrange(0, at as int) =~= text@.take(at as int));
        assert(chars@.subrange(at + 1, chars@.len() as int) =~= text@.skip(at + 1));
    }
    let width: u32 = match read_number(chars.as_slice(), 0, at) {
        Ok(width) => width,
        Err(fault) => return Err(ConfigError::Number(fault)),
    };
    let height: u32 = match read_number(chars.as_slice(), at + 1, chars.len()) {
        Ok(height) => height,
        Err(fault) => return Err(ConfigError::Number(fault)),
    };
    Ok(VariantPreference::Fixed(ModelVariant::new(width, height)))
}

/// Reading one more digit.
proof fn lemma_one_more_digit(read: int, text: Seq<char>, digit: char)
    requires
        0 <= read <= u32::MAX,
        '0' <= digit && digit <= '9',
    ensures
        number_from(read, text.push(digit)) == match number_from(read, text) {
            Ok(value) => if value * 10 + (digit as u32 - 48) > u32::MAX {
                Err(NumberFault::TooLarge)
            } else {
                Ok((value * 10 + (digit as u32 - 48)) as u32)
            },
            Err(fault) => Err(fault),
        },
    decreases text.len(),
{
    reveal_with_fuel(number_from, 2);
    let more = text.push(digit);
    if text.len() == 0 {
        assert(more.drop_first() =~= Seq::<char>::empty());
        assert(more[0] == digit);
    } else {
        assert(more[0] == text[0]);
        assert(more.drop_first() =~= text.drop_first().push(digit));
        let next = read * 10 + (text[0] as u32 - 48);
        if '0' <= text[0] && text[0] <= '9' && next <= u32::MAX {
            lemma_one_more_digit(next, text.drop_first(), digit);
        }
    }
}

/// The digits of a number are read as that number.
proof fn lemma_digits_are_read(value: nat)
    requires
        value <= u32::MAX,
    ensures
        number_from(0, crate::text::decimal(value)) == Ok::<u32, NumberFault>(value as u32),
        number_of(crate::text::decimal(value)) == Ok::<u32, NumberFault>(value as u32),
    decreases value,
{
    let text = crate::text::decimal(value);
    crate::text::lemma_decimal_digits(value);
    assert('0' <= text[0] && text[0] <= '9');
    if value < 10 {
        assert(text =~= Seq::<char>::empty().push(crate::text::digit_char(value)));
        lemma_one_more_digit(0, Seq::empty(), crate::text::digit_char(value));
    } else {
        lemma_digits_are_read(value / 10);
        lemma_one_more_digit(
            0,
            crate::text::decimal(value / 10),
            crate::text::digit_char(value % 10),
        );
    }
}

/// The text of a model size.
pub open spec fn size_choice(variant: ModelVariant) -> Seq<char> {
    crate::text::decimal(variant.width as nat) + "x"@ + crate::text::decimal(variant.height as nat)
}

/// The text of a model size names that size.
pub proof fn law_model_sizes_round_trip(variant: ModelVariant)
    ensures
        quality_of(
            size_choice(variant),
            Ok::<VariantPreference, ConfigError>(VariantPreference::Fixed(variant)),
        ),
        !says_auto(size_choice(variant)),
        first_x(size_choice(variant)) == Some(
            crate::text::decimal(variant.width as nat).len() as int,
        ),
        number_of(
            size_choice(variant).take(crate::text::decimal(variant.width as nat).len() as int),
        ) == Ok::<u32, NumberFault>(variant.width),
        number_of(
            size_choice(variant).skip(crate::text::decimal(variant.width as nat).len() as int + 1),
        ) == Ok::<u32, NumberFault>(variant.height),
{
    let width = crate::text::decimal(variant.width as nat);
    let height = crate::text::decimal(variant.height as nat);
    let text = size_choice(variant);
    reveal_strlit("x");
    crate::text::lemma_decimal_digits(variant.width as nat);
    lemma_digits_are_read(variant.width as nat);
    lemma_digits_are_read(variant.height as nat);
    let at = width.len() as int;
    assert forall|i: int| 0 <= i < at implies #[trigger] text[i] != 'x' by {
        assert(text[i] == width[i]);
    }
    assert(text[at] == 'x');
    lemma_first_x(text, at);
    assert(text.take(at) =~= width);
    assert(text.skip(at + 1) =~= height);
    assert(text[0] == width[0]);
    let low = crate::device::lowered(text);
    assert(low[0] == crate::device::ascii_lower(text[0]));
    assert(seq!['a', 'u', 't', 'o'][0] == 'a');
}

/// A number, or another where there is none.
pub open spec fn or_else(value: Option<u64>, other: u64) -> u64 {
    match value {
        Some(value) => value,
        None => other,
    }
}

/// The smaller of two numbers.
pub open spec fn at_most(value: u64, limit: u64) -> u64 {
    if value < limit {
        value
    } else {
        limit
    }
}

fn value_or(value: Option<u64>, other: u64) -> (result: u64)
    ensures
        result == or_else(value, other),
{
    match value {
        Some(value) => value,
        None => other,
    }
}

fn limited(value: u64, limit: u64) -> (result: u64)
    ensures
        result == at_most(value, limit),
{
    if value < limit {
        value
    } else {
        limit
    }
}

impl Config {
    /// The orientation that is configured. Other angles than quarter turns count
    /// as none.
    pub open spec fn orientation_spec(self) -> Orientation {
        let angle = self.orientation.rotation % 360;
        Orientation {
            rotation: if angle == 90 {
                Rotation::Clockwise90
            } else if angle == 180 {
                Rotation::Clockwise180
            } else if angle == 270 {
                Rotation::Clockwise270
            } else {
                Rotation::Upright
            },
            mirror_horizontal: self.orientation.mirror_horizontal,
            mirror_vertical: self.orientation.mirror_vertical,
        }
    }

    /// How masks of a method are treated unless something else is configured.
    pub open spec fn default_mask(method: MethodConfig) -> MaskParams {
        match method {
            MethodConfig::Rvm => MaskParams::for_recurrent_models(),
            MethodConfig::MediaPipe => MaskParams::for_memoryless_models(),
        }
    }

    /// How masks are treated, where anything is configured of it.
    pub open spec fn mask_spec(self) -> Option<MaskParams> {
        let s = self.segmentation;
        if s.edge_low is None && s.edge_high is None && s.temporal_smoothing is None {
            None
        } else {
            let defaults = Self::default_mask(s.method);
            Some(
                MaskParams {
                    temporal_smoothing: at_most(
                        or_else(s.temporal_smoothing, defaults.temporal_smoothing),
                        MAX_TEMPORAL_SMOOTHING,
                    ),
                    edge_low: at_most(or_else(s.edge_low, defaults.edge_low), ONE),
                    edge_high: at_most(or_else(s.edge_high, defaults.edge_high), ONE),
                },
            )
        }
    }

    /// The effect that is configured, given its colour. A picture that is not
    /// there is replaced by the colour.
    pub open spec fn effect_spec(
        self,
        color: Rgb,
        background: Option<Arc<RgbImage>>,
    ) -> BackgroundEffect {
        match self.effect.mode {
            EffectMode::Passthrough => BackgroundEffect::Passthrough,
            EffectMode::Blur => BackgroundEffect::Blur { strength: self.effect.blur.limited() },
            EffectMode::Color => BackgroundEffect::Color(color),
            EffectMode::Image => match background {
                Some(image) => BackgroundEffect::Image(image),
                None => BackgroundEffect::Color(color),
            },
            EffectMode::Transparent => BackgroundEffect::Transparent { fallback: color },
        }
    }

    /// The size of the output.
    pub open spec fn output_dims(self) -> Dims {
        Dims { width: self.output.width as int, height: self.output.height as int }
    }

    /// The method, model size, device and masks that are configured, given the
    /// model size.
    pub open spec fn segmentation_spec(self, variant: VariantPreference) -> SegmentationSettings {
        SegmentationSettings {
            method: match self.segmentation.method {
                MethodConfig::Rvm => SegmentationMethod::Rvm,
                MethodConfig::MediaPipe => SegmentationMethod::MediaPipe,
            },
            variant,
            device: match self.segmentation.device {
                DeviceConfig::Gpu => InferenceDevice::DirectMl { adapter_index: 0 },
                DeviceConfig::Cpu => InferenceDevice::Cpu { threads: CPU_INFERENCE_THREADS },
            },
            mask: self.mask_spec(),
        }
    }

    pub fn output_size(&self) -> (result: Result<FrameSize, ConfigError>)
        ensures
            match result {
                Ok(size) => self.output_dims().valid() && size@ == self.output_dims(),
                Err(error) => !self.output_dims().valid() && error == ConfigError::Size(
                    CoreError::InvalidFrameSize {
                        width: self.output.width,
                        height: self.output.height,
                    },
                ),
            },
    {
        match FrameSize::new(self.output.width, self.output.height) {
            Ok(size) => Ok(size),
            Err(error) => Err(ConfigError::Size(error)),
        }
    }

    pub fn orientation(&self) -> (orientation: Orientation)
        ensures
            orientation == self.orientation_spec(),
    {
        let angle: u16 = self.orientation.rotation % 360;
        Orientation {
            rotation: if angle == 90 {
                Rotation::Clockwise90
            } else if angle == 180 {
                Rotation::Clockwise180
            } else if angle == 270 {
                Rotation::Clockwise270
            } else {
                Rotation::Upright
            },
            mirror_horizontal: self.orientation.mirror_horizontal,
            mirror_vertical: self.orientation.mirror_vertical,
        }
    }

    pub fn default_mask_params(method: MethodConfig) -> (params: MaskParams)
        ensures
            params == Self::default_mask(method),
    {
        match method {
            MethodConfig::Rvm => MaskParams::recurrent_model(),
            MethodConfig::MediaPipe => MaskParams::memoryless_model(),
        }
    }

    pub fn mask_params(&self) -> (params: Option<MaskParams>)
        ensures
            params == self.mask_spec(),
    {
        let s = &self.segmentation;
        if s.edge_low.is_none() && s.edge_high.is_none() && s.temporal_smoothing.is_none() {
            return None;
        }
        let defaults = Self::default_mask_params(s.method);
        Some(
            MaskParams {
                temporal_smoothing: limited(
                    value_or(s.temporal_smoothing, defaults.temporal_smoothing),
                    MAX_TEMPORAL_SMOOTHING,
                ),
                edge_low: limited(value_or(s.edge_low, defaults.edge_low), ONE),
                edge_high: limited(value_or(s.edge_high, defaults.edge_high), ONE),
            },
        )
    }

    /// What the configuration means to the pipeline, given the background
    /// picture where one could be loaded.
    pub fn pipeline_settings(&self, background: Option<Arc<RgbImage>>) -> (result: Result<
        PipelineSettings,
        ConfigError,
    >)
        ensures
            match result {
                Ok(settings) => {
                    &&& color_of(self.effect.color@) matches Some(color) && settings.effect
                        == self.effect_spec(color, background)
                    &&& self.output_dims().valid()
                    &&& settings.output@ == self.output_dims()
                    &&& quality_of(
                        self.segmentation.quality@,
                        Ok(settings.segmentation.variant),
                    )
                    &&& settings.segmentation == self.segmentation_spec(
                        settings.segmentation.variant,
                    )
                    &&& settings.orientation == self.orientation_spec()
                    &&& settings.color_matrix is None
                    &&& self.effect.blur.wf() && (background matches Some(image) ==> image.wf())
                        && self.output_dims().addressable(4) ==> settings.wf()
                },
                Err(error) => if color_of(self.effect.color@) is None {
                    error matches ConfigError::Color(shown) && shown@ == self.effect.color@
                } else if !self.output_dims().valid() {
                    error == ConfigError::Size(
                        CoreError::InvalidFrameSize {
                            width: self.output.width,
                            height: self.output.height,
                        },
                    )
                } else {
                    quality_of(self.segmentation.quality@, Err(error))
                },
            },
    {
        let color = match parse_color(self.effect.color.as_str()) {
            Ok(color) => color,
            Err(error) => return Err(error),
        };
        let effect = match self.effect.mode {
            EffectMode::Passthrough => BackgroundEffect::Passthrough,
            EffectMode::Blur => BackgroundEffect::Blur { strength: self.effect.blur.clamped() },
            EffectMode::Color => BackgroundEffect::Color(color),
            EffectMode::Image => match background {
                Some(image) => BackgroundEffect::Image(image),
                None => BackgroundEffect::Color(color),
            },
            EffectMode::Transparent => BackgroundEffect::Transparent { fallback: color },
        };
        let size = match self.output_size() {
            Ok(size) => size,
            Err(error) => return Err(error),
        };
        let variant = match parse_quality(self.segmentation.quality.as_str()) {
            Ok(variant) => variant,
            Err(error) => return Err(error),
        };
        let mut settings = PipelineSettings::new(size);
        settings.orientation = self.orientation();
        settings.effect = effect;
        settings.segmentation = SegmentationSettings {
            method: match self.segmentation.method {
                MethodConfig::Rvm => SegmentationMethod::Rvm,
                MethodConfig::MediaPipe => SegmentationMethod::MediaPipe,
            },
            variant,
            device: match self.segmentation.device {
                DeviceConfig::Gpu => InferenceDevice::DirectMl { adapter_index: 0 },
                DeviceConfig::Cpu => InferenceDevice::Cpu { threads: CPU_INFERENCE_THREADS },
            },
            mask: self.mask_params(),
        };
        Ok(settings)
    }
}

/// An optional text.
pub open spec fn text_of(text: Option<String>) -> Option<Seq<char>> {
    match text {
        Some(text) => Some(text@),
        None => None,
    }
}

/// Whether two optional texts are the same.
pub fn same_optional(a: &Option<String>, b: &Option<String>) -> (same: bool)
    ensures
        same == (text_of(*a) == text_of(*b)),
{
    match (a, b) {
        (Some(x), Some(y)) => *x == *y,
        (None, None) => true,
        _ => false,
    }
}

/// A copy of an optional text.
pub fn copy_optional(text: &Option<String>) -> (copy: Option<String>)
    ensures
        text_of(copy) == text_of(*text),
{
    match text {
        Some(text) => Some(text.clone()),
        None => None,
    }
}

fn same_number(a: Option<u64>, b: Option<u64>) -> (same: bool)
    ensures
        same == (a == b),
{
    match (a, b) {
        (Some(x), Some(y)) => x == y,
        (None, None) => true,
        _ => false,
    }
}

/// Whether two optional formats are the same.
pub fn same_format(a: Option<FormatConfig>, b: Option<FormatConfig>) -> (same: bool)
    ensures
        same == (a == b),
{
    match (a, b) {
        (Some(x), Some(y)) => x == y,
        (None, None) => true,
        _ => false,
    }
}

/// What is configured of the camera.
#[verifier::ext_equal]
pub struct CameraChoice {
    pub symbolic_link: Option<Seq<char>>,
    pub name: Option<Seq<char>>,
    pub format: Option<FormatConfig>,
}

impl View for CameraConfig {
    type V = CameraChoice;

    open spec fn view(&self) -> CameraChoice {
        CameraChoice {
            symbolic_link: text_of(self.symbolic_link),
            name: text_of(self.name),
            format: self.format,
        }
    }
}

impl Clone for CameraConfig {
    fn clone(&self) -> (copy: Self)
        ensures
            copy@ == self@,
    {
        CameraConfig {
            symbolic_link: copy_optional(&self.symbolic_link),
            name: copy_optional(&self.name),
            format: self.format,
        }
    }
}

impl CameraConfig {
    /// Whether two configurations are the same.
    pub fn same(&self, other: &CameraConfig) -> (same: bool)
        ensures
            same == (self@ == other@),
    {
        same_optional(&self.symbolic_link, &other.symbolic_link) && same_optional(
            &self.name,
            &other.name,
        ) && same_format(self.format, other.format)
    }
}

/// Everything that is configured.
#[verifier::ext_equal]
pub struct Choices {
    pub camera: CameraChoice,
    pub output: OutputConfig,
    pub orientation: OrientationConfig,
    pub mode: EffectMode,
    pub blur: BlurStrength,
    pub color: Seq<char>,
    pub image_path: Option<Seq<char>>,
    pub method: MethodConfig,
    pub quality: Seq<char>,
    pub device: DeviceConfig,
    pub edge_low: Option<u64>,
    pub edge_high: Option<u64>,
    pub temporal_smoothing: Option<u64>,
}

impl View for Config {
    type V = Choices;

    open spec fn view(&self) -> Choices {
        Choices {
            camera: self.camera@,
            output: self.output,
            orientation: self.orientation,
            mode: self.effect.mode,
            blur: self.effect.blur,
            color: self.effect.color@,
            image_path: text_of(self.effect.image_path),
            method: self.segmentation.method,
            quality: self.segmentation.quality@,
            device: self.segmentation.device,
            edge_low: self.segmentation.edge_low,
            edge_high: self.segmentation.edge_high,
            temporal_smoothing: self.segmentation.temporal_smoothing,
        }
    }
}

impl Clone for Config {
    fn clone(&self) -> (copy: Self)
        ensures
            copy@ == self@,
    {
        Config {
            camera: self.camera.clone(),
            output: self.output,
            orientation: self.orientation,
            effect: EffectConfig {
                mode: self.effect.mode,
                blur: self.effect.blur,
                color: self.effect.color.clone(),
                image_path: copy_optional(&self.effect.image_path),
            },
            segmentation: SegmentationConfig {
                method: self.segmentation.method,
                quality: self.segmentation.quality.clone(),
                device: self.segmentation.device,
                edge_low: self.segmentation.edge_low,
                edge_high: self.segmentation.edge_high,
                temporal_smoothing: self.segmentation.temporal_smoothing,
            },
        }
    }
}

impl Config {
    /// Whether two configurations are the same.
    pub fn same(&self, other: &Config) -> (same: bool)
        ensures
            same == (self@ == other@),
    {
        self.camera.same(&other.camera) && self.output == other.output && self.orientation
            == other.orientation && self.effect.mode == other.effect.mode && self.effect.blur
            == other.effect.blur && self.effect.color == other.effect.color && same_optional(
            &self.effect.image_path,
            &other.effect.image_path,
        ) && self.segmentation.method == other.segmentation.method && self.segmentation.quality
            == other.segmentation.quality && self.segmentation.device == other.segmentation.device
            && same_number(self.segmentation.edge_low, other.segmentation.edge_low)
            && same_number(self.segmentation.edge_high, other.segmentation.edge_high)
            && same_number(
            self.segmentation.temporal_smoothing,
            other.segmentation.temporal_smoothing,
        )
    }
}

} // verus!
