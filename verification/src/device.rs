//! Cameras and the formats that they offer.

use vstd::prelude::*;

use crate::error::CoreError;
use crate::precision::{round_to_digits, round_to_even, DOUBLE};
use crate::text::{digit, push_decimal};

verus! {

/// The name under which the virtual camera of this application shows up.
pub const VIRTUAL_CAMERA_NAME: &'static str = "ChromaFree";

/// The class of the virtual camera, in lower case and without braces.
pub const VIRTUAL_CAMERA_CLSID: &'static str = "4525794b-703e-444b-a81d-2b278b2ad0e4";

#[derive(Debug, PartialEq, Eq)]
pub enum CaptureError {
    CameraNotFound(String),
    FormatNotAvailable(String),
    StreamEnded,
    ShortBuffer { expected: usize, actual: usize },
    Core(CoreError),
}

impl CaptureError {
    /// The text that describes this error to a reader of the log.
    pub open spec fn text(self) -> Seq<char> {
        match self {
            CaptureError::CameraNotFound(camera) => "camera "@ + camera@ + " is not connected"@,
            CaptureError::FormatNotAvailable(format) => "camera does not offer "@ + format@,
            CaptureError::StreamEnded => "camera stopped delivering frames"@,
            CaptureError::ShortBuffer { expected, actual } => {
                "camera frame buffer has "@ + crate::text::decimal(actual as nat)
                    + " bytes, expected at least "@ + crate::text::decimal(expected as nat)
            },
            CaptureError::Core(error) => error.text(),
        }
    }

    /// Describes the error in one line.
    pub fn message(&self) -> (message: String)
        ensures
            message@ == self.text(),
    {
        let mut message = String::new();
        match self {
            CaptureError::CameraNotFound(camera) => {
                message.append("camera ");
                message.append(camera.as_str());
                message.append(" is not connected");
            },
            CaptureError::FormatNotAvailable(format) => {
                message.append("camera does not offer ");
                message.append(format.as_str());
            },
            CaptureError::StreamEnded => {
                message.append("camera stopped delivering frames");
            },
            CaptureError::ShortBuffer { expected, actual } => {
                message.append("camera frame buffer has ");
                push_decimal(&mut message, *actual as u64);
                message.append(" bytes, expected at least ");
                push_decimal(&mut message, *expected as u64);
            },
            CaptureError::Core(error) => {
                message.append(error.message().as_str());
            },
        }
        proof {
            assert(message@ =~= self.text());
        }
        message
    }
}

#[derive(Debug, PartialEq, Eq, Hash)]
pub struct CameraDevice {
    pub name: String,
    pub symbolic_link: String,
}

impl Clone for CameraDevice {
    fn clone(&self) -> (device: Self)
        ensures
            device.name@ == self.name@,
            device.symbolic_link@ == self.symbolic_link@,
    {
        CameraDevice { name: self.name.clone(), symbolic_link: self.symbolic_link.clone() }
    }
}

#[derive(Clone, Copy, Debug, PartialEq, Eq, Hash, Structural)]
pub enum Encoding {
    Nv12,
    Yuy2,
    Mjpeg,
    Other(u32),
}

/// The part that the subtypes of all video formats share.
pub const VIDEO_FORMAT_BASE: u128 = 0x0000_0010_8000_00AA_0038_9B71;

/// Two to the power of 96: the place of the format's code in a subtype.
pub const SUBTYPE_CODE: u128 = 0x1_0000_0000_0000_0000_0000_0000;

/// The code of NV12, its characters from the lowest byte up.
pub const FOURCC_NV12: u32 = 0x3231_564E;

pub const FOURCC_YUY2: u32 = 0x3259_5559;

pub const FOURCC_MJPG: u32 = 0x4750_4A4D;

/// A printable character of a byte, or a question mark.
pub open spec fn printable(byte: int) -> char {
    if 0x21 <= byte <= 0x7e {
        byte as char
    } else {
        '?'
    }
}

impl Encoding {
    /// The encoding of a media subtype.
    pub open spec fn of_subtype(subtype: u128) -> Encoding {
        let code = (subtype / SUBTYPE_CODE) as u32;
        if subtype % SUBTYPE_CODE != VIDEO_FORMAT_BASE {
            Encoding::Other(code)
        } else if code == FOURCC_NV12 {
            Encoding::Nv12
        } else if code == FOURCC_YUY2 {
            Encoding::Yuy2
        } else if code == FOURCC_MJPG {
            Encoding::Mjpeg
        } else {
            Encoding::Other(code)
        }
    }

    /// The name of the encoding.
    pub open spec fn name_spec(self) -> Seq<char> {
        match self {
            Encoding::Nv12 => "NV12"@,
            Encoding::Yuy2 => "YUY2"@,
            Encoding::Mjpeg => "MJPEG"@,
            Encoding::Other(code) => seq![
                printable(code as int % 0x100),
                printable(code as int / 0x100 % 0x100),
                printable(code as int / 0x1_0000 % 0x100),
                printable(code as int / 0x100_0000),
            ],
        }
    }

    /// The place of the encoding among formats of the same size and rate.
    pub open spec fn rank(self) -> int {
        match self {
            Encoding::Nv12 => 0,
            Encoding::Mjpeg => 1,
            Encoding::Yuy2 => 2,
            Encoding::Other(_) => 3,
        }
    }

    pub fn from_subtype(subtype: u128) -> (encoding: Self)
        ensures
            encoding == Self::of_subtype(subtype),
    {
        let code: u32 = (subtype / SUBTYPE_CODE) as u32;
        if subtype % SUBTYPE_CODE != VIDEO_FORMAT_BASE {
            Encoding::Other(code)
        } else if code == FOURCC_NV12 {
            Encoding::Nv12
        } else if code == FOURCC_YUY2 {
            Encoding::Yuy2
        } else if code == FOURCC_MJPG {
            Encoding::Mjpeg
        } else {
            Encoding::Other(code)
        }
    }

    pub fn name(&self) -> (name: String)
        ensures
            name@ == self.name_spec(),
    {
        let mut name = String::new();
        match *self {
            Encoding::Nv12 => name.append("NV12"),
            Encoding::Yuy2 => name.append("YUY2"),
            Encoding::Mjpeg => name.append("MJPEG"),
            Encoding::Other(code) => {
                push_printable(&mut name, (code % 0x100) as u8);
                push_printable(&mut name, (code / 0x100 % 0x100) as u8);
                push_printable(&mut name, (code / 0x1_0000 % 0x100) as u8);
                push_printable(&mut name, (code / 0x100_0000) as u8);
            },
        }
        proof {
            assert(name@ =~= self.name_spec());
        }
        name
    }

    fn ranking(self) -> (rank: u8)
        ensures
            rank == self.rank(),
    {
        match self {
            Encoding::Nv12 => 0,
            Encoding::Mjpeg => 1,
            Encoding::Yuy2 => 2,
            Encoding::Other(_) => 3,
        }
    }
}

fn push_printable(text: &mut String, byte: u8)
    ensures
        final(text)@ == old(text)@.push(printable(byte as int)),
{
    if 0x21 <= byte && byte <= 0x7e {
        text.push(byte as char);
    } else {
        text.push('?');
    }
}

#[derive(Clone, Copy, Debug, PartialEq, Eq, Hash, Structural)]
pub struct CaptureFormat {
    pub width: u32,
    pub height: u32,
    pub fps_numerator: u32,
    pub fps_denominator: u32,
    pub encoding: Encoding,
}

/// One frame per second, in the unit of [`rate`].
pub const RATE_ONE: u128 = 0x20_0000_0000_0000_0000_0000;

/// A rate as a number of double precision, in units of 2^-85.
pub open spec fn rate(numerator: int, denominator: int) -> int {
    crate::precision::nearest(
        numerator * RATE_ONE,
        denominator,
        crate::precision::DOUBLE as int,
    )
}

/// A rate in hundredths, rounded to the nearest and to even in the middle. The
/// rate is a number of double precision: of 107/40 it lies just below 2.675.
pub open spec fn hundredths(numerator: int, denominator: int) -> int {
    crate::precision::to_even(100 * rate(numerator, denominator), RATE_ONE as int)
}

impl CaptureFormat {
    /// The denominator of the rate, at least one.
    pub open spec fn rate_den(self) -> int {
        if self.fps_denominator == 0 {
            1
        } else {
            self.fps_denominator as int
        }
    }

    /// The frames per second, in units of 2^-85.
    pub open spec fn rate_spec(self) -> int {
        rate(self.fps_numerator as int, self.rate_den())
    }

    pub open spec fn pixels(self) -> int {
        self.width * self.height
    }

    pub open spec fn decodable(self) -> bool {
        !(self.encoding is Other)
    }

    /// The format in words.
    pub open spec fn label_spec(self) -> Seq<char> {
        let rate = hundredths(self.fps_numerator as int, self.rate_den());
        crate::text::decimal(self.width as nat) + "x"@ + crate::text::decimal(self.height as nat)
            + " @ "@ + crate::text::decimal((rate / 100) as nat) + seq![
            '.',
            crate::text::digit_char((rate / 10 % 10) as nat),
            crate::text::digit_char((rate % 10) as nat),
        ] + " fps "@ + self.encoding.name_spec()
    }

    /// The format that the attributes of a media type describe. A size holds the
    /// width above the height, a rate the numerator above the denominator; a
    /// camera that names no rate is taken to have 30 frames per second.
    pub fn from_media_type(subtype: u128, size: u64, rate: Option<u64>) -> (format: Self)
        ensures
            ({
                let packed: u64 = match rate {
                    Some(rate) => rate,
                    None => 0x1E_0000_0001,
                };
                let low = (packed % 0x1_0000_0000) as u32;
                format == (CaptureFormat {
                    width: (size / 0x1_0000_0000) as u32,
                    height: (size % 0x1_0000_0000) as u32,
                    fps_numerator: (packed / 0x1_0000_0000) as u32,
                    fps_denominator: if low == 0 {
                        1
                    } else {
                        low
                    },
                    encoding: Encoding::of_subtype(subtype),
                })
            }),
    {
        let packed: u64 = match rate {
            Some(rate) => rate,
            None => 0x1E_0000_0001,
        };
        let low: u32 = (packed % 0x1_0000_0000) as u32;
        CaptureFormat {
            width: (size / 0x1_0000_0000) as u32,
            height: (size % 0x1_0000_0000) as u32,
            fps_numerator: (packed / 0x1_0000_0000) as u32,
            fps_denominator: if low == 0 {
                1
            } else {
                low
            },
            encoding: Encoding::from_subtype(subtype),
        }
    }

    /// The size as one number, the width above the height.
    pub fn packed_size(&self) -> (size: u64)
        ensures
            size == self.width * 0x1_0000_0000 + self.height,
    {
        self.width as u64 * 0x1_0000_0000 + self.height as u64
    }

    pub fn is_decodable(&self) -> (decodable: bool)
        ensures
            decodable == self.decodable(),
    {
        match self.encoding {
            Encoding::Other(_) => false,
            _ => true,
        }
    }

    fn denominator(&self) -> (denominator: u32)
        ensures
            denominator == self.rate_den(),
            0 < denominator,
    {
        if self.fps_denominator == 0 {
            1
        } else {
            self.fps_denominator
        }
    }

    /// The frames per second, in units of 2^-85.
    fn rate_units(&self) -> (units: u128)
        ensures
            units == self.rate_spec(),
            units <= 0x40_0000_0000_0000_0000_0000_0000_0000,
    {
        let den: u128 = self.denominator() as u128;
        let num: u128 = self.fps_numerator as u128;
        assert(num * RATE_ONE <= 0xffff_ffff * RATE_ONE);
        let units: u128 = round_to_digits(num * RATE_ONE, den, DOUBLE);
        proof {
            assert(units <= 2 * (num * RATE_ONE)) by (nonlinear_arith)
                requires
                    units * den <= 2 * (num * RATE_ONE),
                    0 < den,
                    0 <= units,
            ;
        }
        units
    }

    /// The format in words.
    pub fn label(&self) -> (label: String)
        ensures
            label@ == self.label_spec(),
    {
        let rate: u64 = round_to_even(100 * self.rate_units(), RATE_ONE) as u64;
        let mut label = String::new();
        push_decimal(&mut label, self.width as u64);
        label.append("x");
        push_decimal(&mut label, self.height as u64);
        label.append(" @ ");
        push_decimal(&mut label, rate / 100);
        label.push('.');
        label.push(digit((rate / 10 % 10) as u8));
        label.push(digit((rate % 10) as u8));
        label.append(" fps ");
        label.append(self.encoding.name().as_str());
        proof {
            assert(label@ =~= self.label_spec());
        }
        label
    }
}

/// A character in lower case, as far as it is a letter of ASCII.
pub open spec fn ascii_lower(c: char) -> char {
    if 'A' <= c && c <= 'Z' {
        ((c as u32) + 32) as char
    } else {
        c
    }
}

/// A text in lower case, as far as its letters are of ASCII.
pub open spec fn lowered(text: Seq<char>) -> Seq<char> {
    Seq::new(text.len(), |i: int| ascii_lower(text[i]))
}

/// A text holds another.
pub open spec fn holds_text(text: Seq<char>, part: Seq<char>) -> bool {
    exists|at: int|
        0 <= at <= text.len() - part.len() && #[trigger] text.subrange(at, at + part.len())
            == part
}

/// Whether a device is the virtual camera of this application: by its name, or by
/// its class in the link.
pub open spec fn is_virtual(name: Seq<char>, link: Seq<char>) -> bool {
    name == VIRTUAL_CAMERA_NAME@ || holds_text(lowered(link), VIRTUAL_CAMERA_CLSID@)
}

/// A character in lower case, as far as it is a letter of ASCII.
pub fn lower(c: char) -> (lower: char)
    ensures
        lower == ascii_lower(c),
{
    if 'A' <= c && c <= 'Z' {
        ((c as u8) + 32) as char
    } else {
        c
    }
}

/// The characters of a text.
pub fn characters(text: &str) -> (chars: Vec<char>)
    ensures
        chars@ == text@,
{
    let len: usize = text.unicode_len();
    let mut chars: Vec<char> = Vec::with_capacity(len);
    for i in 0..len
        invariant
            len == text@.len(),
            chars@.len() == i,
            forall|j: int| 0 <= j < i ==> chars@[j] == text@[j],
    {
        chars.push(text.get_char(i));
    }
    proof {
        assert(chars@ =~= text@);
    }
    chars
}

/// Whether a text holds another.
fn contains_text(text: &[char], part: &[char]) -> (found: bool)
    ensures
        found == holds_text(text@, part@),
{
    if part.len() > text.len() {
        return false;
    }
    let total: usize = text.len();
    let last: usize = total - part.len();
    let mut at: usize = 0;
    while at <= last
        invariant
            last == text@.len() - part@.len(),
            total == text@.len(),
            at <= last,
            forall|k: int|
                0 <= k < at ==> #[trigger] text@.subrange(k, k + part@.len()) != part@,
        decreases last - at,
    {
        let mut i: usize = 0;
        while i < part.len() && text[at + i] == part[i]
            invariant
                at <= last,
                last == text@.len() - part@.len(),
                total == text@.len(),
                i <= part@.len(),
                forall|j: int| 0 <= j < i ==> text@[at + j] == part@[j],
            decreases part@.len() - i,
        {
            i = i + 1;
        }
        if i == part.len() {
            assert(text@.subrange(at as int, at + part@.len()) =~= part@);
            return true;
        }
        assert(text@.subrange(at as int, at + part@.len())[i as int] != part@[i as int]);
        if at == last {
            assert(forall|k: int|
                0 <= k <= last ==> #[trigger] text@.subrange(k, k + part@.len()) != part@);
            return false;
        }
        at = at + 1;
    }
    false
}

pub fn is_virtual_chromafree_camera(name: &str, symbolic_link: &str) -> (result: bool)
    ensures
        result == is_virtual(name@, symbolic_link@),
{
    if crate::segmentation::same_text(name, VIRTUAL_CAMERA_NAME) {
        return true;
    }
    let mut link = characters(symbolic_link);
    let mut i: usize = 0;
    while i < link.len()
        invariant
            i <= link@.len(),
            link@.len() == symbolic_link@.len(),
            forall|j: int| 0 <= j < i ==> link@[j] == ascii_lower(symbolic_link@[j]),
            forall|j: int| i <= j < link@.len() ==> link@[j] == symbolic_link@[j],
        decreases link@.len() - i,
    {
        let c: char = lower(link[i]);
        link[i] = c;
        i = i + 1;
    }
    proof {
        assert(link@ =~= lowered(symbolic_link@));
    }
    let clsid = characters(VIRTUAL_CAMERA_CLSID);
    contains_text(link.as_slice(), clsid.as_slice())
}

/// A device that is not the virtual camera.
pub open spec fn is_real(device: CameraDevice) -> bool {
    !is_virtual(device.name@, device.symbolic_link@)
}

/// The cameras among the devices of the system: all but the virtual one.
pub fn list_cameras(devices: Vec<CameraDevice>) -> (cameras: Vec<CameraDevice>)
    ensures
        cameras@ == devices@.filter(|device: CameraDevice| is_real(device)),
{
    let ghost all = devices@;
    let ghost genuine = |device: CameraDevice| is_real(device);
    let mut devices = devices;
    let mut reversed: Vec<CameraDevice> = Vec::new();
    while devices.len() > 0
        invariant
            genuine == (|device: CameraDevice| is_real(device)),
            devices@ == all.take(devices@.len() as int),
            devices@.len() <= all.len(),
            all.filter(genuine) == devices@.filter(genuine) + reversed@.reverse(),
        decreases devices@.len(),
    {
        let ghost before = devices@;
        let ghost kept = reversed@;
        if let Some(device) = devices.pop() {
            proof {
                assert(before.drop_last() =~= devices@);
                assert(devices@ =~= all.take(devices@.len() as int));
                reveal_with_fuel(Seq::filter, 1);
            }
            if !is_virtual_chromafree_camera(device.name.as_str(), device.symbolic_link.as_str()) {
                reversed.push(device);
                proof {
                    assert(before.filter(genuine) == devices@.filter(genuine).push(device));
                    assert(devices@.filter(genuine).push(device) + kept.reverse() =~= devices@.filter(
                        genuine,
                    ) + reversed@.reverse());
                }
            }
        }
    }
    let mut cameras: Vec<CameraDevice> = Vec::new();
    proof {
        reveal_with_fuel(Seq::filter, 1);
        assert(all.filter(genuine) =~= reversed@.reverse());
    }
    let ghost total = reversed@;
    while reversed.len() > 0
        invariant
            total.reverse() == cameras@ + reversed@.reverse(),
        decreases reversed@.len(),
    {
        let ghost before = reversed@;
        let ghost done = cameras@;
        if let Some(device) = reversed.pop() {
            cameras.push(device);
            proof {
                assert(before.drop_last() =~= reversed@);
                assert(done + before.reverse() =~= cameras@ + reversed@.reverse());
            }
        }
    }
    proof {
        assert(cameras@ + reversed@.reverse() =~= cameras@);
    }
    cameras
}

/// Whether the virtual camera is among the devices of the system.
pub fn chromafree_camera_present(devices: &[CameraDevice]) -> (present: bool)
    ensures
        present == exists|i: int|
            0 <= i < devices@.len() && is_virtual(
                (#[trigger] devices@[i]).name@,
                devices@[i].symbolic_link@,
            ),
{
    for i in 0..devices.len()
        invariant
            forall|j: int|
                0 <= j < i ==> !is_virtual(
                    (#[trigger] devices@[j]).name@,
                    devices@[j].symbolic_link@,
                ),
    {
        if is_virtual_chromafree_camera(
            devices[i].name.as_str(),
            devices[i].symbolic_link.as_str(),
        ) {
            return true;
        }
    }
    false
}

/// An order of formats.
#[derive(Clone, Copy, Debug, PartialEq, Eq, Structural)]
pub enum FormatOrder {
    /// As a list to pick from: the largest first, then the fastest, then the
    /// encoding that costs least.
    Listing,
    /// As a list to try: first what is fast enough for an output and not larger
    /// than full HD, then the largest, then the encoding that costs least, then
    /// the slowest.
    Trying { output_fps: u32 },
}

/// The most pixels that are picked without being asked for: full HD.
pub const AUTO_MAX_PIXELS: u32 = 2_073_600;

/// A format has the rate of an output, up to half a frame per second.
pub open spec fn fast_enough(format: CaptureFormat, output_fps: int) -> bool {
    crate::precision::nearest(
        format.rate_spec() + RATE_ONE / 2,
        1,
        crate::precision::DOUBLE as int,
    ) >= output_fps * RATE_ONE
}

/// A format that is picked without being asked for.
pub open spec fn welcome(format: CaptureFormat, output_fps: int) -> bool {
    fast_enough(format, output_fps) && format.pixels() <= AUTO_MAX_PIXELS
}

/// The whole frames per second of a format.
pub open spec fn whole_fps(format: CaptureFormat) -> int {
    format.fps_numerator as int / format.rate_den()
}

/// The first format is faster than the second.
pub open spec fn faster(a: CaptureFormat, b: CaptureFormat) -> bool {
    a.rate_spec() > b.rate_spec()
}

impl FormatOrder {
    /// The first format comes strictly before the second.
    pub open spec fn before(self, a: CaptureFormat, b: CaptureFormat) -> bool {
        match self {
            FormatOrder::Listing => if a.pixels() != b.pixels() {
                a.pixels() > b.pixels()
            } else if faster(a, b) || faster(b, a) {
                faster(a, b)
            } else {
                a.encoding.rank() < b.encoding.rank()
            },
            FormatOrder::Trying { output_fps } => {
                let (good, other) = (
                    welcome(a, output_fps as int),
                    welcome(b, output_fps as int),
                );
                if good != other {
                    good
                } else if a.pixels() != b.pixels() {
                    a.pixels() > b.pixels()
                } else if a.encoding.rank() != b.encoding.rank() {
                    a.encoding.rank() < b.encoding.rank()
                } else {
                    whole_fps(a) < whole_fps(b)
                }
            },
        }
    }

    /// Places of a list of formats, in this order: each decodable format once,
    /// and formats that this order does not tell apart as they stand on the list.
    pub open spec fn arranges(self, formats: Seq<CaptureFormat>, places: Seq<int>) -> bool {
        &&& forall|p: int|
            0 <= p < places.len() ==> 0 <= #[trigger] places[p] < formats.len()
                && formats[places[p]].decodable()
        &&& forall|i: int|
            0 <= i < formats.len() && (#[trigger] formats[i]).decodable() ==> places.contains(i)
        &&& forall|p: int, q: int|
            0 <= p < q < places.len() ==> self.place_before(
                formats,
                #[trigger] places[p],
                #[trigger] places[q],
            )
    }

    /// One place of a list comes before another.
    pub open spec fn place_before(self, formats: Seq<CaptureFormat>, i: int, j: int) -> bool {
        self.before(formats[i], formats[j]) || (!self.before(formats[j], formats[i]) && i < j)
    }

    fn is_before(self, a: &CaptureFormat, b: &CaptureFormat) -> (before: bool)
        ensures
            before == self.before(*a, *b),
    {
        let (pa, pb): (u64, u64) = (pixel_count(a), pixel_count(b));
        let (ra, rb): (u8, u8) = (a.encoding.ranking(), b.encoding.ranking());
        match self {
            FormatOrder::Listing => {
                let (fa, fb): (u128, u128) = (a.rate_units(), b.rate_units());
                if pa != pb {
                    pa > pb
                } else if fa != fb {
                    fa > fb
                } else {
                    ra < rb
                }
            },
            FormatOrder::Trying { output_fps } => {
                let good: bool = is_welcome(a, output_fps);
                let other: bool = is_welcome(b, output_fps);
                if good != other {
                    good
                } else if pa != pb {
                    pa > pb
                } else if ra != rb {
                    ra < rb
                } else {
                    a.fps_numerator / a.denominator() < b.fps_numerator / b.denominator()
                }
            },
        }
    }

    /// What comes before one of two formats that this order does not tell apart,
    /// or before the earlier of two, comes before the other too.
    proof fn lemma_order(self, a: CaptureFormat, b: CaptureFormat, c: CaptureFormat)
        ensures
            self.before(a, b) && !self.before(c, b) ==> self.before(a, c),
            !self.before(a, a),
            self.before(a, b) ==> !self.before(b, a),
    {
    }
}

fn pixel_count(format: &CaptureFormat) -> (pixels: u64)
    ensures
        pixels == format.pixels(),
{
    let (w, h): (u64, u64) = (format.width as u64, format.height as u64);
    proof {
        assert(0 <= w * h <= u64::MAX) by (nonlinear_arith)
            requires
                0 <= w <= u32::MAX,
                0 <= h <= u32::MAX,
        ;
    }
    w * h
}

fn is_welcome(format: &CaptureFormat, output_fps: u32) -> (result: bool)
    ensures
        result == welcome(*format, output_fps as int),
{
    let wanted: u128 = output_fps as u128;
    assert(wanted * RATE_ONE <= 0xffff_ffff * RATE_ONE);
    let reached: u128 = round_to_digits(format.rate_units() + RATE_ONE / 2, 1, DOUBLE);
    reached >= wanted * RATE_ONE && pixel_count(format) <= AUTO_MAX_PIXELS as u64
}

/// The decodable formats of a list, in an order.
pub fn arrange(formats: &[CaptureFormat], order: FormatOrder) -> (arranged: Vec<CaptureFormat>)
    ensures
        exists|places: Seq<int>|
            #![trigger order.arranges(formats@, places)]
            order.arranges(formats@, places) && arranged@ == Seq::new(
                places.len(),
                |p: int| formats@[places[p]],
            ),
{
    let mut arranged: Vec<CaptureFormat> = Vec::new();
    let ghost mut places: Seq<int> = Seq::empty();
    let mut i: usize = 0;
    while i < formats.len()
        invariant
            i <= formats@.len(),
            arranged@ == Seq::new(places.len(), |p: int| formats@[places[p]]),
            forall|p: int|
                0 <= p < places.len() ==> 0 <= #[trigger] places[p] < i
                    && formats@[places[p]].decodable(),
            forall|k: int|
                0 <= k < i && (#[trigger] formats@[k]).decodable() ==> places.contains(k),
            forall|p: int, q: int|
                0 <= p < q < places.len() ==> order.place_before(
                    formats@,
                    #[trigger] places[p],
                    #[trigger] places[q],
                ),
        decreases formats@.len() - i,
    {
        let format = formats[i];
        if format.is_decodable() {
            let mut at: usize = arranged.len();
            while at > 0 && order.is_before(&format, &arranged[at - 1])
                invariant
                    at <= arranged@.len(),
                    arranged@ == Seq::new(places.len(), |p: int| formats@[places[p]]),
                    format == formats@[i as int],
                    forall|p: int|
                        at <= p < places.len() ==> order.before(
                            format,
                            formats@[#[trigger] places[p]],
                        ),
                decreases at,
            {
                at = at - 1;
            }
            let ghost old_places = places;
            proof {
                assert forall|p: int| 0 <= p < at implies order.place_before(
                    formats@,
                    #[trigger] places[p],
                    i as int,
                ) by {
                    let last = formats@[places[at - 1]];
                    let here = formats@[places[p]];
                    if p < at - 1 {
                        assert(order.place_before(formats@, places[p], places[at - 1]));
                        order.lemma_order(format, here, last);
                        order.lemma_order(here, last, format);
                    }
                }
                places = places.insert(at as int, i as int);
                assert forall|p: int, q: int| 0 <= p < q < places.len() implies order.place_before(
                    formats@,
                    #[trigger] places[p],
                    #[trigger] places[q],
                ) by {
                    if p < at && q > at {
                        assert(places[p] == old_places[p] && places[q] == old_places[q - 1]);
                    } else if p > at {
                        assert(places[p] == old_places[p - 1] && places[q] == old_places[q - 1]);
                    } else if p < at && q < at {
                        assert(places[p] == old_places[p] && places[q] == old_places[q]);
                    } else if p == at {
                        assert(places[q] == old_places[q - 1]);
                    } else {
                        assert(places[p] == old_places[p]);
                    }
                }
                assert forall|k: int|
                    0 <= k <= i && (#[trigger] formats@[k]).decodable() implies places.contains(
                    k,
                ) by {
                    if k == i {
                        assert(places[at as int] == i);
                    } else {
                        let p = choose|p: int| 0 <= p < old_places.len() && old_places[p] == k;
                        if p < at {
                            assert(places[p] == k);
                        } else {
                            assert(places[p + 1] == k);
                        }
                    }
                }
            }
            arranged.insert(at, format);
            proof {
                assert(arranged@ =~= Seq::new(places.len(), |p: int| formats@[places[p]]));
            }
        }
        i = i + 1;
    }
    proof {
        assert(order.arranges(formats@, places));
    }
    arranged
}

/// A list without what repeats the entry before it.
pub open spec fn without_repeats(list: Seq<CaptureFormat>) -> Seq<CaptureFormat>
    decreases list.len(),
{
    if list.len() < 2 {
        list
    } else {
        let rest = without_repeats(list.drop_last());
        if list.last() == list[list.len() - 2] {
            rest
        } else {
            rest.push(list.last())
        }
    }
}

/// The formats to pick from, out of the types that a camera offers.
pub fn camera_formats(types: &[CaptureFormat]) -> (formats: Vec<CaptureFormat>)
    ensures
        exists|places: Seq<int>|
            #![trigger FormatOrder::Listing.arranges(types@, places)]
            FormatOrder::Listing.arranges(types@, places) && formats@ == without_repeats(
                Seq::new(places.len(), |p: int| types@[places[p]]),
            ),
{
    let arranged = arrange(types, FormatOrder::Listing);
    let mut formats: Vec<CaptureFormat> = Vec::new();
    let mut i: usize = 0;
    proof {
        assert(arranged@.take(0) =~= Seq::<CaptureFormat>::empty());
    }
    while i < arranged.len()
        invariant
            i <= arranged@.len(),
            formats@ == without_repeats(arranged@.take(i as int)),
        decreases arranged@.len() - i,
    {
        proof {
            assert(arranged@.take(i + 1).drop_last() =~= arranged@.take(i as int));
            if i == 0 {
                assert(arranged@.take(1) =~= seq![arranged@[0]]);
            }
        }
        if i == 0 || arranged[i] != arranged[i - 1] {
            formats.push(arranged[i]);
            proof {
                if i == 0 {
                    assert(formats@ =~= arranged@.take(1));
                }
            }
        }
        i = i + 1;
    }
    proof {
        assert(arranged@.take(arranged@.len() as int) =~= arranged@);
    }
    formats
}

/// Two arrangements of a list by one order are the same.
pub proof fn law_arrangements_are_unique(
    order: FormatOrder,
    formats: Seq<CaptureFormat>,
    first: Seq<int>,
    second: Seq<int>,
)
    requires
        order.arranges(formats, first),
        order.arranges(formats, second),
    ensures
        first == second,
{
    lemma_prefixes_agree(order, formats, first, second, first.len() as int);
    lemma_prefixes_agree(order, formats, second, first, second.len() as int);
    assert(first =~= second);
}

proof fn lemma_place_before(order: FormatOrder, formats: Seq<CaptureFormat>, i: int, j: int)
    ensures
        order.place_before(formats, i, j) ==> !order.place_before(formats, j, i),
{
    order.lemma_order(formats[i], formats[j], formats[i]);
    order.lemma_order(formats[j], formats[i], formats[j]);
}

/// As far as one arrangement goes, the other is the same.
proof fn lemma_prefixes_agree(
    order: FormatOrder,
    formats: Seq<CaptureFormat>,
    first: Seq<int>,
    second: Seq<int>,
    len: int,
)
    requires
        order.arranges(formats, first),
        order.arranges(formats, second),
        0 <= len <= first.len(),
    ensures
        len <= second.len(),
        forall|p: int| 0 <= p < len ==> first[p] == second[p],
    decreases len,
{
    if len > 0 {
        let p = len - 1;
        lemma_prefixes_agree(order, formats, first, second, p);
        let place = first[p];
        assert(formats[place].decodable());
        assert(second.contains(place));
        let q = choose|q: int| 0 <= q < second.len() && second[q] == place;
        if q < p {
            assert(first[q] == place);
            assert(order.place_before(formats, first[q], first[p]));
            lemma_place_before(order, formats, place, place);
        }
        if q > p {
            let other = second[p];
            assert(formats[other].decodable());
            assert(first.contains(other));
            let r = choose|r: int| 0 <= r < first.len() && first[r] == other;
            assert(order.place_before(formats, second[p], second[q]));
            if r < p {
                assert(second[r] == other);
                assert(order.place_before(formats, second[r], second[p]));
                lemma_place_before(order, formats, other, other);
            } else if r > p {
                assert(order.place_before(formats, first[p], first[r]));
                lemma_place_before(order, formats, place, other);
            } else {
                lemma_place_before(order, formats, place, other);
            }
        }
    }
}

/// Where a format stands among the types that a camera offers.
pub fn native_type(types: &[CaptureFormat], format: CaptureFormat) -> (index: Option<usize>)
    ensures
        match index {
            Some(i) => {
                &&& i < types@.len()
                &&& types@[i as int] == format
                &&& forall|j: int| 0 <= j < i ==> types@[j] != format
            },
            None => !types@.contains(format),
        },
{
    for i in 0..types.len()
        invariant
            forall|j: int| 0 <= j < i ==> types@[j] != format,
    {
        if types[i] == format {
            return Some(i);
        }
    }
    None
}

} // verus!
