//! Work on the graphics card: shaders, buffers, constants, and how a camera's
//! picture is laid over a target.

use vstd::prelude::*;

use crate::color::ColorMatrix;
use crate::double::{round_quotient, Fixed, Signed, FINE};
use crate::error::CoreError;
use crate::frame::{Dims, FrameSize};
use crate::orientation::{Orientation, Rotation};
use crate::scale::{filled_spans, ScaleMode, Span};
use crate::text::push_decimal;

verus! {

/// How many constants a shader gets.
pub const ROOT_CONSTANTS: usize = 16;

/// The side of the square of cells that one group of threads works on.
pub const GROUP_SIDE: u32 = 16;

/// How many numbers one group of threads clears.
pub const CLEAR_GROUP: u32 = 256;

pub const COMPOSITE_COLOR: u32 = 0;

pub const COMPOSITE_IMAGE: u32 = 1;

pub const COMPOSITE_BLUR: u32 = 2;

pub const COMPOSITE_PASSTHROUGH: u32 = 3;

/// Why the graphics card is of no use.
#[derive(Debug, PartialEq, Eq)]
pub enum GpuError {
    Windows(String),
    Shader { entry: String, message: String },
    AdapterNotFound(u32),
    DirectMl(String),
    DeviceRemoved(String),
    Inference(String),
    Core(CoreError),
}

impl GpuError {
    /// The text that describes this error.
    pub open spec fn text(self) -> Seq<char> {
        match self {
            GpuError::Windows(error) => "Direct3D call failed: "@ + error@,
            GpuError::Shader { entry, message } => {
                "shader `"@ + entry@ + "` failed to compile: "@ + message@
            },
            GpuError::AdapterNotFound(index) => {
                "no DirectX 12 adapter with index "@ + crate::text::decimal(index as nat)
            },
            GpuError::DirectMl(error) => "DirectML is not available: "@ + error@,
            GpuError::DeviceRemoved(error) => "the GPU device was removed: "@ + error@,
            GpuError::Inference(error) => "inference failed: "@ + error@,
            GpuError::Core(error) => error.text(),
        }
    }

    /// Describes the error in one line.
    pub fn message(&self) -> (message: String)
        ensures
            message@ == self.text(),
    {
        let mut message = String::new();
        match self {
            GpuError::Windows(error) => {
                message.append("Direct3D call failed: ");
                message.append(error.as_str());
            },
            GpuError::Shader { entry, message: detail } => {
                message.append("shader `");
                message.append(entry.as_str());
                message.append("` failed to compile: ");
                message.append(detail.as_str());
            },
            GpuError::AdapterNotFound(index) => {
                message.append("no DirectX 12 adapter with index ");
                push_decimal(&mut message, *index as u64);
            },
            GpuError::DirectMl(error) => {
                message.append("DirectML is not available: ");
                message.append(error.as_str());
            },
            GpuError::DeviceRemoved(error) => {
                message.append("the GPU device was removed: ");
                message.append(error.as_str());
            },
            GpuError::Inference(error) => {
                message.append("inference failed: ");
                message.append(error.as_str());
            },
            GpuError::Core(error) => {
                message.append(error.message().as_str());
            },
        }
        proof {
            assert(message@ =~= self.text());
        }
        message
    }
}

/// An inference error with a text.
pub open spec fn is_inference_error(error: GpuError, text: Seq<char>) -> bool {
    error matches GpuError::Inference(shown) && shown@ == text
}

/// The elements of a tensor.
#[derive(Clone, Copy, Debug, PartialEq, Eq, Structural)]
pub enum Element {
    Half,
    Float,
}

impl Element {
    pub open spec fn size_spec(self) -> int {
        match self {
            Element::Half => 2,
            Element::Float => 4,
        }
    }

    pub fn bytes(self) -> (bytes: usize)
        ensures
            bytes == self.size_spec(),
    {
        match self {
            Element::Half => 2,
            Element::Float => 4,
        }
    }
}

/// The programs that run on the card.
#[derive(Clone, Copy, Debug, PartialEq, Eq, Structural)]
pub enum Shader {
    OrientScale,
    PreprocessHalf,
    PreprocessFloat,
    MaskFromHalf,
    MaskFromFloat,
    MaskFromUpload,
    Clear,
    BlurToHalf,
    BlurDownsample,
    BlurResize,
    BlurTent,
    BlurFromHalf,
    CompositeNv12,
    CompositeBgra,
}

/// The buffers on the card.
#[derive(Clone, Copy, Debug, PartialEq, Eq, Structural)]
pub enum Buffer {
    Placeholder,
    PlaceholderUpload,
    Camera,
    Frame,
    MaskUpload,
    MaskHistory,
    Mask,
    ModelInput,
    ModelAlpha,
    /// One of the two sets of the model's states, and the state.
    ModelState(usize, usize),
    BlurData(usize),
    BlurScratch(usize),
    FractionalData,
    FractionalScratch,
    BlurBackground,
    Image,
    Nv12Output,
    BgraOutput,
}

/// What a shader is given: whole numbers, and fractions and numbers of double
/// precision that it takes in single precision.
#[derive(Clone, Copy, Debug, PartialEq, Eq, Structural)]
pub enum Constant {
    Number(u32),
    /// In units of 2^-120.
    Double(Signed),
    Fraction { numerator: i128, denominator: u64 },
}

/// One run of a shader.
#[derive(Debug, PartialEq, Eq)]
pub struct Pass {
    pub shader: Shader,
    pub constants: Vec<Constant>,
    pub shader_resource: Buffer,
    pub unordered: (Buffer, Buffer, Buffer, Buffer),
    pub groups: (u32, u32),
}

/// A run of a shader.
#[verifier::ext_equal]
pub struct Launch {
    pub shader: Shader,
    pub constants: Seq<Constant>,
    pub shader_resource: Buffer,
    pub unordered: (Buffer, Buffer, Buffer, Buffer),
    pub groups: (u32, u32),
}

impl View for Pass {
    type V = Launch;

    open spec fn view(&self) -> Launch {
        Launch {
            shader: self.shader,
            constants: self.constants@,
            shader_resource: self.shader_resource,
            unordered: self.unordered,
            groups: self.groups,
        }
    }
}

/// The runs of a list.
pub open spec fn launches(list: Seq<Pass>) -> Seq<Launch> {
    Seq::new(list.len(), |i: int| list[i]@)
}

impl Pass {
    /// How many groups of threads are started, at least one each way.
    pub fn launched(&self) -> (groups: (u32, u32))
        ensures
            groups.0 == crate::blur::larger(self.groups.0 as int, 1),
            groups.1 == crate::blur::larger(self.groups.1 as int, 1),
    {
        (
            if self.groups.0 > 1 {
                self.groups.0
            } else {
                1
            },
            if self.groups.1 > 1 {
                self.groups.1
            } else {
                1
            },
        )
    }
}

/// A quotient rounded up.
pub open spec fn ceil_div(length: int, part: int) -> int {
    (length + part - 1) / part
}

fn div_ceil(length: u32, part: u32) -> (count: u32)
    requires
        0 < part,
    ensures
        count == ceil_div(length as int, part as int),
{
    proof {
        let (l, p) = (length as int, part as int);
        assert(l == p * (l / p) + l % p) by (nonlinear_arith)
            requires
                0 < p,
        ;
        if l % p == 0 {
            assert((l + p - 1) / p == l / p) by (nonlinear_arith)
                requires
                    0 < p,
                    l == p * (l / p),
            ;
        } else {
            assert((l + p - 1) / p == l / p + 1) by (nonlinear_arith)
                requires
                    0 < p,
                    l == p * (l / p) + l % p,
                    0 < l % p < p,
            ;
        }
    }
    let whole: u32 = length / part;
    if length % part == 0 {
        whole
    } else {
        proof {
            assert(whole < u32::MAX) by (nonlinear_arith)
                requires
                    whole == length / part,
                    length % part != 0,
                    0 < part,
                    length <= u32::MAX,
            ;
        }
        whole + 1
    }
}

/// The groups of threads that cover a grid.
pub open spec fn groups_for(width: int, height: int) -> (u32, u32) {
    (ceil_div(width, GROUP_SIDE as int) as u32, ceil_div(height, GROUP_SIDE as int) as u32)
}

pub fn groups(width: u32, height: u32) -> (count: (u32, u32))
    ensures
        count == groups_for(width as int, height as int),
{
    (div_ceil(width, GROUP_SIDE), div_ceil(height, GROUP_SIDE))
}

/// Every cell of a grid is worked on, and no group is without one.
pub proof fn law_groups_cover_the_grid(width: u32, height: u32)
    ensures
        ({
            let (across, down) = groups_for(width as int, height as int);
            &&& width <= across * GROUP_SIDE < width + GROUP_SIDE
            &&& height <= down * GROUP_SIDE < height + GROUP_SIDE
        }),
{
}

/// The bytes of a buffer, in whole words and at least one.
pub fn buffer_width(bytes: usize) -> (width: u64)
    requires
        bytes <= usize::MAX - 3,
    ensures
        width == crate::blur::larger(ceil_div(bytes as int, 4), 1) * 4,
{
    let words: u64 = (bytes as u64 + 3) / 4;
    if words > 1 {
        words * 4
    } else {
        4
    }
}

/// The bytes of a frame whose samples are floating-point numbers.
pub fn frame_bytes(size: FrameSize) -> (bytes: usize)
    requires
        size@.addressable(6),
    ensures
        bytes == (size@.area() + size@.chroma_area() * 2) * 4,
{
    let _: u32 = size.width();
    proof {
        crate::frame::lemma_chroma_is_half(size@);
    }
    (size.luma_len() + size.chroma_len()) * 4
}

/// The numbers of a tensor.
pub open spec fn element_count(shape: Seq<i64>) -> int
    decreases shape.len(),
{
    if shape.len() == 0 {
        1
    } else {
        element_count(shape.drop_last()) * shape.last()
    }
}

/// The bytes of a tensor, where they can be counted.
pub fn tensor_bytes(shape: &[i64], element: Element) -> (bytes: Option<usize>)
    requires
        crate::segmentation::is_static(shape@),
    ensures
        match bytes {
            Some(bytes) => bytes == element_count(shape@) * element.size_spec(),
            None => element_count(shape@) * element.size_spec() > usize::MAX,
        },
{
    let mut count: u64 = 1;
    let mut i: usize = 0;
    proof {
        assert(shape@.take(0) =~= Seq::<i64>::empty());
        assert(shape@.take(shape@.len() as int) =~= shape@);
    }
    while i < shape.len()
        invariant
            i <= shape@.len(),
            crate::segmentation::is_static(shape@),
            shape@.take(shape@.len() as int) == shape@,
            count == element_count(shape@.take(i as int)),
            0 < count <= usize::MAX,
        decreases shape@.len() - i,
    {
        let next: u64 = shape[i] as u64;
        proof {
            assert(0 <= count * next <= u128::MAX) by (nonlinear_arith)
                requires
                    0 <= count <= u64::MAX,
                    0 <= next <= u64::MAX,
            ;
        }
        let product: u128 = count as u128 * next as u128;
        proof {
            assert(shape@.take(i + 1).drop_last() =~= shape@.take(i as int));
            assert(shape@.take(i + 1).last() == shape@[i as int]);
            assert(0 < product) by (nonlinear_arith)
                requires
                    0 < count,
                    0 < next,
                    product == count * next,
            ;
        }
        if product > usize::MAX as u128 {
            proof {
                lemma_count_grows(shape@, i + 1, shape@.len() as int);
                let total = element_count(shape@);
                assert(total * element.size_spec() >= total) by (nonlinear_arith)
                    requires
                        total >= 0,
                        element.size_spec() >= 1,
                ;
            }
            return None;
        }
        count = product as u64;
        i = i + 1;
    }
    let each: usize = element.bytes();
    proof {
        assert(0 <= count * each <= u128::MAX) by (nonlinear_arith)
            requires
                0 <= count <= u64::MAX,
                0 <= each <= 4,
        ;
    }
    let bytes: u128 = count as u128 * each as u128;
    if bytes > usize::MAX as u128 {
        None
    } else {
        Some(bytes as usize)
    }
}

/// More dimensions never mean fewer numbers.
proof fn lemma_count_grows(shape: Seq<i64>, i: int, j: int)
    requires
        crate::segmentation::is_static(shape),
        0 <= i <= j <= shape.len(),
        element_count(shape.take(i)) >= 0,
    ensures
        element_count(shape.take(i)) <= element_count(shape.take(j)),
        shape.take(shape.len() as int) == shape,
    decreases j - i,
{
    assert(shape.take(shape.len() as int) =~= shape);
    if i < j {
        lemma_count_grows(shape, i, j - 1);
        assert(shape.take(j).drop_last() =~= shape.take(j - 1));
        assert(shape.take(j).last() == shape[j - 1]);
        let count = element_count(shape.take(j - 1));
        let side = shape[j - 1] as int;
        assert(count <= count * side) by (nonlinear_arith)
            requires
                count >= 0,
                side >= 1,
        ;
    }
}

/// Constants, filled up with zeros.
pub open spec fn filled(values: Seq<Constant>) -> Seq<Constant> {
    values + Seq::new((ROOT_CONSTANTS - values.len()) as nat, |i: int| Constant::Number(0))
}

pub fn constants(values: Vec<Constant>) -> (all: Vec<Constant>)
    requires
        values@.len() <= ROOT_CONSTANTS,
    ensures
        all@ == filled(values@),
{
    let mut all = values;
    while all.len() < ROOT_CONSTANTS
        invariant
            values@.len() <= all@.len() <= ROOT_CONSTANTS,
            forall|i: int| 0 <= i < values@.len() ==> all@[i] == values@[i],
            forall|i: int| values@.len() <= i < all@.len() ==> all@[i] == Constant::Number(0),
        decreases ROOT_CONSTANTS - all@.len(),
    {
        all.push(Constant::Number(0));
    }
    assert(all@ =~= filled(values@));
    all
}

/// A share in units of 2^-60.
pub open spec fn share(value: u64) -> Constant {
    Constant::Fraction { numerator: value as i128, denominator: crate::precision::ONE }
}

/// A byte.
pub open spec fn byte(value: u8) -> Constant {
    Constant::Fraction { numerator: value as i128, denominator: 1 }
}

/// A coefficient of the colour conversion.
pub open spec fn in_256ths(value: i32) -> Constant {
    Constant::Fraction { numerator: value as i128, denominator: 256 }
}

/// The coefficients of the conversion to RGB.
pub open spec fn inverse_constants(matrix: ColorMatrix) -> Seq<Constant> {
    let k = matrix.inverse_coefficients();
    seq![in_256ths(k.red_v), in_256ths(k.green_u), in_256ths(k.green_v), in_256ths(k.blue_u)]
}

/// Where the cells of a target lie in a source: for the cell at `(x, y)`,
/// `xx * x + xy * y + x0` across and `yx * x + yy * y + y0` down. The numbers are of
/// double precision, in units of 2^-120.
#[derive(Clone, Copy, Debug, PartialEq, Eq, Structural)]
pub struct AffineMap {
    pub xx: Signed,
    pub xy: Signed,
    pub x0: Signed,
    pub yx: Signed,
    pub yy: Signed,
    pub y0: Signed,
}

/// Where the first two cells of a target begin in what is shown of a picture.
pub struct Ends {
    pub first: int,
    pub second: int,
}

/// The first two cells of a target along one axis.
pub open spec fn ends_of(shown: crate::scale::Shown, target_len: int) -> Ends {
    Ends {
        first: shown.start,
        second: crate::double::signed_double(
            shown.start + crate::double::double(shown.length, target_len),
        ),
    }
}

/// A place on an axis, counted from the other end where the axis is reversed.
pub open spec fn reversed(at: int, len: int, reverse: bool) -> int {
    if reverse {
        crate::double::signed_double(len * FINE - at)
    } else {
        at
    }
}

/// Where a cell of the target begins on an axis that is turned and then mirrored.
pub open spec fn placed(at: int, len: int, turned: bool, mirrored: bool) -> int {
    reversed(reversed(at, len, turned), len, mirrored)
}

/// The step from one cell to the next.
pub open spec fn step_of(ends: Ends, len: int, turned: bool, mirrored: bool) -> int {
    crate::double::signed_double(
        placed(ends.second, len, turned, mirrored) - placed(ends.first, len, turned, mirrored),
    )
}

/// Whether a turn reverses what is shown across, and down, the source.
pub open spec fn turned_across(rotation: Rotation) -> bool {
    rotation == Rotation::Clockwise180 || rotation == Rotation::Clockwise270
}

pub open spec fn turned_down(rotation: Rotation) -> bool {
    rotation == Rotation::Clockwise90 || rotation == Rotation::Clockwise180
}

/// The first two cells of the target, across and down the target.
pub open spec fn target_ends(orientation: Orientation, source: Dims, target: Dims) -> (Ends, Ends) {
    let oriented = orientation.oriented_size(source);
    let scale = crate::scale::fill_scale(
        oriented.width,
        oriented.height,
        target.width,
        target.height,
    );
    (
        ends_of(
            crate::scale::shown_part(ScaleMode::Fill, oriented.width, target.width, scale),
            target.width,
        ),
        ends_of(
            crate::scale::shown_part(ScaleMode::Fill, oriented.height, target.height, scale),
            target.height,
        ),
    )
}

/// The map from a target to the camera's picture, which is turned, mirrored and
/// scaled so that it fills the target with its middle in the middle. Every step is
/// computed in double precision.
pub open spec fn map_of(orientation: Orientation, source: Dims, target: Dims) -> AffineMap {
    let (x, y) = target_ends(orientation, source, target);
    let (across, down) = if orientation.swaps() {
        (y, x)
    } else {
        (x, y)
    };
    let (tx, ty) = (turned_across(orientation.rotation), turned_down(orientation.rotation));
    let (mx, my) = (orientation.mirror_horizontal, orientation.mirror_vertical);
    let zero = crate::double::signed_of(0);
    let step_x = crate::double::signed_of(step_of(across, source.width, tx, mx));
    let step_y = crate::double::signed_of(step_of(down, source.height, ty, my));
    AffineMap {
        xx: if orientation.swaps() {
            zero
        } else {
            step_x
        },
        xy: if orientation.swaps() {
            step_x
        } else {
            zero
        },
        x0: crate::double::signed_of(placed(across.first, source.width, tx, mx)),
        yx: if orientation.swaps() {
            step_y
        } else {
            zero
        },
        yy: if orientation.swaps() {
            zero
        } else {
            step_y
        },
        y0: crate::double::signed_of(placed(down.first, source.height, ty, my)),
    }
}

/// Rounding moves a number of pixels by no more than one.
proof fn lemma_signed_close(value: int)
    requires
        -0x100_0000_0000 * FINE <= value <= 0x100_0000_0000 * FINE,
    ensures
        value - FINE <= crate::double::signed_double(value) <= value + FINE,
{
    let limit = crate::precision::DOUBLE as int;
    if value < 0 {
        crate::precision::lemma_nearest_error(-value, 1, limit);
    } else {
        crate::precision::lemma_nearest_error(value, 1, limit);
    }
}

/// The number of whole pixels in a number.
proof fn lemma_whole(number: Signed, bound: int)
    requires
        number.wf(),
        0 <= bound,
        -bound * FINE <= number.value() <= bound * FINE,
    ensures
        number.size.whole <= bound,
{
    let whole = number.size.whole as int;
    assert(whole <= bound) by (nonlinear_arith)
        requires
            whole * FINE <= bound * FINE,
            0 < FINE,
    ;
}

fn reverse_at(at: Signed, len: u32, reverse: bool) -> (place: Signed)
    requires
        at.wf(),
        at.size.whole < 0x18_0000_0000,
    ensures
        place.wf(),
        place.value() == reversed(at.value(), len as int, reverse),
        place.size.whole <= at.size.whole + 0x1_0000_0002,
{
    if reverse {
        let place = Signed::from_whole(len).sum(at.negated());
        proof {
            lemma_signed_close(len * FINE - at.value());
            lemma_whole(place, at.size.whole + 0x1_0000_0002);
        }
        place
    } else {
        at
    }
}

fn place_at(at: Signed, len: u32, turned: bool, mirrored: bool) -> (place: Signed)
    requires
        at.wf(),
        at.size.whole <= 0x10_0000_0002,
    ensures
        place.wf(),
        place.value() == placed(at.value(), len as int, turned, mirrored),
        place.size.whole < 0x18_0000_0000,
{
    reverse_at(reverse_at(at, len, turned), len, mirrored)
}

/// The first two cells of a target.
fn first_cells(span: Span, target_len: u32) -> (cells: (Signed, Signed))
    requires
        span.wf(),
        0 < target_len,
    ensures
        cells.0.wf(),
        cells.1.wf(),
        cells.0.size.whole <= 0x10_0000_0002,
        cells.1.size.whole <= 0x10_0000_0002,
        ends_of(span.shown(), target_len as int) == (Ends {
            first: cells.0.value(),
            second: cells.1.value(),
        }),
{
    let step = round_quotient(span.length.digits as u128, span.length.zeros, target_len as u64);
    proof {
        let (n, d) = (span.length.value(), target_len as int);
        vstd::arithmetic::power2::lemma_pow2_pos(span.length.zeros as nat);
        assert(0 <= n) by (nonlinear_arith)
            requires
                n == span.length.digits * vstd::arithmetic::power2::pow2(
                    span.length.zeros as nat,
                ),
                0 < vstd::arithmetic::power2::pow2(span.length.zeros as nat),
        ;
        crate::precision::lemma_nearest(n, d, crate::precision::DOUBLE as int);
        let near = crate::double::double(n, d);
        assert(near <= 2 * n) by (nonlinear_arith)
            requires
                near * d <= 2 * n,
                1 <= d,
                0 <= near,
        ;
    }
    let step = Signed { negative: false, size: Fixed::from_rounded(step) };
    proof {
        lemma_whole(step, 0x8_0000_0000);
        lemma_signed_close(span.start.value() + step.value());
    }
    let second = span.start.sum(step);
    proof {
        lemma_whole(second, 0x10_0000_0002);
    }
    (span.start, second)
}

/// The map from a target to the camera's picture.
pub fn orientation_map(orientation: Orientation, source: FrameSize, target: FrameSize) -> (map:
    AffineMap)
    ensures
        map == map_of(orientation, source@, target@),
{
    let oriented = orientation.output_size(source);
    let (columns, rows) = filled_spans(oriented, target);
    let x = first_cells(columns, target.width());
    let y = first_cells(rows, target.height());
    let swaps: bool = match orientation.rotation {
        Rotation::Clockwise90 | Rotation::Clockwise270 => true,
        _ => false,
    };
    let (across, down) = if swaps {
        (y, x)
    } else {
        (x, y)
    };
    let (tx, ty): (bool, bool) = match orientation.rotation {
        Rotation::Upright => (false, false),
        Rotation::Clockwise90 => (false, true),
        Rotation::Clockwise180 => (true, true),
        Rotation::Clockwise270 => (true, false),
    };
    let (mx, my): (bool, bool) = (orientation.mirror_horizontal, orientation.mirror_vertical);
    let x0 = place_at(across.0, source.width(), tx, mx);
    let y0 = place_at(down.0, source.height(), ty, my);
    let step_x = place_at(across.1, source.width(), tx, mx).sum(x0.negated()).written();
    let step_y = place_at(down.1, source.height(), ty, my).sum(y0.negated()).written();
    let zero = Signed::from_whole(0).written();
    if swaps {
        AffineMap {
            xx: zero,
            xy: step_x,
            x0: x0.written(),
            yx: step_y,
            yy: zero,
            y0: y0.written(),
        }
    } else {
        AffineMap {
            xx: step_x,
            xy: zero,
            x0: x0.written(),
            yx: zero,
            yy: step_y,
            y0: y0.written(),
        }
    }
}

/// What is written down is the number.
pub proof fn lemma_signed_of(value: int)
    requires
        -0x100_0000_0000 * FINE <= value <= 0x100_0000_0000 * FINE,
    ensures
        crate::double::signed_of(value).value() == value,
{
    let size = if value < 0 {
        -value
    } else {
        value
    };
    let f = FINE as int;
    vstd::arithmetic::div_mod::lemma_fundamental_div_mod(size, f);
    let whole = size / f;
    assert(0 <= whole <= 0x100_0000_0000) by (nonlinear_arith)
        requires
            size == f * whole + size % f,
            0 <= size % f < f,
            0 <= size <= 0x100_0000_0000 * f,
    ;
    assert(f * whole == whole * f) by (nonlinear_arith);
}

/// Whole numbers of pixels are not rounded.
proof fn lemma_whole_double(whole: int)
    requires
        -0x2_0000_0000 <= whole <= 0x2_0000_0000,
    ensures
        crate::double::signed_double(whole * FINE) == whole * FINE,
{
    let limit = crate::precision::DOUBLE as int;
    let size = if whole < 0 {
        -whole
    } else {
        whole
    };
    crate::double::lemma_fine();
    crate::precision::lemma_nearest_kept(size, 120, 1, limit);
    assert((size * FINE) * 1 == size * FINE);
    assert(whole < 0 ==> -(whole * FINE) == size * FINE) by (nonlinear_arith)
        requires
            whole < 0 ==> size == -whole,
    ;
    assert((whole < 0) == (whole * FINE < 0)) by (nonlinear_arith)
        requires
            0 < FINE,
    ;
}

/// Where nothing is scaled, cells follow each other at a distance of one pixel, from
/// one end of the axis or from the other.
proof fn lemma_unscaled(len: int, turned: bool, mirrored: bool)
    requires
        0 < len <= u32::MAX,
    ensures
        ({
            let ends = Ends { first: 0, second: FINE as int };
            let backwards = turned != mirrored;
            &&& placed(0, len, turned, mirrored) == if backwards {
                len * FINE
            } else {
                0
            }
            &&& step_of(ends, len, turned, mirrored) == if backwards {
                -FINE
            } else {
                FINE as int
            }
        }),
{
    lemma_whole_double(0);
    lemma_whole_double(1);
    lemma_whole_double(-1);
    lemma_whole_double(len);
    lemma_whole_double(len - 1);
    assert((len - 1) * FINE == len * FINE - FINE) by (nonlinear_arith);
    assert(1 * FINE == FINE && 0 * FINE == 0 && (-1) * FINE == -FINE);
}

/// Where nothing is scaled, the first cell of the target begins where the picture
/// does, and the second one pixel later.
proof fn lemma_unscaled_ends(width: int, height: int)
    requires
        0 < width <= u32::MAX,
        0 < height <= u32::MAX,
    ensures
        ({
            let scale = crate::scale::fill_scale(width, height, width, height);
            let ends = Ends { first: 0, second: FINE as int };
            let columns = crate::scale::shown_part(ScaleMode::Fill, width, width, scale);
            let rows = crate::scale::shown_part(ScaleMode::Fill, height, height, scale);
            &&& ends_of(columns, width) == ends
            &&& ends_of(rows, height) == ends
        }),
{
    let limit = crate::precision::DOUBLE as int;
    crate::scale::lemma_filled_by_itself(ScaleMode::Fill, width, height);
    crate::double::lemma_fine();
    crate::precision::lemma_nearest_kept(1, 120, width, limit);
    crate::precision::lemma_nearest_kept(1, 120, height, limit);
    assert((1 * FINE) * width == width * FINE && (1 * FINE) * height == height * FINE)
        by (nonlinear_arith);
    lemma_whole_double(1);
    assert(1 * FINE == FINE);
}

/// Where nothing is scaled, the middle of each cell of the target lies in the
/// middle of the cell that the processor shows there.
pub proof fn law_the_map_agrees_with_the_processor(
    orientation: Orientation,
    source: Dims,
    x: int,
    y: int,
)
    requires
        source.valid(),
        0 <= x < orientation.oriented_size(source).width,
        0 <= y < orientation.oriented_size(source).height,
    ensures
        ({
            let map = map_of(orientation, source, orientation.oriented_size(source));
            let cell = orientation.source_cell(x, y, source.width, source.height);
            &&& map.xx.value() * (2 * x + 1) + map.xy.value() * (2 * y + 1) + 2 * map.x0.value()
                == FINE * (2 * cell.x + 1)
            &&& map.yx.value() * (2 * x + 1) + map.yy.value() * (2 * y + 1) + 2 * map.y0.value()
                == FINE * (2 * cell.y + 1)
        }),
{
    let oriented = orientation.oriented_size(source);
    let (w, h, f) = (source.width, source.height, FINE as int);
    lemma_unscaled_ends(oriented.width, oriented.height);
    let (tx, ty) = (turned_across(orientation.rotation), turned_down(orientation.rotation));
    let (mx, my) = (orientation.mirror_horizontal, orientation.mirror_vertical);
    lemma_unscaled(w, tx, mx);
    lemma_unscaled(h, ty, my);
    lemma_signed_of(0);
    lemma_signed_of(f);
    lemma_signed_of(-f);
    lemma_signed_of(w * f);
    lemma_signed_of(h * f);
    let (a, b) = (2 * x + 1, 2 * y + 1);
    assert(0 * a == 0 && 0 * b == 0);
    assert((-f) * a == -(f * a) && (-f) * b == -(f * b)) by (nonlinear_arith);
    assert(f * (2 * (w - 1 - x) + 1) == 2 * (w * f) - f * a && f * (2 * (w - 1 - y) + 1) == 2 * (w
        * f) - f * b) by (nonlinear_arith)
        requires
            a == 2 * x + 1,
            b == 2 * y + 1,
    ;
    assert(f * (2 * (h - 1 - x) + 1) == 2 * (h * f) - f * a && f * (2 * (h - 1 - y) + 1) == 2 * (h
        * f) - f * b) by (nonlinear_arith)
        requires
            a == 2 * x + 1,
            b == 2 * y + 1,
    ;
}

/// Rounding moves a place in a picture of ordinary size by very little.
pub proof fn lemma_small_error(value: int)
    requires
        -0x10_0000 * FINE <= value <= 0x10_0000 * FINE,
    ensures
        value - FINE / 0x4000_0000 <= crate::double::signed_double(value) <= value + FINE
            / 0x4000_0000,
{
    let limit = crate::precision::DOUBLE as int;
    if value < 0 {
        crate::precision::lemma_nearest_error(-value, 1, limit);
    } else {
        crate::precision::lemma_nearest_error(value, 1, limit);
    }
}

/// A target shows hardly more of a picture than there is.
pub proof fn lemma_shown_length(len: int, target_len: int, scale: int)
    requires
        0 < len <= 65_536,
        0 < target_len <= 65_536,
        crate::double::double(target_len * FINE, len) <= scale,
        0 < scale,
    ensures
        0 <= crate::double::double((target_len * FINE) * FINE, scale) <= len * FINE + FINE
            / 0x4000_0000,
{
    let (f, s) = (FINE as int, crate::precision::DOUBLE as int);
    let g = f / 0x4000_0000;
    let n = target_len * f;
    let least = crate::double::double(n, len);
    let length = crate::double::double(n * f, scale);
    assert(f <= n && 0 <= n * f) by (nonlinear_arith)
        requires
            n == target_len * f,
            1 <= target_len,
            0 < f,
    ;
    crate::precision::lemma_nearest(n * f, scale, s);
    crate::precision::lemma_nearest_error(n, len, s);
    crate::precision::lemma_nearest_error(n * f, scale, s);
    if length > len * f + g {
        let (reach, square, flat) = (scale * len, n * f, len * f);
        assert(s * n <= s * reach + n + s * len) by (nonlinear_arith)
            requires
                s * n <= s * (least * len) + n + s * len,
                least <= scale,
                reach == scale * len,
                0 < len,
                0 < s,
        ;
        assert(s * (f * reach + (g + 1) * scale) <= s * square + square + s * scale)
            by (nonlinear_arith)
            requires
                s * (length * scale) <= s * square + square + s * scale,
                length >= len * f + g + 1,
                reach == scale * len,
                0 < scale,
                0 < s,
        {
            assert(length * scale >= (len * f + g + 1) * scale);
            assert((len * f + g + 1) * scale == f * (scale * len) + (g + 1) * scale);
        }
        assert(f * (s * n) <= f * (s * reach + n + s * len)) by (nonlinear_arith)
            requires
                s * n <= s * reach + n + s * len,
                0 < f,
        ;
        assert(f * (s * n) == s * square) by (nonlinear_arith)
            requires
                square == n * f,
        ;
        assert(f * (s * reach + n + s * len) == s * (f * reach) + square + s * flat)
            by (nonlinear_arith)
            requires
                square == n * f,
                flat == len * f,
        ;
        assert(s * (f * reach + (g + 1) * scale) == s * (f * reach) + s * (g * scale) + s * scale)
            by (nonlinear_arith);
        assert(s * (g * scale) <= 2 * square + s * flat);
        // Both sides times the length of the picture.
        assert(g * (s * n - n - s * len) <= len * (2 * square + s * flat)) by (nonlinear_arith)
            requires
                s * (g * scale) <= 2 * square + s * flat,
                s * n <= s * reach + n + s * len,
                reach == scale * len,
                0 < len,
                0 <= g,
        {
            assert(g * (s * n - n - s * len) <= g * (s * reach));
            assert(g * (s * reach) == len * (s * (g * scale)));
            assert(len * (s * (g * scale)) <= len * (2 * square + s * flat));
        }
        lemma_too_long(len, n, g);
    }
}

/// The bound that a part that is too long would have to break.
proof fn lemma_too_long(len: int, n: int, g: int)
    requires
        0 < len <= 65_536,
        FINE <= n,
        g == FINE / 0x4000_0000,
    ensures
        ({
            let s = crate::precision::DOUBLE;
            g * (s * n - n - s * len) > len * (2 * (n * FINE) + s * (len * FINE))
        }),
{
    let f = FINE as int;
    let s: int = 0x20_0000_0000_0000;
    assert(f == 0x4000_0000 * g);
    assert(len * (2 * (n * f) + s * (len * f)) <= 65_536 * (2 * (n * f)) + 65_536 * (s * (65_536
        * f))) by (nonlinear_arith)
        requires
            0 < len <= 65_536,
            0 < n,
            0 < f,
            0 < s,
    {
        assert(s * (len * f) <= s * (65_536 * f));
        assert(len * (2 * (n * f)) <= 65_536 * (2 * (n * f)));
        assert(len * (s * (len * f)) <= 65_536 * (s * (65_536 * f)));
    }
    assert(n * f == 0x4000_0000 * (g * n)) by (nonlinear_arith)
        requires
            f == 0x4000_0000 * g,
    ;
    assert(g * (s * n - n - s * len) == s * (g * n) - g * n - s * (g * len)) by (nonlinear_arith);
    assert(g * len <= 65_536 * g) by (nonlinear_arith)
        requires
            0 < len <= 65_536,
            0 < g,
    ;
    assert(g * f <= g * n) by (nonlinear_arith)
        requires
            f <= n,
            0 < g,
    ;
    assert(g * f == 0x4000_0000 * (g * g)) by (nonlinear_arith)
        requires
            f == 0x4000_0000 * g,
    ;
    assert(0x4_0000_0000_0000_0000_0000 * g <= g * g) by (nonlinear_arith)
        requires
            g >= 0x4_0000_0000_0000_0000_0000,
    ;
}

/// Along one axis the cells of a target lie inside the picture, to within a small
/// part of a pixel.
pub proof fn lemma_axis_inside(
    len: int,
    target_len: int,
    scale: int,
    turned: bool,
    mirrored: bool,
    x: int,
)
    requires
        0 < len <= 65_536,
        0 < target_len <= 65_536,
        crate::double::double(target_len * FINE, len) <= scale,
        0 < scale,
        0 <= x <= target_len,
    ensures
        ({
            let ends = ends_of(
                crate::scale::shown_part(ScaleMode::Fill, len, target_len, scale),
                target_len,
            );
            let first = placed(ends.first, len, turned, mirrored);
            let step = step_of(ends, len, turned, mirrored);
            &&& -FINE <= 1024 * (step * x + first)
            &&& 1024 * (step * x + first) <= 1024 * (len * FINE) + FINE
            &&& -0x10_0000 * FINE <= first <= 0x10_0000 * FINE
            &&& -0x10_0000 * FINE <= step <= 0x10_0000 * FINE
        }),
{
    let (f, s) = (FINE as int, crate::precision::DOUBLE as int);
    let g = f / 0x4000_0000;
    let shown = crate::scale::shown_part(ScaleMode::Fill, len, target_len, scale);
    let ends = ends_of(shown, target_len);
    let (start, length) = (shown.start, shown.length);
    lemma_shown_length(len, target_len, scale);
    assert(0 < len * f <= 65_536 * f) by (nonlinear_arith)
        requires
            0 < len <= 65_536,
            0 < f,
    ;
    lemma_small_error(len * f - length);
    assert(-(g + 1) <= start && start + length <= len * f + 2 * g + 2 && start <= len * f);
    let part = crate::double::double(length, target_len);
    crate::precision::lemma_nearest(length, target_len, s);
    crate::precision::lemma_nearest_error(length, target_len, s);
    let all = part * target_len;
    assert(s * target_len <= s * 65_536) by (nonlinear_arith)
        requires
            target_len <= 65_536,
            0 < s,
    ;
    assert(all <= length + g && length <= all + g);
    assert(0 <= part <= all) by (nonlinear_arith)
        requires
            0 <= part,
            all == part * target_len,
            1 <= target_len,
    ;
    lemma_small_error(start + part);
    lemma_placed(ends.first, len, turned, mirrored);
    lemma_placed(ends.second, len, turned, mirrored);
    let backwards = turned != mirrored;
    let (first, second) = (
        placed(ends.first, len, turned, mirrored),
        placed(ends.second, len, turned, mirrored),
    );
    lemma_small_error(second - first);
    let step = step_of(ends, len, turned, mirrored);
    let exact = if backwards {
        -part
    } else {
        part
    };
    assert(exact - 6 * g <= step <= exact + 6 * g);
    assert(exact * x - (6 * g) * 65_536 <= step * x <= exact * x + (6 * g) * 65_536)
        by (nonlinear_arith)
        requires
            exact - 6 * g <= step <= exact + 6 * g,
            0 <= x <= 65_536,
            0 <= g,
    {
        assert((exact - 6 * g) * x <= step * x <= (exact + 6 * g) * x);
        assert((6 * g) * x <= (6 * g) * 65_536);
    }
    assert(0 <= part * x <= all) by (nonlinear_arith)
        requires
            0 <= part,
            0 <= x <= target_len,
            all == part * target_len,
    ;
    assert((-part) * x == -(part * x)) by (nonlinear_arith);
}

/// A place that is counted from the other end, or not.
pub proof fn lemma_placed(at: int, len: int, turned: bool, mirrored: bool)
    requires
        0 < len <= 65_536,
        -0x4_0000 * FINE <= at <= 0x4_0000 * FINE,
    ensures
        ({
            let g = FINE / 0x4000_0000;
            let exact = if turned != mirrored {
                len * FINE - at
            } else {
                at
            };
            exact - 2 * g <= placed(at, len, turned, mirrored) <= exact + 2 * g
        }),
{
    assert(0 < len * FINE <= 65_536 * FINE) by (nonlinear_arith)
        requires
            0 < len <= 65_536,
            0 < FINE,
    ;
    if turned {
        lemma_small_error(len * FINE - at);
    }
    let once = reversed(at, len, turned);
    if mirrored {
        lemma_small_error(len * FINE - once);
    }
}

/// Every point of a target lies inside the camera's picture, to within a 1024th of a
/// pixel. The sides are of 65536 pixels at most: in larger pictures rounding adds up
/// to more.
pub proof fn law_the_map_stays_inside_the_picture(
    orientation: Orientation,
    source: Dims,
    target: Dims,
    x: int,
    y: int,
)
    requires
        source.valid(),
        target.valid(),
        source.width <= 65_536,
        source.height <= 65_536,
        target.width <= 65_536,
        target.height <= 65_536,
        0 <= x <= target.width,
        0 <= y <= target.height,
    ensures
        ({
            let map = map_of(orientation, source, target);
            let across = map.xx.value() * x + map.xy.value() * y + map.x0.value();
            let down = map.yx.value() * x + map.yy.value() * y + map.y0.value();
            &&& -FINE <= 1024 * across <= 1024 * (source.width * FINE) + FINE
            &&& -FINE <= 1024 * down <= 1024 * (source.height * FINE) + FINE
        }),
{
    let oriented = orientation.oriented_size(source);
    let scale = crate::scale::fill_scale(
        oriented.width,
        oriented.height,
        target.width,
        target.height,
    );
    crate::scale::lemma_ratio(target.width, oriented.width);
    crate::scale::lemma_ratio(target.height, oriented.height);
    let (tx, ty) = (turned_across(orientation.rotation), turned_down(orientation.rotation));
    let (mx, my) = (orientation.mirror_horizontal, orientation.mirror_vertical);
    let (ends_x, ends_y) = target_ends(orientation, source, target);
    let (across, down) = if orientation.swaps() {
        (ends_y, ends_x)
    } else {
        (ends_x, ends_y)
    };
    if orientation.swaps() {
        lemma_axis_inside(source.width, target.height, scale, tx, mx, y);
        lemma_axis_inside(source.height, target.width, scale, ty, my, x);
    } else {
        lemma_axis_inside(source.width, target.width, scale, tx, mx, x);
        lemma_axis_inside(source.height, target.height, scale, ty, my, y);
    }
    lemma_signed_of(0);
    lemma_signed_of(step_of(across, source.width, tx, mx));
    lemma_signed_of(step_of(down, source.height, ty, my));
    lemma_signed_of(placed(across.first, source.width, tx, mx));
    lemma_signed_of(placed(down.first, source.height, ty, my));
    assert(0 * x == 0 && 0 * y == 0);
}

} // verus!
