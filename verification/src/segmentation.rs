//! What the pipeline asks of a segmentation model, and what it expects of a
//! model file.

use vstd::prelude::*;

use crate::color::ColorMatrix;
use crate::error::CoreError;
use crate::frame::{Dims, FrameSize, Nv12Frame};
use crate::mask::MaskParams;
use crate::text::{push_decimal, push_signed};
use crate::variant::ModelVariant;

verus! {

/// The opacity that a model gives each cell of its grid.
pub struct AlphaMask<'a> {
    pub width: u32,
    pub height: u32,
    pub data: &'a [u8],
}

/// A model that tells people from what is behind them.
pub trait SegmentationModel {
    fn name(&self) -> &str;

    /// The grid of the model's opacity.
    fn mask_size(&self) -> FrameSize;

    fn default_mask_params(&self) -> MaskParams;

    fn segment<'a>(&'a mut self, frame: &Nv12Frame, matrix: ColorMatrix) -> Result<
        AlphaMask<'a>,
        CoreError,
    >
        requires
            frame.wf(),
    ;

    /// Forgets the earlier frames.
    fn reset(&mut self);
}

#[derive(Clone, Copy, Debug, PartialEq, Eq, Hash, Structural)]
pub enum InferenceDevice {
    DirectMl { adapter_index: u32 },
    Cpu { threads: usize },
}

impl Default for InferenceDevice {
    fn default() -> (device: Self)
        ensures
            device == (InferenceDevice::DirectMl { adapter_index: 0 }),
    {
        InferenceDevice::DirectMl { adapter_index: 0 }
    }
}

#[derive(Clone, Copy, Debug, PartialEq, Eq, Hash, Structural)]
pub enum MediaPipeVariant {
    Square,
    Landscape,
}

impl MediaPipeVariant {
    pub open spec fn file_name_spec(self) -> Seq<char> {
        match self {
            MediaPipeVariant::Square => "selfie_segmenter.onnx"@,
            MediaPipeVariant::Landscape => "selfie_segmenter_landscape.onnx"@,
        }
    }

    /// The variant for frames of a size: landscape from 14:9 on.
    pub open spec fn for_dims(frame: Dims) -> MediaPipeVariant {
        if frame.width * 9 >= frame.height * 14 {
            MediaPipeVariant::Landscape
        } else {
            MediaPipeVariant::Square
        }
    }

    pub fn file_name(self) -> (name: &'static str)
        ensures
            name@ == self.file_name_spec(),
    {
        match self {
            MediaPipeVariant::Square => "selfie_segmenter.onnx",
            MediaPipeVariant::Landscape => "selfie_segmenter_landscape.onnx",
        }
    }

    pub fn for_frame(frame: FrameSize) -> (variant: Self)
        ensures
            variant == Self::for_dims(frame@),
    {
        if frame.width() as u64 * 9 >= frame.height() as u64 * 14 {
            MediaPipeVariant::Landscape
        } else {
            MediaPipeVariant::Square
        }
    }
}

/// The element of a tensor.
#[derive(Clone, Copy, Debug, PartialEq, Eq, Hash, Structural)]
pub enum ElementType {
    Float16,
    Float32,
    Other,
}

impl ElementType {
    pub open spec fn name_spec(self) -> Seq<char> {
        match self {
            ElementType::Float16 => "Float16"@,
            ElementType::Float32 => "Float32"@,
            ElementType::Other => "Other"@,
        }
    }

    fn name(self) -> (name: &'static str)
        ensures
            name@ == self.name_spec(),
    {
        match self {
            ElementType::Float16 => "Float16",
            ElementType::Float32 => "Float32",
            ElementType::Other => "Other",
        }
    }
}

/// What a model file says of one of its inputs.
pub struct TensorInput {
    pub name: String,
    /// Nothing where the input is no tensor.
    pub element: Option<ElementType>,
    pub shape: Option<Vec<i64>>,
}

/// Numbers with commas between them.
pub open spec fn listed(shape: Seq<i64>) -> Seq<char>
    decreases shape.len(),
{
    if shape.len() == 0 {
        Seq::empty()
    } else if shape.len() == 1 {
        crate::text::signed_decimal(shape[0] as int)
    } else {
        listed(shape.drop_last()) + ", "@ + crate::text::signed_decimal(shape.last() as int)
    }
}

/// A shape in square brackets.
pub open spec fn shape_text(shape: Seq<i64>) -> Seq<char> {
    "["@ + listed(shape) + "]"@
}

pub(crate) fn push_shape(text: &mut String, shape: &[i64])
    ensures
        final(text)@ == old(text)@ + shape_text(shape@),
{
    text.append("[");
    let ghost start = text@;
    for i in 0..shape.len()
        invariant
            start == old(text)@ + "["@,
            text@ == start + listed(shape@.take(i as int)),
    {
        proof {
            assert(shape@.take(i + 1).drop_last() =~= shape@.take(i as int));
            assert(shape@.take(i + 1).last() == shape@[i as int]);
        }
        let ghost before = text@;
        if i > 0 {
            text.append(", ");
        }
        push_signed(text, shape[i]);
        proof {
            assert(text@ =~= start + listed(shape@.take(i + 1)));
        }
    }
    text.append("]");
    proof {
        assert(shape@.take(shape@.len() as int) =~= shape@);
        assert(text@ =~= old(text)@ + shape_text(shape@));
    }
}

/// Every extent of a shape is fixed.
pub open spec fn is_static(shape: Seq<i64>) -> bool {
    forall|i: int| 0 <= i < shape.len() ==> #[trigger] shape[i] > 0
}

pub(crate) fn all_positive(shape: &[i64]) -> (result: bool)
    ensures
        result == is_static(shape@),
{
    for i in 0..shape.len()
        invariant
            forall|j: int| 0 <= j < i ==> #[trigger] shape@[j] > 0,
    {
        if shape[i] <= 0 {
            return false;
        }
    }
    true
}

/// Why an input of a model is not the one that is expected, if it is not.
pub open spec fn input_fault(
    inputs: Seq<TensorInput>,
    index: int,
    name: Seq<char>,
    element: ElementType,
) -> Option<Seq<char>> {
    if index >= inputs.len() {
        Some("missing input #"@ + crate::text::decimal(index as nat) + " ("@ + name + ")"@)
    } else {
        let input = inputs[index];
        if input.name@ != name {
            Some(
                "input #"@ + crate::text::decimal(index as nat) + " is `"@ + input.name@
                    + "`, expected `"@ + name + "`"@,
            )
        } else if input.element != Some(element) {
            Some("input `"@ + name + "` is not "@ + element.name_spec())
        } else {
            match input.shape {
                None => Some("input `"@ + name + "` has no shape"@),
                Some(shape) => if is_static(shape@) {
                    None
                } else {
                    Some(
                        "input `"@ + name + "` has dynamic shape "@ + shape_text(shape@)
                            + "; use a static model variant"@,
                    )
                },
            }
        }
    }
}

/// A model format error with a text.
pub open spec fn is_format_error(error: CoreError, text: Seq<char>) -> bool {
    error matches CoreError::ModelFormat(detail) && detail@ == text
}

/// The shape of an input that has the expected name and element and a static
/// shape.
pub fn expect_tensor_input(
    inputs: &[TensorInput],
    index: usize,
    name: &str,
    element: ElementType,
) -> (result: Result<Vec<i64>, CoreError>)
    ensures
        match input_fault(inputs@, index as int, name@, element) {
            None => {
                &&& index < inputs@.len()
                &&& result matches Ok(shape) && inputs@[index as int].shape matches Some(
                    declared,
                ) && shape@ == declared@ && is_static(shape@)
            },
            Some(text) => result matches Err(error) && is_format_error(error, text),
        },
{
    let mut text = String::new();
    if index >= inputs.len() {
        text.append("missing input #");
        push_decimal(&mut text, index as u64);
        text.append(" (");
        text.append(name);
        text.append(")");
        proof {
            assert(text@ =~= input_fault(inputs@, index as int, name@, element).unwrap());
        }
        return Err(CoreError::ModelFormat(text));
    }
    let input = &inputs[index];
    if !same_text(input.name.as_str(), name) {
        text.append("input #");
        push_decimal(&mut text, index as u64);
        text.append(" is `");
        text.append(input.name.as_str());
        text.append("`, expected `");
        text.append(name);
        text.append("`");
        proof {
            assert(text@ =~= input_fault(inputs@, index as int, name@, element).unwrap());
        }
        return Err(CoreError::ModelFormat(text));
    }
    let matches_element: bool = match input.element {
        Some(actual) => actual == element,
        None => false,
    };
    if !matches_element {
        text.append("input `");
        text.append(name);
        text.append("` is not ");
        text.append(element.name());
        proof {
            assert(text@ =~= input_fault(inputs@, index as int, name@, element).unwrap());
        }
        return Err(CoreError::ModelFormat(text));
    }
    match &input.shape {
        None => {
            text.append("input `");
            text.append(name);
            text.append("` has no shape");
            proof {
                assert(text@ =~= input_fault(inputs@, index as int, name@, element).unwrap());
            }
            Err(CoreError::ModelFormat(text))
        },
        Some(shape) => {
            if !all_positive(shape.as_slice()) {
                text.append("input `");
                text.append(name);
                text.append("` has dynamic shape ");
                push_shape(&mut text, shape.as_slice());
                text.append("; use a static model variant");
                proof {
                    assert(text@ =~= input_fault(inputs@, index as int, name@, element).unwrap());
                }
                return Err(CoreError::ModelFormat(text));
            }
            Ok(copied_shape(shape.as_slice()))
        },
    }
}

/// Compares two texts.
pub fn same_text(a: &str, b: &str) -> (same: bool)
    ensures
        same == (a@ == b@),
{
    let len: usize = a.unicode_len();
    if len != b.unicode_len() {
        return false;
    }
    for i in 0..len
        invariant
            len == a@.len(),
            len == b@.len(),
            forall|j: int| 0 <= j < i ==> a@[j] == b@[j],
    {
        if a.get_char(i) != b.get_char(i) {
            return false;
        }
    }
    proof {
        assert(a@ =~= b@);
    }
    true
}

pub(crate) fn copied_shape(shape: &[i64]) -> (copy: Vec<i64>)
    ensures
        copy@ == shape@,
{
    let mut copy: Vec<i64> = Vec::with_capacity(shape.len());
    for i in 0..shape.len()
        invariant
            copy@ == shape@.take(i as int),
    {
        copy.push(shape[i]);
        proof {
            assert(copy@ =~= shape@.take(i + 1));
        }
    }
    proof {
        assert(shape@.take(shape@.len() as int) =~= shape@);
    }
    copy
}

/// The names of the recurrent model's state inputs.
pub open spec fn state_input_name(i: int) -> Seq<char> {
    if i == 0 {
        "r1i"@
    } else if i == 1 {
        "r2i"@
    } else if i == 2 {
        "r3i"@
    } else {
        "r4i"@
    }
}

/// What a usable file of the recurrent model says of its inputs.
pub struct RvmInputs {
    pub model_size: FrameSize,
    pub states: Vec<Vec<i64>>,
}

/// The shape that the recurrent model's picture input must have.
pub open spec fn source_shape(variant: ModelVariant) -> Seq<i64> {
    seq![1, 3, variant.height as i64, variant.width as i64]
}

/// The first fault of a recurrent model's state inputs, from one on.
pub open spec fn state_fault(inputs: Seq<TensorInput>, from: int) -> Option<Seq<char>>
    decreases 4 - from,
{
    if from >= 4 {
        None
    } else {
        match input_fault(inputs, from + 1, state_input_name(from), ElementType::Float16) {
            Some(text) => Some(text),
            None => state_fault(inputs, from + 1),
        }
    }
}

/// Why a file is not one of the recurrent model at a size, if it is not.
pub open spec fn rvm_fault(inputs: Seq<TensorInput>, variant: ModelVariant, error: CoreError) -> bool {
    let size = Dims { width: variant.width as int, height: variant.height as int };
    match input_fault(inputs, 0, "src"@, ElementType::Float16) {
        Some(text) => is_format_error(error, text),
        None => if !size.valid() {
            error == (CoreError::InvalidFrameSize {
                width: variant.width,
                height: variant.height,
            })
        } else if inputs[0].shape.unwrap()@ != source_shape(variant) {
            is_format_error(
                error,
                "src shape "@ + shape_text(inputs[0].shape.unwrap()@)
                    + " does not match variant "@ + crate::text::decimal(variant.width as nat)
                    + "x"@ + crate::text::decimal(variant.height as nat),
            )
        } else {
            state_fault(inputs, 0) matches Some(text) && is_format_error(error, text)
        },
    }
}

/// Whether a file is one of the recurrent model at a size.
pub open spec fn rvm_usable(inputs: Seq<TensorInput>, variant: ModelVariant) -> bool {
    let size = Dims { width: variant.width as int, height: variant.height as int };
    &&& input_fault(inputs, 0, "src"@, ElementType::Float16) is None
    &&& size.valid()
    &&& inputs[0].shape.unwrap()@ == source_shape(variant)
    &&& state_fault(inputs, 0) is None
}

fn same_shape(a: &[i64], b: &[i64]) -> (same: bool)
    ensures
        same == (a@ == b@),
{
    if a.len() != b.len() {
        return false;
    }
    for i in 0..a.len()
        invariant
            a@.len() == b@.len(),
            forall|j: int| 0 <= j < i ==> a@[j] == b@[j],
    {
        if a[i] != b[i] {
            return false;
        }
    }
    proof {
        assert(a@ =~= b@);
    }
    true
}

/// Checks that a file is one of the recurrent model at a size, and gives the
/// shapes of its states.
pub fn check_rvm_inputs(inputs: &[TensorInput], variant: ModelVariant) -> (result: Result<
    RvmInputs,
    CoreError,
>)
    ensures
        match result {
            Ok(made) => {
                &&& rvm_usable(inputs@, variant)
                &&& made.model_size@ == (Dims {
                    width: variant.width as int,
                    height: variant.height as int,
                })
                &&& made.states@.len() == 4
                &&& forall|i: int|
                    0 <= i < 4 ==> (#[trigger] made.states@[i])@ == inputs@[i
                        + 1].shape.unwrap()@
            },
            Err(error) => rvm_fault(inputs@, variant, error),
        },
{
    let shape = match expect_tensor_input(inputs, 0, "src", ElementType::Float16) {
        Ok(shape) => shape,
        Err(error) => return Err(error),
    };
    let model_size = match FrameSize::new(variant.width, variant.height) {
        Ok(size) => size,
        Err(error) => return Err(error),
    };
    let expected: [i64; 4] = [1, 3, variant.height as i64, variant.width as i64];
    proof {
        assert(expected@ =~= source_shape(variant));
    }
    if !same_shape(shape.as_slice(), expected.as_slice()) {
        let mut text = String::new();
        text.append("src shape ");
        push_shape(&mut text, shape.as_slice());
        text.append(" does not match variant ");
        push_decimal(&mut text, variant.width as u64);
        text.append("x");
        push_decimal(&mut text, variant.height as u64);
        proof {
            assert(text@ =~= "src shape "@ + shape_text(shape@) + " does not match variant "@
                + crate::text::decimal(variant.width as nat) + "x"@ + crate::text::decimal(
                variant.height as nat,
            ));
        }
        return Err(CoreError::ModelFormat(text));
    }
    let mut states: Vec<Vec<i64>> = Vec::new();
    let mut i: usize = 0;
    while i < 4
        invariant
            i <= 4,
            states@.len() == i,
            state_fault(inputs@, 0) == state_fault(inputs@, i as int),
            forall|j: int|
                0 <= j < i ==> (#[trigger] states@[j])@ == inputs@[j + 1].shape.unwrap()@,
            input_fault(inputs@, 0, "src"@, ElementType::Float16) is None,
            (Dims { width: variant.width as int, height: variant.height as int }).valid(),
            inputs@[0].shape.unwrap()@ == source_shape(variant),
        decreases 4 - i,
    {
        let name: &str = if i == 0 {
            "r1i"
        } else if i == 1 {
            "r2i"
        } else if i == 2 {
            "r3i"
        } else {
            "r4i"
        };
        match expect_tensor_input(inputs, i + 1, name, ElementType::Float16) {
            Ok(state) => states.push(state),
            Err(error) => return Err(error),
        }
        i = i + 1;
    }
    Ok(RvmInputs { model_size, states })
}

/// The name under which the recurrent model is shown.
pub fn rvm_model_name(variant: ModelVariant) -> (name: String)
    ensures
        name@ == "RVM MobileNetV3 fp16 "@ + crate::text::decimal(variant.width as nat) + "x"@
            + crate::text::decimal(variant.height as nat),
{
    let mut name = String::new();
    name.append("RVM MobileNetV3 fp16 ");
    push_decimal(&mut name, variant.width as u64);
    name.append("x");
    push_decimal(&mut name, variant.height as u64);
    proof {
        assert(name@ =~= "RVM MobileNetV3 fp16 "@ + crate::text::decimal(variant.width as nat)
            + "x"@ + crate::text::decimal(variant.height as nat));
    }
    name
}

/// What a usable file of the memoryless model says of its input.
pub struct MediaPipeInput {
    pub model_size: FrameSize,
    pub name: String,
}

/// One picture of three channels, its width and height in the middle.
pub open spec fn is_picture_shape(shape: Seq<i64>) -> bool {
    shape.len() == 4 && shape[0] == 1 && shape[3] == 3
}

/// Checks that a file is one of the memoryless model.
pub fn check_mediapipe_input(inputs: &[TensorInput]) -> (result: Result<
    MediaPipeInput,
    CoreError,
>)
    ensures
        if inputs@.len() == 0 {
            result matches Err(error) && is_format_error(error, "model has no inputs"@)
        } else {
            match input_fault(inputs@, 0, inputs@[0].name@, ElementType::Float32) {
                Some(text) => result matches Err(error) && is_format_error(error, text),
                None => {
                    let shape = inputs@[0].shape.unwrap()@;
                    let size = Dims {
                        width: shape[2] as u32 as int,
                        height: shape[1] as u32 as int,
                    };
                    if !is_picture_shape(shape) {
                        result matches Err(error) && is_format_error(
                            error,
                            "unexpected input shape "@ + shape_text(shape),
                        )
                    } else if !size.valid() {
                        result == Err::<MediaPipeInput, CoreError>(
                            CoreError::InvalidFrameSize {
                                width: shape[2] as u32,
                                height: shape[1] as u32,
                            },
                        )
                    } else {
                        result matches Ok(made) && made.model_size@ == size && made.name@
                            == "MediaPipe Selfie Segmentation "@ + crate::text::signed_decimal(
                            shape[2] as int,
                        ) + "x"@ + crate::text::signed_decimal(shape[1] as int)
                    }
                },
            }
        },
{
    let mut text = String::new();
    if inputs.len() == 0 {
        text.append("model has no inputs");
        proof {
            assert(text@ =~= "model has no inputs"@);
        }
        return Err(CoreError::ModelFormat(text));
    }
    let shape = match expect_tensor_input(
        inputs,
        0,
        inputs[0].name.as_str(),
        ElementType::Float32,
    ) {
        Ok(shape) => shape,
        Err(error) => return Err(error),
    };
    if shape.len() != 4 || shape[0] != 1 || shape[3] != 3 {
        text.append("unexpected input shape ");
        push_shape(&mut text, shape.as_slice());
        proof {
            assert(text@ =~= "unexpected input shape "@ + shape_text(shape@));
        }
        return Err(CoreError::ModelFormat(text));
    }
    let (width, height): (i64, i64) = (shape[2], shape[1]);
    let model_size = match FrameSize::new(
        #[verifier::truncate]
        (width as u32),
        #[verifier::truncate]
        (height as u32),
    ) {
        Ok(size) => size,
        Err(error) => return Err(error),
    };
    text.append("MediaPipe Selfie Segmentation ");
    push_signed(&mut text, width);
    text.append("x");
    push_signed(&mut text, height);
    proof {
        assert(text@ =~= "MediaPipe Selfie Segmentation "@ + crate::text::signed_decimal(
            width as int,
        ) + "x"@ + crate::text::signed_decimal(height as int));
    }
    Ok(MediaPipeInput { model_size, name: text })
}

/// Accepts a model's opacity if it has a value for each cell of its grid; else
/// names what was returned.
pub fn check_alpha_len(expected: usize, actual: usize, what: &str) -> (result: Result<
    (),
    CoreError,
>)
    ensures
        if expected == actual {
            result is Ok
        } else {
            result matches Err(error) && is_format_error(
                error,
                what@ + " has "@ + crate::text::decimal(actual as nat) + " values"@,
            )
        },
{
    if expected == actual {
        return Ok(());
    }
    let mut text = String::new();
    text.append(what);
    text.append(" has ");
    push_decimal(&mut text, actual as u64);
    text.append(" values");
    proof {
        assert(text@ =~= what@ + " has "@ + crate::text::decimal(actual as nat) + " values"@);
    }
    Err(CoreError::ModelFormat(text))
}

} // verus!
