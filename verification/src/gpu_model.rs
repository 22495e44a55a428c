//! What the graphics card needs to know of a model file: the tensors to make
//! and how they are bound.

use vstd::prelude::*;

use crate::frame::{Dims, FrameSize};
use crate::gpu::GpuError;
use crate::segmentation::{all_positive, copied_shape, push_shape, same_text, TensorInput};
use crate::text::{push_decimal, push_signed};
use crate::variant::ModelVariant;

verus! {

/// The first input with a name.
pub open spec fn input_named(inputs: Seq<TensorInput>, name: Seq<char>) -> Option<TensorInput>
    decreases inputs.len(),
{
    if inputs.len() == 0 {
        None
    } else if inputs[0].name@ == name {
        Some(inputs[0])
    } else {
        input_named(inputs.drop_first(), name)
    }
}

/// Why an input is of no use, if it is not.
pub open spec fn shape_fault(inputs: Seq<TensorInput>, name: Seq<char>) -> Option<Seq<char>> {
    match input_named(inputs, name) {
        None => Some("model has no input `"@ + name + "`"@),
        Some(input) => match input.shape {
            None => Some("input `"@ + name + "` is not a tensor"@),
            Some(shape) => if crate::segmentation::is_static(shape@) {
                None
            } else {
                Some("input `"@ + name + "` has a dynamic shape"@)
            },
        },
    }
}

/// The shape of an input.
pub open spec fn shape_named(inputs: Seq<TensorInput>, name: Seq<char>) -> Seq<i64> {
    input_named(inputs, name).unwrap().shape.unwrap()@
}

proof fn lemma_input_named(inputs: Seq<TensorInput>, name: Seq<char>, at: int)
    requires
        0 <= at <= inputs.len(),
        forall|i: int| 0 <= i < at ==> (#[trigger] inputs[i]).name@ != name,
        at < inputs.len() ==> inputs[at].name@ == name,
    ensures
        input_named(inputs, name) == if at < inputs.len() {
            Some(inputs[at])
        } else {
            None
        },
    decreases inputs.len(),
{
    if at > 0 {
        let rest = inputs.drop_first();
        assert forall|i: int| 0 <= i < at - 1 implies (#[trigger] rest[i]).name@ != name by {
            assert(rest[i] == inputs[i + 1]);
        }
        lemma_input_named(rest, name, at - 1);
    }
}

fn quoted(start: &str, name: &str, end: &str) -> (text: String)
    ensures
        text@ == start@ + name@ + end@,
{
    let mut text = String::new();
    text.append(start);
    text.append(name);
    text.append(end);
    proof {
        assert(text@ =~= start@ + name@ + end@);
    }
    text
}

/// The shape of the input with a name.
pub fn input_shape(inputs: &[TensorInput], name: &str) -> (result: Result<Vec<i64>, GpuError>)
    ensures
        match shape_fault(inputs@, name@) {
            None => result matches Ok(shape) && shape@ == shape_named(inputs@, name@),
            Some(text) => result matches Err(error) && crate::gpu::is_inference_error(error, text),
        },
{
    let mut i: usize = 0;
    while i < inputs.len() && !same_text(inputs[i].name.as_str(), name)
        invariant
            i <= inputs@.len(),
            forall|j: int| 0 <= j < i ==> (#[trigger] inputs@[j]).name@ != name@,
        decreases inputs@.len() - i,
    {
        i = i + 1;
    }
    proof {
        lemma_input_named(inputs@, name@, i as int);
    }
    if i == inputs.len() {
        return Err(GpuError::Inference(quoted("model has no input `", name, "`")));
    }
    match &inputs[i].shape {
        None => Err(GpuError::Inference(quoted("input `", name, "` is not a tensor"))),
        Some(shape) => if all_positive(shape.as_slice()) {
            Ok(copied_shape(shape.as_slice()))
        } else {
            Err(GpuError::Inference(quoted("input `", name, "` has a dynamic shape")))
        },
    }
}

/// The tensors of the recurrent model.
pub struct RvmTensors {
    pub name: String,
    pub size: FrameSize,
    pub input: Vec<i64>,
    pub alpha: Vec<i64>,
    /// There are two tensors of each of these shapes.
    pub states: Vec<Vec<i64>>,
}

/// The first fault of the states, from one on.
pub open spec fn states_fault(inputs: Seq<TensorInput>, from: int) -> Option<Seq<char>>
    decreases 4 - from,
{
    if from >= 4 {
        None
    } else {
        match shape_fault(inputs, crate::segmentation::state_input_name(from)) {
            Some(text) => Some(text),
            None => states_fault(inputs, from + 1),
        }
    }
}

/// Plans the tensors of the recurrent model at a size.
pub fn load_rvm(inputs: &[TensorInput], variant: ModelVariant) -> (result: Result<
    RvmTensors,
    GpuError,
>)
    ensures
        ({
            let size = Dims { width: variant.width as int, height: variant.height as int };
            if !size.valid() {
                result == Err::<RvmTensors, GpuError>(
                    GpuError::Core(
                        crate::error::CoreError::InvalidFrameSize {
                            width: variant.width,
                            height: variant.height,
                        },
                    ),
                )
            } else {
                match (shape_fault(inputs@, "src"@), states_fault(inputs@, 0)) {
                    (Some(text), _) => result matches Err(error)
                        && crate::gpu::is_inference_error(error, text),
                    (None, Some(text)) => result matches Err(error)
                        && crate::gpu::is_inference_error(error, text),
                    (None, None) => {
                        &&& result matches Ok(made)
                        &&& made.size@ == size
                        &&& made.input@ == shape_named(inputs@, "src"@)
                        &&& made.alpha@ == seq![
                            1i64,
                            1i64,
                            variant.height as i64,
                            variant.width as i64,
                        ]
                        &&& made.states@.len() == 4
                        &&& forall|i: int|
                            0 <= i < 4 ==> (#[trigger] made.states@[i])@ == shape_named(
                                inputs@,
                                crate::segmentation::state_input_name(i),
                            )
                        &&& made.name@ == "RVM MobileNetV3 fp16 "@ + crate::text::decimal(
                            variant.width as nat,
                        ) + "x"@ + crate::text::decimal(variant.height as nat) + " (DirectML)"@
                    },
                }
            }
        }),
{
    let size = match FrameSize::new(variant.width, variant.height) {
        Ok(size) => size,
        Err(error) => return Err(GpuError::Core(error)),
    };
    let input = match input_shape(inputs, "src") {
        Ok(shape) => shape,
        Err(error) => return Err(error),
    };
    let alpha: Vec<i64> = vec![1i64, 1i64, variant.height as i64, variant.width as i64];
    proof {
        assert(alpha@ =~= seq![1i64, 1i64, variant.height as i64, variant.width as i64]);
    }
    let mut states: Vec<Vec<i64>> = Vec::new();
    let mut i: usize = 0;
    while i < 4
        invariant
            i <= 4,
            states@.len() == i,
            states_fault(inputs@, 0) == states_fault(inputs@, i as int),
            forall|j: int|
                0 <= j < i ==> (#[trigger] states@[j])@ == shape_named(
                    inputs@,
                    crate::segmentation::state_input_name(j),
                ),
            shape_fault(inputs@, "src"@) is None,
            (Dims { width: variant.width as int, height: variant.height as int }).valid(),
        decreases 4 - i,
    {
        let name: &str = if i == 0 {
            "r1i"
        } else if i == 1 {
            "r2i"
        } else if i == 2 {
            "r3i"
        } else {
            "r4i"
        };
        match input_shape(inputs, name) {
            Ok(shape) => states.push(shape),
            Err(error) => return Err(error),
        }
        i = i + 1;
    }
    let mut name = String::new();
    name.append("RVM MobileNetV3 fp16 ");
    push_decimal(&mut name, variant.width as u64);
    name.append("x");
    push_decimal(&mut name, variant.height as u64);
    name.append(" (DirectML)");
    proof {
        assert(name@ =~= "RVM MobileNetV3 fp16 "@ + crate::text::decimal(variant.width as nat)
            + "x"@ + crate::text::decimal(variant.height as nat) + " (DirectML)"@);
    }
    Ok(RvmTensors { name, size, input, alpha, states })
}

/// The set of states that is read in a turn.
pub open spec fn states_read(turn: usize) -> int {
    turn as int
}

/// The set of states that is written in a turn.
pub open spec fn states_written(turn: usize) -> int {
    1 - turn
}

/// The sets of states that are bound as inputs and as outputs in a turn.
pub fn state_sets(turn: usize) -> (sets: (usize, usize))
    requires
        turn <= 1,
    ensures
        sets.0 == states_read(turn),
        sets.1 == states_written(turn),
{
    (turn, 1 - turn)
}

/// The turn after a turn.
pub fn next_turn(turn: usize) -> (next: usize)
    requires
        turn <= 1,
    ensures
        next == 1 - turn,
{
    1 - turn
}

/// What one turn writes the next one reads, and no turn reads what it writes.
pub proof fn law_states_are_handed_on(turn: usize, next: usize)
    requires
        turn <= 1,
        next == 1 - turn,
    ensures
        states_read(next) == states_written(turn),
        states_written(next) == states_read(turn),
        states_read(turn) != states_written(turn),
{
}

/// The tensors of the memoryless model.
pub struct MediaPipeTensors {
    pub name: String,
    pub size: FrameSize,
    pub input_name: String,
    pub output_name: String,
    pub input: Vec<i64>,
    pub alpha: Vec<i64>,
}

/// Plans the tensors of the memoryless model.
pub fn load_mediapipe(inputs: &[TensorInput], outputs: &[String]) -> (result: Result<
    MediaPipeTensors,
    GpuError,
>)
    ensures
        if inputs@.len() == 0 {
            result matches Err(error) && crate::gpu::is_inference_error(
                error,
                "model has no inputs"@,
            )
        } else if outputs@.len() == 0 {
            result matches Err(error) && crate::gpu::is_inference_error(
                error,
                "model has no outputs"@,
            )
        } else {
            match shape_fault(inputs@, inputs@[0].name@) {
                Some(text) => result matches Err(error) && crate::gpu::is_inference_error(
                    error,
                    text,
                ),
                None => {
                    let shape = shape_named(inputs@, inputs@[0].name@);
                    let size = Dims {
                        width: shape[2] as u32 as int,
                        height: shape[1] as u32 as int,
                    };
                    if !crate::segmentation::is_picture_shape(shape) {
                        result matches Err(error) && crate::gpu::is_inference_error(
                            error,
                            "unexpected input shape "@ + crate::segmentation::shape_text(shape),
                        )
                    } else if !size.valid() {
                        result == Err::<MediaPipeTensors, GpuError>(
                            GpuError::Core(
                                crate::error::CoreError::InvalidFrameSize {
                                    width: shape[2] as u32,
                                    height: shape[1] as u32,
                                },
                            ),
                        )
                    } else {
                        &&& result matches Ok(made)
                        &&& made.size@ == size
                        &&& made.input_name@ == inputs@[0].name@
                        &&& made.output_name@ == outputs@[0]@
                        &&& made.input@ == shape
                        &&& made.alpha@ == seq![1i64, shape[1], shape[2], 1i64]
                        &&& made.name@ == "MediaPipe Selfie Segmentation "@
                            + crate::text::signed_decimal(shape[2] as int) + "x"@
                            + crate::text::signed_decimal(shape[1] as int) + " (DirectML)"@
                    }
                },
            }
        },
{
    if inputs.len() == 0 {
        return Err(GpuError::Inference("model has no inputs".to_owned()));
    }
    if outputs.len() == 0 {
        return Err(GpuError::Inference("model has no outputs".to_owned()));
    }
    let input = match input_shape(inputs, inputs[0].name.as_str()) {
        Ok(shape) => shape,
        Err(error) => return Err(error),
    };
    if input.len() != 4 || input[0] != 1 || input[3] != 3 {
        let mut text = String::new();
        text.append("unexpected input shape ");
        push_shape(&mut text, input.as_slice());
        proof {
            assert(text@ =~= "unexpected input shape "@ + crate::segmentation::shape_text(input@));
        }
        return Err(GpuError::Inference(text));
    }
    let (width, height): (i64, i64) = (input[2], input[1]);
    let size = match FrameSize::new(
        #[verifier::truncate]
        (width as u32),
        #[verifier::truncate]
        (height as u32),
    ) {
        Ok(size) => size,
        Err(error) => return Err(GpuError::Core(error)),
    };
    let alpha: Vec<i64> = vec![1i64, height, width, 1i64];
    let mut name = String::new();
    name.append("MediaPipe Selfie Segmentation ");
    push_signed(&mut name, width);
    name.append("x");
    push_signed(&mut name, height);
    name.append(" (DirectML)");
    proof {
        assert(alpha@ =~= seq![1i64, height, width, 1i64]);
        assert(name@ =~= "MediaPipe Selfie Segmentation "@ + crate::text::signed_decimal(
            width as int,
        ) + "x"@ + crate::text::signed_decimal(height as int) + " (DirectML)"@);
    }
    Ok(
        MediaPipeTensors {
            name,
            size,
            input_name: inputs[0].name.clone(),
            output_name: outputs[0].clone(),
            input,
            alpha,
        },
    )
}

} // verus!
