//! Errors of the frame processing.

use vstd::prelude::*;

use crate::text::push_decimal;

verus! {

#[derive(Debug, PartialEq, Eq)]
pub enum CoreError {
    InvalidFrameSize { width: u32, height: u32 },
    PlaneSizeMismatch { expected: usize, actual: usize },
    ModelNotFound(String),
    ModelFormat(String),
    Inference(String),
    Image(String),
    FrameSizeMismatch {
        expected_width: u32,
        expected_height: u32,
        actual_width: u32,
        actual_height: u32,
    },
}

impl CoreError {
    /// The text that describes this error to a reader of the log.
    pub open spec fn text(self) -> Seq<char> {
        match self {
            CoreError::InvalidFrameSize { width, height } => {
                "frame size "@ + crate::text::decimal(width as nat) + "x"@ + crate::text::decimal(
                    height as nat,
                ) + " must be non-zero and even in both dimensions"@
            },
            CoreError::PlaneSizeMismatch { expected, actual } => {
                "plane has "@ + crate::text::decimal(actual as nat) + " bytes, expected "@
                    + crate::text::decimal(expected as nat)
            },
            CoreError::ModelNotFound(detail) => "model file not found: "@ + detail@,
            CoreError::ModelFormat(detail) => "unexpected model format: "@ + detail@,
            CoreError::Inference(detail) => "inference failed: "@ + detail@,
            CoreError::Image(detail) => "image could not be decoded: "@ + detail@,
            CoreError::FrameSizeMismatch {
                expected_width,
                expected_height,
                actual_width,
                actual_height,
            } => {
                "frame is "@ + crate::text::decimal(actual_width as nat) + "x"@
                    + crate::text::decimal(actual_height as nat) + ", expected "@
                    + crate::text::decimal(expected_width as nat) + "x"@ + crate::text::decimal(
                    expected_height as nat,
                )
            },
        }
    }

    /// Describes the error in one line.
    pub fn message(&self) -> (message: String)
        ensures
            message@ == self.text(),
    {
        let mut message = String::new();
        match self {
            CoreError::InvalidFrameSize { width, height } => {
                message.append("frame size ");
                push_decimal(&mut message, *width as u64);
                message.append("x");
                push_decimal(&mut message, *height as u64);
                message.append(" must be non-zero and even in both dimensions");
            },
            CoreError::PlaneSizeMismatch { expected, actual } => {
                message.append("plane has ");
                push_decimal(&mut message, *actual as u64);
                message.append(" bytes, expected ");
                push_decimal(&mut message, *expected as u64);
            },
            CoreError::ModelNotFound(detail) => {
                message.append("model file not found: ");
                message.append(detail.as_str());
            },
            CoreError::ModelFormat(detail) => {
                message.append("unexpected model format: ");
                message.append(detail.as_str());
            },
            CoreError::Inference(detail) => {
                message.append("inference failed: ");
                message.append(detail.as_str());
            },
            CoreError::Image(detail) => {
                message.append("image could not be decoded: ");
                message.append(detail.as_str());
            },
            CoreError::FrameSizeMismatch {
                expected_width,
                expected_height,
                actual_width,
                actual_height,
            } => {
                message.append("frame is ");
                push_decimal(&mut message, *actual_width as u64);
                message.append("x");
                push_decimal(&mut message, *actual_height as u64);
                message.append(", expected ");
                push_decimal(&mut message, *expected_width as u64);
                message.append("x");
                push_decimal(&mut message, *expected_height as u64);
            },
        }
        proof {
            assert(message@ =~= self.text());
        }
        message
    }
}

/// Accepts a plane of the expected length.
pub fn check_len(expected: usize, actual: usize) -> (result: Result<(), CoreError>)
    ensures
        result == if expected == actual {
            Ok::<(), CoreError>(())
        } else {
            Err(CoreError::PlaneSizeMismatch { expected, actual })
        },
{
    if expected == actual {
        Ok(())
    } else {
        Err(CoreError::PlaneSizeMismatch { expected, actual })
    }
}

} // verus!
