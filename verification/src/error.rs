//! The ways a pipeline can fail. Every failure is fatal to the run that
//! meets it; nothing is retried.

use vstd::prelude::*;

verus! {

/// The four kinds of stage.
#[derive(Clone, Copy, Debug, PartialEq, Eq, Structural)]
pub enum StageKind {
    Load,
    Resize,
    Dither,
    Save,
}

/// A token that a stage expects on the command sequence.
#[derive(Clone, Copy, Debug, PartialEq, Eq, Structural)]
pub enum Argument {
    /// The stage token itself: the sequence was empty.
    Stage,
    /// The path after `--load`.
    LoadPath,
    /// The width after `--lanczos`.
    ResizeWidth,
    /// The height after `--lanczos`.
    ResizeHeight,
    /// The path after `--save`.
    SavePath,
}

/// Why a source image could not be turned into an [`crate::Image`].
#[derive(Debug, PartialEq, Eq)]
pub enum DecodeFailure {
    /// The bytes could not be read from their source.
    Unreadable,
    /// The decoder rejected the bytes, with this message.
    Malformed(String),
    /// The source holds floating-point (high dynamic range) samples.
    HighDynamicRange,
    /// The source has this many channels per pixel instead of three.
    Depth(usize),
    /// The decoder's buffer does not hold `width * height` pixels.
    Truncated,
}

/// The mathematical content of a [`DecodeFailure`]: the same cases, with the
/// decoder's message as its sequence of characters.
pub enum DecodeFailureView {
    Unreadable,
    Malformed(Seq<char>),
    HighDynamicRange,
    Depth(usize),
    Truncated,
}

impl View for DecodeFailure {
    type V = DecodeFailureView;

    open spec fn view(&self) -> DecodeFailureView {
        match self {
            DecodeFailure::Unreadable => DecodeFailureView::Unreadable,
            DecodeFailure::Malformed(message) => DecodeFailureView::Malformed(message@),
            DecodeFailure::HighDynamicRange => DecodeFailureView::HighDynamicRange,
            DecodeFailure::Depth(depth) => DecodeFailureView::Depth(*depth),
            DecodeFailure::Truncated => DecodeFailureView::Truncated,
        }
    }
}

/// Everything that can end a pipeline early.
#[derive(Debug, PartialEq, Eq)]
pub enum PipelineError {
    /// The source image is malformed or unsupported.
    Decode(DecodeFailure),
    /// The image could not be written to the given path.
    Encode(String),
    /// The given token names no stage.
    UnknownStage(String),
    /// A stage's required argument is missing.
    MissingArgument(Argument),
    /// The given token is no non-negative integer that fits the machine.
    Parse(String),
    /// A stage of this kind needs an input image and got none.
    MissingInput(StageKind),
    /// A pixel coordinate lies outside the image.
    OutOfRange,
    /// A zero width or height, a size beyond the address space, or a
    /// resampling window whose weights sum to zero.
    DegenerateGeometry,
}

/// The mathematical content of a [`PipelineError`]: the same cases, with
/// each token or path as its sequence of characters.
pub enum ErrorView {
    Decode(DecodeFailureView),
    Encode(Seq<char>),
    UnknownStage(Seq<char>),
    MissingArgument(Argument),
    Parse(Seq<char>),
    MissingInput(StageKind),
    OutOfRange,
    DegenerateGeometry,
}

impl View for PipelineError {
    type V = ErrorView;

    open spec fn view(&self) -> ErrorView {
        match self {
            PipelineError::Decode(failure) => ErrorView::Decode(failure@),
            PipelineError::Encode(path) => ErrorView::Encode(path@),
            PipelineError::UnknownStage(token) => ErrorView::UnknownStage(token@),
            PipelineError::MissingArgument(argument) => ErrorView::MissingArgument(*argument),
            PipelineError::Parse(token) => ErrorView::Parse(token@),
            PipelineError::MissingInput(kind) => ErrorView::MissingInput(*kind),
            PipelineError::OutOfRange => ErrorView::OutOfRange,
            PipelineError::DegenerateGeometry => ErrorView::DegenerateGeometry,
        }
    }
}

} // verus!
