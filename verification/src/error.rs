use vstd::prelude::*;

verus! {

/// The configuration field that a validation error points at.
#[derive(Clone, Copy, Debug, PartialEq, Eq, Structural)]
pub enum ConfigField {
    ImageOverVideoScale,
    MinFaceSize,
    ScoreThresh,
    PyramidScaleFactor,
    SlideWindowStep,
}

/// Error taxonomy of the tracking core.
///
/// `InitializationError` and `StepError` are raised by the boundary when a
/// collaborator (capture source, model fetch, detector) fails; the core
/// itself raises `ConfigValidationError` and `InvalidBufferSize`.
#[derive(Clone, Copy, Debug, PartialEq, Eq, Structural)]
pub enum AppError {
    /// Capture acquisition or model fetch/parse failed: fatal to construction.
    InitializationError,
    /// Frame draw/readback or detector invocation failed: scoped to one tick.
    StepError,
    /// A configuration value lies outside its documented range.
    ConfigValidationError(ConfigField),
    /// A packed-pixel buffer does not have length `width * height * 4`.
    InvalidBufferSize { expected: u128, actual: u128 },
}

} // verus!
