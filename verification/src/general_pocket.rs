//! Pocket operation choices and the reasons a pocket cannot be generated.
use vstd::prelude::*;

verus! {

/// How the pocket interior is cleared.
#[derive(Debug, Clone, Copy, PartialEq, Eq)]
pub enum PocketPathPattern {
    ZigZag,
    Offset,
    ZigZagOffset,
    Grid,
    Line,
}

impl PocketPathPattern {
    /// The name shown for this pattern.
    pub fn label(self) -> (r: &'static str)
        ensures
            r@ == (match self {
                PocketPathPattern::ZigZag => "ZigZag"@,
                PocketPathPattern::Offset => "Offset"@,
                PocketPathPattern::ZigZagOffset => "ZigZag + Offset"@,
                PocketPathPattern::Grid => "Grid"@,
                PocketPathPattern::Line => "Line"@,
            }),
    {
        match self {
            PocketPathPattern::ZigZag => "ZigZag",
            PocketPathPattern::Offset => "Offset",
            PocketPathPattern::ZigZagOffset => "ZigZag + Offset",
            PocketPathPattern::Grid => "Grid",
            PocketPathPattern::Line => "Line",
        }
    }
}

/// Climb or conventional milling.
#[derive(Debug, Clone, Copy, PartialEq, Eq)]
pub enum PocketCutMode {
    Climb,
    Conventional,
}

impl PocketCutMode {
    /// The name shown for this mode.
    pub fn label(self) -> (r: &'static str)
        ensures
            r@ == (match self {
                PocketCutMode::Climb => "Climb"@,
                PocketCutMode::Conventional => "Conventional"@,
            }),
    {
        match self {
            PocketCutMode::Climb => "Climb",
            PocketCutMode::Conventional => "Conventional",
        }
    }
}

impl Default for PocketCutMode {
    /// Climb milling.
    fn default() -> (r: Self)
        ensures
            r == PocketCutMode::Climb,
    {
        PocketCutMode::Climb
    }
}

/// Why a pocket could not be generated.
#[derive(Debug, Clone, Copy, PartialEq, Eq)]
pub enum PocketGenerationError {
    SourceMismatch,
    UnsupportedTool,
    NotClosed,
    ToolDoesNotFit,
    NonFiniteParameter,
    InvalidDepth,
    InvalidFeed,
    CutDepthExceedsTool,
}

impl PocketGenerationError {
    /// The message shown for this error.
    pub fn message(self) -> (r: &'static str)
        ensures
            r@ == (match self {
                PocketGenerationError::SourceMismatch => "the pocket operation does not reference the supplied vector"@,
                PocketGenerationError::UnsupportedTool => "the selected toolbit is not suitable for pocketing"@,
                PocketGenerationError::NotClosed => "the selected vector has no closed interior boundary"@,
                PocketGenerationError::ToolDoesNotFit => "the selected toolbit does not fit inside the vector"@,
                PocketGenerationError::NonFiniteParameter => "pocket parameters must contain finite values"@,
                PocketGenerationError::InvalidDepth => "cut depth, step down, step over, and safe height must be greater than zero"@,
                PocketGenerationError::InvalidFeed => "tool feed and plunge rates must be greater than zero"@,
                PocketGenerationError::CutDepthExceedsTool => "cut depth exceeds the toolbit cutting edge height"@,
            }),
    {
        match self {
            PocketGenerationError::SourceMismatch => "the pocket operation does not reference the supplied vector",
            PocketGenerationError::UnsupportedTool => "the selected toolbit is not suitable for pocketing",
            PocketGenerationError::NotClosed => "the selected vector has no closed interior boundary",
            PocketGenerationError::ToolDoesNotFit => "the selected toolbit does not fit inside the vector",
            PocketGenerationError::NonFiniteParameter => "pocket parameters must contain finite values",
            PocketGenerationError::InvalidDepth => "cut depth, step down, step over, and safe height must be greater than zero",
            PocketGenerationError::InvalidFeed => "tool feed and plunge rates must be greater than zero",
            PocketGenerationError::CutDepthExceedsTool => "cut depth exceeds the toolbit cutting edge height",
        }
    }
}

} // verus!
