//! Profile operation choices and the reasons a profile cannot be generated.
use vstd::prelude::*;

verus! {

/// Which side of the vector the cutter runs on.
#[derive(Debug, Clone, Copy, PartialEq, Eq)]
pub enum ProfileCutSide {
    Outside,
    OnLine,
    Inside,
}

impl ProfileCutSide {
    /// The name shown for this side.
    pub fn label(self) -> (r: &'static str)
        ensures
            r@ == (match self {
                ProfileCutSide::Outside => "Outside"@,
                ProfileCutSide::OnLine => "On the line"@,
                ProfileCutSide::Inside => "Inside"@,
            }),
    {
        match self {
            ProfileCutSide::Outside => "Outside",
            ProfileCutSide::OnLine => "On the line",
            ProfileCutSide::Inside => "Inside",
        }
    }
}

impl Default for ProfileCutSide {
    /// Cutting outside the vector.
    fn default() -> (r: Self)
        ensures
            r == ProfileCutSide::Outside,
    {
        ProfileCutSide::Outside
    }
}

/// Why a profile could not be generated.
#[derive(Debug, Clone, Copy, PartialEq, Eq)]
pub enum ProfileGenerationError {
    SourceMismatch,
    UnsupportedTool,
    NonFiniteParameter,
    InvalidDepth,
    InvalidFeed,
    CutDepthExceedsTool,
    CollapsedBoundary,
    NoExteriorBoundary,
}

impl ProfileGenerationError {
    /// The message shown for this error.
    pub fn message(self) -> (r: &'static str)
        ensures
            r@ == (match self {
                ProfileGenerationError::SourceMismatch => "the profile operation does not reference the supplied vector"@,
                ProfileGenerationError::UnsupportedTool => "the selected toolbit is not suitable for profile cutting"@,
                ProfileGenerationError::NonFiniteParameter => "profile dimensions must contain finite values"@,
                ProfileGenerationError::InvalidDepth => "cut depth, pass depth, and safe height must be greater than zero"@,
                ProfileGenerationError::InvalidFeed => "tool feed and plunge rates must be greater than zero"@,
                ProfileGenerationError::CutDepthExceedsTool => "cut depth exceeds the toolbit cutting edge height"@,
                ProfileGenerationError::CollapsedBoundary => "the selected side and offset collapse the profile boundary"@,
                ProfileGenerationError::NoExteriorBoundary => "the selected vector has no closed exterior boundary"@,
            }),
    {
        match self {
            ProfileGenerationError::SourceMismatch => "the profile operation does not reference the supplied vector",
            ProfileGenerationError::UnsupportedTool => "the selected toolbit is not suitable for profile cutting",
            ProfileGenerationError::NonFiniteParameter => "profile dimensions must contain finite values",
            ProfileGenerationError::InvalidDepth => "cut depth, pass depth, and safe height must be greater than zero",
            ProfileGenerationError::InvalidFeed => "tool feed and plunge rates must be greater than zero",
            ProfileGenerationError::CutDepthExceedsTool => "cut depth exceeds the toolbit cutting edge height",
            ProfileGenerationError::CollapsedBoundary => "the selected side and offset collapse the profile boundary",
            ProfileGenerationError::NoExteriorBoundary => "the selected vector has no closed exterior boundary",
        }
    }
}

} // verus!
