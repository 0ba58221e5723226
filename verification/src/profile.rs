//! The discrete profile-cut choices: origin alignment and the profile tools.
use vstd::prelude::*;
use crate::text::str_eq;

verus! {

/// The point of the profile envelope aligned with the origin.
#[derive(Debug, Clone, Copy, PartialEq, Eq)]
pub enum ProfileOrigin {
    Default,
    TopLeft,
    TopCenter,
    TopRight,
    MidLeft,
    MidCenter,
    MidRight,
    BotLeft,
    BotCenter,
    BotRight,
    ArcCenter,
}

/// The legacy origin names (`Top-Left` .. `Arc-Center`); anything else `Default`.
pub open spec fn profile_origin_of(v: Seq<char>) -> ProfileOrigin {
    if v == "Top-Left"@ {
        ProfileOrigin::TopLeft
    } else if v == "Top-Center"@ {
        ProfileOrigin::TopCenter
    } else if v == "Top-Right"@ {
        ProfileOrigin::TopRight
    } else if v == "Mid-Left"@ {
        ProfileOrigin::MidLeft
    } else if v == "Mid-Center"@ {
        ProfileOrigin::MidCenter
    } else if v == "Mid-Right"@ {
        ProfileOrigin::MidRight
    } else if v == "Bot-Left"@ {
        ProfileOrigin::BotLeft
    } else if v == "Bot-Center"@ {
        ProfileOrigin::BotCenter
    } else if v == "Bot-Right"@ {
        ProfileOrigin::BotRight
    } else if v == "Arc-Center"@ {
        ProfileOrigin::ArcCenter
    } else {
        ProfileOrigin::Default
    }
}

impl ProfileOrigin {
    pub fn parse(value: &str) -> (r: Self)
        ensures
            r == profile_origin_of(value@),
    {
        if str_eq(value, "Top-Left") {
            ProfileOrigin::TopLeft
        } else if str_eq(value, "Top-Center") {
            ProfileOrigin::TopCenter
        } else if str_eq(value, "Top-Right") {
            ProfileOrigin::TopRight
        } else if str_eq(value, "Mid-Left") {
            ProfileOrigin::MidLeft
        } else if str_eq(value, "Mid-Center") {
            ProfileOrigin::MidCenter
        } else if str_eq(value, "Mid-Right") {
            ProfileOrigin::MidRight
        } else if str_eq(value, "Bot-Left") {
            ProfileOrigin::BotLeft
        } else if str_eq(value, "Bot-Center") {
            ProfileOrigin::BotCenter
        } else if str_eq(value, "Bot-Right") {
            ProfileOrigin::BotRight
        } else if str_eq(value, "Arc-Center") {
            ProfileOrigin::ArcCenter
        } else {
            ProfileOrigin::Default
        }
    }
}

/// The cutter of a profile operation.
#[derive(Debug, Clone, Copy, PartialEq, Eq)]
pub enum ProfileTool {
    VBitChamfer,
    StraightEndmill,
}

impl ProfileTool {
    /// The file-name suffix of this operation's G-code.
    pub fn suffix(self) -> (r: &'static str)
        ensures
            r@ == (match self {
                ProfileTool::VBitChamfer => "profile_chamfer"@,
                ProfileTool::StraightEndmill => "profile"@,
            }),
    {
        match self {
            ProfileTool::VBitChamfer => "profile_chamfer",
            ProfileTool::StraightEndmill => "profile",
        }
    }

    /// The comment that opens this operation's G-code.
    pub fn comment(self) -> (r: &'static str)
        ensures
            r@ == (match self {
                ProfileTool::VBitChamfer => "R-Engrave V-bit profile chamfer operation"@,
                ProfileTool::StraightEndmill => "R-Engrave straight profile cut operation"@,
            }),
    {
        match self {
            ProfileTool::VBitChamfer => "R-Engrave V-bit profile chamfer operation",
            ProfileTool::StraightEndmill => "R-Engrave straight profile cut operation",
        }
    }
}

} // verus!
