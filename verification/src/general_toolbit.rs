//! The kinds of physical cutters and their spindle directions.
use vstd::prelude::*;

verus! {

/// The geometry family of a cutter.
#[derive(Debug, Clone, Copy, PartialEq, Eq)]
pub enum GeneralToolbitKind {
    Endmill,
    Ballnose,
    Bullnose,
    VBit,
    Chamfer,
    Drill,
    SlittingSaw,
    Probe,
}

impl GeneralToolbitKind {
    /// The name shown for this kind.
    pub fn label(self) -> (r: &'static str)
        ensures
            r@ == (match self {
                GeneralToolbitKind::Endmill => "Endmill"@,
                GeneralToolbitKind::Ballnose => "Ballnose"@,
                GeneralToolbitKind::Bullnose => "Bullnose"@,
                GeneralToolbitKind::VBit => "V-bit"@,
                GeneralToolbitKind::Chamfer => "Chamfer"@,
                GeneralToolbitKind::Drill => "Drill"@,
                GeneralToolbitKind::SlittingSaw => "Slitting saw"@,
                GeneralToolbitKind::Probe => "Probe"@,
            }),
    {
        match self {
            GeneralToolbitKind::Endmill => "Endmill",
            GeneralToolbitKind::Ballnose => "Ballnose",
            GeneralToolbitKind::Bullnose => "Bullnose",
            GeneralToolbitKind::VBit => "V-bit",
            GeneralToolbitKind::Chamfer => "Chamfer",
            GeneralToolbitKind::Drill => "Drill",
            GeneralToolbitKind::SlittingSaw => "Slitting saw",
            GeneralToolbitKind::Probe => "Probe",
        }
    }

    /// The shape-asset name of this kind in the common toolbit catalog.
    pub fn asset_name(self) -> (r: &'static str)
        ensures
            r@ == (match self {
                GeneralToolbitKind::Endmill => "endmill"@,
                GeneralToolbitKind::Ballnose => "ballend"@,
                GeneralToolbitKind::Bullnose => "bullnose"@,
                GeneralToolbitKind::VBit => "v-bit"@,
                GeneralToolbitKind::Chamfer => "chamfer"@,
                GeneralToolbitKind::Drill => "drill"@,
                GeneralToolbitKind::SlittingSaw => "slittingsaw"@,
                GeneralToolbitKind::Probe => "probe"@,
            }),
    {
        match self {
            GeneralToolbitKind::Endmill => "endmill",
            GeneralToolbitKind::Ballnose => "ballend",
            GeneralToolbitKind::Bullnose => "bullnose",
            GeneralToolbitKind::VBit => "v-bit",
            GeneralToolbitKind::Chamfer => "chamfer",
            GeneralToolbitKind::Drill => "drill",
            GeneralToolbitKind::SlittingSaw => "slittingsaw",
            GeneralToolbitKind::Probe => "probe",
        }
    }
}

/// The spindle direction of a cutter.
#[derive(Debug, Clone, Copy, PartialEq, Eq)]
pub enum GeneralSpindleDirection {
    Forward,
    Reverse,
}

impl GeneralSpindleDirection {
    /// The name shown for this direction.
    pub fn label(self) -> (r: &'static str)
        ensures
            r@ == (match self {
                GeneralSpindleDirection::Forward => "Forward"@,
                GeneralSpindleDirection::Reverse => "Reverse"@,
            }),
    {
        match self {
            GeneralSpindleDirection::Forward => "Forward",
            GeneralSpindleDirection::Reverse => "Reverse",
        }
    }
}

} // verus!
