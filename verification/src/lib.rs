//! Verified core of the R-Engrave CNC engraving toolchain.

use vstd::prelude::*;

pub mod text;
pub mod settings;
pub mod comments;
pub mod potrace;
pub mod decompose;
pub mod straight;
pub mod layout;
pub mod gcode;
pub mod vcarve;
pub mod profile;
pub mod cleanup;
pub mod general_pocket;
pub mod general_profile;
pub mod general_toolbit;
pub mod toolbit;
pub mod design;
pub mod dxf;
pub mod svg;
pub mod export;
pub mod font;
pub mod cxf;
pub mod bitmap;
pub mod paths;
pub mod external;
pub mod project;
pub mod batch;

verus! {

/// The F-Engrave release whose output this library reproduces.
pub const FENGRAVE_VERSION: &'static str = "1.78";

/// This library's version.
pub const RENGRAVE_VERSION: &'static str = "0.1.0";

} // verus!
