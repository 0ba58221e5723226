//! The discrete V-carve choices: bit shape, check mode, and the legacy
//! rule that decides whether V-carve output is flipped.
use vstd::prelude::*;
use crate::text::str_eq;
use crate::settings::{LegacySettings, get_legacy_bool, legacy_bool, last_value};

verus! {

/// The cutter profile used for V-carving.
#[derive(Debug, Clone, Copy, PartialEq, Eq)]
pub enum BitShape {
    VBit,
    Ball,
    Flat,
}

/// Whether V-carve clearance is checked against all glyphs or per character.
#[derive(Debug, Clone, Copy, PartialEq, Eq)]
pub enum VCarveCheckMode {
    All,
    Character,
}

/// V-carve generation was stopped by its cancel hook.
#[derive(Debug, Clone, Copy, PartialEq, Eq)]
pub struct VCarveCanceled;

/// `BALL` and `FLAT` select themselves; anything else a V-bit.
pub open spec fn bit_shape_of(v: Seq<char>) -> BitShape {
    if v == "BALL"@ {
        BitShape::Ball
    } else if v == "FLAT"@ {
        BitShape::Flat
    } else {
        BitShape::VBit
    }
}

/// `chr` checks per character; anything else checks all glyphs.
pub open spec fn check_mode_of(v: Seq<char>) -> VCarveCheckMode {
    if v == "chr"@ {
        VCarveCheckMode::Character
    } else {
        VCarveCheckMode::All
    }
}

impl BitShape {
    pub fn parse(value: &str) -> (r: Self)
        ensures
            r == bit_shape_of(value@),
    {
        if str_eq(value, "BALL") {
            BitShape::Ball
        } else if str_eq(value, "FLAT") {
            BitShape::Flat
        } else {
            BitShape::VBit
        }
    }
}

impl VCarveCheckMode {
    pub fn parse(value: &str) -> (r: Self)
        ensures
            r == check_mode_of(value@),
    {
        if str_eq(value, "chr") {
            VCarveCheckMode::Character
        } else {
            VCarveCheckMode::All
        }
    }
}

/// `v_flop`, toggled once by each of `plotbox`, `mirror` and `flip` that is
/// set, the toggles applying only to text input.
pub open spec fn v_flop_of(settings: LegacySettings) -> bool {
    let base = legacy_bool(settings@, "v_flop"@, false);
    if last_value(settings@, "input_type"@) == Some("text"@) {
        let toggles = (if legacy_bool(settings@, "plotbox"@, false) { 1int } else { 0 })
            + (if legacy_bool(settings@, "mirror"@, false) { 1int } else { 0 })
            + (if legacy_bool(settings@, "flip"@, false) { 1int } else { 0 });
        base != (toggles % 2 == 1)
    } else {
        base
    }
}

/// Whether V-carve output is flipped.
pub fn f_engrave_v_flop(settings: &LegacySettings) -> (r: bool)
    ensures
        r == v_flop_of(*settings),
{
    let mut v_flop = get_legacy_bool(settings, "v_flop", false);
    let is_text = match settings.get_last("input_type") {
        Some(v) => str_eq(v, "text"),
        None => false,
    };
    if is_text {
        if get_legacy_bool(settings, "plotbox", false) {
            v_flop = !v_flop;
        }
        if get_legacy_bool(settings, "mirror", false) {
            v_flop = !v_flop;
        }
        if get_legacy_bool(settings, "flip", false) {
            v_flop = !v_flop;
        }
    }
    v_flop
}

/// How a laid-out design is cut: along its strokes, or V-carved; an image
/// input V-carves with clearance checked against all glyphs and its
/// segments sorted first.
#[derive(Debug, Clone, Copy, PartialEq, Eq)]
pub enum CutPlan {
    Engrave,
    VCarve { image_input: bool },
}

/// V-carving is chosen by `cut_type` `v-carve`, unless the bit is flat;
/// anything else engraves along the strokes.
pub open spec fn cut_plan_of(settings: LegacySettings, bit_shape: BitShape) -> CutPlan {
    if last_value(settings@, "cut_type"@) != Some("v-carve"@) || bit_shape == BitShape::Flat {
        CutPlan::Engrave
    } else {
        CutPlan::VCarve { image_input: last_value(settings@, "input_type"@) == Some("image"@) }
    }
}

/// Chooses how the design is cut.
pub fn layout_cut_plan(settings: &LegacySettings, bit_shape: BitShape) -> (r: CutPlan)
    ensures
        r == cut_plan_of(*settings, bit_shape),
{
    let vcarve = match settings.get_last("cut_type") {
        Some(v) => str_eq(v, "v-carve"),
        None => false,
    };
    let flat = match bit_shape {
        BitShape::Flat => true,
        _ => false,
    };
    if !vcarve || flat {
        return CutPlan::Engrave;
    }
    let image_input = match settings.get_last("input_type") {
        Some(v) => str_eq(v, "image"),
        None => false,
    };
    CutPlan::VCarve { image_input }
}

} // verus!
