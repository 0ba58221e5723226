//! The discrete layout choices read from legacy settings: how text height is
//! measured, justification, origin, input and cut type, and the layout flags.
use vstd::prelude::*;
use crate::text::str_eq;
use crate::settings::{LegacySettings, last_value, opt_str_view};

verus! {

/// Which glyphs set the text height.
#[derive(Debug, Clone, Copy, PartialEq, Eq)]
pub enum HeightCalc {
    MaxAll,
    MaxUse,
}

/// Horizontal justification of text lines.
#[derive(Debug, Clone, Copy, PartialEq, Eq)]
pub enum Justify {
    Left,
    Center,
    Right,
}

/// The point of the layout placed at the work origin.
#[derive(Debug, Clone, Copy, PartialEq, Eq)]
pub enum Origin {
    Default,
    TopLeft,
    TopCenter,
    TopRight,
    MidLeft,
    MidCenter,
    MidRight,
    BotLeft,
    BotCenter,
    BotRight,
    ArcCenter,
}

/// Whether the job engraves text or an image.
#[derive(Debug, Clone, Copy, PartialEq, Eq)]
pub enum InputType {
    Text,
    Image,
}

/// Engraving at constant depth or V-carving.
#[derive(Debug, Clone, Copy, PartialEq, Eq)]
pub enum CutType {
    Engrave,
    VCarve,
}

/// `max_all` selects `MaxAll`; anything else `MaxUse`.
pub open spec fn height_calc_of(v: Seq<char>) -> HeightCalc {
    if v == "max_all"@ {
        HeightCalc::MaxAll
    } else {
        HeightCalc::MaxUse
    }
}

/// `Center` and `Right` select themselves; anything else `Left`.
pub open spec fn justify_of(v: Seq<char>) -> Justify {
    if v == "Center"@ {
        Justify::Center
    } else if v == "Right"@ {
        Justify::Right
    } else {
        Justify::Left
    }
}

/// The legacy origin names (`Top-Left` .. `Arc-Center`); anything else `Default`.
pub open spec fn origin_of(v: Seq<char>) -> Origin {
    if v == "Top-Left"@ {
        Origin::TopLeft
    } else if v == "Top-Center"@ {
        Origin::TopCenter
    } else if v == "Top-Right"@ {
        Origin::TopRight
    } else if v == "Mid-Left"@ {
        Origin::MidLeft
    } else if v == "Mid-Center"@ {
        Origin::MidCenter
    } else if v == "Mid-Right"@ {
        Origin::MidRight
    } else if v == "Bot-Left"@ {
        Origin::BotLeft
    } else if v == "Bot-Center"@ {
        Origin::BotCenter
    } else if v == "Bot-Right"@ {
        Origin::BotRight
    } else if v == "Arc-Center"@ {
        Origin::ArcCenter
    } else {
        Origin::Default
    }
}

/// `image` selects `Image`; anything else `Text`.
pub open spec fn input_type_of(v: Seq<char>) -> InputType {
    if v == "image"@ {
        InputType::Image
    } else {
        InputType::Text
    }
}

/// `v-carve` selects `VCarve`; anything else `Engrave`.
pub open spec fn cut_type_of(v: Seq<char>) -> CutType {
    if v == "v-carve"@ {
        CutType::VCarve
    } else {
        CutType::Engrave
    }
}

impl HeightCalc {
    pub fn parse(value: &str) -> (r: Self)
        ensures
            r == height_calc_of(value@),
    {
        if str_eq(value, "max_all") {
            HeightCalc::MaxAll
        } else {
            HeightCalc::MaxUse
        }
    }
}

impl Justify {
    pub fn parse(value: &str) -> (r: Self)
        ensures
            r == justify_of(value@),
    {
        if str_eq(value, "Center") {
            Justify::Center
        } else if str_eq(value, "Right") {
            Justify::Right
        } else {
            Justify::Left
        }
    }
}

impl Origin {
    pub fn parse(value: &str) -> (r: Self)
        ensures
            r == origin_of(value@),
    {
        if str_eq(value, "Top-Left") {
            Origin::TopLeft
        } else if str_eq(value, "Top-Center") {
            Origin::TopCenter
        } else if str_eq(value, "Top-Right") {
            Origin::TopRight
        } else if str_eq(value, "Mid-Left") {
            Origin::MidLeft
        } else if str_eq(value, "Mid-Center") {
            Origin::MidCenter
        } else if str_eq(value, "Mid-Right") {
            Origin::MidRight
        } else if str_eq(value, "Bot-Left") {
            Origin::BotLeft
        } else if str_eq(value, "Bot-Center") {
            Origin::BotCenter
        } else if str_eq(value, "Bot-Right") {
            Origin::BotRight
        } else if str_eq(value, "Arc-Center") {
            Origin::ArcCenter
        } else {
            Origin::Default
        }
    }
}

impl InputType {
    pub fn parse(value: &str) -> (r: Self)
        ensures
            r == input_type_of(value@),
    {
        if str_eq(value, "image") {
            InputType::Image
        } else {
            InputType::Text
        }
    }
}

impl CutType {
    pub fn parse(value: &str) -> (r: Self)
        ensures
            r == cut_type_of(value@),
    {
        if str_eq(value, "v-carve") {
            CutType::VCarve
        } else {
            CutType::Engrave
        }
    }
}

/// A layout flag: exactly `1`, `true` or `True` reads as set.
pub open spec fn layout_true(v: Seq<char>) -> bool {
    v == "1"@ || v == "true"@ || v == "True"@
}

/// The layout flag stored under `key`, or `default` when it is absent.
pub open spec fn layout_bool(settings: LegacySettings, key: Seq<char>, default: bool) -> bool {
    match last_value(settings@, key) {
        Some(v) => layout_true(v),
        None => default,
    }
}

/// Reads a layout flag.
pub fn get_bool(settings: &LegacySettings, key: &str, default: bool) -> (r: bool)
    ensures
        r == layout_bool(*settings, key@, default),
{
    match settings.get_last(key) {
        Some(v) => str_eq(v, "1") || str_eq(v, "true") || str_eq(v, "True"),
        None => default,
    }
}

/// A setting's value, or `fallback` when the key is absent.
pub open spec fn value_or(settings: LegacySettings, key: Seq<char>, fallback: Seq<char>) -> Seq<char> {
    match last_value(settings@, key) {
        Some(v) => v,
        None => fallback,
    }
}

/// Reads a setting's value with a fallback.
pub fn get_or<'a>(settings: &'a LegacySettings, key: &str, fallback: &'a str) -> (r: &'a str)
    ensures
        r@ == value_or(*settings, key@, fallback@),
{
    let found = settings.get_last(key);
    proof {
        assert(opt_str_view(found) == last_value(settings@, key@));
    }
    match found {
        Some(v) => v,
        None => fallback,
    }
}

/// The non-numeric part of the layout settings.
#[derive(Debug, Clone, Copy, PartialEq, Eq)]
pub struct LayoutModes {
    pub height_calc: HeightCalc,
    pub origin: Origin,
    pub justify: Justify,
    pub mirror: bool,
    pub flip: bool,
    pub use_image_size: bool,
    pub input_type: InputType,
    pub cut_type: CutType,
    pub outer: bool,
    pub upper: bool,
}

impl LayoutModes {
    /// Reads the layout choices with the legacy defaults (`max_use`,
    /// `Default`, `Left`, `text`, `engrave`, outer and upper on).
    pub fn from_legacy(settings: &LegacySettings) -> (r: Self)
        ensures
            r.height_calc == height_calc_of(value_or(*settings, "H_CALC"@, "max_use"@)),
            r.origin == origin_of(value_or(*settings, "origin"@, "Default"@)),
            r.justify == justify_of(value_or(*settings, "justify"@, "Left"@)),
            r.mirror == layout_bool(*settings, "mirror"@, false),
            r.flip == layout_bool(*settings, "flip"@, false),
            r.use_image_size == layout_bool(*settings, "useIMGsize"@, false),
            r.input_type == input_type_of(value_or(*settings, "input_type"@, "text"@)),
            r.cut_type == cut_type_of(value_or(*settings, "cut_type"@, "engrave"@)),
            r.outer == layout_bool(*settings, "outer"@, true),
            r.upper == layout_bool(*settings, "upper"@, true),
    {
        LayoutModes {
            height_calc: HeightCalc::parse(get_or(settings, "H_CALC", "max_use")),
            origin: Origin::parse(get_or(settings, "origin", "Default")),
            justify: Justify::parse(get_or(settings, "justify", "Left")),
            mirror: get_bool(settings, "mirror", false),
            flip: get_bool(settings, "flip", false),
            use_image_size: get_bool(settings, "useIMGsize", false),
            input_type: InputType::parse(get_or(settings, "input_type", "text")),
            cut_type: CutType::parse(get_or(settings, "cut_type", "engrave")),
            outer: get_bool(settings, "outer", true),
            upper: get_bool(settings, "upper", true),
        }
    }
}

} // verus!
