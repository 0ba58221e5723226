//! The discrete G-code output choices: arc fitting and units.
use vstd::prelude::*;
use crate::text::{chars_of, seqs_view, split_on, split_on_chars, str_eq, string_from_chars};

verus! {

/// How arcs are written: not at all (`Off`), with centre offsets, or with radii.
#[derive(Debug, Clone, Copy, PartialEq, Eq)]
pub enum ArcFit {
    Off,
    Center,
    Radius,
}

/// The output units.
#[derive(Debug, Clone, Copy, PartialEq, Eq)]
pub enum Units {
    Inch,
    Mm,
}

/// `center` and `radius` select themselves; anything else `Off`.
pub open spec fn arc_fit_of(v: Seq<char>) -> ArcFit {
    if v == "center"@ {
        ArcFit::Center
    } else if v == "radius"@ {
        ArcFit::Radius
    } else {
        ArcFit::Off
    }
}

/// `mm` selects millimetres; anything else inches.
pub open spec fn units_of(v: Seq<char>) -> Units {
    if v == "mm"@ {
        Units::Mm
    } else {
        Units::Inch
    }
}

impl ArcFit {
    pub fn parse(value: &str) -> (r: Self)
        ensures
            r == arc_fit_of(value@),
    {
        if str_eq(value, "center") {
            ArcFit::Center
        } else if str_eq(value, "radius") {
            ArcFit::Radius
        } else {
            ArcFit::Off
        }
    }

    /// Whether arcs are fitted at all.
    pub fn enabled(self) -> (r: bool)
        ensures
            r == !(self is Off),
    {
        match self {
            ArcFit::Off => false,
            _ => true,
        }
    }
}

impl Units {
    pub fn parse(value: &str) -> (r: Self)
        ensures
            r == units_of(value@),
    {
        if str_eq(value, "mm") {
            Units::Mm
        } else {
            Units::Inch
        }
    }

    /// The decimal places of coordinates: four for inches, three for millimetres.
    pub fn coord_digits(self) -> (r: usize)
        ensures
            r == (match self {
                Units::Inch => 4usize,
                Units::Mm => 3usize,
            }),
    {
        match self {
            Units::Inch => 4,
            Units::Mm => 3,
        }
    }

    /// The decimal places of feed rates: two for inches, one for millimetres.
    pub fn feed_digits(self) -> (r: usize)
        ensures
            r == (match self {
                Units::Inch => 2usize,
                Units::Mm => 1usize,
            }),
    {
        match self {
            Units::Inch => 2,
            Units::Mm => 1,
        }
    }

    /// The G-code word that selects the units: `G20` for inches, `G21` for millimetres.
    pub fn gcode(self) -> (r: &'static str)
        ensures
            r@ == (match self {
                Units::Inch => "G20"@,
                Units::Mm => "G21"@,
            }),
    {
        match self {
            Units::Inch => "G20",
            Units::Mm => "G21",
        }
    }
}

/// The lines of a preamble or postamble setting, which separates them by `|`.
pub fn split_gcode_lines(value: &str) -> (r: Vec<String>)
    ensures
        r@.len() == split_on(value@, '|').len(),
        forall|i: int| 0 <= i < r@.len() ==> #[trigger] r@[i]@ == split_on(value@, '|')[i],
{
    let chars = chars_of(value);
    let parts = split_on_chars(chars.as_slice(), '|');
    let mut out: Vec<String> = Vec::new();
    let mut i: usize = 0;
    while i < parts.len()
        invariant
            i <= parts.len(),
            seqs_view(parts@) == split_on(value@, '|'),
            out@.len() == i,
            forall|j: int| 0 <= j < i ==> #[trigger] out@[j]@ == split_on(value@, '|')[j],
        decreases parts.len() - i,
    {
        assert(parts@[i as int]@ == seqs_view(parts@)[i as int]);
        out.push(string_from_chars(parts[i].as_slice()));
        i = i + 1;
    }
    out
}

} // verus!
