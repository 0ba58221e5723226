//! Recognising SVG artwork inputs.
use vstd::prelude::*;
use crate::text::{chars_of, chars_eq_ignore_case};
use crate::paths::extension_of;

verus! {

/// Whether `path` names an SVG file: its extension is `svg`, ignoring ASCII case.
pub fn is_svg_input(path: &str) -> (r: bool)
    ensures
        r == crate::batch::has_extension(path@, "svg"@),
{
    match extension_of(path) {
        Some(e) => {
            let a = chars_of(e.as_str());
            let b = chars_of("svg");
            chars_eq_ignore_case(&a, &b)
        },
        None => false,
    }
}

} // verus!
