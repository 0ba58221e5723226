//! The SVG document written when there is nothing to draw.
use vstd::prelude::*;
use crate::text::{push_str, string_from_chars};

verus! {

/// The SVG document with nothing to draw, sized zero in `units`.
pub open spec fn empty_svg_text(units: Seq<char>) -> Seq<char> {
    "<?xml version=\"1.0\" standalone=\"no\"?>\n"@ + "<svg width=\"0.000000"@ + units
        + "\" height=\"0.000000"@ + units
        + "\" viewBox=\"0 0 0.000000 0.000000\" xmlns=\"http://www.w3.org/2000/svg\" version=\"1.1\">\n"@
        + "</svg>\n"@
}

/// The SVG document with nothing to draw, sized zero in `units`.
pub fn empty_svg(units: &str) -> (r: String)
    ensures
        r@ == empty_svg_text(units@),
{
    let mut out: Vec<char> = Vec::new();
    push_str(&mut out, "<?xml version=\"1.0\" standalone=\"no\"?>\n");
    push_str(&mut out, "<svg width=\"0.000000");
    push_str(&mut out, units);
    push_str(&mut out, "\" height=\"0.000000");
    push_str(&mut out, units);
    push_str(
        &mut out,
        "\" viewBox=\"0 0 0.000000 0.000000\" xmlns=\"http://www.w3.org/2000/svg\" version=\"1.1\">\n",
    );
    push_str(&mut out, "</svg>\n");
    string_from_chars(&out)
}

} // verus!
