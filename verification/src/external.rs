//! Recognising bitmap inputs by file extension.
use vstd::prelude::*;
use crate::text::{chars_of, lower, lower_chars, chars_eq};
use crate::paths::{extension_of, path_extension};

verus! {

/// The bitmap extensions, in lower case.
pub open spec fn bitmap_extension(e: Seq<char>) -> bool {
    ||| e == "bmp"@
    ||| e == "gif"@
    ||| e == "jpg"@
    ||| e == "jpeg"@
    ||| e == "png"@
    ||| e == "tif"@
    ||| e == "tiff"@
    ||| e == "pbm"@
    ||| e == "ppm"@
    ||| e == "pgm"@
    ||| e == "pnm"@
}

/// A path names a bitmap when its extension, ignoring ASCII case, is a bitmap extension.
pub open spec fn names_bitmap(p: Seq<char>) -> bool {
    match path_extension(p) {
        Some(e) => bitmap_extension(lower(e)),
        None => false,
    }
}

/// A path names a bitmap exactly when it has an extension that, lower-cased,
/// is one of `bmp`, `gif`, `jpg`, `jpeg`, `png`, `tif`, `tiff`, `pbm`, `ppm`,
/// `pgm` and `pnm`, whatever the case of its letters.
pub proof fn law_bitmap_extensions(p: Seq<char>)
    ensures
        names_bitmap(p) <==> (path_extension(p) matches Some(e) && seq![
            "bmp"@,
            "gif"@,
            "jpg"@,
            "jpeg"@,
            "png"@,
            "tif"@,
            "tiff"@,
            "pbm"@,
            "ppm"@,
            "pgm"@,
            "pnm"@,
        ].contains(lower(e))),
{
    let l: Seq<Seq<char>> = seq![
        "bmp"@,
        "gif"@,
        "jpg"@,
        "jpeg"@,
        "png"@,
        "tif"@,
        "tiff"@,
        "pbm"@,
        "ppm"@,
        "pgm"@,
        "pnm"@,
    ];
    if let Some(e) = path_extension(p) {
        let le = lower(e);
        if bitmap_extension(le) {
            if le == "bmp"@ { assert(l[0] == le); }
            else if le == "gif"@ { assert(l[1] == le); }
            else if le == "jpg"@ { assert(l[2] == le); }
            else if le == "jpeg"@ { assert(l[3] == le); }
            else if le == "png"@ { assert(l[4] == le); }
            else if le == "tif"@ { assert(l[5] == le); }
            else if le == "tiff"@ { assert(l[6] == le); }
            else if le == "pbm"@ { assert(l[7] == le); }
            else if le == "ppm"@ { assert(l[8] == le); }
            else if le == "pgm"@ { assert(l[9] == le); }
            else { assert(l[10] == le); }
        }
        if l.contains(le) {
            let i = choose|i: int| 0 <= i < l.len() && l[i] == le;
            assert(bitmap_extension(l[i]));
        }
    }
}

/// Whether `path` names a bitmap file.
pub fn is_bitmap_input(path: &str) -> (r: bool)
    ensures
        r == names_bitmap(path@),
{
    match extension_of(path) {
        Some(ext) => {
            let raw = chars_of(ext.as_str());
            let e = lower_chars(&raw);
            chars_eq(&e, &chars_of("bmp")) || chars_eq(&e, &chars_of("gif")) || chars_eq(
                &e,
                &chars_of("jpg"),
            ) || chars_eq(&e, &chars_of("jpeg")) || chars_eq(&e, &chars_of("png")) || chars_eq(
                &e,
                &chars_of("tif"),
            ) || chars_eq(&e, &chars_of("tiff")) || chars_eq(&e, &chars_of("pbm")) || chars_eq(
                &e,
                &chars_of("ppm"),
            ) || chars_eq(&e, &chars_of("pgm")) || chars_eq(&e, &chars_of("pnm"))
        },
        None => false,
    }
}

} // verus!
