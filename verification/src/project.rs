//! Assembling an engraving document from a legacy settings file, command-line
//! overrides and the font or image the job names, and resolving where that
//! input lives.
use vstd::prelude::*;
use crate::text::{
    chars_of, chars_eq, lower, lower_chars, push_str, replace_char, replace_char_chars,
    string_from_chars, trim, trim_chars, str_eq,
};
use crate::settings::{
    LegacySetting, LegacySettings, SettingView, TcodeFailure, default_legacy_settings, default_views,
    failure_of, last_value, opt_str_view, parse_view, set_or_push_view, settings_view,
    tcode_settings, tcode_views, text_from_tcode_view, opt_string_view,
};
use crate::paths::{
    extension_of, file_name_of, is_absolute, join_paths, parent_of, path_extension,
    path_file_name, path_is_absolute, path_join, path_parent,
};
use crate::bitmap::BitmapBackend;

verus! {

/// The file extension of R-Engrave project files.
pub const RENGRAVE_PROJECT_EXTENSION: &'static str = "rgrv";

/// The newest project file format this library reads and writes.
pub const RENGRAVE_PROJECT_FORMAT_VERSION: u32 = 1;

/// What a job asks to load: a legacy settings file, a font or image path,
/// an output directory, text, and settings that override the loaded ones.
#[derive(Debug, Clone, Default, PartialEq, Eq)]
pub struct DocumentRequest {
    pub gcode_file: Option<String>,
    pub font_or_image: Option<String>,
    pub default_dir: Option<String>,
    pub text: Option<String>,
    pub settings_overrides: Vec<LegacySetting>,
}

/// A loaded engraving document.
#[derive(Debug, Clone, PartialEq, Eq)]
pub struct RengraveDocument {
    pub settings: LegacySettings,
    pub text: String,
    pub input_path: Option<String>,
    pub warnings: Vec<String>,
}

/// A document could not be loaded.
#[derive(Debug, Clone, PartialEq, Eq)]
pub enum DocumentError {
    /// Reading the settings file `path` failed with the system's message `source`.
    ReadSettings { path: String, source: String },
}

impl DocumentError {
    /// The message shown for this error.
    pub fn message(&self) -> (r: String)
        ensures
            r@ == (match self {
                DocumentError::ReadSettings { path, source } => "unable to read `"@ + path@
                    + "`: "@ + source@,
            }),
    {
        let mut out: Vec<char> = Vec::new();
        match self {
            DocumentError::ReadSettings { path, source } => {
                push_str(&mut out, "unable to read `");
                push_str(&mut out, path.as_str());
                push_str(&mut out, "`: ");
                push_str(&mut out, source.as_str());
            },
        }
        string_from_chars(&out)
    }
}

/// The input a job engraves, with its resolved path.
#[derive(Debug, Clone, PartialEq, Eq)]
pub enum InputKind {
    CxfFont(String),
    TtfFont(String),
    Image(String),
    Missing,
}

/// An input kind by the characters of its path.
pub enum InputKindView {
    CxfFont(Seq<char>),
    TtfFont(Seq<char>),
    Image(Seq<char>),
    Missing,
}

impl View for InputKind {
    type V = InputKindView;

    open spec fn view(&self) -> InputKindView {
        match self {
            InputKind::CxfFont(p) => InputKindView::CxfFont(p@),
            InputKind::TtfFont(p) => InputKindView::TtfFont(p@),
            InputKind::Image(p) => InputKindView::Image(p@),
            InputKind::Missing => InputKindView::Missing,
        }
    }
}

/// `~` alone, or a leading `~/` or `~\`, replaced by the home directory
/// when one is known.
pub open spec fn expand_user(path: Seq<char>, home: Option<Seq<char>>) -> Seq<char> {
    match home {
        Some(h) => if path == "~"@ {
            h
        } else if path.len() >= 2 && path[0] == '~' && (path[1] == '/' || path[1] == '\\') {
            path_join(h, path.skip(2))
        } else {
            path
        },
        None => path,
    }
}

/// Expands a leading `~` to `home`.
pub fn expand_user_path(path: &str, home: Option<&str>) -> (r: String)
    ensures
        r@ == expand_user(path@, opt_str_view(home)),
{
    match home {
        Some(h) => {
            let cs = chars_of(path);
            if cs.len() == 1 && cs[0] == '~' {
                assert(cs@ =~= "~"@) by {
                    reveal_strlit("~");
                }
                return h.to_owned();
            }
            if cs.len() >= 2 && cs[0] == '~' && (cs[1] == '/' || cs[1] == '\\') {
                let rest_chars = crate::text::sub_chars(&cs, 2, cs.len());
                assert(rest_chars@ =~= path@.skip(2));
                let rest = string_from_chars(&rest_chars);
                proof {
                    reveal_strlit("~");
                    assert(path@ != "~"@);
                }
                return join_paths(h, rest.as_str());
            }
            proof {
                reveal_strlit("~");
                if path@ == "~"@ {
                    assert(cs@.len() == 1);
                }
            }
            path.to_owned()
        },
        None => path.to_owned(),
    }
}

/// The value of `key`, or the empty text when it is absent.
pub open spec fn value_or_empty(es: Seq<SettingView>, key: Seq<char>) -> Seq<char> {
    match last_value(es, key) {
        Some(v) => v,
        None => seq![],
    }
}

/// The font a text job names: `fontfile` (trimmed, `~` expanded), inside
/// `fontdir` unless it is absolute; a CXF or TTF font by its extension,
/// ignoring ASCII case, and missing otherwise.
pub open spec fn text_font_kind(es: Seq<SettingView>, home: Option<Seq<char>>) -> InputKindView {
    let fontfile = trim(value_or_empty(es, "fontfile"@));
    if fontfile.len() == 0 {
        InputKindView::Missing
    } else {
        let font_path = expand_user(fontfile, home);
        let path = if path_is_absolute(font_path) {
            font_path
        } else {
            path_join(expand_user(value_or_empty(es, "fontdir"@), home), font_path)
        };
        match path_extension(path) {
            Some(e) => if lower(e) == "cxf"@ {
                InputKindView::CxfFont(path)
            } else if lower(e) == "ttf"@ {
                InputKindView::TtfFont(path)
            } else {
                InputKindView::Missing
            },
            None => InputKindView::Missing,
        }
    }
}

/// `s` ends with `suffix`.
pub open spec fn ends_with(s: Seq<char>, suffix: Seq<char>) -> bool {
    s.len() >= suffix.len() && s.subrange(s.len() - suffix.len(), s.len() as int) == suffix
}

/// An `NGC_DIR` value that names a directory: not empty, and not the
/// legacy `.../None` placeholder.
pub open spec fn ngc_dir_usable(v: Seq<char>) -> bool {
    let t = trim(v);
    t.len() > 0 && !ends_with(t, "/None"@) && !ends_with(t, "\\None"@)
}

/// The image path as written: trimmed, `~` expanded.
pub open spec fn image_raw(imagefile: Seq<char>, home: Option<Seq<char>>) -> Seq<char> {
    expand_user(trim(imagefile), home)
}

/// Where an image may be found, in order: the path as written, its file
/// name alone, and its file name inside `NGC_DIR`; none when the path has
/// no file name.
pub open spec fn image_candidates(
    es: Seq<SettingView>,
    imagefile: Seq<char>,
    home: Option<Seq<char>>,
) -> Seq<Seq<char>> {
    let raw = image_raw(imagefile, home);
    match path_file_name(raw) {
        None => seq![],
        Some(name) => seq![raw, name] + match last_value(es, "NGC_DIR"@) {
            Some(v) => if ngc_dir_usable(v) {
                seq![path_join(expand_user(trim(v), home), name)]
            } else {
                seq![]
            },
            None => seq![],
        },
    }
}

/// `is_file` answered `b` for a path with characters `c`.
pub open spec fn answered<F: Fn(&str) -> bool>(is_file: F, c: Seq<char>, b: bool) -> bool {
    exists|s: &str| s@ == c && #[trigger] is_file.ensures((s,), b)
}

/// `r` is the first candidate `is_file` accepted, every earlier one refused;
/// or `fallback` when it refused them all.
pub open spec fn picks_first<F: Fn(&str) -> bool>(
    is_file: F,
    candidates: Seq<Seq<char>>,
    fallback: Seq<char>,
    r: Seq<char>,
) -> bool {
    ||| exists|k: int|
        0 <= k < candidates.len() && r == candidates[k] && #[trigger] answered(
            is_file,
            candidates[k],
            true,
        ) && forall|j: int| 0 <= j < k ==> answered(is_file, candidates[j], false)
    ||| r == fallback && forall|j: int|
        0 <= j < candidates.len() ==> #[trigger] answered(is_file, candidates[j], false)
}

/// `k` is the input a job names: its image, resolved against the files
/// `is_file` reports, for image input; its font otherwise.
pub open spec fn input_kind_ok<F: Fn(&str) -> bool>(
    es: Seq<SettingView>,
    home: Option<Seq<char>>,
    is_file: F,
    k: InputKindView,
) -> bool {
    if last_value(es, "input_type"@) == Some("image"@) {
        match last_value(es, "imagefile"@) {
            Some(img) => k matches InputKindView::Image(p) && picks_first(
                is_file,
                image_candidates(es, img, home),
                image_raw(img, home),
                p,
            ),
            None => k is Missing,
        }
    } else {
        k == text_font_kind(es, home)
    }
}

/// A stale image path is looked for under its file name alone before
/// `NGC_DIR`: when `is_file` refuses the path as written and accepts its
/// bare file name, the image resolved is that file name; and when it accepts
/// the path as written, the image is that path.
pub proof fn law_image_lookup_order<F: Fn(&str) -> bool>(
    es: Seq<SettingView>,
    home: Option<Seq<char>>,
    is_file: F,
    k: InputKindView,
    img: Seq<char>,
    name: Seq<char>,
)
    requires
        input_kind_ok(es, home, is_file, k),
        last_value(es, "input_type"@) == Some("image"@),
        last_value(es, "imagefile"@) == Some(img),
        path_file_name(image_raw(img, home)) == Some(name),
    ensures
        (forall|b: bool| answered(is_file, image_raw(img, home), b) ==> !b) && answered(
            is_file,
            name,
            true,
        ) && (forall|b: bool| answered(is_file, name, b) ==> b) ==> k == InputKindView::Image(name),
        (forall|b: bool| answered(is_file, image_raw(img, home), b) ==> b) && answered(
            is_file,
            image_raw(img, home),
            true,
        ) ==> k == InputKindView::Image(image_raw(img, home)),
{
    let raw = image_raw(img, home);
    let cs = image_candidates(es, img, home);
    assert(cs[0] == raw && cs[1] == name && cs.len() >= 2);
}

fn ends_with_chars(s: &Vec<char>, suffix: &str) -> (r: bool)
    ensures
        r == ends_with(s@, suffix@),
{
    let suf = chars_of(suffix);
    if s.len() < suf.len() {
        return false;
    }
    let start = s.len() - suf.len();
    let tail = crate::text::sub_chars(s, start, s.len());
    chars_eq(&tail, &suf)
}

fn image_candidate_list(settings: &LegacySettings, imagefile: &str, home: Option<&str>) -> (r: (
    String,
    Vec<String>,
))
    ensures
        r.0@ == image_raw(imagefile@, opt_str_view(home)),
        r.1@.map_values(|s: String| s@) == image_candidates(
            settings@,
            imagefile@,
            opt_str_view(home),
        ),
{
    let ic = chars_of(imagefile);
    let trimmed = string_from_chars(&trim_chars(&ic));
    let raw = expand_user_path(trimmed.as_str(), home);
    let mut cands: Vec<String> = Vec::new();
    match file_name_of(raw.as_str()) {
        None => {
            assert(cands@.map_values(|s: String| s@) =~= seq![]);
        },
        Some(name) => {
            cands.push(raw.clone());
            cands.push(name.clone());
            let ngc = settings.get_last("NGC_DIR");
            match ngc {
                Some(v) => {
                    let vc = chars_of(v);
                    let t = trim_chars(&vc);
                    if t.len() > 0 && !ends_with_chars(&t, "/None") && !ends_with_chars(
                        &t,
                        "\\None",
                    ) {
                        let ts = string_from_chars(&t);
                        let dir = expand_user_path(ts.as_str(), home);
                        cands.push(join_paths(dir.as_str(), name.as_str()));
                    }
                },
                None => {},
            }
            assert(cands@.map_values(|s: String| s@) =~= image_candidates(
                settings@,
                imagefile@,
                opt_str_view(home),
            ));
        },
    }
    (raw, cands)
}

/// The first candidate `is_file` accepts, or `fallback`.
fn first_existing<F: Fn(&str) -> bool>(
    candidates: &Vec<String>,
    fallback: String,
    is_file: &F,
) -> (r: String)
    requires
        forall|s: &str| #[trigger] is_file.requires((s,)),
    ensures
        picks_first(*is_file, candidates@.map_values(|s: String| s@), fallback@, r@),
{
    let ghost cs = candidates@.map_values(|s: String| s@);
    let mut i: usize = 0;
    while i < candidates.len()
        invariant
            i <= candidates.len(),
            cs == candidates@.map_values(|s: String| s@),
            forall|s: &str| #[trigger] is_file.requires((s,)),
            forall|j: int| 0 <= j < i ==> #[trigger] answered(*is_file, cs[j], false),
        decreases candidates.len() - i,
    {
        let c = candidates[i].as_str();
        let found = is_file(c);
        assert(answered(*is_file, cs[i as int], found));
        if found {
            let r = candidates[i].clone();
            assert(r@ == cs[i as int]);
            return r;
        }
        i = i + 1;
    }
    fallback
}

/// The input a job names. For image input the image is looked for where
/// `is_file` finds it: the path as written, its file name alone, then its
/// file name in `NGC_DIR`; the path as written when none is found.
pub fn resolve_input_kind<F: Fn(&str) -> bool>(
    settings: &LegacySettings,
    home: Option<&str>,
    is_file: &F,
) -> (r: InputKind)
    requires
        forall|s: &str| #[trigger] is_file.requires((s,)),
    ensures
        input_kind_ok(settings@, opt_str_view(home), *is_file, r@),
{
    let input_type = settings.get_last("input_type");
    let is_image = match input_type {
        Some(t) => str_eq(t, "image"),
        None => false,
    };
    if is_image {
        return match settings.get_last("imagefile") {
            Some(img) => {
                let (raw, cands) = image_candidate_list(settings, img, home);
                InputKind::Image(first_existing(&cands, raw, is_file))
            },
            None => InputKind::Missing,
        };
    }
    let fontfile_raw = match settings.get_last("fontfile") {
        Some(v) => chars_of(v),
        None => Vec::new(),
    };
    let fontfile_t = trim_chars(&fontfile_raw);
    assert(fontfile_t@ == trim(value_or_empty(settings@, "fontfile"@)));
    if fontfile_t.len() == 0 {
        return InputKind::Missing;
    }
    let fontfile = string_from_chars(&fontfile_t);
    let font_path = expand_user_path(fontfile.as_str(), home);
    let path = if is_absolute(font_path.as_str()) {
        font_path
    } else {
        let dir = match settings.get_last("fontdir") {
            Some(v) => v,
            None => "",
        };
        assert(dir@ == value_or_empty(settings@, "fontdir"@)) by {
            reveal_strlit("");
        }
        let dir_path = expand_user_path(dir, home);
        join_paths(dir_path.as_str(), font_path.as_str())
    };
    match extension_of(path.as_str()) {
        Some(ext) => {
            let raw = chars_of(ext.as_str());
            let e = lower_chars(&raw);
            if chars_eq(&e, &chars_of("cxf")) {
                InputKind::CxfFont(path)
            } else if chars_eq(&e, &chars_of("ttf")) {
                InputKind::TtfFont(path)
            } else {
                InputKind::Missing
            }
        },
        None => InputKind::Missing,
    }
}

/// The path of the input a job names, if any.
pub fn resolve_input_path<F: Fn(&str) -> bool>(
    settings: &LegacySettings,
    home: Option<&str>,
    is_file: &F,
) -> (r: Option<String>)
    requires
        forall|s: &str| #[trigger] is_file.requires((s,)),
    ensures
        exists|k: InputKindView|
            #[trigger] input_kind_ok(settings@, opt_str_view(home), *is_file, k) && opt_string_view(
                r,
            ) == match k {
                InputKindView::CxfFont(p) => Some(p),
                InputKindView::TtfFont(p) => Some(p),
                InputKindView::Image(p) => Some(p),
                InputKindView::Missing => None::<Seq<char>>,
            },
{
    let k = resolve_input_kind(settings, home, is_file);
    assert(input_kind_ok(settings@, opt_str_view(home), *is_file, k@));
    match k {
        InputKind::CxfFont(p) => Some(p),
        InputKind::TtfFont(p) => Some(p),
        InputKind::Image(p) => Some(p),
        InputKind::Missing => None,
    }
}

/// `|` in command-line text stands for a line break.
pub fn normalize_cli_text(text: &str) -> (r: String)
    ensures
        r@ == replace_char(text@, '|', '\n'),
{
    let cs = chars_of(text);
    let out = replace_char_chars(&cs, '|', '\n');
    string_from_chars(&out)
}

/// The settings after naming a font or image: a directory becomes the font
/// directory; a CXF or TTF file (by extension, ignoring ASCII case) sets the
/// font directory to its parent and the font file to its name, for text
/// input; any other file becomes the image, for image input.
pub open spec fn apply_font_or_image_view(
    es: Seq<SettingView>,
    p: Seq<char>,
    is_dir: bool,
) -> Seq<SettingView> {
    if is_dir {
        set_or_push_view(es, "fontdir"@, p, true)
    } else {
        let ext = match path_extension(p) {
            Some(e) => lower(e),
            None => seq![],
        };
        if ext == "cxf"@ || ext == "ttf"@ {
            let es1 = match path_parent(p) {
                Some(parent) => set_or_push_view(es, "fontdir"@, parent, true),
                None => es,
            };
            let es2 = match path_file_name(p) {
                Some(name) => set_or_push_view(es1, "fontfile"@, name, true),
                None => es1,
            };
            set_or_push_view(es2, "input_type"@, "text"@, false)
        } else {
            set_or_push_view(
                set_or_push_view(es, "imagefile"@, p, true),
                "input_type"@,
                "image"@,
                false,
            )
        }
    }
}

/// Points the settings at a font directory, font file or image; `is_dir`
/// tells whether `path` is a directory.
pub fn apply_font_or_image(settings: &mut LegacySettings, path: &str, is_dir: bool)
    ensures
        final(settings)@ == apply_font_or_image_view(old(settings)@, path@, is_dir),
{
    if is_dir {
        settings.set_or_push("fontdir", path, true);
        return;
    }
    let ext: Vec<char> = match extension_of(path) {
        Some(e) => {
            let raw = chars_of(e.as_str());
            lower_chars(&raw)
        },
        None => Vec::new(),
    };
    if chars_eq(&ext, &chars_of("cxf")) || chars_eq(&ext, &chars_of("ttf")) {
        match parent_of(path) {
            Some(parent) => settings.set_or_push("fontdir", parent.as_str(), true),
            None => {},
        }
        match file_name_of(path) {
            Some(name) => settings.set_or_push("fontfile", name.as_str(), true),
            None => {},
        }
        settings.set_or_push("input_type", "text", false);
    } else {
        settings.set_or_push("imagefile", path, true);
        settings.set_or_push("input_type", "image", false);
    }
}

/// The settings after the overrides, in order; TCODE overrides are ignored.
pub open spec fn overrides_view(es: Seq<SettingView>, ovs: Seq<SettingView>) -> Seq<SettingView>
    decreases ovs.len(),
{
    if ovs.len() == 0 {
        es
    } else {
        let prev = overrides_view(es, ovs.drop_last());
        let o = ovs.last();
        if o.key == "TCODE"@ {
            prev
        } else {
            set_or_push_view(prev, o.key, o.value, o.quoted)
        }
    }
}

/// The settings without the entries whose key is `key`.
pub open spec fn drop_key(es: Seq<SettingView>, key: Seq<char>) -> Seq<SettingView>
    decreases es.len(),
{
    if es.len() == 0 {
        seq![]
    } else {
        drop_key(es.drop_last(), key) + if es.last().key == key {
            seq![]
        } else {
            seq![es.last()]
        }
    }
}

/// The message of a TCODE decoding failure.
pub open spec fn tcode_failure_text(f: TcodeFailure) -> Seq<char> {
    match f {
        TcodeFailure::BadToken(t) => "invalid TCODE token `"@ + t + "`"@,
        TcodeFailure::BadScalar(code) => "invalid Unicode scalar in TCODE: "@
            + crate::text::decimal(code as nat),
    }
}

/// What the host knows of the files a document request names.
pub struct DocumentSources {
    /// The text of the request's settings file, or the reason it could not be
    /// read; `None` when the request names no settings file.
    pub settings_file: Option<Result<String, String>>,
    /// Whether the request's font or image path is a directory.
    pub font_or_image_is_dir: bool,
    /// The user's home directory, for `~` in paths.
    pub home: Option<String>,
}

/// The settings of a request before its text is recorded: the loaded or
/// default settings, then the font or image, the output directory
/// (`NGC_DIR`), the overrides, and the native bitmap backend.
pub open spec fn request_settings(
    base: Seq<SettingView>,
    request: DocumentRequest,
    is_dir: bool,
) -> Seq<SettingView> {
    let es1 = match request.font_or_image {
        Some(p) => apply_font_or_image_view(base, p@, is_dir),
        None => base,
    };
    let es2 = match request.default_dir {
        Some(d) => set_or_push_view(es1, "NGC_DIR"@, d@, true),
        None => es1,
    };
    let es3 = overrides_view(es2, settings_view(request.settings_overrides@));
    set_or_push_view(es3, "bitmap_backend"@, "native-potrace"@, false)
}

/// The text of a document: the request's text with `|` read as a line
/// break, else the text recorded in the settings, else `R-Engrave`.
pub open spec fn document_text(request: DocumentRequest, es: Seq<SettingView>) -> Seq<char> {
    match request.text {
        Some(t) => replace_char(t@, '|', '\n'),
        None => match text_from_tcode_view(es) {
            Ok(Some(t)) => t,
            _ => "R-Engrave"@,
        },
    }
}

/// The warnings of loading a document: one when the recorded text cannot be decoded.
pub open spec fn document_warnings(es: Seq<SettingView>) -> Seq<Seq<char>> {
    match text_from_tcode_view(es) {
        Err(f) => seq!["ignored invalid legacy TCODE text: "@ + tcode_failure_text(f)],
        _ => seq![],
    }
}

/// The base settings of a request: those read from its settings file, or the defaults.
pub open spec fn base_settings(sources: DocumentSources) -> Seq<SettingView> {
    match sources.settings_file {
        Some(Ok(text)) => parse_view(text@),
        _ => default_views(),
    }
}

/// The document a request loads to: its settings with the text recorded as
/// TCODE entries in place of any earlier ones, its text, its warnings, and
/// the path of its input.
pub open spec fn loaded_document<F: Fn(&str) -> bool>(
    request: DocumentRequest,
    sources: DocumentSources,
    is_file: F,
    doc: RengraveDocument,
) -> bool {
    let es = request_settings(base_settings(sources), request, sources.font_or_image_is_dir);
    let text = document_text(request, es);
    let settings = drop_key(es, "TCODE"@) + tcode_views(text);
    &&& doc.settings@ == settings
    &&& doc.text@ == text
    &&& doc.warnings@.map_values(|w: String| w@) == document_warnings(es)
    &&& exists|k: InputKindView|
        #[trigger] input_kind_ok(settings, opt_string_view(sources.home), is_file, k)
            && opt_string_view(doc.input_path) == match k {
            InputKindView::CxfFont(p) => Some(p),
            InputKindView::TtfFont(p) => Some(p),
            InputKindView::Image(p) => Some(p),
            InputKindView::Missing => None::<Seq<char>>,
        }
}

fn home_str(home: &Option<String>) -> (r: Option<&str>)
    ensures
        opt_str_view(r) == opt_string_view(*home),
{
    match home {
        Some(h) => Some(h.as_str()),
        None => None,
    }
}

/// Records the bitmap backend the settings resolve to, which is always the
/// native tracer.
fn normalize_bitmap_backend_setting(settings: &mut LegacySettings)
    ensures
        final(settings)@ == set_or_push_view(
            old(settings)@,
            "bitmap_backend"@,
            "native-potrace"@,
            false,
        ),
{
    let backend = BitmapBackend::from_settings(settings);
    settings.set_or_push("bitmap_backend", backend.value(), false);
}

/// Loads a document: the settings file's entries (or the defaults), then
/// the named font or image, the output directory, the overrides (TCODE
/// overrides ignored) and the native bitmap backend; then the text, from the
/// request (`|` as line break) or the recorded TCODE, or `R-Engrave`, which
/// is recorded anew; then the input path, found with `is_file`. Fails only
/// when the settings file could not be read.
pub fn load_document<F: Fn(&str) -> bool>(
    request: &DocumentRequest,
    sources: &DocumentSources,
    is_file: &F,
) -> (r: Result<RengraveDocument, DocumentError>)
    requires
        sources.settings_file.is_some() == request.gcode_file.is_some(),
        forall|s: &str| #[trigger] is_file.requires((s,)),
    ensures
        match r {
            Ok(doc) => loaded_document(*request, *sources, *is_file, doc) && !(
            sources.settings_file matches Some(Err(_))),
            Err(e) => match (request.gcode_file, sources.settings_file) {
                (Some(p), Some(Err(msg))) => e == DocumentError::ReadSettings {
                    path: p,
                    source: msg,
                },
                _ => false,
            },
        },
{
    let mut settings = match &sources.settings_file {
        Some(Ok(text)) => LegacySettings::parse(text.as_str()),
        Some(Err(msg)) => {
            let path = match &request.gcode_file {
                Some(p) => p.clone(),
                None => String::new(),
            };
            return Err(DocumentError::ReadSettings { path, source: msg.clone() });
        },
        None => default_legacy_settings(),
    };
    let ghost es0 = settings@;
    match &request.font_or_image {
        Some(p) => apply_font_or_image(&mut settings, p.as_str(), sources.font_or_image_is_dir),
        None => {},
    }
    match &request.default_dir {
        Some(d) => settings.set_or_push("NGC_DIR", d.as_str(), true),
        None => {},
    }
    let ghost es2 = settings@;
    let ghost ovs = settings_view(request.settings_overrides@);
    let mut i: usize = 0;
    while i < request.settings_overrides.len()
        invariant
            i <= request.settings_overrides.len(),
            ovs == settings_view(request.settings_overrides@),
            settings@ == overrides_view(es2, ovs.take(i as int)),
        decreases request.settings_overrides.len() - i,
    {
        let o = &request.settings_overrides[i];
        assert(ovs.take(i + 1).drop_last() =~= ovs.take(i as int));
        assert(ovs.take(i + 1).last() == o@);
        if !str_eq(o.key.as_str(), "TCODE") {
            settings.set_or_push(o.key.as_str(), o.value.as_str(), o.quoted);
        }
        i = i + 1;
    }
    assert(ovs.take(i as int) =~= ovs);
    normalize_bitmap_backend_setting(&mut settings);
    let ghost es = settings@;
    let mut warnings: Vec<String> = Vec::new();
    let from_settings = match settings.text_from_tcode() {
        Ok(t) => t,
        Err(err) => {
            let msg = err.message();
            let mut w: Vec<char> = Vec::new();
            push_str(&mut w, "ignored invalid legacy TCODE text: ");
            push_str(&mut w, msg.as_str());
            warnings.push(string_from_chars(&w));
            None
        },
    };
    assert(warnings@.map_values(|w: String| w@) =~= document_warnings(es));
    let text = match &request.text {
        Some(t) => normalize_cli_text(t.as_str()),
        None => match from_settings {
            Some(t) => t,
            None => "R-Engrave".to_owned(),
        },
    };
    let mut entries: Vec<LegacySetting> = Vec::new();
    let mut j: usize = 0;
    while j < settings.entries.len()
        invariant
            j <= settings.entries.len(),
            settings@ == es,
            settings_view(entries@) == drop_key(es.take(j as int), "TCODE"@),
        decreases settings.entries.len() - j,
    {
        let e = &settings.entries[j];
        assert(es.take(j + 1).drop_last() =~= es.take(j as int));
        assert(es.take(j + 1).last() == e@);
        let ghost before = settings_view(entries@);
        if !str_eq(e.key.as_str(), "TCODE") {
            entries.push(e.duplicate());
            assert(settings_view(entries@) =~= before + seq![e@]);
        } else {
            assert(before + seq![] =~= before);
        }
        j = j + 1;
    }
    assert(es.take(j as int) =~= es);
    let tcode = tcode_settings(text.as_str());
    let ghost kept = settings_view(entries@);
    let mut k: usize = 0;
    while k < tcode.len()
        invariant
            k <= tcode.len(),
            settings_view(entries@) == kept + settings_view(tcode@).take(k as int),
        decreases tcode.len() - k,
    {
        let ghost before = settings_view(entries@);
        entries.push(tcode[k].duplicate());
        assert(settings_view(entries@) =~= before.push(tcode@[k as int]@));
        assert(settings_view(tcode@).take(k + 1) =~= settings_view(tcode@).take(k as int).push(
            tcode@[k as int]@,
        ));
        assert(settings_view(entries@) =~= kept + settings_view(tcode@).take(k + 1));
        k = k + 1;
    }
    assert(settings_view(tcode@).take(k as int) =~= settings_view(tcode@));
    let settings = LegacySettings { entries };
    proof {
        assert(es0 == base_settings(*sources));
        assert(es == request_settings(base_settings(*sources), *request, sources.font_or_image_is_dir));
        assert(text@ == document_text(*request, es));
        assert(settings@ == drop_key(es, "TCODE"@) + tcode_views(text@));
    }
    let home = home_str(&sources.home);
    let input_path = resolve_input_path(&settings, home, is_file);
    Ok(RengraveDocument { settings, text, input_path, warnings })
}

proof fn lemma_font_keeps_at_most_once(es: Seq<SettingView>, p: Seq<char>, is_dir: bool, k: Seq<char>)
    requires
        crate::settings::key_at_most_once(es, k),
    ensures
        crate::settings::key_at_most_once(apply_font_or_image_view(es, p, is_dir), k),
{
    if is_dir {
        crate::settings::lemma_set_keeps_at_most_once(es, "fontdir"@, p, true, k);
    } else {
        let ext = match path_extension(p) {
            Some(e) => lower(e),
            None => seq![],
        };
        if ext == "cxf"@ || ext == "ttf"@ {
            let es1 = match path_parent(p) {
                Some(parent) => {
                    crate::settings::lemma_set_keeps_at_most_once(es, "fontdir"@, parent, true, k);
                    set_or_push_view(es, "fontdir"@, parent, true)
                },
                None => es,
            };
            let es2 = match path_file_name(p) {
                Some(name) => {
                    crate::settings::lemma_set_keeps_at_most_once(es1, "fontfile"@, name, true, k);
                    set_or_push_view(es1, "fontfile"@, name, true)
                },
                None => es1,
            };
            crate::settings::lemma_set_keeps_at_most_once(es2, "input_type"@, "text"@, false, k);
        } else {
            crate::settings::lemma_set_keeps_at_most_once(es, "imagefile"@, p, true, k);
            crate::settings::lemma_set_keeps_at_most_once(
                set_or_push_view(es, "imagefile"@, p, true),
                "input_type"@,
                "image"@,
                false,
                k,
            );
        }
    }
}

proof fn lemma_overrides_keep_at_most_once(es: Seq<SettingView>, ovs: Seq<SettingView>, k: Seq<char>)
    requires
        crate::settings::key_at_most_once(es, k),
    ensures
        crate::settings::key_at_most_once(overrides_view(es, ovs), k),
    decreases ovs.len(),
{
    if ovs.len() > 0 {
        lemma_overrides_keep_at_most_once(es, ovs.drop_last(), k);
        let o = ovs.last();
        if o.key != "TCODE"@ {
            crate::settings::lemma_set_keeps_at_most_once(
                overrides_view(es, ovs.drop_last()),
                o.key,
                o.value,
                o.quoted,
                k,
            );
        }
    }
}

proof fn lemma_override_last(es: Seq<SettingView>, ovs: Seq<SettingView>, i: int)
    requires
        0 <= i < ovs.len(),
        ovs[i].key != "TCODE"@,
        forall|j: int| i < j < ovs.len() ==> (#[trigger] ovs[j]).key != ovs[i].key,
        crate::settings::key_at_most_once(es, ovs[i].key),
    ensures
        last_value(overrides_view(es, ovs), ovs[i].key) == Some(ovs[i].value),
    decreases ovs.len(),
{
    let k = ovs[i].key;
    let p = ovs.drop_last();
    let o = ovs.last();
    if i == ovs.len() - 1 {
        lemma_overrides_keep_at_most_once(es, p, k);
        crate::settings::law_set_then_get(overrides_view(es, p), k, o.value, o.quoted);
    } else {
        assert(p[i] == ovs[i]);
        assert forall|j: int| i < j < p.len() implies (#[trigger] p[j]).key != p[i].key by {
            assert(p[j] == ovs[j]);
        }
        lemma_override_last(es, p, i);
        assert(o.key != k);
        if o.key != "TCODE"@ {
            crate::settings::law_set_keeps_other_keys(
                overrides_view(es, p),
                o.key,
                o.value,
                o.quoted,
                k,
            );
        }
    }
}

proof fn lemma_last_value_drop_key(es: Seq<SettingView>, d: Seq<char>, k: Seq<char>)
    requires
        d != k,
    ensures
        last_value(drop_key(es, d), k) == last_value(es, k),
    decreases es.len(),
{
    if es.len() > 0 {
        lemma_last_value_drop_key(es.drop_last(), d, k);
        let p = drop_key(es.drop_last(), d);
        if es.last().key == d {
            assert(drop_key(es, d) =~= p);
        } else {
            assert(drop_key(es, d).drop_last() =~= p);
        }
    }
}

proof fn lemma_last_value_append_absent(a: Seq<SettingView>, b: Seq<SettingView>, k: Seq<char>)
    requires
        forall|i: int| 0 <= i < b.len() ==> (#[trigger] b[i]).key != k,
    ensures
        last_value(a + b, k) == last_value(a, k),
    decreases b.len(),
{
    if b.len() == 0 {
        assert(a + b =~= a);
    } else {
        let q = b.drop_last();
        assert forall|i: int| 0 <= i < q.len() implies (#[trigger] q[i]).key != k by {
            assert(q[i] == b[i]);
        }
        lemma_last_value_append_absent(a, q, k);
        assert((a + b).drop_last() =~= a + q);
        assert((a + b).last() == b[b.len() - 1]);
    }
}

/// An override wins over the loaded settings: after loading, the key of an
/// override (other than `TCODE`, which overrides never set, and
/// `bitmap_backend`, which loading sets last) reads back the value of the
/// last override with that key. This needs the settings file (or the
/// defaults) to hold the key at most once: overrides update the first entry
/// with the key, while reading takes the last.
pub proof fn law_override_wins<F: Fn(&str) -> bool>(
    request: DocumentRequest,
    sources: DocumentSources,
    is_file: F,
    doc: RengraveDocument,
    i: int,
)
    requires
        loaded_document(request, sources, is_file, doc),
        0 <= i < request.settings_overrides@.len(),
        ({
            let ovs = settings_view(request.settings_overrides@);
            &&& ovs[i].key != "TCODE"@
            &&& ovs[i].key != "bitmap_backend"@
            &&& forall|j: int| i < j < ovs.len() ==> (#[trigger] ovs[j]).key != ovs[i].key
            &&& crate::settings::key_at_most_once(base_settings(sources), ovs[i].key)
        }),
    ensures
        last_value(doc.settings@, request.settings_overrides@[i].key@) == Some(
            request.settings_overrides@[i].value@,
        ),
{
    let ovs = settings_view(request.settings_overrides@);
    let k = ovs[i].key;
    let base = base_settings(sources);
    let es1 = match request.font_or_image {
        Some(p) => {
            lemma_font_keeps_at_most_once(base, p@, sources.font_or_image_is_dir, k);
            apply_font_or_image_view(base, p@, sources.font_or_image_is_dir)
        },
        None => base,
    };
    let es2 = match request.default_dir {
        Some(d) => {
            crate::settings::lemma_set_keeps_at_most_once(es1, "NGC_DIR"@, d@, true, k);
            set_or_push_view(es1, "NGC_DIR"@, d@, true)
        },
        None => es1,
    };
    lemma_override_last(es2, ovs, i);
    let es3 = overrides_view(es2, ovs);
    crate::settings::law_set_keeps_other_keys(es3, "bitmap_backend"@, "native-potrace"@, false, k);
    let es = request_settings(base, request, sources.font_or_image_is_dir);
    assert(es == set_or_push_view(es3, "bitmap_backend"@, "native-potrace"@, false));
    lemma_last_value_drop_key(es, "TCODE"@, k);
    crate::settings::law_tcode_layout(doc.text@);
    lemma_last_value_append_absent(drop_key(es, "TCODE"@), tcode_views(doc.text@), k);
}

proof fn lemma_drop_key_absent(es: Seq<SettingView>, key: Seq<char>)
    ensures
        forall|i: int|
            0 <= i < drop_key(es, key).len() ==> (#[trigger] drop_key(es, key)[i]).key != key,
    decreases es.len(),
{
    if es.len() > 0 {
        let p = drop_key(es.drop_last(), key);
        lemma_drop_key_absent(es.drop_last(), key);
        let d = drop_key(es, key);
        assert forall|i: int| 0 <= i < d.len() implies (#[trigger] d[i]).key != key by {
            if i < p.len() {
                assert(d[i] == p[i]);
            }
        }
    }
}

/// What a loaded document holds. Its settings read back its text through
/// `text_from_tcode`; they end with exactly the TCODE entries of that text,
/// and no other entry is a TCODE entry; a text given with the request is that
/// text with `|` read as a line break; and its input path is the one found
/// for its own settings.
pub proof fn law_loaded_document<F: Fn(&str) -> bool>(
    request: DocumentRequest,
    sources: DocumentSources,
    is_file: F,
    doc: RengraveDocument,
)
    requires
        loaded_document(request, sources, is_file, doc),
    ensures
        text_from_tcode_view(doc.settings@) == Ok::<Option<Seq<char>>, TcodeFailure>(
            Some(doc.text@),
        ),
        ({
            let n = doc.settings@.len() - tcode_views(doc.text@).len();
            &&& 0 <= n
            &&& doc.settings@.skip(n) == tcode_views(doc.text@)
            &&& forall|i: int| 0 <= i < n ==> (#[trigger] doc.settings@[i]).key != "TCODE"@
        }),
        request.text matches Some(t) ==> doc.text@ == replace_char(t@, '|', '\n'),
        exists|k: InputKindView|
            #[trigger] input_kind_ok(doc.settings@, opt_string_view(sources.home), is_file, k)
                && opt_string_view(doc.input_path) == match k {
                InputKindView::CxfFont(p) => Some(p),
                InputKindView::TtfFont(p) => Some(p),
                InputKindView::Image(p) => Some(p),
                InputKindView::Missing => None::<Seq<char>>,
            },
{
    let es = request_settings(base_settings(sources), request, sources.font_or_image_is_dir);
    let pre = drop_key(es, "TCODE"@);
    lemma_drop_key_absent(es, "TCODE"@);
    crate::settings::law_tcode_tail_read_back(pre, doc.text@);
    assert(doc.settings@.skip(pre.len() as int) =~= tcode_views(doc.text@));
    assert forall|i: int| 0 <= i < pre.len() implies (#[trigger] doc.settings@[i]).key
        != "TCODE"@ by {
        assert(doc.settings@[i] == pre[i]);
    }
}

/// Where a saved project's outputs were written.
#[derive(Debug, Clone, Default, PartialEq, Eq)]
pub struct RengraveProjectOutputs {
    pub gcode_path: Option<String>,
    pub svg_path: Option<String>,
    pub dxf_path: Option<String>,
}

/// A saved R-Engrave project.
#[derive(Debug, Clone, PartialEq, Eq)]
pub struct RengraveProjectFile {
    pub format_version: u32,
    pub application_version: String,
    pub text: String,
    pub settings: LegacySettings,
    pub input_path: Option<String>,
    pub default_dir: Option<String>,
    pub legacy_settings_path: Option<String>,
    pub workbench: String,
    pub outputs: RengraveProjectOutputs,
}

impl Default for RengraveProjectFile {
    /// A new project: the current format and version, the text `R-Engrave`,
    /// the default settings, and nothing else.
    fn default() -> (r: Self)
        ensures
            r.format_version == RENGRAVE_PROJECT_FORMAT_VERSION,
            r.application_version@ == crate::RENGRAVE_VERSION@,
            r.text@ == "R-Engrave"@,
            r.settings@ == default_views(),
            r.input_path is None,
            r.default_dir is None,
            r.legacy_settings_path is None,
            r.workbench@ == Seq::<char>::empty(),
            r.outputs.gcode_path is None,
            r.outputs.svg_path is None,
            r.outputs.dxf_path is None,
    {
        RengraveProjectFile {
            format_version: current_project_format_version(),
            application_version: current_application_version(),
            text: default_project_text(),
            settings: default_legacy_settings(),
            input_path: None,
            default_dir: None,
            legacy_settings_path: None,
            workbench: String::new(),
            outputs: RengraveProjectOutputs { gcode_path: None, svg_path: None, dxf_path: None },
        }
    }
}

/// A project file could not be read, parsed or written.
#[derive(Debug, Clone, PartialEq, Eq)]
pub enum ProjectFileError {
    Read { path: String, source: String },
    Parse { path: String, source: String },
    UnsupportedVersion { version: u32, supported: u32 },
    Serialize { source: String },
    CreateParent { path: String, source: String },
    Write { path: String, source: String },
}

impl ProjectFileError {
    /// The message shown for this error.
    pub fn message(&self) -> (r: String)
        ensures
            r@ == (match self {
                ProjectFileError::Read { path, source } => "unable to read R-Engrave project `"@
                    + path@ + "`: "@ + source@,
                ProjectFileError::Parse { path, source } => "unable to parse R-Engrave project `"@
                    + path@ + "`: "@ + source@,
                ProjectFileError::UnsupportedVersion { version, supported } =>
                    "unsupported R-Engrave project version "@ + crate::text::decimal(
                    *version as nat,
                ) + "; this build supports up to "@ + crate::text::decimal(*supported as nat),
                ProjectFileError::Serialize { source } => "unable to serialize R-Engrave project: "@
                    + source@,
                ProjectFileError::CreateParent { path, source } =>
                    "unable to create R-Engrave project directory `"@ + path@ + "`: "@ + source@,
                ProjectFileError::Write { path, source } => "unable to write R-Engrave project `"@
                    + path@ + "`: "@ + source@,
            }),
    {
        let mut out: Vec<char> = Vec::new();
        match self {
            ProjectFileError::Read { path, source } => {
                push_str(&mut out, "unable to read R-Engrave project `");
                push_str(&mut out, path.as_str());
                push_str(&mut out, "`: ");
                push_str(&mut out, source.as_str());
            },
            ProjectFileError::Parse { path, source } => {
                push_str(&mut out, "unable to parse R-Engrave project `");
                push_str(&mut out, path.as_str());
                push_str(&mut out, "`: ");
                push_str(&mut out, source.as_str());
            },
            ProjectFileError::UnsupportedVersion { version, supported } => {
                push_str(&mut out, "unsupported R-Engrave project version ");
                crate::text::push_decimal(&mut out, *version as u64);
                push_str(&mut out, "; this build supports up to ");
                crate::text::push_decimal(&mut out, *supported as u64);
            },
            ProjectFileError::Serialize { source } => {
                push_str(&mut out, "unable to serialize R-Engrave project: ");
                push_str(&mut out, source.as_str());
            },
            ProjectFileError::CreateParent { path, source } => {
                push_str(&mut out, "unable to create R-Engrave project directory `");
                push_str(&mut out, path.as_str());
                push_str(&mut out, "`: ");
                push_str(&mut out, source.as_str());
            },
            ProjectFileError::Write { path, source } => {
                push_str(&mut out, "unable to write R-Engrave project `");
                push_str(&mut out, path.as_str());
                push_str(&mut out, "`: ");
                push_str(&mut out, source.as_str());
            },
        }
        string_from_chars(&out)
    }
}

/// Accepts project formats up to the current one.
pub fn validate_project_version(version: u32) -> (r: Result<(), ProjectFileError>)
    ensures
        match r {
            Ok(()) => version <= RENGRAVE_PROJECT_FORMAT_VERSION,
            Err(e) => version > RENGRAVE_PROJECT_FORMAT_VERSION && e
                == ProjectFileError::UnsupportedVersion {
                version,
                supported: RENGRAVE_PROJECT_FORMAT_VERSION,
            },
        },
{
    if version <= RENGRAVE_PROJECT_FORMAT_VERSION {
        Ok(())
    } else {
        Err(
            ProjectFileError::UnsupportedVersion {
                version,
                supported: RENGRAVE_PROJECT_FORMAT_VERSION,
            },
        )
    }
}

/// The current project format.
pub fn current_project_format_version() -> (r: u32)
    ensures
        r == RENGRAVE_PROJECT_FORMAT_VERSION,
{
    RENGRAVE_PROJECT_FORMAT_VERSION
}

/// This library's version.
pub fn current_application_version() -> (r: String)
    ensures
        r@ == crate::RENGRAVE_VERSION@,
{
    crate::RENGRAVE_VERSION.to_owned()
}

/// The text of a new project.
pub fn default_project_text() -> (r: String)
    ensures
        r@ == "R-Engrave"@,
{
    "R-Engrave".to_owned()
}

/// Whether a path names a project file: its extension is `rgrv`, ignoring ASCII case.
pub fn is_rengrave_project_path(path: &str) -> (r: bool)
    ensures
        r == match path_extension(path@) {
            Some(e) => lower(e) == "rgrv"@,
            None => false,
        },
{
    match extension_of(path) {
        Some(ext) => {
            let raw = chars_of(ext.as_str());
            let e = lower_chars(&raw);
            chars_eq(&e, &chars_of(RENGRAVE_PROJECT_EXTENSION))
        },
        None => false,
    }
}

} // verus!
