//! The batch pipeline: loading the document, asking for toolpaths, and
//! rendering the G-code files with their settings header, with a cancel
//! hook checked at every stage boundary and progress reported per stage.
use vstd::prelude::*;
use crate::text::{chars_of, push_all, push_str, string_from_chars, seqs_view};
use crate::settings::{
    LegacySetting, LegacySettings, SettingView, comment_of, get_legacy_bool, last_value,
    legacy_bool,
};
use crate::project::{
    DocumentError, DocumentRequest, DocumentSources, InputKind, InputKindView, RengraveDocument,
    input_kind_ok, load_document, loaded_document, resolve_input_kind,
};
use crate::external::is_bitmap_input;
use crate::paths::{
    extension_of, file_stem_of, path_extension, path_file_stem, path_with_file_name,
    with_file_name,
};

verus! {

/// A batch job: the document to load and the outputs wanted.
#[derive(Debug, Clone, Default, PartialEq, Eq)]
pub struct BatchRequest {
    pub batch: bool,
    pub gcode_file: Option<String>,
    pub font_or_image: Option<String>,
    pub default_dir: Option<String>,
    pub text: Option<String>,
    pub output: Option<String>,
    pub svg_output: Option<String>,
    pub dxf_output: Option<String>,
    pub include_secondary: bool,
    pub settings_overrides: Vec<LegacySetting>,
}

/// The files a batch job produced.
#[derive(Debug, Clone, PartialEq, Eq)]
pub struct BatchOutput {
    pub gcode: String,
    pub warnings: Vec<String>,
    pub secondary_gcode: Vec<SecondaryGcode>,
    pub svg: Option<String>,
    pub dxf: Option<String>,
}

/// A companion G-code file, written next to the primary one under `suffix`.
#[derive(Debug, Clone, PartialEq, Eq)]
pub struct SecondaryGcode {
    pub suffix: String,
    pub gcode: String,
}

/// The stages a batch job reports.
#[derive(Debug, Clone, Copy, PartialEq, Eq)]
pub enum BatchProgress {
    LoadingDocument,
    LoadingTextFont,
    LoadingDxf,
    LoadingSvg,
    VectorizingBitmap,
    LayingOutText,
    LayingOutImage,
    PreparingExports,
    WritingEngrave,
    CalculatingVCarve,
    CalculatingStraightCleanup,
    CalculatingVBitCleanup,
    WritingVCarve,
    WritingProfileChamfer,
    WritingProfileCut,
    RenderingPrimary,
    RenderingSecondary,
    RenderingSettingsOnly,
    Finished,
}

/// The status line shown for a stage.
pub open spec fn status_line(p: BatchProgress) -> Seq<char> {
    match p {
        BatchProgress::LoadingDocument => "Loading document"@,
        BatchProgress::LoadingTextFont => "Loading text font"@,
        BatchProgress::LoadingDxf => "Loading DXF input"@,
        BatchProgress::LoadingSvg => "Loading SVG input"@,
        BatchProgress::VectorizingBitmap => "Vectorizing bitmap"@,
        BatchProgress::LayingOutText => "Laying out text"@,
        BatchProgress::LayingOutImage => "Laying out image"@,
        BatchProgress::PreparingExports => "Preparing exports"@,
        BatchProgress::WritingEngrave => "Writing engrave toolpath"@,
        BatchProgress::CalculatingVCarve => "Calculating V-carve"@,
        BatchProgress::CalculatingStraightCleanup => "Calculating straight cleanup"@,
        BatchProgress::CalculatingVBitCleanup => "Calculating V-bit cleanup"@,
        BatchProgress::WritingVCarve => "Writing V-carve toolpath"@,
        BatchProgress::WritingProfileChamfer => "Writing profile chamfer"@,
        BatchProgress::WritingProfileCut => "Writing profile cut"@,
        BatchProgress::RenderingPrimary => "Rendering primary G-code"@,
        BatchProgress::RenderingSecondary => "Rendering cleanup G-code"@,
        BatchProgress::RenderingSettingsOnly => "Rendering settings-only output"@,
        BatchProgress::Finished => "Calculation complete"@,
    }
}

/// Every stage has a status line of its own: the lines are non-empty and
/// no two stages share one.
pub proof fn law_status_lines_distinct()
    ensures
        forall|p: BatchProgress| #[trigger] status_line(p).len() > 0,
        forall|a: BatchProgress, b: BatchProgress|
            a != b ==> #[trigger] status_line(a) != #[trigger] status_line(b),
{
    reveal_strlit("Loading document");
    reveal_strlit("Loading text font");
    reveal_strlit("Loading DXF input");
    reveal_strlit("Loading SVG input");
    reveal_strlit("Vectorizing bitmap");
    reveal_strlit("Laying out text");
    reveal_strlit("Laying out image");
    reveal_strlit("Preparing exports");
    reveal_strlit("Writing engrave toolpath");
    reveal_strlit("Calculating V-carve");
    reveal_strlit("Calculating straight cleanup");
    reveal_strlit("Calculating V-bit cleanup");
    reveal_strlit("Writing V-carve toolpath");
    reveal_strlit("Writing profile chamfer");
    reveal_strlit("Writing profile cut");
    reveal_strlit("Rendering primary G-code");
    reveal_strlit("Rendering cleanup G-code");
    reveal_strlit("Rendering settings-only output");
    reveal_strlit("Calculation complete");
    assert forall|a: BatchProgress, b: BatchProgress|
        a != b implies #[trigger] status_line(a) != #[trigger] status_line(b) by {
        if status_line(a) == status_line(b) {
            let (s, t) = (status_line(a), status_line(b));
            assert(s.len() == t.len());
            assert(s[0] == t[0] && s[1] == t[1] && s[8] == t[8] && s[10] == t[10]);
        }
    }
}

impl BatchProgress {
    /// The status line shown for this stage.
    pub fn status_text(self) -> (r: &'static str)
        ensures
            r@ == status_line(self),
    {
        match self {
            BatchProgress::LoadingDocument => "Loading document",
            BatchProgress::LoadingTextFont => "Loading text font",
            BatchProgress::LoadingDxf => "Loading DXF input",
            BatchProgress::LoadingSvg => "Loading SVG input",
            BatchProgress::VectorizingBitmap => "Vectorizing bitmap",
            BatchProgress::LayingOutText => "Laying out text",
            BatchProgress::LayingOutImage => "Laying out image",
            BatchProgress::PreparingExports => "Preparing exports",
            BatchProgress::WritingEngrave => "Writing engrave toolpath",
            BatchProgress::CalculatingVCarve => "Calculating V-carve",
            BatchProgress::CalculatingStraightCleanup => "Calculating straight cleanup",
            BatchProgress::CalculatingVBitCleanup => "Calculating V-bit cleanup",
            BatchProgress::WritingVCarve => "Writing V-carve toolpath",
            BatchProgress::WritingProfileChamfer => "Writing profile chamfer",
            BatchProgress::WritingProfileCut => "Writing profile cut",
            BatchProgress::RenderingPrimary => "Rendering primary G-code",
            BatchProgress::RenderingSecondary => "Rendering cleanup G-code",
            BatchProgress::RenderingSettingsOnly => "Rendering settings-only output",
            BatchProgress::Finished => "Calculation complete",
        }
    }
}

/// Why a batch job produced no output.
#[derive(Debug, Clone, PartialEq, Eq)]
pub enum BatchError {
    Document(DocumentError),
    Canceled,
}

impl BatchError {
    /// The message shown for this error: the document error's own, or
    /// `generation canceled`.
    pub fn message(&self) -> (r: String)
        ensures
            r@ == (match self {
                BatchError::Document(DocumentError::ReadSettings { path, source }) =>
                    "unable to read `"@ + path@ + "`: "@ + source@,
                BatchError::Canceled => "generation canceled"@,
            }),
    {
        match self {
            BatchError::Document(e) => e.message(),
            BatchError::Canceled => "generation canceled".to_owned(),
        }
    }
}

/// `path` with `_suffix` added to its file stem (`output` when it has
/// none), keeping its extension.
pub open spec fn secondary_path(path: Seq<char>, suffix: Seq<char>) -> Seq<char> {
    let stem = match path_file_stem(path) {
        Some(s) => s,
        None => "output"@,
    };
    let name = stem + "_"@ + suffix + match path_extension(path) {
        Some(e) => "."@ + e,
        None => seq![],
    };
    path_with_file_name(path, name)
}

/// The path of a companion G-code file.
pub fn secondary_output_path(path: &str, suffix: &str) -> (r: String)
    ensures
        r@ == secondary_path(path@, suffix@),
{
    let mut name: Vec<char> = Vec::new();
    match file_stem_of(path) {
        Some(stem) => push_str(&mut name, stem.as_str()),
        None => push_str(&mut name, "output"),
    }
    push_str(&mut name, "_");
    push_str(&mut name, suffix);
    match extension_of(path) {
        Some(ext) => {
            push_str(&mut name, ".");
            push_str(&mut name, ext.as_str());
        },
        None => {},
    }
    let file_name = string_from_chars(&name);
    assert(file_name@ =~= (match path_file_stem(path@) {
        Some(s) => s,
        None => "output"@,
    }) + "_"@ + suffix@ + match path_extension(path@) {
        Some(e) => "."@ + e,
        None => seq![],
    });
    with_file_name(path, file_name.as_str())
}

/// An ASCII letter or digit.
pub open spec fn ascii_alnum(c: char) -> bool {
    ('0' <= c && c <= '9') || ('a' <= c && c <= 'z') || ('A' <= c && c <= 'Z')
}

/// The engraved text as it appears in the header comment: its first forty
/// characters with every character but ASCII letters and digits blanked,
/// and `___` when the text is longer.
pub open spec fn sanitized(text: Seq<char>) -> Seq<char> {
    let n: int = if text.len() < 40 {
        text.len() as int
    } else {
        40
    };
    text.take(n).map_values(
        |c: char|
            if ascii_alnum(c) {
                c
            } else {
                ' '
            },
    ) + if text.len() > 40 {
        "___"@
    } else {
        seq![]
    }
}

/// The header comment form of the engraved text.
pub fn sanitized_text_comment(text: &str) -> (r: String)
    ensures
        r@ == sanitized(text@),
{
    let cs = chars_of(text);
    let n: usize = if cs.len() < 40 {
        cs.len()
    } else {
        40
    };
    let mut out: Vec<char> = Vec::new();
    let mut i: usize = 0;
    while i < n
        invariant
            n <= cs.len(),
            cs@ == text@,
            n == (if text@.len() < 40 {
                text@.len() as int
            } else {
                40
            }),
            i <= n,
            out@ =~= text@.take(i as int).map_values(
                |c: char|
                    if ascii_alnum(c) {
                        c
                    } else {
                        ' '
                    },
            ),
        decreases n - i,
    {
        let c = cs[i];
        if ('0' <= c && c <= '9') || ('a' <= c && c <= 'z') || ('A' <= c && c <= 'Z') {
            out.push(c);
        } else {
            out.push(' ');
        }
        assert(text@.take(i + 1) =~= text@.take(i as int).push(c));
        i = i + 1;
    }
    if cs.len() > 40 {
        push_str(&mut out, "___");
    }
    string_from_chars(&out)
}

/// Lines joined with `\n` between them.
pub open spec fn join_lines(ls: Seq<Seq<char>>) -> Seq<char>
    decreases ls.len(),
{
    if ls.len() == 0 {
        seq![]
    } else if ls.len() == 1 {
        ls[0]
    } else {
        join_lines(ls.drop_last()) + seq!['\n'] + ls.last()
    }
}

fn join_line_vec(ls: &Vec<String>) -> (r: String)
    ensures
        r@ == join_lines(ls@.map_values(|s: String| s@)),
{
    let ghost v = ls@.map_values(|s: String| s@);
    let mut out: Vec<char> = Vec::new();
    let mut i: usize = 0;
    while i < ls.len()
        invariant
            i <= ls.len(),
            v == ls@.map_values(|s: String| s@),
            out@ == join_lines(v.take(i as int)),
        decreases ls.len() - i,
    {
        assert(v.take(i + 1).drop_last() =~= v.take(i as int));
        if i > 0 {
            out.push('\n');
        }
        let cs = chars_of(ls[i].as_str());
        push_all(&mut out, &cs);
        proof {
            if i == 0 {
                assert(v.take(1) =~= seq![v[0]]);
                assert(out@ =~= v[0]);
            } else {
                assert(out@ =~= join_lines(v.take(i as int)) + seq!['\n'] + v[i as int]);
            }
        }
        i = i + 1;
    }
    assert(v.take(i as int) =~= v);
    string_from_chars(&out)
}

/// The settings header of every G-code file: nothing when `no_comments` is
/// set; else the generator and compatibility lines, the engraved text for
/// text input, and every setting as a comment between two rules.
pub open spec fn header_lines(es: Seq<SettingView>, text: Seq<char>) -> Seq<Seq<char>> {
    if legacy_bool(es, "no_comments"@, false) {
        seq![]
    } else {
        seq![
            "( Code generated by r-engrave-"@ + crate::RENGRAVE_VERSION@ + " )"@,
            "( Compatibility target: f-engrave-"@ + crate::FENGRAVE_VERSION@ + ".py )"@,
            "(Settings used in f-engrave when this file was created)"@,
        ] + (if last_value(es, "input_type"@) == Some("text"@) {
            seq!["(Engrave Text:"@ + sanitized(text) + " )"@]
        } else {
            seq![]
        }) + seq!["(=========================================================)"@]
            + es.map_values(|e: SettingView| comment_of(e))
            + seq!["(#########################################################)"@]
    }
}

fn line_of(parts: &Vec<char>) -> (r: String)
    ensures
        r@ == parts@,
{
    string_from_chars(parts)
}

/// The settings header lines.
pub fn render_settings_header(settings: &LegacySettings, text: &str) -> (r: Vec<String>)
    ensures
        r@.map_values(|s: String| s@) == header_lines(settings@, text@),
{
    let mut lines: Vec<String> = Vec::new();
    if get_legacy_bool(settings, "no_comments", false) {
        assert(lines@.map_values(|s: String| s@) =~= seq![]);
        return lines;
    }
    let mut a: Vec<char> = Vec::new();
    push_str(&mut a, "( Code generated by r-engrave-");
    push_str(&mut a, crate::RENGRAVE_VERSION);
    push_str(&mut a, " )");
    lines.push(line_of(&a));
    let mut b: Vec<char> = Vec::new();
    push_str(&mut b, "( Compatibility target: f-engrave-");
    push_str(&mut b, crate::FENGRAVE_VERSION);
    push_str(&mut b, ".py )");
    lines.push(line_of(&b));
    lines.push("(Settings used in f-engrave when this file was created)".to_owned());
    let is_text = match settings.get_last("input_type") {
        Some(v) => crate::text::str_eq(v, "text"),
        None => false,
    };
    if is_text {
        let mut t: Vec<char> = Vec::new();
        push_str(&mut t, "(Engrave Text:");
        let s = sanitized_text_comment(text);
        push_str(&mut t, s.as_str());
        push_str(&mut t, " )");
        lines.push(line_of(&t));
    }
    lines.push("(=========================================================)".to_owned());
    let ghost before = lines@.map_values(|s: String| s@);
    proof {
        assert(a@ =~= "( Code generated by r-engrave-"@ + crate::RENGRAVE_VERSION@ + " )"@);
        assert(b@ =~= "( Compatibility target: f-engrave-"@ + crate::FENGRAVE_VERSION@ + ".py )"@);
        assert(before =~= seq![
            "( Code generated by r-engrave-"@ + crate::RENGRAVE_VERSION@ + " )"@,
            "( Compatibility target: f-engrave-"@ + crate::FENGRAVE_VERSION@ + ".py )"@,
            "(Settings used in f-engrave when this file was created)"@,
        ] + (if last_value(settings@, "input_type"@) == Some("text"@) {
            seq!["(Engrave Text:"@ + sanitized(text@) + " )"@]
        } else {
            seq![]
        }) + seq!["(=========================================================)"@]);
    }
    let comments = settings.to_comments();
    let mut i: usize = 0;
    while i < comments.len()
        invariant
            i <= comments.len(),
            comments.len() == settings@.len(),
            forall|j: int| 0 <= j < comments.len() ==> #[trigger] comments[j]@ == comment_of(
                settings@[j],
            ),
            lines@.map_values(|s: String| s@) =~= before + settings@.take(i as int).map_values(
                |e: SettingView| comment_of(e),
            ),
        decreases comments.len() - i,
    {
        let ghost old_lines = lines@.map_values(|s: String| s@);
        lines.push(comments[i].clone());
        assert(lines@.map_values(|s: String| s@) =~= old_lines.push(comments[i as int]@));
        assert(settings@.take(i + 1).map_values(|e: SettingView| comment_of(e))
            =~= settings@.take(i as int).map_values(|e: SettingView| comment_of(e)).push(
            comment_of(settings@[i as int]),
        ));
        i = i + 1;
    }
    assert(settings@.take(i as int) =~= settings@);
    lines.push("(#########################################################)".to_owned());
    assert(lines@.map_values(|s: String| s@) =~= header_lines(settings@, text@));
    lines
}

/// The layout of the settings header. With `no_comments` set it is empty.
/// Otherwise it holds one line per setting plus five, and one more for text
/// input; the `(Engrave Text: ... )` line stands fourth exactly when the last
/// `input_type` is `text`; the settings follow in order as comments, and the
/// closing rule of `#` is the last line.
pub proof fn law_settings_header_layout(es: Seq<SettingView>, text: Seq<char>)
    ensures
        legacy_bool(es, "no_comments"@, false) ==> header_lines(es, text).len() == 0,
        !legacy_bool(es, "no_comments"@, false) ==> {
            let h = header_lines(es, text);
            let k: int = if last_value(es, "input_type"@) == Some("text"@) {
                1
            } else {
                0
            };
            &&& h.len() == es.len() + 5 + k
            &&& k == 1 ==> h[3] == "(Engrave Text:"@ + sanitized(text) + " )"@
            &&& h[3 + k] == "(=========================================================)"@
            &&& forall|i: int| 0 <= i < es.len() ==> #[trigger] h[4 + k + i] == comment_of(es[i])
            &&& h.last() == "(#########################################################)"@
        },
{
}

/// The settings-only file: the header, a note that no toolpath was
/// generated, and a final line break.
pub open spec fn settings_only_text(es: Seq<SettingView>, text: Seq<char>) -> Seq<char> {
    join_lines(
        header_lines(es, text) + seq![
            "( R-Engrave settings-only output: no toolpath was generated )"@,
            seq![],
        ],
    )
}

/// A G-code file: the header, the toolpath lines, and a final line break.
pub open spec fn gcode_text(es: Seq<SettingView>, text: Seq<char>, body: Seq<Seq<char>>) -> Seq<
    char,
> {
    join_lines(header_lines(es, text) + body + seq![seq![]])
}

/// Renders the settings-only file.
pub fn render_settings_only_gcode(settings: &LegacySettings, text: &str) -> (r: String)
    ensures
        r@ == settings_only_text(settings@, text@),
{
    let mut lines = render_settings_header(settings, text);
    let ghost h = lines@.map_values(|s: String| s@);
    lines.push("( R-Engrave settings-only output: no toolpath was generated )".to_owned());
    lines.push(String::new());
    assert(lines@.map_values(|s: String| s@) =~= h + seq![
        "( R-Engrave settings-only output: no toolpath was generated )"@,
        seq![],
    ]);
    join_line_vec(&lines)
}

/// Renders a G-code file around toolpath lines.
pub fn render_gcode(settings: &LegacySettings, text: &str, gcode_lines: &Vec<String>) -> (r: String)
    ensures
        r@ == gcode_text(settings@, text@, gcode_lines@.map_values(|s: String| s@)),
{
    let mut lines = render_settings_header(settings, text);
    let ghost h = lines@.map_values(|s: String| s@);
    let ghost body = gcode_lines@.map_values(|s: String| s@);
    let mut i: usize = 0;
    while i < gcode_lines.len()
        invariant
            i <= gcode_lines.len(),
            body == gcode_lines@.map_values(|s: String| s@),
            lines@.map_values(|s: String| s@) =~= h + body.take(i as int),
        decreases gcode_lines.len() - i,
    {
        let ghost old_lines = lines@.map_values(|s: String| s@);
        lines.push(gcode_lines[i].clone());
        assert(lines@.map_values(|s: String| s@) =~= old_lines.push(body[i as int]));
        assert(body.take(i + 1) =~= body.take(i as int).push(body[i as int]));
        i = i + 1;
    }
    assert(body.take(i as int) =~= body);
    lines.push(String::new());
    assert(lines@.map_values(|s: String| s@) =~= h + body + seq![seq![]]);
    join_line_vec(&lines)
}

/// Renders a companion G-code file around its toolpath lines; the same
/// layout as the primary file.
pub fn render_secondary_gcode(
    settings: &LegacySettings,
    text: &str,
    gcode_lines: &Vec<String>,
) -> (r: String)
    ensures
        r@ == gcode_text(settings@, text@, gcode_lines@.map_values(|s: String| s@)),
{
    render_gcode(settings, text, gcode_lines)
}

/// A companion toolpath: its file suffix and G-code lines.
#[derive(Debug, Clone, PartialEq, Eq)]
pub struct GeneratedSecondary {
    pub suffix: String,
    pub lines: Vec<String>,
}

/// The toolpaths of a job: the primary G-code lines, the companion files,
/// and the SVG and DXF exports that were asked for.
#[derive(Debug, Clone, PartialEq, Eq)]
pub struct GeneratedToolpaths {
    pub primary: Vec<String>,
    pub secondary: Vec<GeneratedSecondary>,
    pub svg: Option<String>,
    pub dxf: Option<String>,
}

/// What toolpath generation came to.
#[derive(Debug, Clone, PartialEq, Eq)]
pub enum Generation {
    /// The cancel hook stopped it.
    Canceled,
    /// No toolpath could be produced (the reasons are in the warnings).
    Nothing,
    Toolpaths(GeneratedToolpaths),
}

/// Which optional outputs toolpath generation should produce.
#[derive(Debug, Clone, Copy, PartialEq, Eq)]
pub struct ToolpathRequest {
    pub include_secondary: bool,
    pub include_svg: bool,
    pub include_dxf: bool,
}

/// The optional outputs a batch request asks for: companion files when a
/// G-code output path is set or they are asked for explicitly, and the
/// exports whose paths are set.
pub open spec fn toolpath_request_of(request: BatchRequest) -> ToolpathRequest {
    ToolpathRequest {
        include_secondary: request.output is Some || request.include_secondary,
        include_svg: request.svg_output is Some,
        include_dxf: request.dxf_output is Some,
    }
}

/// Two optional strings hold the same characters.
pub open spec fn same_text(a: Option<String>, b: Option<String>) -> bool {
    match (a, b) {
        (Some(x), Some(y)) => x@ == y@,
        (None, None) => true,
        _ => false,
    }
}

/// The document request of a batch request: the same files, text and overrides.
pub open spec fn same_document_request(d: DocumentRequest, b: BatchRequest) -> bool {
    &&& same_text(d.gcode_file, b.gcode_file)
    &&& same_text(d.font_or_image, b.font_or_image)
    &&& same_text(d.default_dir, b.default_dir)
    &&& same_text(d.text, b.text)
    &&& crate::settings::settings_view(d.settings_overrides@) == crate::settings::settings_view(
        b.settings_overrides@,
    )
}

/// The note added when only the settings could be written.
pub open spec fn settings_only_warning() -> Seq<char> {
    "settings-only output generated because no toolpath could be produced"@
}

/// The output of a job whose document is `doc` and whose generation came
/// to `gen` with warnings `ws`: the rendered toolpaths, with the companion
/// files and exports kept only where `req` asks for them, or, when there were
/// no toolpaths, the settings-only file with a note; warnings in the order
/// they arose.
pub open spec fn batch_output_of(
    doc: RengraveDocument,
    gen: Generation,
    ws: Seq<Seq<char>>,
    req: ToolpathRequest,
    out: BatchOutput,
) -> bool {
    let warnings = doc.warnings@.map_values(|w: String| w@) + ws;
    match gen {
        Generation::Canceled => false,
        Generation::Nothing => {
            &&& out.gcode@ == settings_only_text(doc.settings@, doc.text@)
            &&& out.warnings@.map_values(|w: String| w@) == warnings.push(settings_only_warning())
            &&& out.secondary_gcode@.len() == 0
            &&& out.svg is None
            &&& out.dxf is None
        },
        Generation::Toolpaths(g) => {
            &&& out.gcode@ == gcode_text(
                doc.settings@,
                doc.text@,
                g.primary@.map_values(|s: String| s@),
            )
            &&& out.warnings@.map_values(|w: String| w@) == warnings
            &&& out.secondary_gcode@.len() == if req.include_secondary {
                g.secondary@.len()
            } else {
                0
            }
            &&& forall|i: int|
                0 <= i < out.secondary_gcode@.len() ==> {
                    &&& (#[trigger] out.secondary_gcode@[i]).suffix@ == g.secondary@[i].suffix@
                    &&& out.secondary_gcode@[i].gcode@ == gcode_text(
                        doc.settings@,
                        doc.text@,
                        g.secondary@[i].lines@.map_values(|s: String| s@),
                    )
                }
            &&& out.svg == if req.include_svg {
                g.svg
            } else {
                None
            }
            &&& out.dxf == if req.include_dxf {
                g.dxf
            } else {
                None
            }
        },
    }
}

/// Generation that makes exactly the exports `req` asks for, when it makes
/// toolpaths at all.
pub open spec fn exports_honoured(req: ToolpathRequest, gen: Generation) -> bool {
    match gen {
        Generation::Toolpaths(g) => g.svg is Some == req.include_svg && g.dxf is Some
            == req.include_dxf,
        _ => true,
    }
}

/// A job's output holds the companion files and exports only where the
/// request asks for them; and when generation makes exactly the exports asked
/// for, a job that made toolpaths holds exactly those exports.
pub proof fn law_exports_follow_request(
    doc: RengraveDocument,
    gen: Generation,
    ws: Seq<Seq<char>>,
    req: ToolpathRequest,
    out: BatchOutput,
)
    requires
        batch_output_of(doc, gen, ws, req, out),
    ensures
        out.svg is Some ==> req.include_svg,
        out.dxf is Some ==> req.include_dxf,
        out.secondary_gcode@.len() > 0 ==> req.include_secondary,
        gen is Toolpaths && exports_honoured(req, gen) ==> out.svg is Some == req.include_svg
            && out.dxf is Some == req.include_dxf,
{
}

/// The output holds companion files and exports only where `request` asks
/// for them.
pub open spec fn only_requested_exports(request: BatchRequest, o: BatchOutput) -> bool {
    &&& o.svg is Some ==> request.svg_output is Some
    &&& o.dxf is Some ==> request.dxf_output is Some
    &&& o.secondary_gcode@.len() > 0 ==> request.output is Some || request.include_secondary
}

/// The output holds exactly the exports `request` asks for, or it is the
/// settings-only output, which has none.
pub open spec fn requested_exports_or_settings_only(request: BatchRequest, o: BatchOutput) -> bool {
    ||| o.svg is Some == request.svg_output is Some && o.dxf is Some == request.dxf_output is Some
    ||| o.svg is None && o.dxf is None && o.secondary_gcode@.len() == 0 && o.warnings@.len() > 0
        && o.warnings@.last()@ == settings_only_warning()
}

/// Every generation `generate` can come to makes exactly the exports asked for.
pub open spec fn generate_honours_exports<G>(generate: G) -> bool where
    G: Fn(&LegacySettings, &str, &ToolpathSource, ToolpathRequest) -> (Generation, Vec<String>),
 {
    forall|st: &LegacySettings, t: &str, s: &ToolpathSource, q: ToolpathRequest, res: (
        Generation,
        Vec<String>,
    )| #[trigger] generate.ensures((st, t, s, q), res) ==> exports_honoured(q, res.0)
}

/// Where the toolpaths of a job come from.
#[derive(Debug, Clone, PartialEq, Eq)]
pub enum ToolpathSource {
    CxfFont(String),
    TtfFont(String),
    DxfImage(String),
    SvgImage(String),
    BitmapImage(String),
}

/// A toolpath source by the characters of its path.
pub enum ToolpathSourceView {
    CxfFont(Seq<char>),
    TtfFont(Seq<char>),
    DxfImage(Seq<char>),
    SvgImage(Seq<char>),
    BitmapImage(Seq<char>),
}

impl View for ToolpathSource {
    type V = ToolpathSourceView;

    open spec fn view(&self) -> ToolpathSourceView {
        match self {
            ToolpathSource::CxfFont(p) => ToolpathSourceView::CxfFont(p@),
            ToolpathSource::TtfFont(p) => ToolpathSourceView::TtfFont(p@),
            ToolpathSource::DxfImage(p) => ToolpathSourceView::DxfImage(p@),
            ToolpathSource::SvgImage(p) => ToolpathSourceView::SvgImage(p@),
            ToolpathSource::BitmapImage(p) => ToolpathSourceView::BitmapImage(p@),
        }
    }
}

/// The extension of `p` is `ext`, ignoring ASCII case.
pub open spec fn has_extension(p: Seq<char>, ext: Seq<char>) -> bool {
    match crate::paths::path_extension(p) {
        Some(e) => crate::text::eq_ignore_case(e, ext),
        None => false,
    }
}

/// The toolpath source of a job whose input resolved to `k`, or the warning
/// that says why there is none: an image is read as DXF, SVG or a bitmap by
/// its extension; text needs a CXF or TTF font.
pub open spec fn toolpath_source_of(es: Seq<SettingView>, k: InputKindView) -> Result<
    ToolpathSourceView,
    Seq<char>,
> {
    if last_value(es, "input_type"@) == Some("image"@) {
        match k {
            InputKindView::Image(p) => if has_extension(p, "dxf"@) {
                Ok(ToolpathSourceView::DxfImage(p))
            } else if has_extension(p, "svg"@) {
                Ok(ToolpathSourceView::SvgImage(p))
            } else if crate::external::names_bitmap(p) {
                Ok(ToolpathSourceView::BitmapImage(p))
            } else {
                Err("unsupported image input format"@)
            },
            _ => Err("image input path is missing"@),
        }
    } else {
        match k {
            InputKindView::CxfFont(p) => Ok(ToolpathSourceView::CxfFont(p)),
            InputKindView::TtfFont(p) => Ok(ToolpathSourceView::TtfFont(p)),
            _ => Err("only CXF and TTF text fonts are currently generated in Rust batch mode"@),
        }
    }
}

/// `generate`, asked for `req` from `source` on `settings` and `text`, can
/// come to `gen` with warnings `ws`.
pub open spec fn generated_from<G>(
    generate: G,
    settings: LegacySettings,
    text: Seq<char>,
    source: ToolpathSourceView,
    req: ToolpathRequest,
    gen: Generation,
    ws: Vec<String>,
) -> bool where
    G: Fn(&LegacySettings, &str, &ToolpathSource, ToolpathRequest) -> (Generation, Vec<String>),
 {
    exists|t: &str, s: ToolpathSource|
        t@ == text && s@ == source && #[trigger] generate.ensures((&settings, t, &s, req), (gen, ws))
}

/// `gen` with warnings `ws` is what generation can come to without being
/// canceled: the input resolved with `is_file`, then either the warning why
/// there is no toolpath source, or what `generate` makes of the source.
pub open spec fn generation_ok<F, G>(
    settings: LegacySettings,
    text: Seq<char>,
    home: Option<Seq<char>>,
    is_file: F,
    generate: G,
    req: ToolpathRequest,
    gen: Generation,
    ws: Vec<String>,
) -> bool where
    F: Fn(&str) -> bool,
    G: Fn(&LegacySettings, &str, &ToolpathSource, ToolpathRequest) -> (Generation, Vec<String>),
 {
    exists|k: InputKindView|
        #[trigger] input_kind_ok(settings@, home, is_file, k) && match toolpath_source_of(
            settings@,
            k,
        ) {
            Err(w) => gen == Generation::Nothing && ws@.map_values(|x: String| x@) == seq![w],
            Ok(source) => generated_from(generate, settings, text, source, req, gen, ws),
        }
}

/// `r` is an outcome of running `request`: an output built from the loaded
/// document and what generation can come to, when the settings file (if
/// any) was read; the settings file's read error; or a cancel, by the hook
/// (when `hook_canceled`) or by `generate` on this document's own source.
pub open spec fn batch_outcome<F, G>(
    request: BatchRequest,
    sources: DocumentSources,
    is_file: F,
    generate: G,
    r: Result<BatchOutput, BatchError>,
    hook_canceled: bool,
) -> bool where
    F: Fn(&str) -> bool,
    G: Fn(&LegacySettings, &str, &ToolpathSource, ToolpathRequest) -> (Generation, Vec<String>),
 {
    match r {
        Ok(out) => !(sources.settings_file matches Some(Err(_))) && exists|
            d: DocumentRequest,
            doc: RengraveDocument,
            gen: Generation,
            ws: Vec<String>,
        |
            #![trigger loaded_document(d, sources, is_file, doc), generation_ok(doc.settings, doc.text@, crate::settings::opt_string_view(sources.home), is_file, generate, toolpath_request_of(request), gen, ws)]
            same_document_request(d, request) && loaded_document(d, sources, is_file, doc)
                && generation_ok(
                doc.settings,
                doc.text@,
                crate::settings::opt_string_view(sources.home),
                is_file,
                generate,
                toolpath_request_of(request),
                gen,
                ws,
            ) && batch_output_of(
                doc,
                gen,
                ws@.map_values(|w: String| w@),
                toolpath_request_of(request),
                out,
            ),
        Err(BatchError::Document(e)) => match (request.gcode_file, sources.settings_file) {
            (Some(p), Some(Err(msg))) => e == DocumentError::ReadSettings { path: p, source: msg },
            _ => false,
        },
        Err(BatchError::Canceled) => hook_canceled || (!(sources.settings_file matches Some(Err(_)))
            && exists|d: DocumentRequest, doc: RengraveDocument, ws: Vec<String>|
            #![trigger loaded_document(d, sources, is_file, doc), generation_ok(doc.settings, doc.text@, crate::settings::opt_string_view(sources.home), is_file, generate, toolpath_request_of(request), Generation::Canceled, ws)]
            same_document_request(d, request) && loaded_document(d, sources, is_file, doc)
                && generation_ok(
                doc.settings,
                doc.text@,
                crate::settings::opt_string_view(sources.home),
                is_file,
                generate,
                toolpath_request_of(request),
                Generation::Canceled,
                ws,
            )),
    }
}

/// Whether the cancel hook asks to stop.
fn check_canceled<C: Fn() -> bool>(cancel: &C) -> (r: Result<(), BatchError>)
    requires
        cancel.requires(()),
    ensures
        match r {
            Ok(()) => cancel.ensures((), false),
            Err(e) => e == BatchError::Canceled && cancel.ensures((), true),
        },
{
    if cancel() {
        Err(BatchError::Canceled)
    } else {
        Ok(())
    }
}

fn copy_text(o: &Option<String>) -> (r: Option<String>)
    ensures
        same_text(r, *o),
{
    match o {
        Some(s) => Some(s.clone()),
        None => None,
    }
}

fn document_request(request: &BatchRequest) -> (r: DocumentRequest)
    ensures
        same_document_request(r, *request),
        r.gcode_file is Some == request.gcode_file is Some,
{
    let mut overrides: Vec<LegacySetting> = Vec::new();
    let mut i: usize = 0;
    while i < request.settings_overrides.len()
        invariant
            i <= request.settings_overrides.len(),
            crate::settings::settings_view(overrides@) == crate::settings::settings_view(
                request.settings_overrides@,
            ).take(i as int),
        decreases request.settings_overrides.len() - i,
    {
        let ghost before = crate::settings::settings_view(overrides@);
        overrides.push(request.settings_overrides[i].duplicate());
        assert(crate::settings::settings_view(overrides@) =~= before.push(
            request.settings_overrides@[i as int]@,
        ));
        assert(crate::settings::settings_view(request.settings_overrides@).take(i + 1)
            =~= crate::settings::settings_view(request.settings_overrides@).take(i as int).push(
            request.settings_overrides@[i as int]@,
        ));
        i = i + 1;
    }
    assert(crate::settings::settings_view(request.settings_overrides@).take(i as int)
        =~= crate::settings::settings_view(request.settings_overrides@));
    DocumentRequest {
        gcode_file: copy_text(&request.gcode_file),
        font_or_image: copy_text(&request.font_or_image),
        default_dir: copy_text(&request.default_dir),
        text: copy_text(&request.text),
        settings_overrides: overrides,
    }
}

fn ext_is(path: &str, ext: &str) -> (r: bool)
    ensures
        r == has_extension(path@, ext@),
{
    match extension_of(path) {
        Some(e) => {
            let a = chars_of(e.as_str());
            let b = chars_of(ext);
            crate::text::chars_eq_ignore_case(&a, &b)
        },
        None => false,
    }
}

/// Generates the toolpaths of a loaded document: resolves its input (with
/// `is_file`), reports the loading stage, asks the cancel hook before the
/// generation starts and again before a bitmap is vectorized, and hands the
/// source to `generate`. Without a usable source it warns and produces nothing.
pub fn generate_engrave_gcode<F, C, P, G>(
    settings: &LegacySettings,
    text: &str,
    req: ToolpathRequest,
    home: Option<&str>,
    is_file: &F,
    cancel: &C,
    progress: &P,
    generate: &G,
) -> (r: (Generation, Vec<String>)) where
    F: Fn(&str) -> bool,
    C: Fn() -> bool,
    P: Fn(BatchProgress),
    G: Fn(&LegacySettings, &str, &ToolpathSource, ToolpathRequest) -> (Generation, Vec<String>),

    requires
        forall|s: &str| #[trigger] is_file.requires((s,)),
        cancel.requires(()),
        forall|p: BatchProgress| #[trigger] progress.requires((p,)),
        forall|st: &LegacySettings, t: &str, s: &ToolpathSource, q: ToolpathRequest| #[trigger]
            generate.requires((st, t, s, q)),
    ensures
        r.0 is Canceled && cancel.ensures((), true) || generation_ok(
            *settings,
            text@,
            crate::settings::opt_str_view(home),
            *is_file,
            *generate,
            req,
            r.0,
            r.1,
        ),
        (forall|b: bool| cancel.ensures((), b) ==> b) ==> r.0 is Canceled,
{
    match check_canceled(cancel) {
        Ok(()) => {},
        Err(_) => return (Generation::Canceled, Vec::new()),
    }
    let kind = resolve_input_kind(settings, home, is_file);
    let ghost kv = kind@;
    let is_image = match settings.get_last("input_type") {
        Some(t) => crate::text::str_eq(t, "image"),
        None => false,
    };
    let source: Result<ToolpathSource, &'static str> = if is_image {
        match kind {
            InputKind::Image(path) => {
                if ext_is(path.as_str(), "dxf") {
                    progress(BatchProgress::LoadingDxf);
                    Ok(ToolpathSource::DxfImage(path))
                } else if crate::svg::is_svg_input(path.as_str()) {
                    progress(BatchProgress::LoadingSvg);
                    Ok(ToolpathSource::SvgImage(path))
                } else if is_bitmap_input(path.as_str()) {
                    progress(BatchProgress::VectorizingBitmap);
                    match check_canceled(cancel) {
                        Ok(()) => {},
                        Err(_) => return (Generation::Canceled, Vec::new()),
                    }
                    Ok(ToolpathSource::BitmapImage(path))
                } else {
                    Err("unsupported image input format")
                }
            },
            _ => Err("image input path is missing"),
        }
    } else {
        progress(BatchProgress::LoadingTextFont);
        match kind {
            InputKind::CxfFont(path) => Ok(ToolpathSource::CxfFont(path)),
            InputKind::TtfFont(path) => Ok(ToolpathSource::TtfFont(path)),
            _ => Err("only CXF and TTF text fonts are currently generated in Rust batch mode"),
        }
    };
    match source {
        Ok(s) => {
            let out = generate(settings, text, &s, req);
            proof {
                assert(generated_from(*generate, *settings, text@, s@, req, out.0, out.1));
                assert(input_kind_ok(settings@, crate::settings::opt_str_view(home), *is_file, kv));
            }
            out
        },
        Err(w) => {
            let mut ws: Vec<String> = Vec::new();
            ws.push(w.to_owned());
            assert(ws@.map_values(|x: String| x@) =~= seq![w@]);
            assert(input_kind_ok(settings@, crate::settings::opt_str_view(home), *is_file, kv));
            (Generation::Nothing, ws)
        },
    }
}

/// Runs a batch job. The cancel hook is asked before anything else and at
/// every stage boundary, and a job it stops ends in `Canceled`; progress is
/// reported as each stage begins. The document is loaded from `sources`
/// (with `is_file` to find an image); `generate` produces the toolpaths of
/// the source the document names. Without toolpaths the output is the
/// settings-only file, with a warning.
pub fn prepare_batch_output_with_cancel_and_progress<F, C, P, G>(
    request: &BatchRequest,
    sources: &DocumentSources,
    is_file: &F,
    cancel: &C,
    progress: &P,
    generate: &G,
) -> (r: Result<BatchOutput, BatchError>) where
    F: Fn(&str) -> bool,
    C: Fn() -> bool,
    P: Fn(BatchProgress),
    G: Fn(&LegacySettings, &str, &ToolpathSource, ToolpathRequest) -> (Generation, Vec<String>),

    requires
        sources.settings_file is Some == request.gcode_file is Some,
        forall|s: &str| #[trigger] is_file.requires((s,)),
        cancel.requires(()),
        forall|p: BatchProgress| #[trigger] progress.requires((p,)),
        forall|st: &LegacySettings, t: &str, s: &ToolpathSource, q: ToolpathRequest| #[trigger]
            generate.requires((st, t, s, q)),
    ensures
        batch_outcome(*request, *sources, *is_file, *generate, r, cancel.ensures((), true)),
        (forall|b: bool| cancel.ensures((), b) ==> b) ==> r matches Err(BatchError::Canceled),
        sources.settings_file matches Some(Err(_)) ==> r is Err,
        r matches Ok(o) ==> only_requested_exports(*request, o),
        generate_honours_exports(*generate) ==> (r matches Ok(o)
            ==> requested_exports_or_settings_only(*request, o)),
{
    match check_canceled(cancel) {
        Ok(()) => {},
        Err(e) => return Err(e),
    }
    progress(BatchProgress::LoadingDocument);
    let dreq = document_request(request);
    let document = match load_document(&dreq, sources, is_file) {
        Ok(d) => d,
        Err(e) => {
            return Err(
                BatchError::Document(
                    match e {
                        DocumentError::ReadSettings { path, source } => {
                            let p = match &request.gcode_file {
                                Some(p) => p.clone(),
                                None => path,
                            };
                            DocumentError::ReadSettings { path: p, source }
                        },
                    },
                ),
            );
        },
    };
    match check_canceled(cancel) {
        Ok(()) => {},
        Err(e) => return Err(e),
    }
    let req = ToolpathRequest {
        include_secondary: request.output.is_some() || request.include_secondary,
        include_svg: request.svg_output.is_some(),
        include_dxf: request.dxf_output.is_some(),
    };
    let home: Option<&str> = match &sources.home {
        Some(h) => Some(h.as_str()),
        None => None,
    };
    let (generation, extra) = generate_engrave_gcode(
        &document.settings,
        document.text.as_str(),
        req,
        home,
        is_file,
        cancel,
        progress,
        generate,
    );
    if let Generation::Canceled = generation {
        proof {
            if !cancel.ensures((), true) {
                assert(crate::settings::opt_str_view(home) == crate::settings::opt_string_view(
                    sources.home,
                ));
                assert(generation_ok(
                    document.settings,
                    document.text@,
                    crate::settings::opt_string_view(sources.home),
                    *is_file,
                    *generate,
                    toolpath_request_of(*request),
                    Generation::Canceled,
                    extra,
                ));
                assert(loaded_document(dreq, *sources, *is_file, document));
            }
        }
        return Err(BatchError::Canceled);
    }
    match check_canceled(cancel) {
        Ok(()) => {},
        Err(e) => return Err(e),
    }
    let ghost doc_warnings = document.warnings@.map_values(|w: String| w@);
    let ghost extra_view = extra@.map_values(|w: String| w@);
    let mut warnings: Vec<String> = document.warnings.clone();
    let mut i: usize = 0;
    while i < extra.len()
        invariant
            i <= extra.len(),
            extra_view == extra@.map_values(|w: String| w@),
            warnings@.map_values(|w: String| w@) == doc_warnings + extra_view.take(i as int),
        decreases extra.len() - i,
    {
        let ghost before = warnings@.map_values(|w: String| w@);
        warnings.push(extra[i].clone());
        assert(warnings@.map_values(|w: String| w@) =~= before.push(extra_view[i as int]));
        assert(extra_view.take(i + 1) =~= extra_view.take(i as int).push(extra_view[i as int]));
        i = i + 1;
    }
    assert(extra_view.take(i as int) =~= extra_view);
    proof {
        assert(generation_ok(
            document.settings,
            document.text@,
            crate::settings::opt_string_view(sources.home),
            *is_file,
            *generate,
            toolpath_request_of(*request),
            generation,
            extra,
        ));
    }
    match generation {
        Generation::Canceled => Err(BatchError::Canceled),
        Generation::Toolpaths(g) => {
            match check_canceled(cancel) {
                Ok(()) => {},
                Err(e) => return Err(e),
            }
            progress(BatchProgress::RenderingPrimary);
            let primary = render_gcode(&document.settings, document.text.as_str(), &g.primary);
            match check_canceled(cancel) {
                Ok(()) => {},
                Err(e) => return Err(e),
            }
            let mut secondary_gcode: Vec<SecondaryGcode> = Vec::new();
            let n: usize = if req.include_secondary {
                g.secondary.len()
            } else {
                0
            };
            let mut k: usize = 0;
            while k < n
                invariant
                    k <= n,
                    n <= g.secondary.len(),
                    forall|p: BatchProgress| #[trigger] progress.requires((p,)),
                    secondary_gcode@.len() == k,
                    forall|j: int|
                        0 <= j < k ==> {
                            &&& (#[trigger] secondary_gcode@[j]).suffix@ == g.secondary@[j].suffix@
                            &&& secondary_gcode@[j].gcode@ == gcode_text(
                                document.settings@,
                                document.text@,
                                g.secondary@[j].lines@.map_values(|s: String| s@),
                            )
                        },
                decreases n - k,
            {
                progress(BatchProgress::RenderingSecondary);
                let sec = &g.secondary[k];
                let gcode = render_secondary_gcode(
                    &document.settings,
                    document.text.as_str(),
                    &sec.lines,
                );
                secondary_gcode.push(SecondaryGcode { suffix: sec.suffix.clone(), gcode });
                k = k + 1;
            }
            progress(BatchProgress::Finished);
            proof {
                if generate_honours_exports(*generate) {
                    assert(exports_honoured(req, generation));
                }
            }
            let out = BatchOutput {
                gcode: primary,
                warnings,
                secondary_gcode,
                svg: if req.include_svg {
                    g.svg
                } else {
                    None
                },
                dxf: if req.include_dxf {
                    g.dxf
                } else {
                    None
                },
            };
            assert(batch_output_of(document, generation, extra_view, req, out));
            Ok(out)
        },
        Generation::Nothing => {
            let ghost before = warnings@.map_values(|w: String| w@);
            warnings.push(
                "settings-only output generated because no toolpath could be produced".to_owned(),
            );
            assert(warnings@.map_values(|w: String| w@) =~= before.push(settings_only_warning()));
            progress(BatchProgress::RenderingSettingsOnly);
            let gcode = render_settings_only_gcode(&document.settings, document.text.as_str());
            progress(BatchProgress::Finished);
            let out = BatchOutput {
                gcode,
                warnings,
                secondary_gcode: Vec::new(),
                svg: None,
                dxf: None,
            };
            assert(batch_output_of(document, generation, extra_view, req, out));
            assert(out.warnings@.last()@ == settings_only_warning());
            Ok(out)
        },
    }
}

/// Runs a batch job with a cancel hook and no progress reports.
pub fn prepare_batch_output_with_cancel<F, C, G>(
    request: &BatchRequest,
    sources: &DocumentSources,
    is_file: &F,
    cancel: &C,
    generate: &G,
) -> (r: Result<BatchOutput, BatchError>) where
    F: Fn(&str) -> bool,
    C: Fn() -> bool,
    G: Fn(&LegacySettings, &str, &ToolpathSource, ToolpathRequest) -> (Generation, Vec<String>),

    requires
        sources.settings_file is Some == request.gcode_file is Some,
        forall|s: &str| #[trigger] is_file.requires((s,)),
        cancel.requires(()),
        forall|st: &LegacySettings, t: &str, s: &ToolpathSource, q: ToolpathRequest| #[trigger]
            generate.requires((st, t, s, q)),
    ensures
        batch_outcome(*request, *sources, *is_file, *generate, r, cancel.ensures((), true)),
        (forall|b: bool| cancel.ensures((), b) ==> b) ==> r matches Err(BatchError::Canceled),
        sources.settings_file matches Some(Err(_)) ==> r is Err,
        r matches Ok(o) ==> only_requested_exports(*request, o),
        generate_honours_exports(*generate) ==> (r matches Ok(o)
            ==> requested_exports_or_settings_only(*request, o)),
{
    let quiet = |_p: BatchProgress| {};
    prepare_batch_output_with_cancel_and_progress(request, sources, is_file, cancel, &quiet, generate)
}

/// Runs a batch job that is never canceled by a hook.
pub fn prepare_batch_output<F, G>(
    request: &BatchRequest,
    sources: &DocumentSources,
    is_file: &F,
    generate: &G,
) -> (r: Result<BatchOutput, BatchError>) where
    F: Fn(&str) -> bool,
    G: Fn(&LegacySettings, &str, &ToolpathSource, ToolpathRequest) -> (Generation, Vec<String>),

    requires
        sources.settings_file is Some == request.gcode_file is Some,
        forall|s: &str| #[trigger] is_file.requires((s,)),
        forall|st: &LegacySettings, t: &str, s: &ToolpathSource, q: ToolpathRequest| #[trigger]
            generate.requires((st, t, s, q)),
    ensures
        batch_outcome(*request, *sources, *is_file, *generate, r, false),
        sources.settings_file matches Some(Err(_)) ==> r is Err,
        r matches Ok(o) ==> only_requested_exports(*request, o),
        generate_honours_exports(*generate) ==> (r matches Ok(o)
            ==> requested_exports_or_settings_only(*request, o)),
{
    let never = || -> (c: bool)
        ensures
            !c,
        { false };
    prepare_batch_output_with_cancel(request, sources, is_file, &never, generate)
}

} // verus!
