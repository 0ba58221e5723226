use std::cell::{Cell, RefCell};

use rengrave::batch::{
    prepare_batch_output, prepare_batch_output_with_cancel,
    prepare_batch_output_with_cancel_and_progress, render_settings_header,
    render_settings_only_gcode, sanitized_text_comment, secondary_output_path, BatchError,
    BatchProgress, BatchRequest, GeneratedSecondary, GeneratedToolpaths, Generation,
    ToolpathRequest, ToolpathSource,
};
use rengrave::project::DocumentSources;
use rengrave::settings::{default_legacy_settings, LegacySetting, LegacySettings};

fn no_files(_path: &str) -> bool {
    false
}

fn sources() -> DocumentSources {
    DocumentSources {
        settings_file: None,
        font_or_image_is_dir: false,
        home: None,
    }
}

/// The toolpath stage when the named input file cannot be read: no toolpath, one warning.
fn font_unavailable(
    _settings: &LegacySettings,
    _text: &str,
    source: &ToolpathSource,
    _request: ToolpathRequest,
) -> (Generation, Vec<String>) {
    (Generation::Nothing, vec![format!("unable to read {source:?}")])
}

#[test]
fn batch_cancel_hook_stops_before_document_load() {
    let err = prepare_batch_output_with_cancel(
        &BatchRequest::default(),
        &sources(),
        &no_files,
        &|| true,
        &font_unavailable,
    )
    .unwrap_err();

    assert_eq!(err.message(), "generation canceled");
}

#[test]
fn batch_cancel_hook_stops_at_stage_boundaries() {
    let calls = Cell::new(0usize);
    let err = prepare_batch_output_with_cancel(
        &BatchRequest::default(),
        &sources(),
        &no_files,
        &|| {
            let next = calls.get() + 1;
            calls.set(next);
            next >= 2
        },
        &font_unavailable,
    )
    .unwrap_err();

    assert_eq!(err.message(), "generation canceled");
    assert_eq!(calls.get(), 2);
}

#[test]
fn batch_cancel_hook_allows_normal_generation_when_clear() {
    let calls = Cell::new(0usize);
    let output = prepare_batch_output_with_cancel(
        &BatchRequest {
            batch: true,
            ..BatchRequest::default()
        },
        &sources(),
        &no_files,
        &|| {
            calls.set(calls.get() + 1);
            false
        },
        &font_unavailable,
    )
    .unwrap();

    assert!(output.gcode.contains("settings-only output"));
    assert!(calls.get() > 2);
}

#[test]
fn batch_cancel_hook_stops_before_bitmap_vectorization_work() {
    let in_vectorization = Cell::new(false);

    let err = prepare_batch_output_with_cancel_and_progress(
        &BatchRequest {
            batch: true,
            font_or_image: Some("/tmp/rengrave-cancel-image.png".to_owned()),
            ..BatchRequest::default()
        },
        &sources(),
        &no_files,
        &|| in_vectorization.get(),
        &|event| {
            if event == BatchProgress::VectorizingBitmap {
                in_vectorization.set(true);
            }
        },
        &font_unavailable,
    )
    .unwrap_err();

    assert_eq!(err.message(), "generation canceled");
    assert!(in_vectorization.get());
}

#[test]
fn image_inputs_are_dispatched_by_extension() {
    let seen = RefCell::new(Vec::new());
    let record = |_s: &LegacySettings, _t: &str, source: &ToolpathSource, _r: ToolpathRequest| {
        seen.borrow_mut().push(source.clone());
        (Generation::Nothing, Vec::new())
    };
    for path in ["/tmp/a.DXF", "/tmp/b.svg", "/tmp/c.jpeg", "/tmp/d.txt"] {
        let output = prepare_batch_output(
            &BatchRequest {
                font_or_image: Some(path.to_owned()),
                ..BatchRequest::default()
            },
            &sources(),
            &no_files,
            &record,
        )
        .unwrap();
        if path.ends_with(".txt") {
            assert_eq!(output.warnings[0], "unsupported image input format");
        }
    }
    assert_eq!(
        seen.into_inner(),
        vec![
            ToolpathSource::DxfImage("/tmp/a.DXF".to_owned()),
            ToolpathSource::SvgImage("/tmp/b.svg".to_owned()),
            ToolpathSource::BitmapImage("/tmp/c.jpeg".to_owned()),
        ]
    );
}

#[test]
fn batch_text_uses_legacy_pipe_newline_convention() {
    let output = prepare_batch_output(
        &BatchRequest {
            batch: true,
            text: Some("Line 1|Line 2".to_owned()),
            ..BatchRequest::default()
        },
        &sources(),
        &no_files,
        &font_unavailable,
    )
    .unwrap();

    assert!(output
        .gcode
        .contains("(fengrave_set TCODE       076 105 110 101 032 049 010 076 105 110 101 )"));
    assert!(output.gcode.contains("(fengrave_set TCODE       032 050 )"));
}

#[test]
fn font_path_updates_text_input_settings() {
    let output = prepare_batch_output(
        &BatchRequest {
            batch: true,
            font_or_image: Some("/tmp/example.ttf".to_owned()),
            ..BatchRequest::default()
        },
        &sources(),
        &no_files,
        &font_unavailable,
    )
    .unwrap();

    assert!(output
        .gcode
        .contains("(fengrave_set fontfile    \"example.ttf\" )"));
    assert!(output.gcode.contains("(fengrave_set input_type  text )"));
}

#[test]
fn settings_only_output_warns_after_generation_warnings() {
    let output = prepare_batch_output(
        &BatchRequest::default(),
        &sources(),
        &no_files,
        &font_unavailable,
    )
    .unwrap();
    assert_eq!(
        output.warnings,
        vec![
            "only CXF and TTF text fonts are currently generated in Rust batch mode".to_owned(),
            "settings-only output generated because no toolpath could be produced".to_owned(),
        ]
    );
    assert!(output.secondary_gcode.is_empty());
    assert!(output.svg.is_none());
    assert!(output.dxf.is_none());
    assert!(output.gcode.starts_with("( Code generated by r-engrave-"));
    assert!(output
        .gcode
        .ends_with("( R-Engrave settings-only output: no toolpath was generated )\n"));
}

#[test]
fn batch_progress_reports_rendering_stages() {
    let events = RefCell::new(Vec::new());
    let generate = |_settings: &LegacySettings,
                    _text: &str,
                    source: &ToolpathSource,
                    request: ToolpathRequest| {
        assert_eq!(source, &ToolpathSource::CxfFont("/tmp/font.cxf".to_owned()));
        assert!(request.include_secondary);
        assert!(request.include_svg);
        assert!(!request.include_dxf);
        (
            Generation::Toolpaths(GeneratedToolpaths {
                primary: vec!["G0 X0 Y0".to_owned(), "M2".to_owned()],
                secondary: vec![GeneratedSecondary {
                    suffix: "clean".to_owned(),
                    lines: vec!["G1 X1".to_owned()],
                }],
                svg: Some("<svg/>".to_owned()),
                dxf: None,
            }),
            Vec::new(),
        )
    };
    let output = prepare_batch_output_with_cancel_and_progress(
        &BatchRequest {
            batch: true,
            text: Some("A".to_owned()),
            font_or_image: Some("/tmp/font.cxf".to_owned()),
            output: Some("/tmp/out.ngc".to_owned()),
            svg_output: Some("/tmp/out.svg".to_owned()),
            ..BatchRequest::default()
        },
        &sources(),
        &no_files,
        &|| false,
        &|event| events.borrow_mut().push(event),
        &generate,
    )
    .unwrap();

    assert_eq!(
        events.into_inner(),
        vec![
            BatchProgress::LoadingDocument,
            BatchProgress::LoadingTextFont,
            BatchProgress::RenderingPrimary,
            BatchProgress::RenderingSecondary,
            BatchProgress::Finished,
        ]
    );
    assert!(output.warnings.is_empty());
    assert!(output.gcode.contains("(Engrave Text:A )"));
    assert!(output.gcode.ends_with("G0 X0 Y0\nM2\n"));
    assert_eq!(output.secondary_gcode.len(), 1);
    assert_eq!(output.secondary_gcode[0].suffix, "clean");
    assert!(output.secondary_gcode[0].gcode.ends_with("G1 X1\n"));
    assert_eq!(output.svg.as_deref(), Some("<svg/>"));
    assert_eq!(
        BatchProgress::CalculatingVCarve.status_text(),
        "Calculating V-carve"
    );
}

#[test]
fn canceled_generation_is_a_cancel() {
    let generate = |_s: &LegacySettings, _t: &str, _src: &ToolpathSource, _r: ToolpathRequest| {
        (Generation::Canceled, Vec::new())
    };
    let err = prepare_batch_output(
        &BatchRequest {
            font_or_image: Some("/tmp/font.cxf".to_owned()),
            ..BatchRequest::default()
        },
        &sources(),
        &no_files,
        &generate,
    )
    .unwrap_err();
    assert_eq!(err, BatchError::Canceled);
}

#[test]
fn unreadable_settings_file_fails_the_batch() {
    let err = prepare_batch_output(
        &BatchRequest {
            gcode_file: Some("/nowhere/job.ngc".to_owned()),
            ..BatchRequest::default()
        },
        &DocumentSources {
            settings_file: Some(Err("missing".to_owned())),
            font_or_image_is_dir: false,
            home: None,
        },
        &no_files,
        &font_unavailable,
    )
    .unwrap_err();
    assert_eq!(err.message(), "unable to read `/nowhere/job.ngc`: missing");
}

#[test]
fn batch_honors_legacy_no_comments_setting() {
    let output = prepare_batch_output(
        &BatchRequest {
            batch: true,
            settings_overrides: vec![LegacySetting::new("no_comments", "1", false)],
            ..BatchRequest::default()
        },
        &sources(),
        &no_files,
        &font_unavailable,
    )
    .unwrap();
    assert_eq!(
        output.gcode,
        "( R-Engrave settings-only output: no toolpath was generated )\n"
    );
}

#[test]
fn header_lists_settings_between_rules() {
    let mut settings = LegacySettings::default();
    settings.set_or_push("input_type", "text", false);
    let lines = render_settings_header(&settings, "Hi!");
    assert_eq!(
        lines,
        vec![
            format!("( Code generated by r-engrave-{} )", rengrave::RENGRAVE_VERSION),
            "( Compatibility target: f-engrave-1.78.py )".to_owned(),
            "(Settings used in f-engrave when this file was created)".to_owned(),
            "(Engrave Text:Hi  )".to_owned(),
            "(=========================================================)".to_owned(),
            "(fengrave_set input_type  text )".to_owned(),
            "(#########################################################)".to_owned(),
        ]
    );
    settings.set_or_push("input_type", "image", false);
    assert_eq!(render_settings_header(&settings, "Hi").len(), 6);
    let text = render_settings_only_gcode(&settings, "Hi");
    assert!(text.ends_with("(#########################################################)\n( R-Engrave settings-only output: no toolpath was generated )\n"));
}

#[test]
fn text_comment_keeps_forty_alphanumerics() {
    assert_eq!(sanitized_text_comment("a-b c_9"), "a b c 9");
    let long = "x".repeat(45);
    assert_eq!(sanitized_text_comment(&long), format!("{}___", "x".repeat(40)));
    assert_eq!(sanitized_text_comment(&"y".repeat(40)), "y".repeat(40));
    assert_eq!(sanitized_text_comment("ünï"), " n ");
}

#[test]
fn secondary_output_path_preserves_extension() {
    assert_eq!(
        secondary_output_path("/tmp/output.ngc", "vclean"),
        "/tmp/output_vclean.ngc"
    );
    assert_eq!(
        secondary_output_path("/tmp/output", "clean"),
        "/tmp/output_clean"
    );
}

#[test]
fn default_settings_render_a_full_header() {
    let settings = default_legacy_settings();
    let lines = render_settings_header(&settings, "R-Engrave");
    assert_eq!(lines.len(), 5 + settings.entries.len() + 1);
    assert_eq!(lines[3], "(Engrave Text:R Engrave )");
}

#[test]
fn no_comments_leaves_the_header_empty() {
    let mut settings = default_legacy_settings();
    settings.set_or_push("no_comments", "1", false);
    assert!(render_settings_header(&settings, "R-Engrave").is_empty());
    settings.set_or_push("no_comments", "0", false);
    let lines = render_settings_header(&settings, "R-Engrave");
    assert_eq!(lines.len(), settings.entries.len() + 6);
    assert_eq!(lines[5], settings.to_comments()[0]);
    assert_eq!(
        lines.last().unwrap(),
        "(#########################################################)"
    );
}

#[test]
fn every_stage_has_its_own_status_line() {
    let stages = [
        BatchProgress::LoadingDocument,
        BatchProgress::LoadingTextFont,
        BatchProgress::LoadingDxf,
        BatchProgress::LoadingSvg,
        BatchProgress::VectorizingBitmap,
        BatchProgress::LayingOutText,
        BatchProgress::LayingOutImage,
        BatchProgress::PreparingExports,
        BatchProgress::WritingEngrave,
        BatchProgress::CalculatingVCarve,
        BatchProgress::CalculatingStraightCleanup,
        BatchProgress::CalculatingVBitCleanup,
        BatchProgress::WritingVCarve,
        BatchProgress::WritingProfileChamfer,
        BatchProgress::WritingProfileCut,
        BatchProgress::RenderingPrimary,
        BatchProgress::RenderingSecondary,
        BatchProgress::RenderingSettingsOnly,
        BatchProgress::Finished,
    ];
    for (i, a) in stages.iter().enumerate() {
        assert!(!a.status_text().is_empty());
        for b in &stages[i + 1..] {
            assert_ne!(a.status_text(), b.status_text());
        }
    }
    assert_eq!(BatchProgress::Finished.status_text(), "Calculation complete");
}

#[test]
fn exports_are_kept_only_when_requested() {
    let generate = |_settings: &LegacySettings,
                    _text: &str,
                    _source: &ToolpathSource,
                    _request: ToolpathRequest| {
        (
            Generation::Toolpaths(GeneratedToolpaths {
                primary: vec!["M2".to_owned()],
                secondary: vec![GeneratedSecondary {
                    suffix: "clean".to_owned(),
                    lines: vec!["G1 X1".to_owned()],
                }],
                svg: Some("<svg/>".to_owned()),
                dxf: Some("0\nEOF\n".to_owned()),
            }),
            Vec::new(),
        )
    };
    let output = prepare_batch_output(
        &BatchRequest {
            batch: true,
            font_or_image: Some("/tmp/font.cxf".to_owned()),
            ..BatchRequest::default()
        },
        &sources(),
        &no_files,
        &generate,
    )
    .unwrap();
    assert!(output.svg.is_none());
    assert!(output.dxf.is_none());
    assert!(output.secondary_gcode.is_empty());

    let output = prepare_batch_output(
        &BatchRequest {
            batch: true,
            font_or_image: Some("/tmp/font.cxf".to_owned()),
            dxf_output: Some("/tmp/out.dxf".to_owned()),
            include_secondary: true,
            ..BatchRequest::default()
        },
        &sources(),
        &no_files,
        &generate,
    )
    .unwrap();
    assert!(output.svg.is_none());
    assert_eq!(output.dxf.as_deref(), Some("0\nEOF\n"));
    assert_eq!(output.secondary_gcode.len(), 1);
}
