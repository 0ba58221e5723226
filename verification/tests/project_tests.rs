use rengrave::project::{
    apply_font_or_image, expand_user_path, is_rengrave_project_path, load_document,
    normalize_cli_text, resolve_input_kind, resolve_input_path, validate_project_version,
    DocumentError, DocumentRequest, DocumentSources, InputKind, ProjectFileError,
    RengraveProjectFile, RENGRAVE_PROJECT_FORMAT_VERSION,
};
use rengrave::settings::{default_legacy_settings, LegacySetting};

fn no_files(_path: &str) -> bool {
    false
}

fn plain_sources() -> DocumentSources {
    DocumentSources {
        settings_file: None,
        font_or_image_is_dir: false,
        home: None,
    }
}

#[test]
fn resolves_relative_cxf_font_from_legacy_settings() {
    let mut settings = default_legacy_settings();
    settings.set_or_push("fontdir", "/tmp/fonts", true);
    settings.set_or_push("fontfile", "romanc.cxf", true);

    assert_eq!(
        resolve_input_kind(&settings, None, &no_files),
        InputKind::CxfFont("/tmp/fonts/romanc.cxf".to_owned())
    );
}

#[test]
fn resolves_ttf_font_ignoring_extension_case_and_absolute_paths() {
    let mut settings = default_legacy_settings();
    settings.set_or_push("fontdir", "/tmp/fonts", true);
    settings.set_or_push("fontfile", "/usr/share/Sans.TTF", true);
    assert_eq!(
        resolve_input_kind(&settings, None, &no_files),
        InputKind::TtfFont("/usr/share/Sans.TTF".to_owned())
    );
    settings.set_or_push("fontfile", "notes.txt", true);
    assert_eq!(resolve_input_kind(&settings, None, &no_files), InputKind::Missing);
    assert_eq!(resolve_input_path(&settings, None, &no_files), None);
}

#[test]
fn default_settings_name_no_font() {
    let settings = default_legacy_settings();
    assert_eq!(resolve_input_kind(&settings, None, &no_files), InputKind::Missing);
}

#[test]
fn home_expands_in_font_directories() {
    let mut settings = default_legacy_settings();
    settings.set_or_push("fontdir", "~/fonts", true);
    settings.set_or_push("fontfile", "romanc.cxf", true);
    assert_eq!(
        resolve_input_kind(&settings, Some("/home/me"), &no_files),
        InputKind::CxfFont("/home/me/fonts/romanc.cxf".to_owned())
    );
    assert_eq!(expand_user_path("~", Some("/home/me")), "/home/me");
    assert_eq!(expand_user_path("~/a", None), "~/a");
    assert_eq!(expand_user_path("x~/a", Some("/home/me")), "x~/a");
}

#[test]
fn resolves_stale_imagefile_from_ngc_dir_basename() {
    let mut settings = default_legacy_settings();
    settings.set_or_push("input_type", "image", false);
    settings.set_or_push("imagefile", "/missing/original/part.dxf", true);
    settings.set_or_push("NGC_DIR", "/tmp/rengrave-ngc-dir-image", true);
    let exists = |path: &str| path == "/tmp/rengrave-ngc-dir-image/part.dxf";

    assert_eq!(
        resolve_input_kind(&settings, None, &exists),
        InputKind::Image("/tmp/rengrave-ngc-dir-image/part.dxf".to_owned())
    );
}

#[test]
fn image_path_prefers_the_path_as_written() {
    let mut settings = default_legacy_settings();
    settings.set_or_push("input_type", "image", false);
    settings.set_or_push("imagefile", " /data/part.dxf ", true);
    settings.set_or_push("NGC_DIR", "/tmp/out", true);
    let everything = |_path: &str| true;
    assert_eq!(
        resolve_input_kind(&settings, None, &everything),
        InputKind::Image("/data/part.dxf".to_owned())
    );
    assert_eq!(
        resolve_input_kind(&settings, None, &no_files),
        InputKind::Image("/data/part.dxf".to_owned())
    );
    settings.set_or_push("NGC_DIR", "~/None", true);
    let only_out = |path: &str| path == "/tmp/out/part.dxf";
    assert_eq!(
        resolve_input_kind(&settings, None, &only_out),
        InputKind::Image("/data/part.dxf".to_owned())
    );
}

#[test]
fn cli_text_overrides_default_and_uses_pipe_newlines() {
    let document = load_document(
        &DocumentRequest {
            text: Some("Line 1|Line 2".to_owned()),
            ..DocumentRequest::default()
        },
        &plain_sources(),
        &no_files,
    )
    .unwrap();

    assert_eq!(document.text, "Line 1\nLine 2");
    assert_eq!(
        document.settings.text_from_tcode().unwrap(),
        Some("Line 1\nLine 2".to_owned())
    );
}

#[test]
fn image_path_switches_input_type_to_image() {
    let document = load_document(
        &DocumentRequest {
            font_or_image: Some("/tmp/example.dxf".to_owned()),
            ..DocumentRequest::default()
        },
        &plain_sources(),
        &no_files,
    )
    .unwrap();

    assert_eq!(document.settings.get_last("input_type"), Some("image"));
    assert_eq!(
        document.settings.get_last("imagefile"),
        Some("/tmp/example.dxf")
    );
    assert_eq!(document.input_path, Some("/tmp/example.dxf".to_owned()));
}

#[test]
fn settings_overrides_are_applied_after_loaded_settings() {
    let mut settings = default_legacy_settings();
    settings.set_or_push("YSCALE", "2.0", false);
    settings.set_or_push("plotbox", "0", false);
    let input = settings.to_text();

    let document = load_document(
        &DocumentRequest {
            gcode_file: Some("/tmp/rengrave-override-settings.ngc".to_owned()),
            settings_overrides: vec![
                LegacySetting::new("YSCALE", "3.5", false),
                LegacySetting::new("plotbox", "1", false),
            ],
            ..DocumentRequest::default()
        },
        &DocumentSources {
            settings_file: Some(Ok(input)),
            font_or_image_is_dir: false,
            home: None,
        },
        &no_files,
    )
    .unwrap();

    assert_eq!(document.settings.get_last("YSCALE"), Some("3.5"));
    assert_eq!(document.settings.get_last("plotbox"), Some("1"));
}

#[test]
fn load_document_exposes_resolved_font_path_from_settings() {
    let dir = "/tmp/rengrave-settings-font-path";
    let input = format!(
        "(fengrave_set input_type  text )\n(fengrave_set fontdir     \"{dir}\" )\n(fengrave_set fontfile    \"romanc.cxf\" )\n"
    );

    let document = load_document(
        &DocumentRequest {
            gcode_file: Some(format!("{dir}/settings.ngc")),
            ..DocumentRequest::default()
        },
        &DocumentSources {
            settings_file: Some(Ok(input)),
            font_or_image_is_dir: false,
            home: None,
        },
        &no_files,
    )
    .unwrap();

    assert_eq!(document.input_path, Some(format!("{dir}/romanc.cxf")));
}

#[test]
fn load_document_exposes_resolved_stale_image_path() {
    let dir = "/tmp/rengrave-settings-image-path";
    let input = format!(
        "(fengrave_set input_type  image )\n(fengrave_set imagefile   \"/missing/original/part.dxf\" )\n(fengrave_set NGC_DIR     \"{dir}\" )\n"
    );
    let image_path = format!("{dir}/part.dxf");
    let exists = |path: &str| path == image_path;

    let document = load_document(
        &DocumentRequest {
            gcode_file: Some(format!("{dir}/settings.ngc")),
            ..DocumentRequest::default()
        },
        &DocumentSources {
            settings_file: Some(Ok(input)),
            font_or_image_is_dir: false,
            home: None,
        },
        &exists,
    )
    .unwrap();

    assert_eq!(document.input_path, Some(image_path.clone()));
}

#[test]
fn bitmap_input_defaults_to_native_potrace_without_external_warning() {
    let document = load_document(
        &DocumentRequest {
            font_or_image: Some("/tmp/example.png".to_owned()),
            ..DocumentRequest::default()
        },
        &plain_sources(),
        &no_files,
    )
    .unwrap();

    assert_eq!(document.settings.get_last("input_type"), Some("image"));
    assert_eq!(
        document.settings.get_last("bitmap_backend"),
        Some("native-potrace")
    );
    assert!(document.warnings.is_empty());
}

#[test]
fn legacy_vtracer_bitmap_backend_normalizes_to_native_potrace() {
    let document = load_document(
        &DocumentRequest {
            gcode_file: Some("/tmp/rengrave-legacy-vtracer-settings.ngc".to_owned()),
            font_or_image: Some("/tmp/example.png".to_owned()),
            ..DocumentRequest::default()
        },
        &DocumentSources {
            settings_file: Some(Ok(
                "(fengrave_set input_type  image )\n(fengrave_set bitmap_backend vtracer )\n"
                    .to_owned(),
            )),
            font_or_image_is_dir: false,
            home: None,
        },
        &no_files,
    )
    .unwrap();

    assert_eq!(
        document.settings.get_last("bitmap_backend"),
        Some("native-potrace")
    );
}

#[test]
fn legacy_potrace_sidecar_bitmap_backend_normalizes_to_native_potrace() {
    let document = load_document(
        &DocumentRequest {
            font_or_image: Some("/tmp/example.bmp".to_owned()),
            settings_overrides: vec![LegacySetting::new(
                "bitmap_backend",
                "potrace-sidecar",
                false,
            )],
            ..DocumentRequest::default()
        },
        &plain_sources(),
        &no_files,
    )
    .unwrap();

    assert!(document.warnings.is_empty());
    assert_eq!(
        document.settings.get_last("bitmap_backend"),
        Some("native-potrace")
    );
}

#[test]
fn invalid_tcode_is_a_warning_not_a_document_failure() {
    let mut settings = default_legacy_settings();
    settings
        .entries
        .push(LegacySetting::new("TCODE", "not-a-code", false));
    let input = settings.to_text();

    let document = load_document(
        &DocumentRequest {
            gcode_file: Some("/tmp/rengrave-invalid-tcode.ngc".to_owned()),
            ..DocumentRequest::default()
        },
        &DocumentSources {
            settings_file: Some(Ok(input)),
            font_or_image_is_dir: false,
            home: None,
        },
        &no_files,
    )
    .unwrap();

    assert_eq!(document.text, "R-Engrave");
    assert_eq!(document.warnings.len(), 1);
    assert_eq!(
        document.warnings[0],
        "ignored invalid legacy TCODE text: invalid TCODE token `not-a-code`"
    );
}

#[test]
fn unreadable_settings_file_is_a_document_error() {
    let err = load_document(
        &DocumentRequest {
            gcode_file: Some("/nowhere/job.ngc".to_owned()),
            ..DocumentRequest::default()
        },
        &DocumentSources {
            settings_file: Some(Err("No such file or directory (os error 2)".to_owned())),
            font_or_image_is_dir: false,
            home: None,
        },
        &no_files,
    )
    .unwrap_err();
    assert_eq!(
        err,
        DocumentError::ReadSettings {
            path: "/nowhere/job.ngc".to_owned(),
            source: "No such file or directory (os error 2)".to_owned(),
        }
    );
    assert_eq!(
        err.message(),
        "unable to read `/nowhere/job.ngc`: No such file or directory (os error 2)"
    );
}

#[test]
fn recorded_text_is_reused_and_replaced() {
    let mut settings = default_legacy_settings();
    settings
        .entries
        .extend(rengrave::settings::tcode_settings("Saved"));
    let document = load_document(
        &DocumentRequest {
            gcode_file: Some("/tmp/saved.ngc".to_owned()),
            ..DocumentRequest::default()
        },
        &DocumentSources {
            settings_file: Some(Ok(settings.to_text())),
            font_or_image_is_dir: false,
            home: None,
        },
        &no_files,
    )
    .unwrap();
    assert_eq!(document.text, "Saved");
    let tcode_count = document
        .settings
        .entries
        .iter()
        .filter(|e| e.key == "TCODE")
        .count();
    assert_eq!(tcode_count, 1);
}

#[test]
fn font_directories_and_files_update_font_settings() {
    let mut settings = default_legacy_settings();
    apply_font_or_image(&mut settings, "/usr/share/fonts", true);
    assert_eq!(settings.get_last("fontdir"), Some("/usr/share/fonts"));

    let mut settings = default_legacy_settings();
    apply_font_or_image(&mut settings, "/tmp/example.TTF", false);
    assert_eq!(settings.get_last("fontdir"), Some("/tmp"));
    assert_eq!(settings.get_last("fontfile"), Some("example.TTF"));
    assert_eq!(settings.get_last("input_type"), Some("text"));
}

#[test]
fn pipes_become_line_breaks() {
    assert_eq!(normalize_cli_text("a|b||c"), "a\nb\n\nc");
    assert_eq!(normalize_cli_text("plain"), "plain");
}

#[test]
fn project_versions_up_to_the_current_one_are_accepted() {
    assert!(validate_project_version(0).is_ok());
    assert!(validate_project_version(RENGRAVE_PROJECT_FORMAT_VERSION).is_ok());
    let err = validate_project_version(99).unwrap_err();
    assert_eq!(
        err,
        ProjectFileError::UnsupportedVersion {
            version: 99,
            supported: 1
        }
    );
    assert_eq!(
        err.message(),
        "unsupported R-Engrave project version 99; this build supports up to 1"
    );
}

#[test]
fn new_projects_hold_the_default_settings() {
    let project = RengraveProjectFile::default();
    assert_eq!(project.format_version, RENGRAVE_PROJECT_FORMAT_VERSION);
    assert_eq!(project.text, "R-Engrave");
    assert_eq!(project.settings, default_legacy_settings());
    assert_eq!(project.application_version, rengrave::RENGRAVE_VERSION);
}

#[test]
fn project_paths_are_recognised_by_extension() {
    assert!(is_rengrave_project_path("/tmp/job.rgrv"));
    assert!(is_rengrave_project_path("job.RGRV"));
    assert!(!is_rengrave_project_path("job.ngc"));
    assert!(!is_rengrave_project_path("rgrv"));
}

#[test]
fn loaded_document_records_its_text_as_trailing_tcode_entries() {
    let mut sources = plain_sources();
    sources.settings_file =
        Some(Ok("(fengrave_set TCODE       065 )\n(fengrave_set units      in )\n".to_owned()));
    let document = load_document(
        &DocumentRequest {
            gcode_file: Some("/tmp/job.ngc".to_owned()),
            text: Some("a|b".to_owned()),
            ..DocumentRequest::default()
        },
        &sources,
        &no_files,
    )
    .unwrap();
    assert_eq!(document.text, "a\nb");
    assert_eq!(document.settings.text_from_tcode().unwrap(), Some("a\nb".to_owned()));
    let entries = &document.settings.entries;
    let last = entries.last().unwrap();
    assert_eq!(last.key, "TCODE");
    assert_eq!(last.value, "097 010 098");
    assert_eq!(entries.iter().filter(|e| e.key == "TCODE").count(), 1);
}

#[test]
fn the_last_override_of_a_key_wins() {
    let document = load_document(
        &DocumentRequest {
            settings_overrides: vec![
                LegacySetting::new("units", "mm", false),
                LegacySetting::new("fontfile", "other.cxf", true),
                LegacySetting::new("units", "in", false),
                LegacySetting::new("TCODE", "065", false),
            ],
            ..DocumentRequest::default()
        },
        &plain_sources(),
        &no_files,
    )
    .unwrap();
    assert_eq!(document.settings.get_last("units"), Some("in"));
    assert_eq!(document.settings.get_last("fontfile"), Some("other.cxf"));
    assert_eq!(document.text, "R-Engrave");
}
