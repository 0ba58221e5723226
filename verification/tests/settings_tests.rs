use rengrave::settings::{
    default_legacy_settings, get_legacy_bool, legacy_bool_value, tcode_settings, LegacySetting,
    LegacySettings, LegacySettingsError,
};

#[test]
fn parses_quoted_and_bare_settings() {
    let parsed = LegacySettings::parse(
        r#"
(fengrave_set fontfile   "romanc.cxf" )
(fengrave_set units      in )
(fengrave_set gpre        G17 G64 P0.001 M3 S3000 )
"#,
    );

    assert_eq!(parsed.get_last("fontfile"), Some("romanc.cxf"));
    assert_eq!(parsed.get_last("units"), Some("in"));
    assert_eq!(parsed.get_last("gpre"), Some("G17 G64 P0.001 M3 S3000"));
}

#[test]
fn reconstructs_text_from_legacy_tcode_chunks() {
    let parsed = LegacySettings::parse(
        r#"
(fengrave_set TCODE    070 045 069 110 103 114 097 118 101 010  )
(fengrave_set TCODE    082 117 115 116 )
"#,
    );

    assert_eq!(
        parsed.text_from_tcode().unwrap(),
        Some("F-Engrave\nRust".to_owned())
    );
}

#[test]
fn tcode_chunks_do_not_add_empty_trailing_line_for_exact_chunks() {
    let chunks = tcode_settings("12345678901");

    assert_eq!(chunks.len(), 1);
    assert_eq!(
        chunks[0].value,
        "049 050 051 052 053 054 055 056 057 048 049"
    );
}

#[test]
fn emits_all_default_recovery_keys_once() {
    let settings = default_legacy_settings();
    assert_eq!(settings.get_last("cut_type"), Some("engrave"));
    assert_eq!(settings.get_last("bit_shape"), Some("VBIT"));
    assert_eq!(settings.get_last("clean_paths"), Some("1,1,0,1,0,1,0,0"));
    assert_eq!(settings.get_last("no_comments"), Some("0"));
    assert!(settings
        .to_text()
        .contains("(fengrave_set fontdir     \"fonts\" )"));
}

#[test]
fn parses_legacy_bool_aliases() {
    assert!(legacy_bool_value("1"));
    assert!(legacy_bool_value("True"));
    assert!(legacy_bool_value("box"));
    assert!(!legacy_bool_value("0"));
    assert!(!legacy_bool_value("False"));
    assert!(!legacy_bool_value("no_box"));
}

#[test]
fn legacy_bool_accepts_padding_and_case() {
    assert!(legacy_bool_value("  1.0 "));
    assert!(legacy_bool_value("YES"));
    assert!(legacy_bool_value("On"));
    assert!(!legacy_bool_value("2"));
    assert!(!legacy_bool_value(""));
}

#[test]
fn get_legacy_bool_uses_the_last_entry_or_the_default() {
    let mut settings = LegacySettings::default();
    assert!(get_legacy_bool(&settings, "flip", true));
    assert!(!get_legacy_bool(&settings, "flip", false));
    settings.entries.push(LegacySetting::new("flip", "1", false));
    settings.entries.push(LegacySetting::new("flip", "0", false));
    assert!(!get_legacy_bool(&settings, "flip", true));
}

#[test]
fn set_or_push_replaces_the_first_entry_or_appends() {
    let mut settings = LegacySettings::default();
    settings.set_or_push("units", "in", false);
    settings.set_or_push("units", "mm", false);
    assert_eq!(settings.entries.len(), 1);
    assert_eq!(settings.get_last("units"), Some("mm"));
    settings.set_or_push("fontdir", "fonts", true);
    assert_eq!(settings.entries.len(), 2);
    assert!(settings.entries[1].quoted);
}

#[test]
fn set_then_get_reads_back_the_written_value() {
    let mut settings = default_legacy_settings();
    settings.set_or_push("YSCALE", "3.25", false);
    assert_eq!(settings.get_last("YSCALE"), Some("3.25"));
    let before = settings.get_last("units").map(str::to_owned);
    settings.set_or_push("XSCALE", "50", false);
    assert_eq!(settings.get_last("units").map(str::to_owned), before);
}

#[test]
fn comments_quote_and_escape_values() {
    let quoted = LegacySetting::new("fontfile", "a\"b", true);
    assert_eq!(quoted.to_comment(), "(fengrave_set fontfile    \"a\\\"b\" )");
    let bare = LegacySetting::new("units", "in", false);
    assert_eq!(bare.to_comment(), "(fengrave_set units       in )");
}

#[test]
fn comments_parse_back_to_the_same_settings() {
    let mut settings = LegacySettings::default();
    settings.set_or_push("fontfile", "romanc.cxf", true);
    settings.set_or_push("gpre", "G17 G64 P0.001 M3 S3000", false);
    settings.set_or_push("NGC_DIR", "/tmp/out dir", true);
    let reparsed = LegacySettings::parse(&settings.to_text());
    assert_eq!(reparsed, settings);
}

#[test]
fn tcode_round_trips_text() {
    for text in ["", "A", "Hello, world", "two\nlines", "12345678901234567890123", "ünïcødé ✓"] {
        let settings = LegacySettings { entries: tcode_settings(text) };
        assert_eq!(settings.text_from_tcode().unwrap(), Some(text.to_owned()));
    }
}

#[test]
fn empty_text_has_one_empty_tcode_entry() {
    let chunks = tcode_settings("");
    assert_eq!(chunks.len(), 1);
    assert_eq!(chunks[0].value, "");
}

#[test]
fn settings_without_tcode_have_no_text() {
    let settings = default_legacy_settings();
    assert_eq!(settings.text_from_tcode().unwrap(), None);
}

#[test]
fn invalid_tcode_tokens_are_reported() {
    let bad = LegacySettings::parse("(fengrave_set TCODE    065 abc )\n");
    let err = bad.text_from_tcode().unwrap_err();
    assert!(matches!(err, LegacySettingsError::InvalidTextCode { .. }));
    assert_eq!(err.message(), "invalid TCODE token `abc`");

    let surrogate = LegacySettings::parse("(fengrave_set TCODE    55296 )\n");
    let err = surrogate.text_from_tcode().unwrap_err();
    assert!(matches!(err, LegacySettingsError::InvalidUnicodeScalar { code: 55296 }));
    assert_eq!(err.message(), "invalid Unicode scalar in TCODE: 55296");
}

#[test]
fn to_comments_lists_every_entry() {
    let settings = default_legacy_settings();
    let comments = settings.to_comments();
    assert_eq!(comments.len(), settings.entries.len());
    assert!(comments.iter().all(|c| c.starts_with("(fengrave_set ")));
}

#[test]
fn tcode_decoding_stops_at_the_first_bad_token() {
    let settings = LegacySettings {
        entries: vec![
            LegacySetting::new("TCODE", "072 105", false),
            LegacySetting::new("units", "in", false),
            LegacySetting::new("TCODE", "1114112 abc", false),
        ],
    };
    let err = settings.text_from_tcode().unwrap_err();
    assert!(matches!(err, LegacySettingsError::InvalidUnicodeScalar { code: 1114112 }));

    let settings = LegacySettings {
        entries: vec![
            LegacySetting::new("TCODE", "072 x1", false),
            LegacySetting::new("TCODE", "55296", false),
        ],
    };
    let err = settings.text_from_tcode().unwrap_err();
    assert_eq!(err.message(), "invalid TCODE token `x1`");
}

#[test]
fn tcode_entries_are_read_in_order_across_other_settings() {
    let settings = LegacySettings {
        entries: vec![
            LegacySetting::new("TCODE", "072 105", false),
            LegacySetting::new("units", "in", false),
            LegacySetting::new("TCODE", "  033  ", false),
        ],
    };
    assert_eq!(settings.text_from_tcode().unwrap(), Some("Hi!".to_owned()));
}

#[test]
fn tcode_entries_hold_eleven_codes_each() {
    let text = "abcdefghijklmnopqrstuvw";
    let entries = tcode_settings(text);
    assert_eq!(entries.len(), 3);
    for e in &entries {
        assert_eq!(e.key, "TCODE");
        assert!(!e.quoted);
    }
    assert_eq!(entries[0].value.split_whitespace().count(), 11);
    assert_eq!(entries[1].value.split_whitespace().count(), 11);
    assert_eq!(entries[2].value, "119");
    assert_eq!(entries[0].value, "097 098 099 100 101 102 103 104 105 106 107");
    assert_eq!(tcode_settings("abcdefghijk").len(), 1);
    assert_eq!(tcode_settings("abcdefghijkl").len(), 2);
}
