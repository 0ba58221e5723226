use rengrave::cleanup::{cleanup_selections, parse_clean_paths, CleanupBit, CleanupSelection};
use rengrave::design::DesignError;
use rengrave::dxf::DxfError;
use rengrave::export::empty_svg;
use rengrave::external::is_bitmap_input;
use rengrave::font::FontError;
use rengrave::gcode::{split_gcode_lines, ArcFit, Units};
use rengrave::general_pocket::{PocketCutMode, PocketGenerationError, PocketPathPattern};
use rengrave::general_profile::{ProfileCutSide, ProfileGenerationError};
use rengrave::general_toolbit::{GeneralSpindleDirection, GeneralToolbitKind};
use rengrave::layout::{
    get_bool, CutType, HeightCalc, InputType, Justify, LayoutModes, Origin,
};
use rengrave::profile::{ProfileOrigin, ProfileTool};
use rengrave::svg::is_svg_input;
use rengrave::settings::{default_legacy_settings, LegacySettings};
use rengrave::toolbit::{apply_toolbit, eligible_for, ToolRole, ToolbitFigures};
use rengrave::vcarve::{f_engrave_v_flop, layout_cut_plan, BitShape, CutPlan, VCarveCheckMode};

#[test]
fn v_flop_matches_f_engrave_text_transform_rules() {
    let mut settings = default_legacy_settings();
    settings.set_or_push("input_type", "text", false);
    assert!(!f_engrave_v_flop(&settings));

    settings.set_or_push("plotbox", "1", false);
    assert!(f_engrave_v_flop(&settings));

    settings.set_or_push("mirror", "1", false);
    assert!(!f_engrave_v_flop(&settings));

    settings.set_or_push("v_flop", "1", false);
    assert!(f_engrave_v_flop(&settings));

    settings.set_or_push("input_type", "image", false);
    assert!(f_engrave_v_flop(&settings));
}

#[test]
fn parses_legacy_clean_paths_vbit_xy_order() {
    let mut settings = default_legacy_settings();
    settings.set_or_push("clean_paths", "1,0,1,0,1,0,1,1", false);

    let (straight, vbit) = cleanup_selections(&settings);

    assert!(straight.profile);
    assert!(!straight.x);
    assert!(straight.y);
    assert!(straight.loops);
    assert!(!vbit.profile);
    assert!(!vbit.x);
    assert!(vbit.y);
    assert!(vbit.loops);
}

#[test]
fn clean_paths_default_and_short_lists() {
    assert_eq!(
        parse_clean_paths(None),
        vec![true, true, false, true, false, true, false, false]
    );
    assert_eq!(parse_clean_paths(Some("")), vec![false]);
    assert_eq!(parse_clean_paths(Some("1,,yes")), vec![true, false, true]);
    let mut settings = default_legacy_settings();
    settings.set_or_push("clean_paths", "0", false);
    let (straight, vbit) = cleanup_selections(&settings);
    assert_eq!(
        straight,
        CleanupSelection {
            profile: false,
            x: true,
            y: false,
            loops: false
        }
    );
    assert_eq!(
        vbit,
        CleanupSelection {
            profile: true,
            x: true,
            y: false,
            loops: false
        }
    );
    assert!(vbit.any());
    assert!(!CleanupSelection::default().any());
    assert_eq!(CleanupBit::Straight.suffix(), "clean");
    assert_eq!(CleanupBit::VBit.suffix(), "v_clean");
}

#[test]
fn layout_choices_use_legacy_names_and_defaults() {
    assert_eq!(HeightCalc::parse("max_all"), HeightCalc::MaxAll);
    assert_eq!(HeightCalc::parse("max_use"), HeightCalc::MaxUse);
    assert_eq!(Justify::parse("Center"), Justify::Center);
    assert_eq!(Justify::parse("Right"), Justify::Right);
    assert_eq!(Justify::parse("right"), Justify::Left);
    assert_eq!(Origin::parse("Bot-Center"), Origin::BotCenter);
    assert_eq!(Origin::parse("Arc-Center"), Origin::ArcCenter);
    assert_eq!(Origin::parse("Default"), Origin::Default);
    assert_eq!(InputType::parse("image"), InputType::Image);
    assert_eq!(InputType::parse("text"), InputType::Text);
    assert_eq!(CutType::parse("v-carve"), CutType::VCarve);
    assert_eq!(CutType::parse("engrave"), CutType::Engrave);

    let mut settings = default_legacy_settings();
    settings.set_or_push("mirror", "True", false);
    settings.set_or_push("flip", "yes", false);
    let modes = LayoutModes::from_legacy(&settings);
    assert!(modes.mirror);
    assert!(!modes.flip);
    assert!(get_bool(&settings, "mirror", false));
    assert!(get_bool(&settings, "absent", true));
}

#[test]
fn gcode_choices() {
    assert_eq!(ArcFit::parse("center"), ArcFit::Center);
    assert_eq!(ArcFit::parse("radius"), ArcFit::Radius);
    assert_eq!(ArcFit::parse("none"), ArcFit::Off);
    assert!(ArcFit::Center.enabled());
    assert!(!ArcFit::Off.enabled());
    assert_eq!(Units::parse("mm").gcode(), "G21");
    assert_eq!(Units::parse("in").gcode(), "G20");
}

#[test]
fn vcarve_choices() {
    assert_eq!(BitShape::parse("BALL"), BitShape::Ball);
    assert_eq!(BitShape::parse("FLAT"), BitShape::Flat);
    assert_eq!(BitShape::parse("VBIT"), BitShape::VBit);
    assert_eq!(VCarveCheckMode::parse("chr"), VCarveCheckMode::Character);
    assert_eq!(VCarveCheckMode::parse("all"), VCarveCheckMode::All);
}

#[test]
fn profile_choices() {
    assert_eq!(ProfileOrigin::parse("Mid-Center"), ProfileOrigin::MidCenter);
    assert_eq!(ProfileOrigin::parse("Top-Left"), ProfileOrigin::TopLeft);
    assert_eq!(ProfileOrigin::parse("elsewhere"), ProfileOrigin::Default);
    assert_eq!(ProfileTool::VBitChamfer.suffix(), "profile_chamfer");
    assert_eq!(ProfileTool::StraightEndmill.suffix(), "profile");
    assert_eq!(
        ProfileTool::StraightEndmill.comment(),
        "R-Engrave straight profile cut operation"
    );
}

#[test]
fn general_labels() {
    assert_eq!(PocketPathPattern::ZigZagOffset.label(), "ZigZag + Offset");
    assert_eq!(PocketCutMode::Conventional.label(), "Conventional");
    assert_eq!(PocketCutMode::default(), PocketCutMode::Climb);
    assert_eq!(ProfileCutSide::OnLine.label(), "On the line");
    assert_eq!(ProfileCutSide::default(), ProfileCutSide::Outside);
    assert_eq!(GeneralToolbitKind::Ballnose.asset_name(), "ballend");
    assert_eq!(GeneralToolbitKind::SlittingSaw.label(), "Slitting saw");
    assert_eq!(GeneralSpindleDirection::Reverse.label(), "Reverse");
    assert_eq!(
        PocketGenerationError::ToolDoesNotFit.message(),
        "the selected toolbit does not fit inside the vector"
    );
    assert_eq!(
        ProfileGenerationError::CollapsedBoundary.message(),
        "the selected side and offset collapse the profile boundary"
    );
}

#[test]
fn role_filter_rejects_bullnose_operations() {
    assert!(!eligible_for("bullnose", ToolRole::Primary));
    assert!(!eligible_for("bullnose", ToolRole::ProfileEndmill));
}

#[test]
fn role_filter_accepts_matching_kinds() {
    assert!(eligible_for("v_bit", ToolRole::Primary));
    assert!(eligible_for("straight_endmill", ToolRole::VBitCleanup));
    assert!(eligible_for("straight_endmill", ToolRole::Cleanup));
    assert!(!eligible_for("v_bit", ToolRole::Cleanup));
    assert!(eligible_for("v_bit", ToolRole::ProfileChamfer));
    assert!(!eligible_for("straight_endmill", ToolRole::ProfileChamfer));
}

#[test]
fn error_messages() {
    assert_eq!(
        DesignError::ObjectNotFound(42).message(),
        "design object 42 does not exist"
    );
    assert_eq!(
        DesignError::InvalidRadius.message(),
        "circle radius must be finite and greater than zero"
    );
    assert_eq!(
        DxfError::Read {
            path: "a.dxf".to_owned(),
            source: "gone".to_owned()
        }
        .message(),
        "unable to read DXF `a.dxf`: gone"
    );
    assert_eq!(
        FontError::InvalidArc {
            line: "A 1,2".to_owned()
        }
        .message(),
        "invalid arc command `A 1,2`"
    );
    assert_eq!(FontError::Canceled.message(), "font parsing canceled");
    assert_eq!(
        FontError::MissingScaleGlyph {
            path: "f.ttf".to_owned()
        }
        .message(),
        "TTF font `f.ttf` does not contain outline data for A"
    );
}

#[test]
fn recognizes_bitmap_inputs() {
    assert!(is_bitmap_input("input.png"));
    assert!(is_bitmap_input("input.gif"));
    assert!(is_bitmap_input("input.jpeg"));
    assert!(is_bitmap_input("input.PBM"));
    assert!(!is_bitmap_input("input.dxf"));
    assert!(!is_bitmap_input("input.cxf"));
}

#[test]
fn recognizes_svg_inputs_ignoring_case() {
    assert!(is_svg_input("art/logo.svg"));
    assert!(is_svg_input("LOGO.SVG"));
    assert!(!is_svg_input("logo.dxf"));
    assert!(!is_svg_input("svg"));
}

fn figures(diameter: &str, angle: Option<&str>) -> ToolbitFigures {
    ToolbitFigures {
        diameter: diameter.to_string(),
        angle: angle.map(|a| a.to_string()),
        feed: None,
        plunge: None,
    }
}

#[test]
fn toolbits_write_the_settings_of_their_role() {
    let mut settings = LegacySettings::parse("");
    apply_toolbit(&mut settings, "straight_endmill", ToolRole::ProfileEndmill, &figures("1", None));
    assert_eq!(settings.get_last("profile_endmill_dia"), Some("1"));

    let mut settings = LegacySettings::parse("");
    apply_toolbit(&mut settings, "v_bit", ToolRole::Primary, &figures("0.125", Some("60")));
    assert_eq!(settings.get_last("bit_shape"), Some("VBIT"));
    assert_eq!(settings.get_last("v_bit_dia"), Some("0.125"));
    assert_eq!(settings.get_last("v_bit_angle"), Some("60"));

    let mut settings = LegacySettings::parse("");
    let mut chamfer = figures("6", None);
    chamfer.feed = Some("100".to_string());
    apply_toolbit(&mut settings, "v_bit", ToolRole::ProfileChamfer, &chamfer);
    assert_eq!(settings.get_last("profile_chamfer"), Some("1"));
    assert_eq!(settings.get_last("profile_chamfer_angle"), Some("60"));
    assert_eq!(settings.get_last("FEED"), Some("100"));
    assert_eq!(settings.get_last("PLUNGE"), None);

    let mut settings = LegacySettings::parse("");
    apply_toolbit(&mut settings, "bullnose", ToolRole::Primary, &figures("3", None));
    assert_eq!(settings.get_last("bit_shape"), None);
}

#[test]
fn units_choose_their_decimal_places() {
    assert_eq!(Units::Inch.coord_digits(), 4);
    assert_eq!(Units::Mm.coord_digits(), 3);
    assert_eq!(Units::Inch.feed_digits(), 2);
    assert_eq!(Units::Mm.feed_digits(), 1);
}

#[test]
fn empty_drawings_export_a_zero_sized_svg() {
    assert_eq!(
        empty_svg("in"),
        "<?xml version=\"1.0\" standalone=\"no\"?>\n<svg width=\"0.000000in\" height=\"0.000000in\" viewBox=\"0 0 0.000000 0.000000\" xmlns=\"http://www.w3.org/2000/svg\" version=\"1.1\">\n</svg>\n"
    );
}

#[test]
fn gcode_preambles_split_at_pipes() {
    assert_eq!(split_gcode_lines("G17|G90||M3"), vec!["G17", "G90", "", "M3"]);
    assert_eq!(split_gcode_lines(""), vec![""]);
}

#[test]
fn cut_plan_follows_cut_type_bit_and_input() {
    let mut settings = LegacySettings::default();
    assert_eq!(layout_cut_plan(&settings, BitShape::VBit), CutPlan::Engrave);
    settings.set_or_push("cut_type", "v-carve", false);
    assert_eq!(
        layout_cut_plan(&settings, BitShape::VBit),
        CutPlan::VCarve { image_input: false }
    );
    assert_eq!(layout_cut_plan(&settings, BitShape::Flat), CutPlan::Engrave);
    settings.set_or_push("input_type", "image", false);
    assert_eq!(
        layout_cut_plan(&settings, BitShape::Ball),
        CutPlan::VCarve { image_input: true }
    );
    settings.set_or_push("cut_type", "engrave", false);
    assert_eq!(layout_cut_plan(&settings, BitShape::Ball), CutPlan::Engrave);
}
