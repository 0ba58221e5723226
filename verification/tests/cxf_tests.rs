use rengrave::cxf::{cxf_structure_with_cancel, CxfCommand, CxfFont, CxfGlyph};
use rengrave::font::FontError;

fn line(s: &str) -> CxfCommand {
    CxfCommand::Line(s.to_string())
}

fn arc(s: &str) -> CxfCommand {
    CxfCommand::Arc(s.to_string())
}

#[test]
fn commands_are_grouped_under_their_glyph_headers() {
    let input = [
        "# comment",
        "L 0,0,1,1",
        "[A] 3",
        "  L 0,0,1,1  ",
        "A 0,0,1,0,90",
        "junk line",
        "[0041] 2",
        "L 1,1,2,2",
        "[#0042] 1",
        "[AB] x",
        "[\u{e9}] 1",
        "[x]y",
        "[+043] 1",
    ]
    .join("\n");
    let font = cxf_structure_with_cancel(&input, &|| false).expect("not canceled");
    assert_eq!(
        font,
        CxfFont {
            glyphs: vec![
                CxfGlyph {
                    key: 65,
                    commands: vec![line("L 0,0,1,1"), line("L 0,0,1,1"), arc("A 0,0,1,0,90")],
                },
                CxfGlyph { key: 0x41, commands: vec![line("L 1,1,2,2")] },
                CxfGlyph { key: 0x42, commands: vec![] },
                CxfGlyph { key: 0xe9, commands: vec![] },
                CxfGlyph { key: 0x43, commands: vec![] },
            ],
            unassigned: vec![],
        }
    );
}

#[test]
fn commands_without_any_header_stay_unassigned() {
    let font = cxf_structure_with_cancel("L 1,2,3,4\r\nA 1,2,3,4,5\n", &|| false).unwrap();
    assert!(font.glyphs.is_empty());
    assert_eq!(font.unassigned, vec![line("L 1,2,3,4"), arc("A 1,2,3,4,5")]);
}

#[test]
fn structure_reading_stops_when_canceled() {
    assert_eq!(
        cxf_structure_with_cancel("[A] 1\nL 0,0,1,1", &|| true),
        Err(FontError::Canceled)
    );
    assert_eq!(
        cxf_structure_with_cancel("", &|| true),
        Ok(CxfFont { glyphs: vec![], unassigned: vec![] })
    );
}
