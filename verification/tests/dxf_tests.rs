use rengrave::dxf::{collect_entity, dxf_entities_with_cancel, group_pairs, DxfEntity, DxfError};
use rengrave::potrace::{ship, ship_comment, ship_endsec, ship_i32, ship_section};
use rengrave::text::parse_i32_chars;

fn chars(s: &str) -> Vec<char> {
    s.chars().collect()
}

fn groups(list: &[(i32, &str)]) -> Vec<(i32, String)> {
    list.iter().map(|(c, v)| (*c, v.to_string())).collect()
}

#[test]
fn i32_parsing_follows_the_standard_rules() {
    assert_eq!(parse_i32_chars(&chars("-12")), Some(-12));
    assert_eq!(parse_i32_chars(&chars("+7")), Some(7));
    assert_eq!(parse_i32_chars(&chars("0")), Some(0));
    assert_eq!(parse_i32_chars(&chars("-2147483648")), Some(i32::MIN));
    assert_eq!(parse_i32_chars(&chars("2147483647")), Some(i32::MAX));
    assert_eq!(parse_i32_chars(&chars("2147483648")), None);
    assert_eq!(parse_i32_chars(&chars("")), None);
    assert_eq!(parse_i32_chars(&chars("-")), None);
    assert_eq!(parse_i32_chars(&chars("1a")), None);
    assert_eq!(parse_i32_chars(&chars(" 1")), None);
}

#[test]
fn group_pairs_trim_and_skip_bad_codes() {
    let input = "  0\r\nSECTION \n  2\nENTITIES\nxx\nignored\n10\n 1.5\n20";
    assert_eq!(
        group_pairs(input),
        groups(&[(0, "SECTION"), (2, "ENTITIES"), (10, "1.5")])
    );
}

#[test]
fn an_entity_runs_to_the_next_zero_code() {
    let pairs = groups(&[(0, "LINE"), (10, "1"), (20, "2"), (0, "EOF")]);
    assert_eq!(collect_entity(&pairs, 1), 3);
    assert_eq!(collect_entity(&pairs, 3), 3);
    assert_eq!(collect_entity(&pairs, 4), 4);
}

#[test]
fn entities_are_read_with_their_groups() {
    let input = [
        "0", "SECTION", "2", "ENTITIES",
        "0", "LINE", "10", "0", "20", "0", "11", "1", "21", "1",
        "0", "CIRCLE", "10", "5", "40", "2",
        "0", "LWPOLYLINE", "70", "1", "10", "0", "20", "0", "10", "2", "20", "0",
        "0", "POLYLINE", "70", "0",
        "0", "VERTEX", "10", "0", "20", "0",
        "0", "VERTEX", "10", "3", "20", "4", "42", "0.5",
        "0", "SEQEND",
        "0", "ENDSEC", "0", "EOF",
    ]
    .join("\n");
    let entities = dxf_entities_with_cancel(&input, &|| false).expect("not canceled");
    assert_eq!(
        entities,
        vec![
            DxfEntity::Line(groups(&[(10, "0"), (20, "0"), (11, "1"), (21, "1")])),
            DxfEntity::LwPolyline {
                closed: true,
                groups: groups(&[(70, "1"), (10, "0"), (20, "0"), (10, "2"), (20, "0")]),
            },
            DxfEntity::Polyline {
                closed: false,
                vertices: vec![
                    groups(&[(10, "0"), (20, "0")]),
                    groups(&[(10, "3"), (20, "4"), (42, "0.5")]),
                ],
            },
        ]
    );
}

#[test]
fn polyline_flags_and_unterminated_polylines() {
    let input = ["0", "POLYLINE", "70", "3", "0", "VERTEX", "10", "1", "20", "1"].join("\n");
    let entities = dxf_entities_with_cancel(&input, &|| false).unwrap();
    assert_eq!(
        entities,
        vec![DxfEntity::Polyline {
            closed: true,
            vertices: vec![groups(&[(10, "1"), (20, "1")])],
        }]
    );
    let odd = ["0", "LWPOLYLINE", "70", "-1", "70", "x"].join("\n");
    let entities = dxf_entities_with_cancel(&odd, &|| false).unwrap();
    assert_eq!(
        entities,
        vec![DxfEntity::LwPolyline { closed: false, groups: groups(&[(70, "-1"), (70, "x")]) }]
    );
}

#[test]
fn entity_reading_stops_when_canceled() {
    let input = "0\nLINE\n10\n1\n";
    assert_eq!(dxf_entities_with_cancel(input, &|| true), Err(DxfError::Canceled));
    assert_eq!(dxf_entities_with_cancel("", &|| true), Ok(vec![]));
}

#[test]
fn groups_written_by_the_tracer_are_read_back() {
    let mut out = String::new();
    ship_section(&mut out, "ENTITIES");
    ship(&mut out, -5, " padded value ");
    ship_i32(&mut out, 1234, 42);
    ship_comment(&mut out, "note");
    ship_endsec(&mut out);
    assert_eq!(
        group_pairs(&out),
        groups(&[
            (0, "SECTION"),
            (2, "ENTITIES"),
            (-5, "padded value"),
            (1234, "42"),
            (999, "note"),
            (0, "ENDSEC"),
        ])
    );
}
