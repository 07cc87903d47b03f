use learning::udmf::{
    extract_udmf_value, infer_map_name_from_textmap_path, next_udmf_block, parse_udmf_string,
    parse_udmf_textmap, parse_udmf_u16, strip_udmf_comments, trim_text, udmf_u16_of,
};
use learning::wad::WadError;

fn text(v: &[u8]) -> String {
    String::from_utf8(v.to_vec()).unwrap()
}

#[test]
fn udmf_strips_line_and_block_comments() {
    assert_eq!(text(&strip_udmf_comments(b"a // note\nb")), "a \nb");
    assert_eq!(text(&strip_udmf_comments(b"x /* y */ z")), "x  z");
    assert_eq!(text(&strip_udmf_comments(b"a // tail")), "a ");
}

#[test]
fn udmf_comments_inside_strings_stay() {
    let s = b"t = \"//not /* a comment\"; // gone";
    assert_eq!(text(&strip_udmf_comments(s)), "t = \"//not /* a comment\"; ");
}

#[test]
fn udmf_unterminated_block_comment_keeps_last_character() {
    assert_eq!(text(&strip_udmf_comments(b"a /* bc")), "a c");
    assert_eq!(text(&strip_udmf_comments("a /* bé".as_bytes())), "a é");
    assert_eq!(text(&strip_udmf_comments(b"a /*")), "a ");
    assert_eq!(text(&strip_udmf_comments(b"a /*x")), "a x");
}

#[test]
fn udmf_reads_blocks_in_turn() {
    let t = b"  Vertex { x = 1; }\nthing{type=1;{inner}}  tail";
    let (name, body, next) = next_udmf_block(t, 0).unwrap();
    assert_eq!(name, b"vertex".to_vec());
    assert_eq!(body, b" x = 1; ".to_vec());
    assert_eq!(next, 19);
    let (name2, body2, next2) = next_udmf_block(t, next).unwrap();
    assert_eq!(name2, b"thing".to_vec());
    assert_eq!(body2, b"type=1;{inner}".to_vec());
    assert_eq!(next2, 41);
    assert!(next_udmf_block(t, next2).is_none());
    assert!(next_udmf_block(b"vertex { x = 1;", 0).is_none());
    assert!(next_udmf_block(b"= { }", 0).is_none());
}

#[test]
fn udmf_values_by_key() {
    assert_eq!(extract_udmf_value(b" x = 1 ; Y= 2 ", b"y"), Some(b"2".to_vec()));
    assert_eq!(extract_udmf_value(b";; x = a=b;", b"X"), Some(b"a=b".to_vec()));
    assert_eq!(extract_udmf_value(b"x = 1; y = 2", b"z"), None);
    // A statement without `=` ends the search.
    assert_eq!(extract_udmf_value(b"junk; x = 1;", b"x"), None);
}

#[test]
fn udmf_numbers_as_indices() {
    assert_eq!(parse_udmf_u16(b"v1 = 5;", b"v1"), Some(5));
    assert_eq!(parse_udmf_u16(b"v1 = +7;", b"v1"), Some(7));
    assert_eq!(parse_udmf_u16(b"sidefront = -1;", b"sidefront"), Some(0xFFFF));
    assert_eq!(parse_udmf_u16(b"v1 = -0;", b"v1"), Some(0));
    assert_eq!(parse_udmf_u16(b"v1 = 70000;", b"v1"), None);
    assert_eq!(parse_udmf_u16(b"v1 = 1.5;", b"v1"), None);
    assert_eq!(parse_udmf_u16(b"v1 = ;", b"v1"), None);
    assert_eq!(udmf_u16_of(b"65535"), Some(65535));
    assert_eq!(udmf_u16_of(b"-2147483648"), Some(0xFFFF));
    assert_eq!(udmf_u16_of(b"-2147483649"), None);
    assert_eq!(udmf_u16_of(b"99999999999999999999"), None);
}

#[test]
fn udmf_strings_lose_their_quotes() {
    assert_eq!(parse_udmf_string(b"texturetop = \"STARTAN\";", b"texturetop"), Some(b"STARTAN".to_vec()));
    assert_eq!(parse_udmf_string(b"texturetop = plain ;", b"texturetop"), Some(b"plain".to_vec()));
    assert_eq!(parse_udmf_string(b"texturetop = \";", b"texturetop"), Some(b"\"".to_vec()));
    assert_eq!(parse_udmf_string(b"x = 1;", b"texturetop"), None);
}

#[test]
fn udmf_trim_follows_unicode_white_space() {
    assert_eq!(trim_text(" \t a b \r\n".as_bytes()), b"a b".to_vec());
    assert_eq!(trim_text("\u{a0}\u{3000}x\u{2003}".as_bytes()), b"x".to_vec());
    assert_eq!(trim_text("\u{b}x\u{85}".as_bytes()), b"x".to_vec());
    assert_eq!(trim_text("é".as_bytes()), "é".as_bytes().to_vec());
}

const MAP: &str = "vertex { x = 0.0; y = 0.0; }\n\
vertex { x = 64.0; y = 0.0; } // second\n\
linedef { v1 = 0; v2 = 1; sidefront = 0; special = 1; id = 3; }\n\
sidedef { sector = 0; texturemiddle = \"startan\"; }\n\
sector { heightfloor = 8; texturefloor = \"flat1\"; }\n\
thing { x = 32; y = 16; angle = 90; type = 1; }\n\
/* ignored { } */ other { a = 1; }\n";

#[test]
fn udmf_textmap_reads_every_kind() {
    let m = parse_udmf_textmap(MAP).unwrap();
    assert_eq!(m.vertices.len(), 2);
    assert_eq!(m.vertices[1].x, Some(b"64.0".to_vec()));
    assert_eq!(m.vertices[1].y, Some(b"0.0".to_vec()));
    assert_eq!(m.linedefs.len(), 1);
    let l = m.linedefs[0];
    assert_eq!((l.start_vertex, l.end_vertex, l.special, l.tag), (0, 1, 1, 3));
    assert_eq!((l.right_sidedef, l.left_sidedef), (0, 0xFFFF));
    assert_eq!(m.sidedefs.len(), 1);
    assert_eq!(m.sidedefs[0].middle_texture, b"STARTAN".to_vec());
    assert_eq!(m.sidedefs[0].upper_texture, b"-".to_vec());
    assert_eq!(m.sectors.len(), 1);
    assert_eq!(m.sectors[0].floor_height, Some(b"8".to_vec()));
    assert_eq!(m.sectors[0].ceiling_height, None);
    assert_eq!(m.sectors[0].floor_texture, b"FLAT1".to_vec());
    assert_eq!(m.sectors[0].ceiling_texture, b"CEIL".to_vec());
    assert_eq!(m.things.len(), 1);
    assert_eq!(m.things[0].angle, Some(b"90".to_vec()));
    assert_eq!(m.things[0].kind, 1);
}

#[test]
fn udmf_reading_stops_at_a_top_level_assignment() {
    let with_namespace = format!("namespace = \"doom\";\n{}", MAP);
    assert_eq!(
        parse_udmf_textmap(&with_namespace).unwrap_err(),
        WadError::UdmfMissingGeometry
    );
}

#[test]
fn udmf_textmap_without_geometry_is_refused() {
    assert_eq!(
        parse_udmf_textmap("vertex { x = 1; y = 1; }").unwrap_err(),
        WadError::UdmfMissingGeometry
    );
    assert_eq!(parse_udmf_textmap("").unwrap_err(), WadError::UdmfMissingGeometry);
}

#[test]
fn udmf_map_names_from_archive_paths() {
    assert_eq!(infer_map_name_from_textmap_path("maps/map01/textmap"), Some(b"MAP01".to_vec()));
    assert_eq!(infer_map_name_from_textmap_path("a\\b\\TEXTMAP"), Some(b"B".to_vec()));
    assert_eq!(infer_map_name_from_textmap_path("E1M1/TextMap"), Some(b"E1M1".to_vec()));
    assert_eq!(infer_map_name_from_textmap_path("TEXTMAP"), None);
    assert_eq!(infer_map_name_from_textmap_path("/textmap"), None);
    assert_eq!(infer_map_name_from_textmap_path("maps/x/textmap.txt"), None);
    assert_eq!(infer_map_name_from_textmap_path("maps/ /textmap"), None);
}

/// The index reading that the text map format calls for, written with std.
fn std_u16(value: &str) -> Option<u16> {
    let value = value.trim();
    if let Ok(parsed) = value.parse::<u16>() {
        Some(parsed)
    } else if let Ok(parsed) = value.parse::<i32>() {
        if parsed < 0 {
            Some(0xFFFF)
        } else {
            u16::try_from(parsed).ok()
        }
    } else {
        None
    }
}

#[test]
fn udmf_indices_match_std_parsing() {
    let samples = [
        "0", "7", "+7", "-7", "-0", "+", "-", "", " 12 ", "65535", "65536", "+65535", "-65536",
        "2147483647", "2147483648", "-2147483648", "-2147483649", "00012", "1e3", "0x10", "1 2",
        "++1", "--1", "+-1", "\u{a0}5\u{a0}", "99999999999999999999999",
    ];
    for s in samples {
        assert_eq!(udmf_u16_of(s.as_bytes()), std_u16(s), "value {:?}", s);
    }
}

#[test]
fn udmf_trim_matches_str_trim() {
    let samples = ["", " ", " a ", "\t\n\u{b}\u{c}\r x \u{85}", "\u{2028}y\u{2029}", "\u{200a}\u{200b}", "é ", " \u{3000}中 "];
    for s in samples {
        assert_eq!(trim_text(s.as_bytes()), s.trim().as_bytes().to_vec(), "text {:?}", s);
    }
}
