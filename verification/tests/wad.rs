use learning::wad::{
    clean_texture_name, detect_container_kind, find_map_markers, find_player_spawn,
    is_door_linedef, is_map_marker_name, normalize_name, parse_linedefs, parse_lump_directory,
    parse_map_lumps, read_i32_le, read_name8, resolve_map_marker, LumpEntry, LumpKind,
    MapContainerKind, WadError,
};

fn name8(s: &str) -> [u8; 8] {
    let mut n = [0u8; 8];
    n[..s.len()].copy_from_slice(s.as_bytes());
    n
}

/// Builds a WAD with the given lumps (name, data), data first, directory last.
fn build_wad(sig: &[u8; 4], lumps: &[(&str, Vec<u8>)]) -> Vec<u8> {
    let mut data = Vec::new();
    let mut dir = Vec::new();
    let mut offset = 12usize;
    for (name, bytes) in lumps {
        dir.extend_from_slice(&(offset as i32).to_le_bytes());
        dir.extend_from_slice(&(bytes.len() as i32).to_le_bytes());
        dir.extend_from_slice(&name8(name));
        data.extend_from_slice(bytes);
        offset += bytes.len();
    }
    let mut out = Vec::new();
    out.extend_from_slice(sig);
    out.extend_from_slice(&(lumps.len() as i32).to_le_bytes());
    out.extend_from_slice(&(offset as i32).to_le_bytes());
    out.extend_from_slice(&data);
    out.extend_from_slice(&dir);
    out
}

fn i16s(v: &[i16]) -> Vec<u8> {
    v.iter().flat_map(|x| x.to_le_bytes()).collect()
}

fn sample_map_lumps() -> Vec<(&'static str, Vec<u8>)> {
    // Two things: a deathmatch start and a co-op start (kind 2).
    let things = i16s(&[10, 20, 90, 11, 0, 30, 40, 180, 2, 0]);
    // One Doom linedef: vertices 0 and 1, special 1, tag 5, sides 0 and 0xFFFF.
    let linedefs = i16s(&[0, 1, 0, 1, 5, 0, -1]);
    let mut sidedef = i16s(&[0, 0]);
    sidedef.extend_from_slice(&name8("-"));
    sidedef.extend_from_slice(&name8("step1"));
    sidedef.extend_from_slice(&name8(" metal "));
    sidedef.extend_from_slice(&3u16.to_le_bytes());
    let vertices = i16s(&[0, 0, 64, -64]);
    let mut sector = i16s(&[0, 128]);
    sector.extend_from_slice(&name8("FLOOR4_8"));
    sector.extend_from_slice(&name8("ceil3_5"));
    sector.extend_from_slice(&i16s(&[160, 0, 0]));
    vec![
        ("MAP01", vec![]),
        ("THINGS", things),
        ("LINEDEFS", linedefs),
        ("SIDEDEFS", sidedef),
        ("VERTEXES", vertices),
        ("SECTORS", sector),
    ]
}

#[test]
fn wad_directory_and_map() {
    let wad = build_wad(b"PWAD", &sample_map_lumps());
    let lumps = parse_lump_directory(&wad).unwrap();
    assert_eq!(lumps.len(), 6);
    assert_eq!(lumps[0].name, b"MAP01".to_vec());
    assert_eq!(lumps[0].size, 0);
    assert_eq!(lumps[4].name, b"VERTEXES".to_vec());
    assert_eq!(lumps[4].size, 8);

    let map = parse_map_lumps(&wad, &lumps, b" map01 ").unwrap();
    assert_eq!(map.vertices.len(), 2);
    assert_eq!(map.vertices[1].x, 64);
    assert_eq!(map.vertices[1].y, -64);
    assert_eq!(map.linedefs.len(), 1);
    assert_eq!(map.linedefs[0].special, 1);
    assert_eq!(map.linedefs[0].tag, 5);
    assert_eq!(map.linedefs[0].left_sidedef, 0xFFFF);
    assert_eq!(map.sidedefs.len(), 1);
    assert_eq!(map.sidedefs[0].upper_texture, b"-".to_vec());
    assert_eq!(map.sidedefs[0].lower_texture, b"STEP1".to_vec());
    assert_eq!(map.sidedefs[0].middle_texture, b"METAL".to_vec());
    assert_eq!(map.sidedefs[0].sector, 3);
    assert_eq!(map.sectors[0].ceiling_height, 128);
    assert_eq!(map.sectors[0].ceiling_texture, b"CEIL3_5".to_vec());
    assert_eq!(map.things.len(), 2);

    // No single-player start; the co-op start of kind 2 comes before kind 11.
    let spawn = find_player_spawn(&map).unwrap();
    assert_eq!((spawn.x, spawn.y, spawn.angle_deg, spawn.kind), (30, 40, 180, 2));
}

#[test]
fn wad_markers_and_resolution() {
    let mut lumps = sample_map_lumps();
    lumps[0].0 = "E1M1";
    let wad = build_wad(b"IWAD", &lumps);
    let dir = parse_lump_directory(&wad).unwrap();
    assert_eq!(find_map_markers(&dir), vec![b"E1M1".to_vec()]);
    // MAP01 falls back to E1M1; an unknown map falls back to the first marker.
    assert_eq!(resolve_map_marker(&dir, b"map01").unwrap(), b"E1M1".to_vec());
    assert_eq!(resolve_map_marker(&dir, b"MAP07").unwrap(), b"E1M1".to_vec());
    assert_eq!(resolve_map_marker(&dir, b"e1m1").unwrap(), b"E1M1".to_vec());
    // A marker without its lumps close behind is not usable.
    let bare = build_wad(b"PWAD", &[("MAP02", vec![])]);
    let bare_dir = parse_lump_directory(&bare).unwrap();
    assert!(find_map_markers(&bare_dir).is_empty());
    assert_eq!(resolve_map_marker(&bare_dir, b"MAP03").unwrap_err(), WadError::NoMapMarkers);
    assert_eq!(resolve_map_marker(&bare_dir, b"map02").unwrap(), b"MAP02".to_vec());
}

#[test]
fn wad_header_errors() {
    assert_eq!(parse_lump_directory(&[0; 11]).unwrap_err(), WadError::HeaderTooSmall);
    let mut bad = build_wad(b"PWAD", &[]);
    bad[0] = b'X';
    assert_eq!(parse_lump_directory(&bad).unwrap_err(), WadError::BadSignature);
    let mut neg = build_wad(b"PWAD", &[]);
    neg[4..8].copy_from_slice(&(-1i32).to_le_bytes());
    assert_eq!(parse_lump_directory(&neg).unwrap_err(), WadError::NegativeMetadata);
    let mut past = build_wad(b"PWAD", &[]);
    past[4..8].copy_from_slice(&1i32.to_le_bytes());
    assert_eq!(parse_lump_directory(&past).unwrap_err(), WadError::DirectoryPastEnd);
    let mut lump_past = build_wad(b"PWAD", &[("A", vec![1, 2])]);
    let n = lump_past.len();
    lump_past[n - 12..n - 8].copy_from_slice(&100i32.to_le_bytes());
    assert_eq!(parse_lump_directory(&lump_past).unwrap_err(), WadError::LumpPastEnd(0));
    let mut lump_neg = build_wad(b"PWAD", &[("A", vec![1, 2])]);
    lump_neg[n - 16..n - 12].copy_from_slice(&(-5i32).to_le_bytes());
    assert_eq!(parse_lump_directory(&lump_neg).unwrap_err(), WadError::NegativeLump(0));
}

#[test]
fn wad_map_errors() {
    let mut lumps = sample_map_lumps();
    lumps.remove(3); // SIDEDEFS
    let wad = build_wad(b"PWAD", &lumps);
    let dir = parse_lump_directory(&wad).unwrap();
    assert_eq!(parse_map_lumps(&wad, &dir, b"MAP01").unwrap_err(), WadError::MissingLump(LumpKind::Sidedefs));
    assert_eq!(parse_map_lumps(&wad, &dir, b"MAP09").unwrap_err(), WadError::MarkerNotFound);

    let mut odd = sample_map_lumps();
    odd[4].1.push(0); // VERTEXES of 9 bytes
    let wad = build_wad(b"PWAD", &odd);
    let dir = parse_lump_directory(&wad).unwrap();
    assert_eq!(parse_map_lumps(&wad, &dir, b"MAP01").unwrap_err(), WadError::BadLumpSize(LumpKind::Vertexes));
}

#[test]
fn wad_hexen_linedefs_and_bounds() {
    // A 16-byte Hexen linedef: special is one byte, tag reads as 0.
    let mut rec = i16s(&[3, 4, 0]);
    rec[4] = 0; // flags
    rec.push(80); // special
    rec.extend_from_slice(&[1, 2, 3, 4, 5]); // args
    rec.extend_from_slice(&7u16.to_le_bytes());
    rec.extend_from_slice(&8u16.to_le_bytes());
    assert_eq!(rec.len(), 16);
    let entry = LumpEntry { offset: 0, size: 16, name: b"LINEDEFS".to_vec() };
    let l = parse_linedefs(&rec, &entry).unwrap();
    assert_eq!((l[0].start_vertex, l[0].end_vertex, l[0].special, l[0].tag), (3, 4, 80, 0));
    assert_eq!((l[0].right_sidedef, l[0].left_sidedef), (7, 8));
    // A lump running past the data fails at the first field that does not fit.
    let short = LumpEntry { offset: 0, size: 14, name: vec![] };
    assert_eq!(parse_linedefs(&rec[..9], &short).unwrap_err(), WadError::OutOfBounds(8));
    assert_eq!(read_i32_le(&[1, 0, 0], 0).unwrap_err(), WadError::OutOfBounds(0));
    assert_eq!(read_i32_le(&[0xFF, 0xFF, 0xFF, 0xFF], 0).unwrap(), -1);
}

#[test]
fn wad_names() {
    assert_eq!(normalize_name(b"  e1m1\t"), b"E1M1".to_vec());
    assert_eq!(read_name8(b"xxsky1\0junk", 2).unwrap(), b"SKY1".to_vec());
    assert_eq!(read_name8(b"short", 0).unwrap_err(), WadError::OutOfBounds(0));
    assert!(is_map_marker_name(b"MAP31"));
    assert!(is_map_marker_name(b"E4M9"));
    assert!(!is_map_marker_name(b"MAPXX"));
    assert!(!is_map_marker_name(b"E1M10"));
    assert_eq!(clean_texture_name(b" - "), b"METAL".to_vec());
    assert_eq!(clean_texture_name(b""), b"METAL".to_vec());
    assert_eq!(clean_texture_name(b" startan2"), b"STARTAN2".to_vec());
    assert!(is_door_linedef(117));
    assert!(!is_door_linedef(2));
}

#[test]
fn wad_container_kinds() {
    assert_eq!(detect_container_kind(b"IWAD", b"x.bin"), MapContainerKind::Wad);
    assert_eq!(detect_container_kind(b"PK\x03\x04", b"x.wad"), MapContainerKind::ZipLike);
    assert_eq!(detect_container_kind(b"PK", b"maps/DOOM2.WAD"), MapContainerKind::Wad);
    assert_eq!(detect_container_kind(b"", b"pack.Pk3"), MapContainerKind::ZipLike);
    assert_eq!(detect_container_kind(b"abcd", b"pack.zip"), MapContainerKind::ZipLike);
    assert_eq!(detect_container_kind(b"abcd", b"readme"), MapContainerKind::Unknown);
}
