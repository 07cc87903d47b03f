use std::io::{Cursor, Write};

use learning::map_source::{
    load_map_source, load_map_source_from_pk3, load_map_source_from_wad_file,
    load_map_source_from_zip_blob, load_map_source_from_zip_blob_inner,
    load_udmf_map_source_from_pk3, MapData, MapLoadError,
};
use learning::wad::WadError;
use zip::write::SimpleFileOptions;
use zip::{CompressionMethod, ZipWriter};

fn name8(s: &str) -> [u8; 8] {
    let mut n = [0u8; 8];
    n[..s.len()].copy_from_slice(s.as_bytes());
    n
}

/// Builds a WAD with the given lumps (name, data), data first, directory last.
fn build_wad(lumps: &[(&str, Vec<u8>)]) -> Vec<u8> {
    let mut data = Vec::new();
    let mut dir = Vec::new();
    let mut offset = 12usize;
    for (name, bytes) in lumps {
        dir.extend_from_slice(&(offset as i32).to_le_bytes());
        dir.extend_from_slice(&(bytes.len() as i32).to_le_bytes());
        dir.extend_from_slice(&name8(name));
        data.extend_from_slice(bytes);
        offset += bytes.len();
    }
    let mut out = Vec::new();
    out.extend_from_slice(b"PWAD");
    out.extend_from_slice(&(lumps.len() as i32).to_le_bytes());
    out.extend_from_slice(&(offset as i32).to_le_bytes());
    out.extend_from_slice(&data);
    out.extend_from_slice(&dir);
    out
}

/// A WAD whose only map is `marker`.
fn map_wad(marker: &str) -> Vec<u8> {
    build_wad(&[
        (marker, vec![]),
        ("VERTEXES", vec![0; 4]),
        ("LINEDEFS", vec![0; 14]),
        ("SIDEDEFS", vec![0; 30]),
        ("SECTORS", vec![0; 26]),
    ])
}

fn build_zip(entries: &[(&str, Vec<u8>)]) -> Vec<u8> {
    let mut w = ZipWriter::new(Cursor::new(Vec::new()));
    let options = SimpleFileOptions::default().compression_method(CompressionMethod::Stored);
    for (name, data) in entries {
        w.start_file(*name, options).unwrap();
        w.write_all(data).unwrap();
    }
    w.finish().unwrap().into_inner()
}

const TEXTMAP: &str = "vertex { x = 0; y = 0; }\nvertex { x = 64; y = 0; }\nlinedef { v1 = 0; v2 = 1; }\n";

fn wad_name(data: &MapData) -> bool {
    matches!(data, MapData::ClassicWad(_))
}

#[test]
fn pk3_prefers_a_wad_that_holds_the_requested_map() {
    let pk3 = build_zip(&[
        ("readme.txt", b"hello".to_vec()),
        ("first.wad", map_wad("MAP02")),
        ("second.WAD", map_wad("MAP07")),
    ]);
    let s = load_map_source_from_pk3(&pk3, b"maps.pk3", b" map07 ").unwrap();
    assert!(wad_name(&s.map_data));
    assert_eq!(s.resolved_map_name, b"MAP07".to_vec());
    assert_eq!(s.source_label, b"maps.pk3::second.WAD".to_vec());
}

#[test]
fn pk3_falls_back_to_the_first_usable_wad() {
    let pk3 = build_zip(&[
        ("broken.wad", b"not a wad".to_vec()),
        ("a.wad", map_wad("E1M3")),
        ("b.wad", map_wad("MAP05")),
    ]);
    let s = load_map_source_from_pk3(&pk3, b"p.pk3", b"MAP01").unwrap();
    assert_eq!(s.resolved_map_name, b"E1M3".to_vec());
    assert_eq!(s.source_label, b"p.pk3::a.wad".to_vec());
}

#[test]
fn pk3_reads_udmf_text_maps() {
    let pk3 = build_zip(&[
        ("maps/map01/textmap", TEXTMAP.as_bytes().to_vec()),
        ("maps/MAP02/TEXTMAP", TEXTMAP.as_bytes().to_vec()),
    ]);
    let s = load_map_source_from_pk3(&pk3, b"u.pk3", b"map02").unwrap();
    assert_eq!(s.resolved_map_name, b"MAP02".to_vec());
    assert_eq!(s.source_label, b"u.pk3::maps/MAP02/TEXTMAP".to_vec());
    match &s.map_data {
        MapData::Udmf(m) => {
            assert_eq!(m.vertices.len(), 2);
            assert_eq!(m.linedefs.len(), 1);
        }
        MapData::ClassicWad(_) => panic!("expected a UDMF map"),
    }
    let first = load_udmf_map_source_from_pk3(&pk3, b"u.pk3", b"MAP09").unwrap().unwrap();
    assert_eq!(first.resolved_map_name, b"MAP01".to_vec());
    assert!(load_udmf_map_source_from_pk3(&build_zip(&[("x.txt", vec![])]), b"u.pk3", b"MAP01")
        .unwrap()
        .is_none());
}

#[test]
fn pk3_searches_nested_archives() {
    let inner = build_zip(&[("deep.wad", map_wad("MAP03"))]);
    let middle = build_zip(&[("inner.zip", inner)]);
    let pk3 = build_zip(&[("notes.txt", vec![]), ("pack.PK3", middle)]);
    let s = load_map_source_from_pk3(&pk3, b"top.pk3", b"MAP03").unwrap();
    assert_eq!(s.resolved_map_name, b"MAP03".to_vec());
    assert_eq!(s.source_label, b"top.pk3::pack.PK3::inner.zip::deep.wad".to_vec());
}

#[test]
fn nested_archives_stop_two_levels_down() {
    let l3 = build_zip(&[("deep.wad", map_wad("MAP03"))]);
    let l2 = build_zip(&[("l3.zip", l3)]);
    let l1 = build_zip(&[("l2.zip", l2)]);
    let l0 = build_zip(&[("l1.zip", l1.clone())]);
    // From depth 0, the WAD lies three archives deeper: out of reach.
    assert!(load_map_source_from_zip_blob(&l0, b"l0", b"MAP03").unwrap().is_none());
    // From depth 0, two archives deeper: found.
    let s = load_map_source_from_zip_blob(&l1, b"l1", b"MAP03").unwrap().unwrap();
    assert_eq!(s.source_label, b"l1::l2.zip::l3.zip::deep.wad".to_vec());
    assert!(load_map_source_from_zip_blob_inner(&l1, b"l1", b"MAP03", 3).unwrap().is_none());
}

#[test]
fn pk3_errors_tell_what_was_missing() {
    let no_wads = build_zip(&[("readme.txt", b"hi".to_vec())]);
    assert!(matches!(
        load_map_source_from_pk3(&no_wads, b"n.pk3", b"MAP01"),
        Err(MapLoadError::NoLoadableMap)
    ));
    let bad_wads = build_zip(&[("bad.wad", b"junk".to_vec())]);
    assert!(matches!(
        load_map_source_from_pk3(&bad_wads, b"b.pk3", b"MAP01"),
        Err(MapLoadError::NoUsableMarker)
    ));
    assert!(matches!(
        load_map_source_from_pk3(b"not a zip", b"x.pk3", b"MAP01"),
        Err(MapLoadError::OpenArchive(_))
    ));
    match load_map_source_from_zip_blob(b"not a zip", b"outer::x.zip", b"MAP01") {
        Err(MapLoadError::OpenNestedArchive(prefix, _)) => assert_eq!(prefix, b"outer::x.zip".to_vec()),
        other => panic!("unexpected {:?}", other.map(|_| ())),
    }
}

#[test]
fn wad_files_and_unknown_containers() {
    let wad = map_wad("E1M1");
    let s = load_map_source_from_wad_file(&wad, b"doom.wad", b"MAP01").unwrap();
    assert_eq!(s.resolved_map_name, b"E1M1".to_vec());
    assert_eq!(s.source_label, b"doom.wad".to_vec());
    assert!(matches!(
        load_map_source_from_wad_file(b"IWA", b"doom.wad", b"MAP01"),
        Err(MapLoadError::Wad(WadError::HeaderTooSmall))
    ));
    // By signature, whatever the name.
    let s = load_map_source(&wad, b"level.bin", b"E1M1").unwrap();
    assert_eq!(s.source_label, b"level.bin".to_vec());
    let pk3 = build_zip(&[("a.wad", map_wad("MAP04"))]);
    let s = load_map_source(&pk3, b"level.bin", b"MAP04").unwrap();
    assert_eq!(s.source_label, b"level.bin::a.wad".to_vec());
    // Neither a WAD nor an archive.
    assert!(matches!(
        load_map_source(b"????????", b"level.bin", b"MAP01"),
        Err(MapLoadError::Unsupported)
    ));
    // Named as a WAD: read as one, and its error kept.
    assert!(matches!(
        load_map_source(b"????????", b"level.wad", b"MAP01"),
        Err(MapLoadError::Wad(WadError::HeaderTooSmall))
    ));
}
