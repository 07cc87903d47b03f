//! Choosing the map to load from a map container: a WAD file, or a ZIP
//! (PK3) archive that holds WAD files, UDMF text maps, or further archives.
//!
//! Archives are searched in three passes: embedded WADs (a WAD that has a
//! lump named as requested wins at once, else the first usable WAD), then
//! UDMF text maps (one in a directory named as requested wins, else the
//! first usable one), then nested `.pk3`/`.zip` archives, two levels deep.

use vstd::prelude::*;
use vstd::utf8::{decode_utf8, encode_utf8, valid_utf8};
use std::io::Cursor;
use zip::ZipArchive;
use zip::result::ZipError;
use crate::archive::{
    EntryError, zip_entry_bytes, zip_entry_data, zip_entry_name, zip_entry_opens, zip_entry_text,
    zip_len, zip_names, zip_open, zip_source,
};
use crate::udmf::{UdmfMap, UdmfMapModel, infer_map_name_from_textmap_path, lower, parse_textmap,
    parse_udmf_textmap, textmap_map_name};
use crate::wad::{
    LumpEntry, WadError, container_kind, detect_container_kind, ends_with_ci, has_lump_named,
    has_name_in, lump_views, normalize, normalize_name, parse_directory, parse_lump_directory,
    resolve_map_marker, resolve_marker, MapContainerKind,
};

verus! {

/// The map data that a source provides.
#[derive(Debug, Clone)]
pub enum MapData {
    /// A whole WAD file.
    ClassicWad(Vec<u8>),
    /// A UDMF text map, read.
    Udmf(UdmfMap),
}

/// Where a map comes from: its data, the map name to load, and a label
/// naming the file and the archive entries that lead to it.
#[derive(Debug, Clone)]
pub struct MapSource {
    pub map_data: MapData,
    pub resolved_map_name: Vec<u8>,
    pub source_label: Vec<u8>,
}

pub enum MapDataModel {
    ClassicWad(Seq<u8>),
    Udmf(UdmfMapModel),
}

pub struct MapSourceModel {
    pub data: MapDataModel,
    pub name: Seq<u8>,
    pub label: Seq<u8>,
}

impl View for MapSource {
    type V = MapSourceModel;

    open spec fn view(&self) -> MapSourceModel {
        MapSourceModel {
            data: match self.map_data {
                MapData::ClassicWad(w) => MapDataModel::ClassicWad(w@),
                MapData::Udmf(m) => MapDataModel::Udmf(m@),
            },
            name: self.resolved_map_name@,
            label: self.source_label@,
        }
    }
}

/// Why no map could be loaded. Entry names are the archive's; `Nested`
/// variants come from archives found inside an archive.
#[derive(Debug)]
pub enum MapLoadError {
    /// The WAD file's directory or map markers.
    Wad(WadError),
    /// The archive could not be opened.
    OpenArchive(ZipError),
    /// An entry of the archive could not be opened.
    ReadEntry(ZipError),
    /// An embedded WAD could not be extracted.
    ExtractWad(String, std::io::Error),
    /// A UDMF text map could not be read as text.
    ReadTextmap(String, std::io::Error),
    /// An archive inside the archive could not be extracted.
    ReadNestedArchive(String, std::io::Error),
    /// A nested archive, labelled by where it lies, could not be opened.
    OpenNestedArchive(Vec<u8>, ZipError),
    /// An entry of a nested archive could not be opened.
    ReadNestedEntry(ZipError),
    /// A WAD inside a nested archive could not be extracted.
    ExtractNestedWad(String, std::io::Error),
    /// A UDMF text map inside a nested archive could not be read as text.
    ReadNestedTextmap(String, std::io::Error),
    /// An archive inside a nested archive could not be extracted.
    ReadDeeperArchive(String, std::io::Error),
    /// The archive holds no WAD, and nothing else gave a map.
    NoLoadableMap,
    /// The archive's WADs had no usable map marker, and nothing else gave a map.
    NoUsableMarker,
    /// The container is neither a readable WAD nor a readable archive.
    Unsupported,
}

/// A load failure as a value: the error without the `zip` or I/O error
/// that it carries.
pub enum LoadFailure {
    Wad(WadError),
    OpenArchive,
    ReadEntry,
    ExtractWad(Seq<char>),
    ReadTextmap(Seq<char>),
    ReadNestedArchive(Seq<char>),
    OpenNestedArchive(Seq<u8>),
    ReadNestedEntry,
    ExtractNestedWad(Seq<char>),
    ReadNestedTextmap(Seq<char>),
    ReadDeeperArchive(Seq<char>),
    NoLoadableMap,
    NoUsableMarker,
    Unsupported,
}

pub open spec fn failure_of(e: MapLoadError) -> LoadFailure {
    match e {
        MapLoadError::Wad(w) => LoadFailure::Wad(w),
        MapLoadError::OpenArchive(_) => LoadFailure::OpenArchive,
        MapLoadError::ReadEntry(_) => LoadFailure::ReadEntry,
        MapLoadError::ExtractWad(n, _) => LoadFailure::ExtractWad(n@),
        MapLoadError::ReadTextmap(n, _) => LoadFailure::ReadTextmap(n@),
        MapLoadError::ReadNestedArchive(n, _) => LoadFailure::ReadNestedArchive(n@),
        MapLoadError::OpenNestedArchive(p, _) => LoadFailure::OpenNestedArchive(p@),
        MapLoadError::ReadNestedEntry(_) => LoadFailure::ReadNestedEntry,
        MapLoadError::ExtractNestedWad(n, _) => LoadFailure::ExtractNestedWad(n@),
        MapLoadError::ReadNestedTextmap(n, _) => LoadFailure::ReadNestedTextmap(n@),
        MapLoadError::ReadDeeperArchive(n, _) => LoadFailure::ReadDeeperArchive(n@),
        MapLoadError::NoLoadableMap => LoadFailure::NoLoadableMap,
        MapLoadError::NoUsableMarker => LoadFailure::NoUsableMarker,
        MapLoadError::Unsupported => LoadFailure::Unsupported,
    }
}

/// An optional source as a value.
pub open spec fn opt_source(o: Option<MapSource>) -> Option<MapSourceModel> {
    match o {
        Some(s) => Some(s@),
        None => None,
    }
}

/// `r` is the outcome `s` describes.
pub open spec fn found_as(r: Result<Option<MapSource>, MapLoadError>, s: Result<
    Option<MapSourceModel>,
    LoadFailure,
>) -> bool {
    match s {
        Ok(o) => r matches Ok(v) && opt_source(v) == o,
        Err(f) => r matches Err(e) && failure_of(e) == f,
    }
}

/// `r` is the outcome `s` describes.
pub open spec fn loaded_as(r: Result<MapSource, MapLoadError>, s: Result<MapSourceModel, LoadFailure>) -> bool {
    match s {
        Ok(m) => r matches Ok(v) && v@ == m,
        Err(f) => r matches Err(e) && failure_of(e) == f,
    }
}

/// "::", between a file or entry and the entry inside it.
pub const LABEL_SEPARATOR: [u8; 2] = [58, 58];

/// ".wad"
pub const WAD_EXTENSION: [u8; 4] = [46, 119, 97, 100];

/// ".pk3"
pub const PK3_EXTENSION: [u8; 4] = [46, 112, 107, 51];

/// ".zip"
pub const ZIP_EXTENSION: [u8; 4] = [46, 122, 105, 112];

/// The names of the entries of the archive in `src` (none when it does not
/// open).
pub open spec fn entry_names(src: Seq<u8>) -> Seq<Seq<char>> {
    match zip_names(src) {
        Some(ns) => ns,
        None => Seq::empty(),
    }
}

/// Whether `name` ends with the four-byte extension `ext`, compared without
/// ASCII case.
pub open spec fn has_ext(name: Seq<u8>, ext: Seq<u8>) -> bool {
    name.len() >= 4 && lower(name).subrange(name.len() - 4, name.len() as int) == ext
}

/// The label of entry `name` inside the container labelled `prefix`.
pub open spec fn entry_label(prefix: Seq<u8>, name: Seq<char>) -> Seq<u8> {
    prefix + LABEL_SEPARATOR@ + encode_utf8(name)
}

/// `fb` when it holds a source, else `s`.
pub open spec fn keep_first(fb: Option<MapSourceModel>, s: MapSourceModel) -> Option<MapSourceModel> {
    match fb {
        Some(f) => Some(f),
        None => Some(s),
    }
}

/// The pass over embedded WADs, from entry `i` on, with `fb` the first
/// usable WAD so far. An entry that does not open, or a `.wad` entry that
/// cannot be extracted, ends the load with an error. A WAD whose directory
/// or map markers are unusable is skipped. A WAD with a lump named as
/// requested is chosen at once.
pub open spec fn wad_scan(
    src: Seq<u8>,
    prefix: Seq<u8>,
    req: Seq<u8>,
    nested: bool,
    i: nat,
    fb: Option<MapSourceModel>,
) -> Result<Option<MapSourceModel>, LoadFailure>
    decreases entry_names(src).len() - i,
{
    let ns = entry_names(src);
    if i >= ns.len() {
        Ok(fb)
    } else if !zip_entry_opens(src, i) {
        Err(
            if nested {
                LoadFailure::ReadNestedEntry
            } else {
                LoadFailure::ReadEntry
            },
        )
    } else if !has_ext(encode_utf8(ns[i as int]), WAD_EXTENSION@) {
        wad_scan(src, prefix, req, nested, i + 1, fb)
    } else {
        match zip_entry_data(src, i) {
            None => Err(
                if nested {
                    LoadFailure::ExtractNestedWad(ns[i as int])
                } else {
                    LoadFailure::ExtractWad(ns[i as int])
                },
            ),
            Some(w) => match parse_directory(w) {
                Err(_) => wad_scan(src, prefix, req, nested, i + 1, fb),
                Ok(lumps) => match resolve_marker(lumps, req) {
                    Err(_) => wad_scan(src, prefix, req, nested, i + 1, fb),
                    Ok(m) => {
                        let s = MapSourceModel {
                            data: MapDataModel::ClassicWad(w),
                            name: m,
                            label: entry_label(prefix, ns[i as int]),
                        };
                        if has_name_in(lumps, normalize(req), 0, lumps.len() as int) {
                            Ok(Some(s))
                        } else {
                            wad_scan(src, prefix, req, nested, i + 1, keep_first(fb, s))
                        }
                    },
                },
            },
        }
    }
}

/// The pass over UDMF text maps (entries named `.../NAME/TEXTMAP`), from
/// entry `i` on, with `fb` the first usable map so far. An entry that does
/// not open, or a text map that cannot be read as text, ends the load with
/// an error; one that does not parse is skipped; one whose directory is
/// named as requested is chosen at once.
pub open spec fn udmf_scan(
    src: Seq<u8>,
    prefix: Seq<u8>,
    req: Seq<u8>,
    nested: bool,
    i: nat,
    fb: Option<MapSourceModel>,
) -> Result<Option<MapSourceModel>, LoadFailure>
    decreases entry_names(src).len() - i,
{
    let ns = entry_names(src);
    if i >= ns.len() {
        Ok(fb)
    } else if !zip_entry_opens(src, i) {
        Err(
            if nested {
                LoadFailure::ReadNestedEntry
            } else {
                LoadFailure::ReadEntry
            },
        )
    } else {
        match textmap_map_name(encode_utf8(ns[i as int])) {
            None => udmf_scan(src, prefix, req, nested, i + 1, fb),
            Some(map_name) => match zip_entry_data(src, i) {
                Some(b) if valid_utf8(b) => match parse_textmap(b) {
                    Err(_) => udmf_scan(src, prefix, req, nested, i + 1, fb),
                    Ok(m) => if m.vertices.len() == 0 || m.linedefs.len() == 0 {
                        udmf_scan(src, prefix, req, nested, i + 1, fb)
                    } else {
                        let s = MapSourceModel {
                            data: MapDataModel::Udmf(m),
                            name: map_name,
                            label: entry_label(prefix, ns[i as int]),
                        };
                        if map_name == normalize(req) {
                            Ok(Some(s))
                        } else {
                            udmf_scan(src, prefix, req, nested, i + 1, keep_first(fb, s))
                        }
                    },
                },
                _ => Err(
                    if nested {
                        LoadFailure::ReadNestedTextmap(ns[i as int])
                    } else {
                        LoadFailure::ReadTextmap(ns[i as int])
                    },
                ),
            },
        }
    }
}

/// The WAD pass keeps the first usable WAD: once one is held, a later WAD
/// takes its place only when it holds a lump named as requested (and then
/// the map chosen is the requested one).
pub proof fn lemma_wad_scan_keeps_first(
    src: Seq<u8>,
    prefix: Seq<u8>,
    req: Seq<u8>,
    nested: bool,
    i: nat,
    f: MapSourceModel,
)
    ensures
        wad_scan(src, prefix, req, nested, i, Some(f)) matches Ok(Some(s)) ==> s == f || s.name == normalize(req),
    decreases entry_names(src).len() - i,
{
    let ns = entry_names(src);
    if i < ns.len() && zip_entry_opens(src, i) {
        lemma_wad_scan_keeps_first(src, prefix, req, nested, i + 1, f);
        if has_ext(encode_utf8(ns[i as int]), WAD_EXTENSION@) {
            if let Some(w) = zip_entry_data(src, i) {
                if let Ok(lumps) = parse_directory(w) {
                    if let Ok(m) = resolve_marker(lumps, req) {
                        crate::wad::lemma_marker_choice(lumps, req);
                    }
                }
            }
        }
    }
}

/// The UDMF pass keeps the first usable text map in the same way: once one
/// is held, a later one takes its place only when its map is the one
/// requested.
pub proof fn lemma_udmf_scan_keeps_first(
    src: Seq<u8>,
    prefix: Seq<u8>,
    req: Seq<u8>,
    nested: bool,
    i: nat,
    f: MapSourceModel,
)
    ensures
        udmf_scan(src, prefix, req, nested, i, Some(f)) matches Ok(Some(s)) ==> s == f || s.name == normalize(req),
    decreases entry_names(src).len() - i,
{
    let ns = entry_names(src);
    if i < ns.len() && zip_entry_opens(src, i) {
        lemma_udmf_scan_keeps_first(src, prefix, req, nested, i + 1, f);
    }
}

/// Whether `name` names a nested archive: `.pk3` or `.zip`, without case.
pub open spec fn is_archive_name(name: Seq<u8>) -> bool {
    has_ext(name, PK3_EXTENSION@) || has_ext(name, ZIP_EXTENSION@)
}

/// The source found in the archive `bytes`, labelled `prefix`, found
/// `depth` archives deep: nothing past depth 2; else the WAD pass, the UDMF
/// pass, then the pass over archives inside it.
pub open spec fn blob_source(bytes: Seq<u8>, prefix: Seq<u8>, req: Seq<u8>, depth: nat) -> Result<
    Option<MapSourceModel>,
    LoadFailure,
>
    decreases 3 - depth, 1int, 0int,
{
    if depth > 2 {
        Ok(None)
    } else if zip_names(bytes) is None {
        Err(LoadFailure::OpenNestedArchive(prefix))
    } else {
        match wad_scan(bytes, prefix, req, true, 0, None) {
            Err(e) => Err(e),
            Ok(Some(s)) => Ok(Some(s)),
            Ok(None) => match udmf_scan(bytes, prefix, req, true, 0, None) {
                Err(e) => Err(e),
                Ok(Some(s)) => Ok(Some(s)),
                Ok(None) => nested_scan(bytes, prefix, req, depth, 0),
            },
        }
    }
}

/// The pass over archives inside the archive `src` (itself `depth` deep),
/// from entry `i` on: the first that gives a source wins; an error in one
/// ends the load.
pub open spec fn nested_scan(src: Seq<u8>, prefix: Seq<u8>, req: Seq<u8>, depth: nat, i: nat) -> Result<
    Option<MapSourceModel>,
    LoadFailure,
>
    decreases 3 - depth, 0int, entry_names(src).len() - i,
{
    let ns = entry_names(src);
    if depth > 2 || i >= ns.len() {
        Ok(None)
    } else if !zip_entry_opens(src, i) {
        Err(LoadFailure::ReadNestedEntry)
    } else if !is_archive_name(encode_utf8(ns[i as int])) {
        nested_scan(src, prefix, req, depth, i + 1)
    } else {
        match zip_entry_data(src, i) {
            None => Err(LoadFailure::ReadDeeperArchive(ns[i as int])),
            Some(b) => match blob_source(b, entry_label(prefix, ns[i as int]), req, depth + 1) {
                Err(e) => Err(e),
                Ok(Some(s)) => Ok(Some(s)),
                Ok(None) => nested_scan(src, prefix, req, depth, i + 1),
            },
        }
    }
}

/// The pass over archives inside the top-level archive `src` labelled
/// `path`, from entry `i` on.
pub open spec fn outer_nested_scan(src: Seq<u8>, path: Seq<u8>, req: Seq<u8>, i: nat) -> Result<
    Option<MapSourceModel>,
    LoadFailure,
>
    decreases entry_names(src).len() - i,
{
    let ns = entry_names(src);
    if i >= ns.len() {
        Ok(None)
    } else if !zip_entry_opens(src, i) {
        Err(LoadFailure::ReadEntry)
    } else if !is_archive_name(encode_utf8(ns[i as int])) {
        outer_nested_scan(src, path, req, i + 1)
    } else {
        match zip_entry_data(src, i) {
            None => Err(LoadFailure::ReadNestedArchive(ns[i as int])),
            Some(b) => match blob_source(b, entry_label(path, ns[i as int]), req, 0) {
                Err(e) => Err(e),
                Ok(Some(s)) => Ok(Some(s)),
                Ok(None) => outer_nested_scan(src, path, req, i + 1),
            },
        }
    }
}

/// Whether some entry of the archive is a `.wad` file.
pub open spec fn has_wad_entry(src: Seq<u8>) -> bool {
    exists|k: int|
        0 <= k < entry_names(src).len() && has_ext(
            encode_utf8(#[trigger] entry_names(src)[k]),
            WAD_EXTENSION@,
        )
}

/// The UDMF pass over the top-level archive in `bytes`.
pub open spec fn pk3_udmf_source(bytes: Seq<u8>, path: Seq<u8>, req: Seq<u8>) -> Result<
    Option<MapSourceModel>,
    LoadFailure,
> {
    if zip_names(bytes) is None {
        Err(LoadFailure::OpenArchive)
    } else {
        udmf_scan(bytes, path, req, false, 0, None)
    }
}

/// The source found in the top-level archive in `bytes`, labelled `path`:
/// the WAD pass, the UDMF pass, then nested archives; failing all, an error
/// that tells whether the archive held any WAD.
pub open spec fn pk3_source(bytes: Seq<u8>, path: Seq<u8>, req: Seq<u8>) -> Result<
    MapSourceModel,
    LoadFailure,
> {
    if zip_names(bytes) is None {
        Err(LoadFailure::OpenArchive)
    } else {
        match wad_scan(bytes, path, req, false, 0, None) {
            Err(e) => Err(e),
            Ok(Some(s)) => Ok(s),
            Ok(None) => match pk3_udmf_source(bytes, path, req) {
                Err(e) => Err(e),
                Ok(Some(s)) => Ok(s),
                Ok(None) => match outer_nested_scan(bytes, path, req, 0) {
                    Err(e) => Err(e),
                    Ok(Some(s)) => Ok(s),
                    Ok(None) => if has_wad_entry(bytes) {
                        Err(LoadFailure::NoUsableMarker)
                    } else {
                        Err(LoadFailure::NoLoadableMap)
                    },
                },
            },
        }
    }
}

/// The source that a WAD file gives: the whole file, with the map chosen
/// by `resolve_marker`.
pub open spec fn wad_file_source(bytes: Seq<u8>, path: Seq<u8>, req: Seq<u8>) -> Result<
    MapSourceModel,
    LoadFailure,
> {
    match parse_directory(bytes) {
        Err(e) => Err(LoadFailure::Wad(e)),
        Ok(lumps) => match resolve_marker(lumps, req) {
            Err(e) => Err(LoadFailure::Wad(e)),
            Ok(m) => Ok(MapSourceModel { data: MapDataModel::ClassicWad(bytes), name: m, label: path }),
        },
    }
}

/// The first (up to) four bytes of a file.
pub open spec fn header_of(bytes: Seq<u8>) -> Seq<u8> {
    if bytes.len() < 4 {
        bytes
    } else {
        bytes.subrange(0, 4)
    }
}

/// The source that the container file `bytes` at `path` gives: as a WAD or
/// an archive by its kind; of unknown kind, as a WAD, else as an archive,
/// else `Unsupported`.
pub open spec fn container_source(bytes: Seq<u8>, path: Seq<u8>, req: Seq<u8>) -> Result<
    MapSourceModel,
    LoadFailure,
> {
    match container_kind(header_of(bytes), path) {
        MapContainerKind::Wad => wad_file_source(bytes, path, req),
        MapContainerKind::ZipLike => pk3_source(bytes, path, req),
        MapContainerKind::Unknown => match wad_file_source(bytes, path, req) {
            Ok(s) => Ok(s),
            Err(_) => match pk3_source(bytes, path, req) {
                Ok(s) => Ok(s),
                Err(_) => Err(LoadFailure::Unsupported),
            },
        },
    }
}

// ---------------------------------------------------------------------------
// Loading
// ---------------------------------------------------------------------------

/// The label of entry `name` inside the container labelled `prefix`.
fn make_label(prefix: &[u8], name: &str) -> (r: Vec<u8>)
    ensures
        r@ == entry_label(prefix@, name@),
{
    let mut out: Vec<u8> = Vec::new();
    out.extend_from_slice(prefix);
    out.extend_from_slice(LABEL_SEPARATOR.as_slice());
    out.extend_from_slice(name.as_bytes());
    out
}

/// The WAD pass over an open archive; see `wad_scan`.
fn scan_wad_entries(
    a: &mut ZipArchive<Cursor<Vec<u8>>>,
    prefix: &[u8],
    requested: &[u8],
    nested: bool,
) -> (r: (Result<Option<MapSource>, MapLoadError>, bool))
    requires
        zip_names(zip_source(*old(a))) is Some,
    ensures
        zip_source(*final(a)) == zip_source(*old(a)),
        found_as(r.0, wad_scan(zip_source(*old(a)), prefix@, requested@, nested, 0, None)),
        r.0 matches Ok(None) ==> r.1 == has_wad_entry(zip_source(*old(a))),
{
    let ghost src = zip_source(*a);
    let n = zip_len(a);
    let req_upper = normalize_name(requested);
    let mut fallback: Option<MapSource> = None;
    let mut saw_wad = false;
    let mut i: usize = 0;
    while i < n
        invariant
            zip_source(*a) == src,
            src == zip_source(*old(a)),
            zip_names(src) is Some,
            n == entry_names(src).len(),
            i <= n,
            req_upper@ == normalize(requested@),
            saw_wad == exists|k: int|
                0 <= k < i && has_ext(encode_utf8(#[trigger] entry_names(src)[k]), WAD_EXTENSION@),
            wad_scan(src, prefix@, requested@, nested, i as nat, opt_source(fallback)) == wad_scan(
                src,
                prefix@,
                requested@,
                nested,
                0,
                None,
            ),
        decreases n - i,
    {
        let name = match zip_entry_name(a, i) {
            Ok(s) => s,
            Err(e) => {
                if nested {
                    return (Err(MapLoadError::ReadNestedEntry(e)), saw_wad);
                } else {
                    return (Err(MapLoadError::ReadEntry(e)), saw_wad);
                }
            },
        };
        if !ends_with_ci(name.as_str().as_bytes(), WAD_EXTENSION) {
            i = i + 1;
            continue ;
        }
        saw_wad = true;
        let w = match zip_entry_bytes(a, i) {
            Ok(v) => v,
            Err(EntryError::Read(e)) => {
                if nested {
                    return (Err(MapLoadError::ExtractNestedWad(name, e)), saw_wad);
                } else {
                    return (Err(MapLoadError::ExtractWad(name, e)), saw_wad);
                }
            },
            Err(EntryError::Open(e)) => {
                return (Err(MapLoadError::ReadEntry(e)), saw_wad);
            },
        };
        let lumps = match parse_lump_directory(w.as_slice()) {
            Ok(l) => l,
            Err(_) => {
                i = i + 1;
                continue ;
            },
        };
        let m = match resolve_map_marker(lumps.as_slice(), requested) {
            Ok(m) => m,
            Err(_) => {
                i = i + 1;
                continue ;
            },
        };
        let exact = has_lump_named(lumps.as_slice(), req_upper.as_slice(), 0, lumps.len());
        let label = make_label(prefix, name.as_str());
        let found = MapSource { map_data: MapData::ClassicWad(w), resolved_map_name: m, source_label: label };
        if exact {
            return (Ok(Some(found)), saw_wad);
        }
        if fallback.is_none() {
            fallback = Some(found);
        }
        i = i + 1;
    }
    (Ok(fallback), saw_wad)
}

/// The UDMF pass over an open archive; see `udmf_scan`.
fn scan_textmap_entries(
    a: &mut ZipArchive<Cursor<Vec<u8>>>,
    prefix: &[u8],
    requested: &[u8],
    nested: bool,
) -> (r: Result<Option<MapSource>, MapLoadError>)
    requires
        zip_names(zip_source(*old(a))) is Some,
    ensures
        zip_source(*final(a)) == zip_source(*old(a)),
        found_as(r, udmf_scan(zip_source(*old(a)), prefix@, requested@, nested, 0, None)),
{
    let ghost src = zip_source(*a);
    let n = zip_len(a);
    let req_upper = normalize_name(requested);
    let mut fallback: Option<MapSource> = None;
    let mut i: usize = 0;
    while i < n
        invariant
            zip_source(*a) == src,
            src == zip_source(*old(a)),
            zip_names(src) is Some,
            n == entry_names(src).len(),
            i <= n,
            req_upper@ == normalize(requested@),
            udmf_scan(src, prefix@, requested@, nested, i as nat, opt_source(fallback)) == udmf_scan(
                src,
                prefix@,
                requested@,
                nested,
                0,
                None,
            ),
        decreases n - i,
    {
        let name = match zip_entry_name(a, i) {
            Ok(s) => s,
            Err(e) => {
                if nested {
                    return Err(MapLoadError::ReadNestedEntry(e));
                } else {
                    return Err(MapLoadError::ReadEntry(e));
                }
            },
        };
        let map_name = match infer_map_name_from_textmap_path(name.as_str()) {
            Some(m) => m,
            None => {
                i = i + 1;
                continue ;
            },
        };
        let text = match zip_entry_text(a, i) {
            Ok(t) => t,
            Err(EntryError::Read(e)) => {
                if nested {
                    return Err(MapLoadError::ReadNestedTextmap(name, e));
                } else {
                    return Err(MapLoadError::ReadTextmap(name, e));
                }
            },
            Err(EntryError::Open(e)) => {
                return Err(MapLoadError::ReadEntry(e));
            },
        };
        proof {
            let d = zip_entry_data(src, i as nat)->0;
            vstd::utf8::decode_utf8_encode_utf8(d);
        }
        let parsed = match parse_udmf_textmap(text.as_str()) {
            Ok(m) => m,
            Err(_) => {
                i = i + 1;
                continue ;
            },
        };
        if parsed.vertices.len() == 0 || parsed.linedefs.len() == 0 {
            i = i + 1;
            continue ;
        }
        let exact = crate::wad::bytes_eq(map_name.as_slice(), req_upper.as_slice());
        let label = make_label(prefix, name.as_str());
        let found = MapSource {
            map_data: MapData::Udmf(parsed),
            resolved_map_name: map_name,
            source_label: label,
        };
        if exact {
            return Ok(Some(found));
        }
        if fallback.is_none() {
            fallback = Some(found);
        }
        i = i + 1;
    }
    Ok(fallback)
}

/// Searches the archive in `zip_bytes`, labelled `source_prefix` and found
/// `depth` archives deep, for the requested map; `Ok(None)` when nothing
/// in it gives one. See `blob_source`.
pub fn load_map_source_from_zip_blob_inner(
    zip_bytes: &[u8],
    source_prefix: &[u8],
    requested_map_name: &[u8],
    depth: usize,
) -> (r: Result<Option<MapSource>, MapLoadError>)
    ensures
        found_as(r, blob_source(zip_bytes@, source_prefix@, requested_map_name@, depth as nat)),
    decreases 3 - depth, 1int,
{
    if depth > 2 {
        return Ok(None);
    }
    let bytes = vstd::slice::slice_to_vec(zip_bytes);
    let mut archive = match zip_open(bytes) {
        Ok(a) => a,
        Err(e) => {
            return Err(MapLoadError::OpenNestedArchive(vstd::slice::slice_to_vec(source_prefix), e));
        },
    };
    match scan_wad_entries(&mut archive, source_prefix, requested_map_name, true).0 {
        Err(e) => {
            return Err(e);
        },
        Ok(Some(found)) => {
            return Ok(Some(found));
        },
        Ok(None) => {},
    }
    match scan_textmap_entries(&mut archive, source_prefix, requested_map_name, true) {
        Err(e) => {
            return Err(e);
        },
        Ok(Some(found)) => {
            return Ok(Some(found));
        },
        Ok(None) => {},
    }
    scan_nested_entries(&mut archive, source_prefix, requested_map_name, depth)
}

/// Searches the archive in `zip_bytes`, labelled `source_prefix`, as a
/// top-level nested archive.
pub fn load_map_source_from_zip_blob(
    zip_bytes: &[u8],
    source_prefix: &[u8],
    requested_map_name: &[u8],
) -> (r: Result<Option<MapSource>, MapLoadError>)
    ensures
        found_as(r, blob_source(zip_bytes@, source_prefix@, requested_map_name@, 0)),
{
    load_map_source_from_zip_blob_inner(zip_bytes, source_prefix, requested_map_name, 0)
}

/// The pass over archives inside an open archive that is `depth` deep; see
/// `nested_scan`.
fn scan_nested_entries(
    a: &mut ZipArchive<Cursor<Vec<u8>>>,
    prefix: &[u8],
    requested: &[u8],
    depth: usize,
) -> (r: Result<Option<MapSource>, MapLoadError>)
    requires
        zip_names(zip_source(*old(a))) is Some,
        depth <= 2,
    ensures
        zip_source(*final(a)) == zip_source(*old(a)),
        found_as(r, nested_scan(zip_source(*old(a)), prefix@, requested@, depth as nat, 0)),
    decreases 3 - depth, 0int,
{
    let ghost src = zip_source(*a);
    let n = zip_len(a);
    let mut i: usize = 0;
    while i < n
        invariant
            zip_source(*a) == src,
            src == zip_source(*old(a)),
            zip_names(src) is Some,
            n == entry_names(src).len(),
            i <= n,
            depth <= 2,
            nested_scan(src, prefix@, requested@, depth as nat, i as nat) == nested_scan(
                src,
                prefix@,
                requested@,
                depth as nat,
                0,
            ),
        decreases n - i,
    {
        let name = match zip_entry_name(a, i) {
            Ok(s) => s,
            Err(e) => {
                return Err(MapLoadError::ReadNestedEntry(e));
            },
        };
        let nb = name.as_str().as_bytes();
        if !ends_with_ci(nb, PK3_EXTENSION) && !ends_with_ci(nb, ZIP_EXTENSION) {
            i = i + 1;
            continue ;
        }
        let inner = match zip_entry_bytes(a, i) {
            Ok(v) => v,
            Err(EntryError::Read(e)) => {
                return Err(MapLoadError::ReadDeeperArchive(name, e));
            },
            Err(EntryError::Open(e)) => {
                return Err(MapLoadError::ReadNestedEntry(e));
            },
        };
        let label = make_label(prefix, name.as_str());
        match load_map_source_from_zip_blob_inner(inner.as_slice(), label.as_slice(), requested, depth + 1) {
            Err(e) => {
                return Err(e);
            },
            Ok(Some(found)) => {
                return Ok(Some(found));
            },
            Ok(None) => {},
        }
        i = i + 1;
    }
    Ok(None)
}

/// The pass over archives inside the top-level archive; see
/// `outer_nested_scan`.
fn scan_outer_nested_entries(
    a: &mut ZipArchive<Cursor<Vec<u8>>>,
    path: &[u8],
    requested: &[u8],
) -> (r: Result<Option<MapSource>, MapLoadError>)
    requires
        zip_names(zip_source(*old(a))) is Some,
    ensures
        zip_source(*final(a)) == zip_source(*old(a)),
        found_as(r, outer_nested_scan(zip_source(*old(a)), path@, requested@, 0)),
{
    let ghost src = zip_source(*a);
    let n = zip_len(a);
    let mut i: usize = 0;
    while i < n
        invariant
            zip_source(*a) == src,
            src == zip_source(*old(a)),
            zip_names(src) is Some,
            n == entry_names(src).len(),
            i <= n,
            outer_nested_scan(src, path@, requested@, i as nat) == outer_nested_scan(
                src,
                path@,
                requested@,
                0,
            ),
        decreases n - i,
    {
        let name = match zip_entry_name(a, i) {
            Ok(s) => s,
            Err(e) => {
                return Err(MapLoadError::ReadEntry(e));
            },
        };
        let nb = name.as_str().as_bytes();
        if !ends_with_ci(nb, PK3_EXTENSION) && !ends_with_ci(nb, ZIP_EXTENSION) {
            i = i + 1;
            continue ;
        }
        let inner = match zip_entry_bytes(a, i) {
            Ok(v) => v,
            Err(EntryError::Read(e)) => {
                return Err(MapLoadError::ReadNestedArchive(name, e));
            },
            Err(EntryError::Open(e)) => {
                return Err(MapLoadError::ReadEntry(e));
            },
        };
        let label = make_label(path, name.as_str());
        match load_map_source_from_zip_blob(inner.as_slice(), label.as_slice(), requested) {
            Err(e) => {
                return Err(e);
            },
            Ok(Some(found)) => {
                return Ok(Some(found));
            },
            Ok(None) => {},
        }
        i = i + 1;
    }
    Ok(None)
}

/// The UDMF pass over the top-level archive in `archive_bytes`, labelled
/// `path`; see `pk3_udmf_source`.
pub fn load_udmf_map_source_from_pk3(archive_bytes: &[u8], path: &[u8], requested_map_name: &[u8]) -> (r: Result<
    Option<MapSource>,
    MapLoadError,
>)
    ensures
        found_as(r, pk3_udmf_source(archive_bytes@, path@, requested_map_name@)),
{
    let mut archive = match zip_open(vstd::slice::slice_to_vec(archive_bytes)) {
        Ok(a) => a,
        Err(e) => {
            return Err(MapLoadError::OpenArchive(e));
        },
    };
    scan_textmap_entries(&mut archive, path, requested_map_name, false)
}

/// Loads the requested map from the top-level archive in `archive_bytes`,
/// labelled `path`; see `pk3_source`.
pub fn load_map_source_from_pk3(archive_bytes: &[u8], path: &[u8], requested_map_name: &[u8]) -> (r: Result<
    MapSource,
    MapLoadError,
>)
    ensures
        loaded_as(r, pk3_source(archive_bytes@, path@, requested_map_name@)),
{
    let mut archive = match zip_open(vstd::slice::slice_to_vec(archive_bytes)) {
        Ok(a) => a,
        Err(e) => {
            return Err(MapLoadError::OpenArchive(e));
        },
    };
    let (wads, saw_wad) = scan_wad_entries(&mut archive, path, requested_map_name, false);
    match wads {
        Err(e) => {
            return Err(e);
        },
        Ok(Some(found)) => {
            return Ok(found);
        },
        Ok(None) => {},
    }
    match load_udmf_map_source_from_pk3(archive_bytes, path, requested_map_name) {
        Err(e) => {
            return Err(e);
        },
        Ok(Some(found)) => {
            return Ok(found);
        },
        Ok(None) => {},
    }
    match scan_outer_nested_entries(&mut archive, path, requested_map_name) {
        Err(e) => {
            return Err(e);
        },
        Ok(Some(found)) => {
            return Ok(found);
        },
        Ok(None) => {},
    }
    if saw_wad {
        Err(MapLoadError::NoUsableMarker)
    } else {
        Err(MapLoadError::NoLoadableMap)
    }
}

/// Loads the requested map from the WAD file `wad_bytes` at `path`; see
/// `wad_file_source`.
pub fn load_map_source_from_wad_file(wad_bytes: &[u8], path: &[u8], requested_map_name: &[u8]) -> (r: Result<
    MapSource,
    MapLoadError,
>)
    ensures
        loaded_as(r, wad_file_source(wad_bytes@, path@, requested_map_name@)),
{
    let lumps = match parse_lump_directory(wad_bytes) {
        Ok(l) => l,
        Err(e) => {
            return Err(MapLoadError::Wad(e));
        },
    };
    let resolved = match resolve_map_marker(lumps.as_slice(), requested_map_name) {
        Ok(m) => m,
        Err(e) => {
            return Err(MapLoadError::Wad(e));
        },
    };
    Ok(
        MapSource {
            map_data: MapData::ClassicWad(vstd::slice::slice_to_vec(wad_bytes)),
            resolved_map_name: resolved,
            source_label: vstd::slice::slice_to_vec(path),
        },
    )
}

/// Loads the requested map from the container file `bytes` at `path`; see
/// `container_source`.
pub fn load_map_source(bytes: &[u8], path: &[u8], requested_map_name: &[u8]) -> (r: Result<
    MapSource,
    MapLoadError,
>)
    ensures
        loaded_as(r, container_source(bytes@, path@, requested_map_name@)),
{
    let mut header: Vec<u8> = Vec::new();
    let mut k: usize = 0;
    while k < 4 && k < bytes.len()
        invariant
            k <= 4,
            k <= bytes@.len(),
            header@ == bytes@.subrange(0, k as int),
        decreases 4 - k,
    {
        header.push(bytes[k]);
        proof {
            assert(header@ =~= bytes@.subrange(0, k + 1));
        }
        k = k + 1;
    }
    proof {
        if bytes@.len() < 4 {
            assert(header@ =~= bytes@);
        }
    }
    match detect_container_kind(header.as_slice(), path) {
        MapContainerKind::Wad => load_map_source_from_wad_file(bytes, path, requested_map_name),
        MapContainerKind::ZipLike => load_map_source_from_pk3(bytes, path, requested_map_name),
        MapContainerKind::Unknown => {
            match load_map_source_from_wad_file(bytes, path, requested_map_name) {
                Ok(found) => {
                    return Ok(found);
                },
                Err(_) => {},
            }
            match load_map_source_from_pk3(bytes, path, requested_map_name) {
                Ok(found) => Ok(found),
                Err(_) => Err(MapLoadError::Unsupported),
            }
        },
    }
}

} // verus!
