//! Classic Doom WAD maps: the lump directory, map markers, and the binary
//! vertex, linedef, sidedef, sector and thing lumps.
//!
//! Numbers are little-endian. Lump and texture names are eight-byte fields
//! cut at the first NUL byte, trimmed of white space and upper-cased;
//! they are kept as bytes.

use vstd::prelude::*;
use crate::bytes::{from_le16, from_le32};
use crate::udmf::{trim_text, upper_copy, utrim};

verus! {

/// Why reading a WAD failed.
#[derive(Debug, Clone, Copy, PartialEq, Eq, Structural)]
pub enum WadError {
    /// Fewer than 12 bytes.
    HeaderTooSmall,
    /// The file does not start with "IWAD" or "PWAD".
    BadSignature,
    /// The lump count or directory offset is negative.
    NegativeMetadata,
    /// The directory size does not fit the address space.
    DirectorySizeOverflow,
    /// The directory end does not fit the address space.
    DirectoryEndOverflow,
    /// The directory extends past the end of the file.
    DirectoryPastEnd,
    /// The lump with this index has a negative offset or size.
    NegativeLump(usize),
    /// The end of the lump with this index does not fit the address space.
    LumpRangeOverflow(usize),
    /// The lump with this index extends past the end of the file.
    LumpPastEnd(usize),
    /// A field read at this offset runs past the end of the file.
    OutOfBounds(usize),
    /// The requested map marker is not in the directory.
    MarkerNotFound,
    /// A required lump of the map is missing.
    MissingLump(LumpKind),
    /// A lump's size is not a whole number of records.
    BadLumpSize(LumpKind),
    /// The directory holds no usable map marker.
    NoMapMarkers,
    /// A UDMF text map has no vertex or no linedef block.
    UdmfMissingGeometry,
}

/// The map lumps that this module reads.
#[derive(Debug, Clone, Copy, PartialEq, Eq, Structural)]
pub enum LumpKind {
    Vertexes,
    Linedefs,
    Sidedefs,
    Sectors,
    Things,
}

/// A directory entry: where a lump lies and its name.
#[derive(Debug, Clone)]
pub struct LumpEntry {
    pub offset: usize,
    pub size: usize,
    pub name: Vec<u8>,
}

/// A map vertex.
#[derive(Debug, Clone, Copy, PartialEq, Eq, Structural)]
pub struct Vertex {
    pub x: i16,
    pub y: i16,
}

/// A map line.
#[derive(Debug, Clone, Copy, PartialEq, Eq, Structural)]
pub struct LineDef {
    pub start_vertex: u16,
    pub end_vertex: u16,
    pub special: u16,
    pub tag: u16,
    pub right_sidedef: u16,
    pub left_sidedef: u16,
}

/// A side of a line: its textures and sector.
#[derive(Debug, Clone)]
pub struct SideDef {
    pub upper_texture: Vec<u8>,
    pub lower_texture: Vec<u8>,
    pub middle_texture: Vec<u8>,
    pub sector: u16,
}

/// A sector: floor and ceiling heights and textures.
#[derive(Debug, Clone)]
pub struct Sector {
    pub floor_height: i16,
    pub ceiling_height: i16,
    pub floor_texture: Vec<u8>,
    pub ceiling_texture: Vec<u8>,
}

/// A placed map object.
#[derive(Debug, Clone, Copy, PartialEq, Eq, Structural)]
pub struct Thing {
    pub x: i16,
    pub y: i16,
    pub angle_deg: i16,
    pub kind: u16,
}

/// The lumps of one map.
#[derive(Debug, Clone)]
pub struct ParsedMap {
    pub vertices: Vec<Vertex>,
    pub linedefs: Vec<LineDef>,
    pub sidedefs: Vec<SideDef>,
    pub sectors: Vec<Sector>,
    pub things: Vec<Thing>,
}

/// How a map container announces itself.
#[derive(Debug, Clone, Copy, PartialEq, Eq, Structural)]
pub enum MapContainerKind {
    Wad,
    ZipLike,
    Unknown,
}

/// A side as a value.
pub struct SideDefModel {
    pub upper_texture: Seq<u8>,
    pub lower_texture: Seq<u8>,
    pub middle_texture: Seq<u8>,
    pub sector: u16,
}

/// A sector as a value.
pub struct SectorModel {
    pub floor_height: i16,
    pub ceiling_height: i16,
    pub floor_texture: Seq<u8>,
    pub ceiling_texture: Seq<u8>,
}

/// A map as a value.
pub struct MapModel {
    pub vertices: Seq<Vertex>,
    pub linedefs: Seq<LineDef>,
    pub sidedefs: Seq<SideDefModel>,
    pub sectors: Seq<SectorModel>,
    pub things: Seq<Thing>,
}

impl View for LumpEntry {
    type V = (usize, usize, Seq<u8>);

    open spec fn view(&self) -> (usize, usize, Seq<u8>) {
        (self.offset, self.size, self.name@)
    }
}

impl View for SideDef {
    type V = SideDefModel;

    open spec fn view(&self) -> SideDefModel {
        SideDefModel {
            upper_texture: self.upper_texture@,
            lower_texture: self.lower_texture@,
            middle_texture: self.middle_texture@,
            sector: self.sector,
        }
    }
}

impl View for Sector {
    type V = SectorModel;

    open spec fn view(&self) -> SectorModel {
        SectorModel {
            floor_height: self.floor_height,
            ceiling_height: self.ceiling_height,
            floor_texture: self.floor_texture@,
            ceiling_texture: self.ceiling_texture@,
        }
    }
}

impl View for ParsedMap {
    type V = MapModel;

    open spec fn view(&self) -> MapModel {
        MapModel {
            vertices: self.vertices@,
            linedefs: self.linedefs@,
            sidedefs: self.sidedefs@.map_values(|s: SideDef| s@),
            sectors: self.sectors@.map_values(|s: Sector| s@),
            things: self.things@,
        }
    }
}

// ---------------------------------------------------------------------------
// Names
// ---------------------------------------------------------------------------

/// `b` with an ASCII lower-case letter made upper-case.
pub open spec fn upper_byte(b: u8) -> u8 {
    if 97 <= b <= 122 {
        (b - 32) as u8
    } else {
        b
    }
}

/// `s` with ASCII letters upper-cased.
pub open spec fn upper(s: Seq<u8>) -> Seq<u8> {
    Seq::new(s.len(), |i: int| upper_byte(s[i]))
}

/// `s` trimmed and upper-cased.
pub open spec fn normalize(s: Seq<u8>) -> Seq<u8> {
    upper(utrim(s))
}

/// The first position at or after `i` that holds a NUL byte, or the length.
pub open spec fn nul_at(s: Seq<u8>, i: nat) -> nat
    decreases s.len() - i,
{
    if i < s.len() && s[i as int] != 0 {
        nul_at(s, i + 1)
    } else {
        i
    }
}

/// The eight-byte name field at `at`, cut at its first NUL and normalized.
pub open spec fn name8(w: Seq<u8>, at: int) -> Seq<u8> {
    let raw = w.subrange(at, at + 8);
    normalize(raw.subrange(0, nul_at(raw, 0) as int))
}

/// The bytes of "VERTEXES".
pub open spec fn vertexes_name() -> Seq<u8> {
    seq![86u8, 69u8, 82u8, 84u8, 69u8, 88u8, 69u8, 83u8]
}

/// The bytes of "LINEDEFS".
pub open spec fn linedefs_name() -> Seq<u8> {
    seq![76u8, 73u8, 78u8, 69u8, 68u8, 69u8, 70u8, 83u8]
}

/// The bytes of "SIDEDEFS".
pub open spec fn sidedefs_name() -> Seq<u8> {
    seq![83u8, 73u8, 68u8, 69u8, 68u8, 69u8, 70u8, 83u8]
}

/// The bytes of "SECTORS".
pub open spec fn sectors_name() -> Seq<u8> {
    seq![83u8, 69u8, 67u8, 84u8, 79u8, 82u8, 83u8]
}

/// The bytes of "THINGS".
pub open spec fn things_name() -> Seq<u8> {
    seq![84u8, 72u8, 73u8, 78u8, 71u8, 83u8]
}

/// The name of a lump kind.
pub open spec fn kind_name(k: LumpKind) -> Seq<u8> {
    match k {
        LumpKind::Vertexes => vertexes_name(),
        LumpKind::Linedefs => linedefs_name(),
        LumpKind::Sidedefs => sidedefs_name(),
        LumpKind::Sectors => sectors_name(),
        LumpKind::Things => things_name(),
    }
}

/// Copies `s` trimmed of white space, with ASCII letters upper-cased.
pub fn normalize_name(s: &[u8]) -> (r: Vec<u8>)
    ensures
        r@ == normalize(s@),
{
    let t = trim_text(s);
    upper_copy(t.as_slice())
}

/// Whether `a` and `b` hold the same bytes.
pub fn bytes_eq(a: &[u8], b: &[u8]) -> (r: bool)
    ensures
        r == (a@ == b@),
{
    if a.len() != b.len() {
        return false;
    }
    let mut i: usize = 0;
    while i < a.len()
        invariant
            i <= a@.len(),
            a@.len() == b@.len(),
            forall|k: int| 0 <= k < i ==> a@[k] == b@[k],
        decreases a@.len() - i,
    {
        if a[i] != b[i] {
            return false;
        }
        i = i + 1;
    }
    assert(a@ =~= b@);
    true
}

// ---------------------------------------------------------------------------
// Fields
// ---------------------------------------------------------------------------

/// The little-endian `i32` at `at`, or `OutOfBounds(at)` past the end.
pub open spec fn i32_at(w: Seq<u8>, at: nat) -> Result<i32, WadError> {
    if at + 4 > w.len() {
        Err(WadError::OutOfBounds(at as usize))
    } else {
        Ok(from_le32(w, at as int) as i32)
    }
}

/// The little-endian `u16` at `at`.
pub open spec fn u16_at(w: Seq<u8>, at: int) -> u16 {
    from_le16(w[at], w[at + 1])
}

/// Reads a little-endian `i32` at `offset`.
pub fn read_i32_le(bytes: &[u8], offset: usize) -> (r: Result<i32, WadError>)
    ensures
        r == i32_at(bytes@, offset as nat),
{
    if offset > bytes.len() || bytes.len() - offset < 4 {
        return Err(WadError::OutOfBounds(offset));
    }
    Ok(#[verifier::truncate] (crate::bytes::read_le32(bytes, offset) as i32))
}

/// Reads a little-endian `u16` at `offset`.
pub fn read_u16_le(bytes: &[u8], offset: usize) -> (r: Result<u16, WadError>)
    ensures
        offset + 2 <= bytes@.len() ==> r == Ok::<u16, WadError>(u16_at(bytes@, offset as int)),
        offset + 2 > bytes@.len() ==> r == Err::<u16, WadError>(WadError::OutOfBounds(offset)),
{
    if offset > bytes.len() || bytes.len() - offset < 2 {
        return Err(WadError::OutOfBounds(offset));
    }
    Ok(crate::bytes::read_le16(bytes, offset))
}

/// Reads a little-endian `i16` at `offset`.
pub fn read_i16_le(bytes: &[u8], offset: usize) -> (r: Result<i16, WadError>)
    ensures
        offset + 2 <= bytes@.len() ==> r == Ok::<i16, WadError>(u16_at(bytes@, offset as int) as i16),
        offset + 2 > bytes@.len() ==> r == Err::<i16, WadError>(WadError::OutOfBounds(offset)),
{
    match read_u16_le(bytes, offset) {
        Ok(v) => Ok(v as i16),
        Err(e) => Err(e),
    }
}

/// Reads the byte at `offset`.
pub fn read_u8(bytes: &[u8], offset: usize) -> (r: Result<u8, WadError>)
    ensures
        offset < bytes@.len() ==> r == Ok::<u8, WadError>(bytes@[offset as int]),
        offset >= bytes@.len() ==> r == Err::<u8, WadError>(WadError::OutOfBounds(offset)),
{
    if offset < bytes.len() {
        Ok(bytes[offset])
    } else {
        Err(WadError::OutOfBounds(offset))
    }
}

/// Reads the eight-byte name field at `offset`; see `name8`.
pub fn read_name8(bytes: &[u8], offset: usize) -> (r: Result<Vec<u8>, WadError>)
    ensures
        offset + 8 <= bytes@.len() ==> (r matches Ok(n) && n@ == name8(bytes@, offset as int)),
        offset + 8 > bytes@.len() ==> r == Err::<Vec<u8>, WadError>(WadError::OutOfBounds(offset)),
{
    if offset > bytes.len() || bytes.len() - offset < 8 {
        return Err(WadError::OutOfBounds(offset));
    }
    let raw = vstd::slice::slice_subrange(bytes, offset, offset + 8);
    let mut n: usize = 0;
    while n < 8 && raw[n] != 0
        invariant
            n <= 8,
            raw@.len() == 8,
            nul_at(raw@, n as nat) == nul_at(raw@, 0),
        decreases 8 - n,
    {
        n = n + 1;
    }
    Ok(normalize_name(vstd::slice::slice_subrange(raw, 0, n)))
}


// ---------------------------------------------------------------------------
// The lump directory
// ---------------------------------------------------------------------------

/// The bytes of "IWAD".
pub open spec fn iwad() -> Seq<u8> {
    seq![73u8, 87u8, 65u8, 68u8]
}

/// The bytes of "PWAD".
pub open spec fn pwad() -> Seq<u8> {
    seq![80u8, 87u8, 65u8, 68u8]
}

/// The directory entry `i` of a directory at `dir`: offset and size (both not
/// negative, ending within the file) and name.
pub open spec fn dir_entry(w: Seq<u8>, dir: nat, i: nat) -> Result<(usize, usize, Seq<u8>), WadError> {
    let cursor: int = (dir + 16 * i) as int;
    let off = from_le32(w, cursor) as i32;
    let size = from_le32(w, cursor + 4) as i32;
    if off < 0 || size < 0 {
        Err(WadError::NegativeLump(i as usize))
    } else if off + size > usize::MAX {
        Err(WadError::LumpRangeOverflow(i as usize))
    } else if off + size > w.len() {
        Err(WadError::LumpPastEnd(i as usize))
    } else {
        Ok((off as usize, size as usize, name8(w, cursor + 8)))
    }
}

/// The first `n` directory entries, or the error of the first bad one.
pub open spec fn dir_entries(w: Seq<u8>, dir: nat, n: nat) -> Result<
    Seq<(usize, usize, Seq<u8>)>,
    WadError,
>
    decreases n,
{
    if n == 0 {
        Ok(Seq::empty())
    } else {
        match dir_entries(w, dir, (n - 1) as nat) {
            Err(e) => Err(e),
            Ok(es) => match dir_entry(w, dir, (n - 1) as nat) {
                Err(e) => Err(e),
                Ok(e) => Ok(es.push(e)),
            },
        }
    }
}

/// What reading the lump directory of `w` gives: the checks on the header,
/// then the entries in order.
pub open spec fn parse_directory(w: Seq<u8>) -> Result<Seq<(usize, usize, Seq<u8>)>, WadError> {
    if w.len() < 12 {
        Err(WadError::HeaderTooSmall)
    } else if w.subrange(0, 4) != iwad() && w.subrange(0, 4) != pwad() {
        Err(WadError::BadSignature)
    } else {
        let count = from_le32(w, 4) as i32;
        let dir = from_le32(w, 8) as i32;
        if count < 0 || dir < 0 {
            Err(WadError::NegativeMetadata)
        } else if count * 16 > usize::MAX {
            Err(WadError::DirectorySizeOverflow)
        } else if dir + count * 16 > usize::MAX {
            Err(WadError::DirectoryEndOverflow)
        } else if dir + count * 16 > w.len() {
            Err(WadError::DirectoryPastEnd)
        } else {
            dir_entries(w, dir as nat, count as nat)
        }
    }
}

proof fn lemma_dir_entries_err(w: Seq<u8>, dir: nat, k: nat, m: nat)
    requires
        k <= m,
        dir_entries(w, dir, k) is Err,
    ensures
        dir_entries(w, dir, m) == dir_entries(w, dir, k),
    decreases m - k,
{
    if k < m {
        lemma_dir_entries_err(w, dir, k, (m - 1) as nat);
    }
}

/// Whether the first four bytes spell `sig`.
fn has_signature(w: &[u8], sig: [u8; 4]) -> (r: bool)
    requires
        w@.len() >= 4,
    ensures
        r == (w@.subrange(0, 4) == sig@),
{
    let r = w[0] == sig[0] && w[1] == sig[1] && w[2] == sig[2] && w[3] == sig[3];
    proof {
        if r {
            assert(w@.subrange(0, 4) =~= sig@);
        } else if w@.subrange(0, 4) == sig@ {
            assert(w@.subrange(0, 4)[0] == w@[0]);
            assert(w@.subrange(0, 4)[1] == w@[1]);
            assert(w@.subrange(0, 4)[2] == w@[2]);
            assert(w@.subrange(0, 4)[3] == w@[3]);
        }
    }
    r
}

/// Reads the lump directory; see `parse_directory`.
pub fn parse_lump_directory(wad_bytes: &[u8]) -> (r: Result<Vec<LumpEntry>, WadError>)
    ensures
        match parse_directory(wad_bytes@) {
            Ok(es) => r matches Ok(v) && v@.map_values(|e: LumpEntry| e@) == es,
            Err(e) => r == Err::<Vec<LumpEntry>, WadError>(e),
        },
{
    if wad_bytes.len() < 12 {
        return Err(WadError::HeaderTooSmall);
    }
    proof {
        assert([73u8, 87u8, 65u8, 68u8]@ =~= iwad());
        assert([80u8, 87u8, 65u8, 68u8]@ =~= pwad());
    }
    if !has_signature(wad_bytes, [73, 87, 65, 68]) && !has_signature(wad_bytes, [80, 87, 65, 68]) {
        return Err(WadError::BadSignature);
    }
    let lump_count = match read_i32_le(wad_bytes, 4) {
        Ok(v) => v,
        Err(e) => {
            return Err(e);
        },
    };
    let directory_offset = match read_i32_le(wad_bytes, 8) {
        Ok(v) => v,
        Err(e) => {
            return Err(e);
        },
    };
    if lump_count < 0 || directory_offset < 0 {
        return Err(WadError::NegativeMetadata);
    }
    let lump_count = lump_count as usize;
    let directory_offset = directory_offset as usize;
    let directory_size = match lump_count.checked_mul(16) {
        Some(v) => v,
        None => {
            return Err(WadError::DirectorySizeOverflow);
        },
    };
    let directory_end = match directory_offset.checked_add(directory_size) {
        Some(v) => v,
        None => {
            return Err(WadError::DirectoryEndOverflow);
        },
    };
    if directory_end > wad_bytes.len() {
        return Err(WadError::DirectoryPastEnd);
    }
    let ghost w = wad_bytes@;
    assert(parse_directory(w) == dir_entries(w, directory_offset as nat, lump_count as nat));
    let mut entries: Vec<LumpEntry> = Vec::new();
    assert(entries@.map_values(|e: LumpEntry| e@) =~= Seq::<(usize, usize, Seq<u8>)>::empty());
    let wlen = wad_bytes.len();
    let mut index: usize = 0;
    while index < lump_count
        invariant
            w == wad_bytes@,
            wlen == wad_bytes@.len(),
            parse_directory(w) == dir_entries(w, directory_offset as nat, lump_count as nat),
            index <= lump_count,
            directory_offset + 16 * lump_count <= wad_bytes@.len(),
            dir_entries(w, directory_offset as nat, index as nat) == Ok::<
                Seq<(usize, usize, Seq<u8>)>,
                WadError,
            >(entries@.map_values(|e: LumpEntry| e@)),
        decreases lump_count - index,
    {
        let cursor = directory_offset + index * 16;
        let offset = #[verifier::truncate] (crate::bytes::read_le32(wad_bytes, cursor) as i32);
        let size = #[verifier::truncate] (crate::bytes::read_le32(wad_bytes, cursor + 4) as i32);
        if offset < 0 || size < 0 {
            proof {
                lemma_dir_entries_err(w, directory_offset as nat, (index + 1) as nat, lump_count as nat);
            }
            return Err(WadError::NegativeLump(index));
        }
        let offset = offset as usize;
        let size = size as usize;
        let end = match offset.checked_add(size) {
            Some(v) => v,
            None => {
                proof {
                    lemma_dir_entries_err(w, directory_offset as nat, (index + 1) as nat, lump_count as nat);
                }
                return Err(WadError::LumpRangeOverflow(index));
            },
        };
        if end > wad_bytes.len() {
            proof {
                lemma_dir_entries_err(w, directory_offset as nat, (index + 1) as nat, lump_count as nat);
            }
            return Err(WadError::LumpPastEnd(index));
        }
        let name = match read_name8(wad_bytes, cursor + 8) {
            Ok(n) => n,
            Err(e) => {
                return Err(e);
            },
        };
        let ghost before = entries@.map_values(|e: LumpEntry| e@);
        let entry = LumpEntry { offset, size, name };
        entries.push(entry);
        proof {
            assert(entries@.map_values(|e: LumpEntry| e@) =~= before.push(entry@));
        }
        index = index + 1;
    }
    Ok(entries)
}


// ---------------------------------------------------------------------------
// Map lumps
// ---------------------------------------------------------------------------

/// The first `n` records made by `f`, or the error of the first bad one.
pub open spec fn records<T>(n: nat, f: spec_fn(int) -> Result<T, WadError>) -> Result<
    Seq<T>,
    WadError,
>
    decreases n,
{
    if n == 0 {
        Ok(Seq::empty())
    } else {
        match records((n - 1) as nat, f) {
            Err(e) => Err(e),
            Ok(rs) => match f(n - 1) {
                Err(e) => Err(e),
                Ok(r) => Ok(rs.push(r)),
            },
        }
    }
}

proof fn lemma_records_err<T>(f: spec_fn(int) -> Result<T, WadError>, k: nat, m: nat)
    requires
        k <= m,
        records(k, f) is Err,
    ensures
        records(m, f) == records(k, f),
    decreases m - k,
{
    if k < m {
        lemma_records_err(f, k, (m - 1) as nat);
    }
}

/// The vertex at `c`: x and y.
pub open spec fn vertex_at(w: Seq<u8>, c: int) -> Result<Vertex, WadError> {
    if c + 2 > w.len() {
        Err(WadError::OutOfBounds(c as usize))
    } else if c + 4 > w.len() {
        Err(WadError::OutOfBounds((c + 2) as usize))
    } else {
        Ok(Vertex { x: u16_at(w, c) as i16, y: u16_at(w, c + 2) as i16 })
    }
}

/// A Doom-format linedef at `c` (14 bytes): vertices, special, tag and sides.
pub open spec fn linedef_doom_at(w: Seq<u8>, c: int) -> Result<LineDef, WadError> {
    if c + 2 > w.len() {
        Err(WadError::OutOfBounds(c as usize))
    } else if c + 4 > w.len() {
        Err(WadError::OutOfBounds((c + 2) as usize))
    } else if c + 8 > w.len() {
        Err(WadError::OutOfBounds((c + 6) as usize))
    } else if c + 10 > w.len() {
        Err(WadError::OutOfBounds((c + 8) as usize))
    } else if c + 12 > w.len() {
        Err(WadError::OutOfBounds((c + 10) as usize))
    } else if c + 14 > w.len() {
        Err(WadError::OutOfBounds((c + 12) as usize))
    } else {
        Ok(
            LineDef {
                start_vertex: u16_at(w, c),
                end_vertex: u16_at(w, c + 2),
                special: u16_at(w, c + 6),
                tag: u16_at(w, c + 8),
                right_sidedef: u16_at(w, c + 10),
                left_sidedef: u16_at(w, c + 12),
            },
        )
    }
}

/// A Hexen-format linedef at `c` (16 bytes): the special is one byte and the
/// tag slot holds action arguments, so the tag is 0.
pub open spec fn linedef_hexen_at(w: Seq<u8>, c: int) -> Result<LineDef, WadError> {
    if c + 2 > w.len() {
        Err(WadError::OutOfBounds(c as usize))
    } else if c + 4 > w.len() {
        Err(WadError::OutOfBounds((c + 2) as usize))
    } else if c + 7 > w.len() {
        Err(WadError::OutOfBounds((c + 6) as usize))
    } else if c + 14 > w.len() {
        Err(WadError::OutOfBounds((c + 12) as usize))
    } else if c + 16 > w.len() {
        Err(WadError::OutOfBounds((c + 14) as usize))
    } else {
        Ok(
            LineDef {
                start_vertex: u16_at(w, c),
                end_vertex: u16_at(w, c + 2),
                special: w[c + 6] as u16,
                tag: 0,
                right_sidedef: u16_at(w, c + 12),
                left_sidedef: u16_at(w, c + 14),
            },
        )
    }
}

/// The sidedef at `c` (30 bytes): upper, lower and middle texture names and
/// the sector.
pub open spec fn sidedef_at(w: Seq<u8>, c: int) -> Result<SideDefModel, WadError> {
    if c + 12 > w.len() {
        Err(WadError::OutOfBounds((c + 4) as usize))
    } else if c + 20 > w.len() {
        Err(WadError::OutOfBounds((c + 12) as usize))
    } else if c + 28 > w.len() {
        Err(WadError::OutOfBounds((c + 20) as usize))
    } else if c + 30 > w.len() {
        Err(WadError::OutOfBounds((c + 28) as usize))
    } else {
        Ok(
            SideDefModel {
                upper_texture: name8(w, c + 4),
                lower_texture: name8(w, c + 12),
                middle_texture: name8(w, c + 20),
                sector: u16_at(w, c + 28),
            },
        )
    }
}

/// The sector at `c` (26 bytes): heights and texture names.
pub open spec fn sector_at(w: Seq<u8>, c: int) -> Result<SectorModel, WadError> {
    if c + 2 > w.len() {
        Err(WadError::OutOfBounds(c as usize))
    } else if c + 4 > w.len() {
        Err(WadError::OutOfBounds((c + 2) as usize))
    } else if c + 12 > w.len() {
        Err(WadError::OutOfBounds((c + 4) as usize))
    } else if c + 20 > w.len() {
        Err(WadError::OutOfBounds((c + 12) as usize))
    } else {
        Ok(
            SectorModel {
                floor_height: u16_at(w, c) as i16,
                ceiling_height: u16_at(w, c + 2) as i16,
                floor_texture: name8(w, c + 4),
                ceiling_texture: name8(w, c + 12),
            },
        )
    }
}

/// The thing at `c` (10 bytes): position, angle and type.
pub open spec fn thing_at(w: Seq<u8>, c: int) -> Result<Thing, WadError> {
    if c + 2 > w.len() {
        Err(WadError::OutOfBounds(c as usize))
    } else if c + 4 > w.len() {
        Err(WadError::OutOfBounds((c + 2) as usize))
    } else if c + 6 > w.len() {
        Err(WadError::OutOfBounds((c + 4) as usize))
    } else if c + 8 > w.len() {
        Err(WadError::OutOfBounds((c + 6) as usize))
    } else {
        Ok(
            Thing {
                x: u16_at(w, c) as i16,
                y: u16_at(w, c + 2) as i16,
                angle_deg: u16_at(w, c + 4) as i16,
                kind: u16_at(w, c + 6),
            },
        )
    }
}

/// The records of a lump: record `k` starts `width * k` bytes in.
pub open spec fn vertex_recs(w: Seq<u8>, off: int) -> spec_fn(int) -> Result<Vertex, WadError> {
    |k: int| vertex_at(w, off + 4 * k)
}

pub open spec fn linedef_doom_recs(w: Seq<u8>, off: int) -> spec_fn(int) -> Result<LineDef, WadError> {
    |k: int| linedef_doom_at(w, off + 14 * k)
}

pub open spec fn linedef_hexen_recs(w: Seq<u8>, off: int) -> spec_fn(int) -> Result<LineDef, WadError> {
    |k: int| linedef_hexen_at(w, off + 16 * k)
}

pub open spec fn sidedef_recs(w: Seq<u8>, off: int) -> spec_fn(int) -> Result<SideDefModel, WadError> {
    |k: int| sidedef_at(w, off + 30 * k)
}

pub open spec fn sector_recs(w: Seq<u8>, off: int) -> spec_fn(int) -> Result<SectorModel, WadError> {
    |k: int| sector_at(w, off + 26 * k)
}

pub open spec fn thing_recs(w: Seq<u8>, off: int) -> spec_fn(int) -> Result<Thing, WadError> {
    |k: int| thing_at(w, off + 10 * k)
}

/// A successful run of records has one record per index, each the one its
/// index gives.
proof fn lemma_records_ok<T>(n: nat, f: spec_fn(int) -> Result<T, WadError>)
    ensures
        records(n, f) matches Ok(rs) ==> rs.len() == n && forall|k: int| 0 <= k < n ==> #[trigger] f(k) == Ok::<T, WadError>(rs[k]),
    decreases n,
{
    if n > 0 {
        lemma_records_ok((n - 1) as nat, f);
    }
}

/// The records of the classic map lumps, laid out as Doom stores them: record
/// `k` starts `width * k` bytes into the lump, and its fields are
/// little-endian 16-bit numbers at fixed offsets. A vertex (4 bytes) is x at
/// 0 and y at 2; a Doom linedef (14 bytes) has its vertices at 0 and 2, its
/// special at 6, its tag at 8 and its right and left sides at 10 and 12; a
/// sector (26 bytes) has its floor and ceiling heights at 0 and 2 and its
/// texture names at 4 and 12; a sidedef (30 bytes) has its upper, lower and
/// middle texture names at 4, 12 and 20 and its sector at 28; a thing (10
/// bytes) has x at 0, y at 2, its angle at 4 and its type at 6.
pub proof fn lemma_lump_record_layout(w: Seq<u8>, e: (usize, usize, Seq<u8>))
    ensures
        vertices_of(w, e) matches Ok(vs) ==> vs.len() == e.1 / 4 && forall|k: int|
            0 <= k < vs.len() ==> {
                let c = e.0 + 4 * k;
                &&& (#[trigger] vs[k]).x == from_le16(w[c], w[c + 1]) as i16
                &&& vs[k].y == from_le16(w[c + 2], w[c + 3]) as i16
            },
        e.1 % 14 == 0 ==> (linedefs_of(w, e) matches Ok(ls) ==> ls.len() == e.1 / 14 && forall|k: int|
            0 <= k < ls.len() ==> {
                let c = e.0 + 14 * k;
                &&& (#[trigger] ls[k]).start_vertex == from_le16(w[c], w[c + 1])
                &&& ls[k].end_vertex == from_le16(w[c + 2], w[c + 3])
                &&& ls[k].special == from_le16(w[c + 6], w[c + 7])
                &&& ls[k].tag == from_le16(w[c + 8], w[c + 9])
                &&& ls[k].right_sidedef == from_le16(w[c + 10], w[c + 11])
                &&& ls[k].left_sidedef == from_le16(w[c + 12], w[c + 13])
            }),
        sectors_of(w, e) matches Ok(ss) ==> ss.len() == e.1 / 26 && forall|k: int|
            0 <= k < ss.len() ==> {
                let c = e.0 + 26 * k;
                &&& (#[trigger] ss[k]).floor_height == from_le16(w[c], w[c + 1]) as i16
                &&& ss[k].ceiling_height == from_le16(w[c + 2], w[c + 3]) as i16
                &&& ss[k].floor_texture == name8(w, c + 4)
                &&& ss[k].ceiling_texture == name8(w, c + 12)
            },
        sidedefs_of(w, e) matches Ok(sd) ==> sd.len() == e.1 / 30 && forall|k: int|
            0 <= k < sd.len() ==> {
                let c = e.0 + 30 * k;
                &&& (#[trigger] sd[k]).upper_texture == name8(w, c + 4)
                &&& sd[k].lower_texture == name8(w, c + 12)
                &&& sd[k].middle_texture == name8(w, c + 20)
                &&& sd[k].sector == from_le16(w[c + 28], w[c + 29])
            },
        things_of(w, e) matches Ok(ts) ==> ts.len() == e.1 / 10 && forall|k: int|
            0 <= k < ts.len() ==> {
                let c = e.0 + 10 * k;
                &&& (#[trigger] ts[k]).x == from_le16(w[c], w[c + 1]) as i16
                &&& ts[k].y == from_le16(w[c + 2], w[c + 3]) as i16
                &&& ts[k].angle_deg == from_le16(w[c + 4], w[c + 5]) as i16
                &&& ts[k].kind == from_le16(w[c + 6], w[c + 7])
            },
{
    lemma_records_ok((e.1 / 4) as nat, vertex_recs(w, e.0 as int));
    lemma_records_ok((e.1 / 14) as nat, linedef_doom_recs(w, e.0 as int));
    lemma_records_ok((e.1 / 26) as nat, sector_recs(w, e.0 as int));
    lemma_records_ok((e.1 / 30) as nat, sidedef_recs(w, e.0 as int));
    lemma_records_ok((e.1 / 10) as nat, thing_recs(w, e.0 as int));
    if vertices_of(w, e) is Ok {
        let vs = vertices_of(w, e)->Ok_0;
        assert forall|k: int| 0 <= k < vs.len() implies {
            let c = e.0 + 4 * k;
            &&& (#[trigger] vs[k]).x == from_le16(w[c], w[c + 1]) as i16
            &&& vs[k].y == from_le16(w[c + 2], w[c + 3]) as i16
        } by {
            assert(vertex_recs(w, e.0 as int)(k) == Ok::<Vertex, WadError>(vs[k]));
        }
    }
    if e.1 % 14 == 0 && linedefs_of(w, e) is Ok {
        let ls = linedefs_of(w, e)->Ok_0;
        assert forall|k: int| 0 <= k < ls.len() implies {
            let c = e.0 + 14 * k;
            &&& (#[trigger] ls[k]).start_vertex == from_le16(w[c], w[c + 1])
            &&& ls[k].end_vertex == from_le16(w[c + 2], w[c + 3])
            &&& ls[k].special == from_le16(w[c + 6], w[c + 7])
            &&& ls[k].tag == from_le16(w[c + 8], w[c + 9])
            &&& ls[k].right_sidedef == from_le16(w[c + 10], w[c + 11])
            &&& ls[k].left_sidedef == from_le16(w[c + 12], w[c + 13])
        } by {
            assert(linedef_doom_recs(w, e.0 as int)(k) == Ok::<LineDef, WadError>(ls[k]));
        }
    }
    if sectors_of(w, e) is Ok {
        let ss = sectors_of(w, e)->Ok_0;
        assert forall|k: int| 0 <= k < ss.len() implies {
            let c = e.0 + 26 * k;
            &&& (#[trigger] ss[k]).floor_height == from_le16(w[c], w[c + 1]) as i16
            &&& ss[k].ceiling_height == from_le16(w[c + 2], w[c + 3]) as i16
            &&& ss[k].floor_texture == name8(w, c + 4)
            &&& ss[k].ceiling_texture == name8(w, c + 12)
        } by {
            assert(sector_recs(w, e.0 as int)(k) == Ok::<SectorModel, WadError>(ss[k]));
        }
    }
    if sidedefs_of(w, e) is Ok {
        let sd = sidedefs_of(w, e)->Ok_0;
        assert forall|k: int| 0 <= k < sd.len() implies {
            let c = e.0 + 30 * k;
            &&& (#[trigger] sd[k]).upper_texture == name8(w, c + 4)
            &&& sd[k].lower_texture == name8(w, c + 12)
            &&& sd[k].middle_texture == name8(w, c + 20)
            &&& sd[k].sector == from_le16(w[c + 28], w[c + 29])
        } by {
            assert(sidedef_recs(w, e.0 as int)(k) == Ok::<SideDefModel, WadError>(sd[k]));
        }
    }
    if things_of(w, e) is Ok {
        let ts = things_of(w, e)->Ok_0;
        assert forall|k: int| 0 <= k < ts.len() implies {
            let c = e.0 + 10 * k;
            &&& (#[trigger] ts[k]).x == from_le16(w[c], w[c + 1]) as i16
            &&& ts[k].y == from_le16(w[c + 2], w[c + 3]) as i16
            &&& ts[k].angle_deg == from_le16(w[c + 4], w[c + 5]) as i16
            &&& ts[k].kind == from_le16(w[c + 6], w[c + 7])
        } by {
            assert(thing_recs(w, e.0 as int)(k) == Ok::<Thing, WadError>(ts[k]));
        }
    }
}

/// The vertices of a VERTEXES lump (4-byte records).
pub open spec fn vertices_of(w: Seq<u8>, e: (usize, usize, Seq<u8>)) -> Result<Seq<Vertex>, WadError> {
    if e.1 % 4 != 0 {
        Err(WadError::BadLumpSize(LumpKind::Vertexes))
    } else {
        records((e.1 / 4) as nat, vertex_recs(w, e.0 as int))
    }
}

/// The linedefs of a LINEDEFS lump: 14-byte Doom records when the size
/// allows, else 16-byte Hexen records.
pub open spec fn linedefs_of(w: Seq<u8>, e: (usize, usize, Seq<u8>)) -> Result<Seq<LineDef>, WadError> {
    if e.1 % 14 == 0 {
        records((e.1 / 14) as nat, linedef_doom_recs(w, e.0 as int))
    } else if e.1 % 16 == 0 {
        records((e.1 / 16) as nat, linedef_hexen_recs(w, e.0 as int))
    } else {
        Err(WadError::BadLumpSize(LumpKind::Linedefs))
    }
}

/// The sidedefs of a SIDEDEFS lump (30-byte records).
pub open spec fn sidedefs_of(w: Seq<u8>, e: (usize, usize, Seq<u8>)) -> Result<
    Seq<SideDefModel>,
    WadError,
> {
    if e.1 % 30 != 0 {
        Err(WadError::BadLumpSize(LumpKind::Sidedefs))
    } else {
        records((e.1 / 30) as nat, sidedef_recs(w, e.0 as int))
    }
}

/// The sectors of a SECTORS lump (26-byte records).
pub open spec fn sectors_of(w: Seq<u8>, e: (usize, usize, Seq<u8>)) -> Result<Seq<SectorModel>, WadError> {
    if e.1 % 26 != 0 {
        Err(WadError::BadLumpSize(LumpKind::Sectors))
    } else {
        records((e.1 / 26) as nat, sector_recs(w, e.0 as int))
    }
}

/// The things of a THINGS lump (10-byte records).
pub open spec fn things_of(w: Seq<u8>, e: (usize, usize, Seq<u8>)) -> Result<Seq<Thing>, WadError> {
    if e.1 % 10 != 0 {
        Err(WadError::BadLumpSize(LumpKind::Things))
    } else {
        records((e.1 / 10) as nat, thing_recs(w, e.0 as int))
    }
}

fn read_vertex(w: &[u8], c: usize) -> (r: Result<Vertex, WadError>)
    requires
        c + 4 <= usize::MAX,
    ensures
        r == vertex_at(w@, c as int),
{
    let x = match read_i16_le(w, c) {
        Ok(v) => v,
        Err(e) => {
            return Err(e);
        },
    };
    let y = match read_i16_le(w, c + 2) {
        Ok(v) => v,
        Err(e) => {
            return Err(e);
        },
    };
    Ok(Vertex { x, y })
}

fn read_linedef_doom(w: &[u8], c: usize) -> (r: Result<LineDef, WadError>)
    requires
        c + 14 <= usize::MAX,
    ensures
        r == linedef_doom_at(w@, c as int),
{
    let start_vertex = match read_u16_le(w, c) {
        Ok(v) => v,
        Err(e) => {
            return Err(e);
        },
    };
    let end_vertex = match read_u16_le(w, c + 2) {
        Ok(v) => v,
        Err(e) => {
            return Err(e);
        },
    };
    let special = match read_u16_le(w, c + 6) {
        Ok(v) => v,
        Err(e) => {
            return Err(e);
        },
    };
    let tag = match read_u16_le(w, c + 8) {
        Ok(v) => v,
        Err(e) => {
            return Err(e);
        },
    };
    let right_sidedef = match read_u16_le(w, c + 10) {
        Ok(v) => v,
        Err(e) => {
            return Err(e);
        },
    };
    let left_sidedef = match read_u16_le(w, c + 12) {
        Ok(v) => v,
        Err(e) => {
            return Err(e);
        },
    };
    Ok(LineDef { start_vertex, end_vertex, special, tag, right_sidedef, left_sidedef })
}

fn read_linedef_hexen(w: &[u8], c: usize) -> (r: Result<LineDef, WadError>)
    requires
        c + 16 <= usize::MAX,
    ensures
        r == linedef_hexen_at(w@, c as int),
{
    let start_vertex = match read_u16_le(w, c) {
        Ok(v) => v,
        Err(e) => {
            return Err(e);
        },
    };
    let end_vertex = match read_u16_le(w, c + 2) {
        Ok(v) => v,
        Err(e) => {
            return Err(e);
        },
    };
    let special = match read_u8(w, c + 6) {
        Ok(v) => v as u16,
        Err(e) => {
            return Err(e);
        },
    };
    let right_sidedef = match read_u16_le(w, c + 12) {
        Ok(v) => v,
        Err(e) => {
            return Err(e);
        },
    };
    let left_sidedef = match read_u16_le(w, c + 14) {
        Ok(v) => v,
        Err(e) => {
            return Err(e);
        },
    };
    Ok(LineDef { start_vertex, end_vertex, special, tag: 0, right_sidedef, left_sidedef })
}

fn read_sidedef(w: &[u8], c: usize) -> (r: Result<SideDef, WadError>)
    requires
        c + 30 <= usize::MAX,
    ensures
        match sidedef_at(w@, c as int) {
            Ok(m) => r matches Ok(v) && v@ == m,
            Err(e) => r matches Err(e2) && e2 == e,
        },
{
    let upper_texture = match read_name8(w, c + 4) {
        Ok(v) => v,
        Err(e) => {
            return Err(e);
        },
    };
    let lower_texture = match read_name8(w, c + 12) {
        Ok(v) => v,
        Err(e) => {
            return Err(e);
        },
    };
    let middle_texture = match read_name8(w, c + 20) {
        Ok(v) => v,
        Err(e) => {
            return Err(e);
        },
    };
    let sector = match read_u16_le(w, c + 28) {
        Ok(v) => v,
        Err(e) => {
            return Err(e);
        },
    };
    Ok(SideDef { upper_texture, lower_texture, middle_texture, sector })
}

fn read_sector(w: &[u8], c: usize) -> (r: Result<Sector, WadError>)
    requires
        c + 26 <= usize::MAX,
    ensures
        match sector_at(w@, c as int) {
            Ok(m) => r matches Ok(v) && v@ == m,
            Err(e) => r matches Err(e2) && e2 == e,
        },
{
    let floor_height = match read_i16_le(w, c) {
        Ok(v) => v,
        Err(e) => {
            return Err(e);
        },
    };
    let ceiling_height = match read_i16_le(w, c + 2) {
        Ok(v) => v,
        Err(e) => {
            return Err(e);
        },
    };
    let floor_texture = match read_name8(w, c + 4) {
        Ok(v) => v,
        Err(e) => {
            return Err(e);
        },
    };
    let ceiling_texture = match read_name8(w, c + 12) {
        Ok(v) => v,
        Err(e) => {
            return Err(e);
        },
    };
    Ok(Sector { floor_height, ceiling_height, floor_texture, ceiling_texture })
}

fn read_thing(w: &[u8], c: usize) -> (r: Result<Thing, WadError>)
    requires
        c + 10 <= usize::MAX,
    ensures
        r == thing_at(w@, c as int),
{
    let x = match read_i16_le(w, c) {
        Ok(v) => v,
        Err(e) => {
            return Err(e);
        },
    };
    let y = match read_i16_le(w, c + 2) {
        Ok(v) => v,
        Err(e) => {
            return Err(e);
        },
    };
    let angle_deg = match read_i16_le(w, c + 4) {
        Ok(v) => v,
        Err(e) => {
            return Err(e);
        },
    };
    let kind = match read_u16_le(w, c + 6) {
        Ok(v) => v,
        Err(e) => {
            return Err(e);
        },
    };
    Ok(Thing { x, y, angle_deg, kind })
}

/// Reads the vertices of a lump; see `vertices_of`.
pub fn parse_vertices(wad_bytes: &[u8], entry: &LumpEntry) -> (r: Result<Vec<Vertex>, WadError>)
    requires
        entry.offset + entry.size <= usize::MAX,
    ensures
        match vertices_of(wad_bytes@, entry@) {
            Ok(vs) => r matches Ok(v) && v@ == vs,
            Err(e) => r == Err::<Vec<Vertex>, WadError>(e),
        },
{
    if entry.size % 4 != 0 {
        return Err(WadError::BadLumpSize(LumpKind::Vertexes));
    }
    let count = entry.size / 4;
    let ghost f = vertex_recs(wad_bytes@, entry.offset as int);
    let mut out: Vec<Vertex> = Vec::new();
    let mut index: usize = 0;
    while index < count
        invariant
            index <= count,
            count * 4 == entry.size,
            entry.offset + entry.size <= usize::MAX,
            f == vertex_recs(wad_bytes@, entry.offset as int),
            records(index as nat, f) == Ok::<Seq<Vertex>, WadError>(out@),
        decreases count - index,
    {
        let cursor = entry.offset + index * 4;
        match read_vertex(wad_bytes, cursor) {
            Ok(v) => {
                out.push(v);
            },
            Err(e) => {
                proof {
                    lemma_records_err(f, (index + 1) as nat, count as nat);
                }
                return Err(e);
            },
        }
        index = index + 1;
    }
    Ok(out)
}

/// Reads the linedefs of a lump; see `linedefs_of`.
pub fn parse_linedefs(wad_bytes: &[u8], entry: &LumpEntry) -> (r: Result<Vec<LineDef>, WadError>)
    requires
        entry.offset + entry.size <= usize::MAX,
    ensures
        match linedefs_of(wad_bytes@, entry@) {
            Ok(ls) => r matches Ok(v) && v@ == ls,
            Err(e) => r == Err::<Vec<LineDef>, WadError>(e),
        },
{
    if entry.size % 14 == 0 {
        let count = entry.size / 14;
        let ghost f = linedef_doom_recs(wad_bytes@, entry.offset as int);
        let mut out: Vec<LineDef> = Vec::new();
        let mut index: usize = 0;
        while index < count
            invariant
                index <= count,
                count * 14 == entry.size,
                entry.offset + entry.size <= usize::MAX,
                f == linedef_doom_recs(wad_bytes@, entry.offset as int),
                records(index as nat, f) == Ok::<Seq<LineDef>, WadError>(out@),
            decreases count - index,
        {
            let cursor = entry.offset + index * 14;
            match read_linedef_doom(wad_bytes, cursor) {
                Ok(v) => {
                    out.push(v);
                },
                Err(e) => {
                    proof {
                        lemma_records_err(f, (index + 1) as nat, count as nat);
                    }
                    return Err(e);
                },
            }
            index = index + 1;
        }
        return Ok(out);
    }
    if entry.size % 16 == 0 {
        let count = entry.size / 16;
        let ghost f = linedef_hexen_recs(wad_bytes@, entry.offset as int);
        let mut out: Vec<LineDef> = Vec::new();
        let mut index: usize = 0;
        while index < count
            invariant
                index <= count,
                count * 16 == entry.size,
                entry.size % 14 != 0,
                entry.offset + entry.size <= usize::MAX,
                f == linedef_hexen_recs(wad_bytes@, entry.offset as int),
                records(index as nat, f) == Ok::<Seq<LineDef>, WadError>(out@),
            decreases count - index,
        {
            let cursor = entry.offset + index * 16;
            match read_linedef_hexen(wad_bytes, cursor) {
                Ok(v) => {
                    out.push(v);
                },
                Err(e) => {
                    proof {
                        lemma_records_err(f, (index + 1) as nat, count as nat);
                    }
                    return Err(e);
                },
            }
            index = index + 1;
        }
        return Ok(out);
    }
    Err(WadError::BadLumpSize(LumpKind::Linedefs))
}

/// Reads the sidedefs of a lump; see `sidedefs_of`.
pub fn parse_sidedefs(wad_bytes: &[u8], entry: &LumpEntry) -> (r: Result<Vec<SideDef>, WadError>)
    requires
        entry.offset + entry.size <= usize::MAX,
    ensures
        match sidedefs_of(wad_bytes@, entry@) {
            Ok(ss) => r matches Ok(v) && v@.map_values(|s: SideDef| s@) == ss,
            Err(e) => r matches Err(e2) && e2 == e,
        },
{
    if entry.size % 30 != 0 {
        return Err(WadError::BadLumpSize(LumpKind::Sidedefs));
    }
    let count = entry.size / 30;
    let ghost f = sidedef_recs(wad_bytes@, entry.offset as int);
    let mut out: Vec<SideDef> = Vec::new();
    assert(out@.map_values(|s: SideDef| s@) =~= Seq::<SideDefModel>::empty());
    let mut index: usize = 0;
    while index < count
        invariant
            index <= count,
            count * 30 == entry.size,
            entry.offset + entry.size <= usize::MAX,
            f == sidedef_recs(wad_bytes@, entry.offset as int),
            records(index as nat, f) == Ok::<Seq<SideDefModel>, WadError>(
                out@.map_values(|s: SideDef| s@),
            ),
        decreases count - index,
    {
        let cursor = entry.offset + index * 30;
        let ghost before = out@.map_values(|s: SideDef| s@);
        match read_sidedef(wad_bytes, cursor) {
            Ok(v) => {
                let ghost m = v@;
                out.push(v);
                proof {
                    assert(out@.map_values(|s: SideDef| s@) =~= before.push(m));
                }
            },
            Err(e) => {
                proof {
                    lemma_records_err(f, (index + 1) as nat, count as nat);
                }
                return Err(e);
            },
        }
        index = index + 1;
    }
    Ok(out)
}

/// Reads the sectors of a lump; see `sectors_of`.
pub fn parse_sectors(wad_bytes: &[u8], entry: &LumpEntry) -> (r: Result<Vec<Sector>, WadError>)
    requires
        entry.offset + entry.size <= usize::MAX,
    ensures
        match sectors_of(wad_bytes@, entry@) {
            Ok(ss) => r matches Ok(v) && v@.map_values(|s: Sector| s@) == ss,
            Err(e) => r matches Err(e2) && e2 == e,
        },
{
    if entry.size % 26 != 0 {
        return Err(WadError::BadLumpSize(LumpKind::Sectors));
    }
    let count = entry.size / 26;
    let ghost f = sector_recs(wad_bytes@, entry.offset as int);
    let mut out: Vec<Sector> = Vec::new();
    assert(out@.map_values(|s: Sector| s@) =~= Seq::<SectorModel>::empty());
    let mut index: usize = 0;
    while index < count
        invariant
            index <= count,
            count * 26 == entry.size,
            entry.offset + entry.size <= usize::MAX,
            f == sector_recs(wad_bytes@, entry.offset as int),
            records(index as nat, f) == Ok::<Seq<SectorModel>, WadError>(
                out@.map_values(|s: Sector| s@),
            ),
        decreases count - index,
    {
        let cursor = entry.offset + index * 26;
        let ghost before = out@.map_values(|s: Sector| s@);
        match read_sector(wad_bytes, cursor) {
            Ok(v) => {
                let ghost m = v@;
                out.push(v);
                proof {
                    assert(out@.map_values(|s: Sector| s@) =~= before.push(m));
                }
            },
            Err(e) => {
                proof {
                    lemma_records_err(f, (index + 1) as nat, count as nat);
                }
                return Err(e);
            },
        }
        index = index + 1;
    }
    Ok(out)
}

/// Reads the things of a lump; see `things_of`.
pub fn parse_things(wad_bytes: &[u8], entry: &LumpEntry) -> (r: Result<Vec<Thing>, WadError>)
    requires
        entry.offset + entry.size <= usize::MAX,
    ensures
        match things_of(wad_bytes@, entry@) {
            Ok(ts) => r matches Ok(v) && v@ == ts,
            Err(e) => r == Err::<Vec<Thing>, WadError>(e),
        },
{
    if entry.size % 10 != 0 {
        return Err(WadError::BadLumpSize(LumpKind::Things));
    }
    let count = entry.size / 10;
    let ghost f = thing_recs(wad_bytes@, entry.offset as int);
    let mut out: Vec<Thing> = Vec::new();
    let mut index: usize = 0;
    while index < count
        invariant
            index <= count,
            count * 10 == entry.size,
            entry.offset + entry.size <= usize::MAX,
            f == thing_recs(wad_bytes@, entry.offset as int),
            records(index as nat, f) == Ok::<Seq<Thing>, WadError>(out@),
        decreases count - index,
    {
        let cursor = entry.offset + index * 10;
        match read_thing(wad_bytes, cursor) {
            Ok(v) => {
                out.push(v);
            },
            Err(e) => {
                proof {
                    lemma_records_err(f, (index + 1) as nat, count as nat);
                }
                return Err(e);
            },
        }
        index = index + 1;
    }
    Ok(out)
}


// ---------------------------------------------------------------------------
// Maps in the directory
// ---------------------------------------------------------------------------

/// The directory entries as values.
pub open spec fn lump_views(l: Seq<LumpEntry>) -> Seq<(usize, usize, Seq<u8>)> {
    l.map_values(|e: LumpEntry| e@)
}

/// The first index at or after `i` whose lump is named `name`.
pub open spec fn find_lump(lumps: Seq<(usize, usize, Seq<u8>)>, name: Seq<u8>, i: nat) -> Option<nat>
    decreases lumps.len() - i,
{
    if i >= lumps.len() {
        None
    } else if lumps[i as int].2 == name {
        Some(i)
    } else {
        find_lump(lumps, name, i + 1)
    }
}

/// Some lump in `lumps[lo..hi]` is named `name`.
pub open spec fn has_name_in(lumps: Seq<(usize, usize, Seq<u8>)>, name: Seq<u8>, lo: int, hi: int) -> bool {
    exists|k: int| lo <= k < hi && k < lumps.len() && #[trigger] lumps[k].2 == name
}

/// An ASCII digit.
pub open spec fn is_digit(b: u8) -> bool {
    48 <= b <= 57
}

/// A map marker name: "MAPxx" or "ExMy" with digits x, y.
pub open spec fn is_marker_name(s: Seq<u8>) -> bool {
    ||| s.len() == 5 && s[0] == 77 && s[1] == 65 && s[2] == 80 && is_digit(s[3]) && is_digit(s[4])
    ||| s.len() == 4 && s[0] == 69 && is_digit(s[1]) && s[2] == 77 && is_digit(s[3])
}

/// Lump `i` is a map marker followed, within its next eleven lumps, by
/// VERTEXES, LINEDEFS, SIDEDEFS and SECTORS.
pub open spec fn marker_ok(lumps: Seq<(usize, usize, Seq<u8>)>, i: int) -> bool {
    let hi = if lumps.len() < i + 12 {
        lumps.len() as int
    } else {
        i + 12
    };
    &&& is_marker_name(lumps[i].2)
    &&& has_name_in(lumps, vertexes_name(), i + 1, hi)
    &&& has_name_in(lumps, linedefs_name(), i + 1, hi)
    &&& has_name_in(lumps, sidedefs_name(), i + 1, hi)
    &&& has_name_in(lumps, sectors_name(), i + 1, hi)
}

/// The names of the usable map markers among the first `n` lumps, in order.
pub open spec fn markers_upto(lumps: Seq<(usize, usize, Seq<u8>)>, n: nat) -> Seq<Seq<u8>>
    decreases n,
{
    if n == 0 {
        Seq::empty()
    } else if marker_ok(lumps, n - 1) {
        markers_upto(lumps, (n - 1) as nat).push(lumps[n - 1].2)
    } else {
        markers_upto(lumps, (n - 1) as nat)
    }
}

/// The bytes of "MAP01".
pub open spec fn map01() -> Seq<u8> {
    seq![77u8, 65u8, 80u8, 48u8, 49u8]
}

/// The bytes of "E1M1".
pub open spec fn e1m1() -> Seq<u8> {
    seq![69u8, 49u8, 77u8, 49u8]
}

/// The map to load for a request: the normalized request when a lump has that
/// name; else E1M1 for a MAP01 request when E1M1 is a usable marker; else the
/// first usable marker; `NoMapMarkers` when there is none.
pub open spec fn resolve_marker(lumps: Seq<(usize, usize, Seq<u8>)>, requested: Seq<u8>) -> Result<
    Seq<u8>,
    WadError,
> {
    let req = normalize(requested);
    let ms = markers_upto(lumps, lumps.len());
    if has_name_in(lumps, req, 0, lumps.len() as int) {
        Ok(req)
    } else if req == map01() && ms.contains(e1m1()) {
        Ok(e1m1())
    } else if ms.len() > 0 {
        Ok(ms[0])
    } else {
        Err(WadError::NoMapMarkers)
    }
}

/// What `markers_upto` lists: the names of the usable markers among the
/// first `n` lumps; the first listed is the earliest usable marker.
proof fn lemma_markers_upto_facts(lumps: Seq<(usize, usize, Seq<u8>)>, n: nat)
    requires
        n <= lumps.len(),
    ensures
        markers_upto(lumps, n).len() == 0 <==> forall|i: int| 0 <= i < n ==> !marker_ok(lumps, i),
        markers_upto(lumps, n).len() > 0 ==> exists|i: int|
            0 <= i < n && marker_ok(lumps, i) && markers_upto(lumps, n)[0] == lumps[i].2 && forall|j: int|
                0 <= j < i ==> !marker_ok(lumps, j),
        forall|x: Seq<u8>| #[trigger] markers_upto(lumps, n).contains(x) <==> exists|i: int|
            0 <= i < n && marker_ok(lumps, i) && lumps[i].2 == x,
    decreases n,
{
    if n > 0 {
        let m = (n - 1) as nat;
        lemma_markers_upto_facts(lumps, m);
        let prev = markers_upto(lumps, m);
        if marker_ok(lumps, m as int) {
            let cur = prev.push(lumps[m as int].2);
            assert(markers_upto(lumps, n) == cur);
            if prev.len() == 0 {
                assert(cur[0] == lumps[m as int].2);
                assert(forall|j: int| 0 <= j < m ==> !marker_ok(lumps, j));
            } else {
                assert(cur[0] == prev[0]);
            }
            assert forall|x: Seq<u8>| #[trigger] cur.contains(x) <==> exists|i: int|
                0 <= i < n && marker_ok(lumps, i) && lumps[i].2 == x by {
                if cur.contains(x) {
                    let k = choose|k: int| 0 <= k < cur.len() && cur[k] == x;
                    if k < prev.len() {
                        assert(prev[k] == x);
                        assert(prev.contains(x));
                    } else {
                        assert(marker_ok(lumps, m as int) && lumps[m as int].2 == x);
                    }
                }
                if exists|i: int| 0 <= i < n && marker_ok(lumps, i) && lumps[i].2 == x {
                    let i = choose|i: int| 0 <= i < n && marker_ok(lumps, i) && lumps[i].2 == x;
                    if i < m {
                        assert(prev.contains(x));
                        let k = choose|k: int| 0 <= k < prev.len() && prev[k] == x;
                        assert(cur[k] == x);
                    } else {
                        assert(cur[prev.len() as int] == x);
                    }
                }
            }
        } else {
            assert(markers_upto(lumps, n) == prev);
            assert forall|x: Seq<u8>| #[trigger] prev.contains(x) <==> exists|i: int|
                0 <= i < n && marker_ok(lumps, i) && lumps[i].2 == x by {
                if exists|i: int| 0 <= i < n && marker_ok(lumps, i) && lumps[i].2 == x {
                    let i = choose|i: int| 0 <= i < n && marker_ok(lumps, i) && lumps[i].2 == x;
                    assert(i < m);
                }
            }
        }
    }
}

/// The map chosen for a request: the normalized request when some lump has
/// that name; else, for a MAP01 request, E1M1 when it is a usable marker;
/// else the earliest usable marker of the directory (no usable marker comes
/// before it), and `NoMapMarkers` only when the directory has no usable
/// marker at all.
pub proof fn lemma_marker_choice(lumps: Seq<(usize, usize, Seq<u8>)>, requested: Seq<u8>)
    ensures
        ({
            let req = normalize(requested);
            let r = resolve_marker(lumps, requested);
            let named = exists|k: int| 0 <= k < lumps.len() && #[trigger] lumps[k].2 == req;
            let e1m1_usable = exists|i: int| 0 <= i < lumps.len() && marker_ok(lumps, i) && lumps[i].2 == e1m1();
            let any_usable = exists|i: int| 0 <= i < lumps.len() && marker_ok(lumps, i);
            &&& named ==> r == Ok::<Seq<u8>, WadError>(req)
            &&& !named && req == map01() && e1m1_usable ==> r == Ok::<Seq<u8>, WadError>(e1m1())
            &&& !named && !(req == map01() && e1m1_usable) ==> {
                &&& !any_usable ==> r == Err::<Seq<u8>, WadError>(WadError::NoMapMarkers)
                &&& any_usable ==> exists|i: int|
                    0 <= i < lumps.len() && marker_ok(lumps, i) && r == Ok::<Seq<u8>, WadError>(lumps[i].2)
                        && forall|j: int| 0 <= j < i ==> !marker_ok(lumps, j)
            }
        }),
{
    lemma_markers_upto_facts(lumps, lumps.len());
    let ms = markers_upto(lumps, lumps.len());
    assert(ms.contains(e1m1()) <==> exists|i: int| 0 <= i < lumps.len() && marker_ok(lumps, i) && lumps[i].2 == e1m1());
}

/// Where the lumps of map `map_name` are: the marker must be in the
/// directory; after it, the first VERTEXES, LINEDEFS, SIDEDEFS and SECTORS
/// lumps must be present, and THINGS may be.
pub open spec fn map_lumps(lumps: Seq<(usize, usize, Seq<u8>)>, map_name: Seq<u8>) -> Result<
    (nat, nat, nat, nat, Option<nat>),
    WadError,
> {
    match find_lump(lumps, normalize(map_name), 0) {
        None => Err(WadError::MarkerNotFound),
        Some(m) => match find_lump(lumps, vertexes_name(), m + 1) {
            None => Err(WadError::MissingLump(LumpKind::Vertexes)),
            Some(iv) => match find_lump(lumps, linedefs_name(), m + 1) {
                None => Err(WadError::MissingLump(LumpKind::Linedefs)),
                Some(il) => match find_lump(lumps, sidedefs_name(), m + 1) {
                    None => Err(WadError::MissingLump(LumpKind::Sidedefs)),
                    Some(isd) => match find_lump(lumps, sectors_name(), m + 1) {
                        None => Err(WadError::MissingLump(LumpKind::Sectors)),
                        Some(ise) => Ok((iv, il, isd, ise, find_lump(lumps, things_name(), m + 1))),
                    },
                },
            },
        },
    }
}

/// What reading map `map_name` gives: the lumps found by `map_lumps`, read in
/// the order vertices, linedefs, sidedefs, sectors, things (none without a
/// THINGS lump).
pub open spec fn parse_map(w: Seq<u8>, lumps: Seq<(usize, usize, Seq<u8>)>, map_name: Seq<u8>) -> Result<
    MapModel,
    WadError,
> {
    match map_lumps(lumps, map_name) {
        Err(e) => Err(e),
        Ok((iv, il, isd, ise, it)) => match vertices_of(w, lumps[iv as int]) {
            Err(e) => Err(e),
            Ok(vs) => match linedefs_of(w, lumps[il as int]) {
                Err(e) => Err(e),
                Ok(ls) => match sidedefs_of(w, lumps[isd as int]) {
                    Err(e) => Err(e),
                    Ok(sds) => match sectors_of(w, lumps[ise as int]) {
                        Err(e) => Err(e),
                        Ok(ses) => match it {
                            None => Ok(
                                MapModel {
                                    vertices: vs,
                                    linedefs: ls,
                                    sidedefs: sds,
                                    sectors: ses,
                                    things: Seq::empty(),
                                },
                            ),
                            Some(t) => match things_of(w, lumps[t as int]) {
                                Err(e) => Err(e),
                                Ok(ts) => Ok(
                                    MapModel {
                                        vertices: vs,
                                        linedefs: ls,
                                        sidedefs: sds,
                                        sectors: ses,
                                        things: ts,
                                    },
                                ),
                            },
                        },
                    },
                },
            },
        },
    }
}

/// Finds the first lump at or after `start` named `name`.
fn find_lump_index(lumps: &[LumpEntry], name: &[u8], start: usize) -> (r: Option<usize>)
    ensures
        r is None <==> find_lump(lump_views(lumps@), name@, start as nat) is None,
        r matches Some(i) ==> find_lump(lump_views(lumps@), name@, start as nat) == Some(i as nat)
            && i < lumps@.len(),
{
    let ghost ls = lump_views(lumps@);
    let mut i: usize = start;
    while i < lumps.len()
        invariant
            start <= i,
            ls == lump_views(lumps@),
            find_lump(ls, name@, i as nat) == find_lump(ls, name@, start as nat),
        decreases lumps@.len() - i,
    {
        if bytes_eq(lumps[i].name.as_slice(), name) {
            assert(ls[i as int].2 == name@);
            return Some(i);
        }
        i = i + 1;
    }
    None
}

/// Whether some lump in `lumps[lo..hi]` is named `name`.
pub(crate) fn has_lump_named(lumps: &[LumpEntry], name: &[u8], lo: usize, hi: usize) -> (r: bool)
    requires
        hi <= lumps@.len(),
    ensures
        r == has_name_in(lump_views(lumps@), name@, lo as int, hi as int),
{
    let ghost ls = lump_views(lumps@);
    let mut i: usize = lo;
    while i < hi
        invariant
            lo <= i,
            hi <= lumps@.len(),
            ls == lump_views(lumps@),
            forall|k: int| lo <= k < i ==> #[trigger] ls[k].2 != name@,
        decreases hi - i,
    {
        if bytes_eq(lumps[i].name.as_slice(), name) {
            assert(ls[i as int].2 == name@);
            return true;
        }
        i = i + 1;
    }
    false
}

/// Whether `name` is a map marker name; see `is_marker_name`.
pub fn is_map_marker_name(name: &[u8]) -> (r: bool)
    ensures
        r == is_marker_name(name@),
{
    if name.len() == 5 {
        return name[0] == 77 && name[1] == 65 && name[2] == 80 && name[3] >= 48 && name[3] <= 57
            && name[4] >= 48 && name[4] <= 57;
    }
    if name.len() == 4 {
        return name[0] == 69 && name[1] >= 48 && name[1] <= 57 && name[2] == 77 && name[3] >= 48
            && name[3] <= 57;
    }
    false
}

const VERTEXES: [u8; 8] = [86, 69, 82, 84, 69, 88, 69, 83];

const LINEDEFS: [u8; 8] = [76, 73, 78, 69, 68, 69, 70, 83];

const SIDEDEFS: [u8; 8] = [83, 73, 68, 69, 68, 69, 70, 83];

const SECTORS: [u8; 7] = [83, 69, 67, 84, 79, 82, 83];

const THINGS: [u8; 6] = [84, 72, 73, 78, 71, 83];

/// The usable map markers, in directory order; see `markers_upto`.
pub fn find_map_markers(lumps: &[LumpEntry]) -> (r: Vec<Vec<u8>>)
    ensures
        r@.map_values(|n: Vec<u8>| n@) == markers_upto(lump_views(lumps@), lumps@.len()),
{
    let ghost ls = lump_views(lumps@);
    proof {
        assert(VERTEXES@ =~= vertexes_name());
        assert(LINEDEFS@ =~= linedefs_name());
        assert(SIDEDEFS@ =~= sidedefs_name());
        assert(SECTORS@ =~= sectors_name());
    }
    let mut markers: Vec<Vec<u8>> = Vec::new();
    assert(markers@.map_values(|n: Vec<u8>| n@) =~= Seq::<Seq<u8>>::empty());
    let mut index: usize = 0;
    while index < lumps.len()
        invariant
            index <= lumps@.len(),
            ls == lump_views(lumps@),
            VERTEXES@ == vertexes_name(),
            LINEDEFS@ == linedefs_name(),
            SIDEDEFS@ == sidedefs_name(),
            SECTORS@ == sectors_name(),
            markers@.map_values(|n: Vec<u8>| n@) == markers_upto(ls, index as nat),
        decreases lumps@.len() - index,
    {
        let ghost before = markers@.map_values(|n: Vec<u8>| n@);
        if is_map_marker_name(lumps[index].name.as_slice()) {
            let hi = if lumps.len() - index < 12 {
                lumps.len()
            } else {
                index + 12
            };
            let has_vertices = has_lump_named(lumps, VERTEXES.as_slice(), index + 1, hi);
            let has_linedefs = has_lump_named(lumps, LINEDEFS.as_slice(), index + 1, hi);
            let has_sidedefs = has_lump_named(lumps, SIDEDEFS.as_slice(), index + 1, hi);
            let has_sectors = has_lump_named(lumps, SECTORS.as_slice(), index + 1, hi);
            if has_vertices && has_linedefs && has_sidedefs && has_sectors {
                let name = lumps[index].name.clone();
                markers.push(name);
                proof {
                    assert(markers@.map_values(|n: Vec<u8>| n@) =~= before.push(ls[index as int].2));
                }
            }
        }
        index = index + 1;
    }
    markers
}


/// Chooses the map to load for a request; see `resolve_marker`.
pub fn resolve_map_marker(lumps: &[LumpEntry], requested_map_name: &[u8]) -> (r: Result<
    Vec<u8>,
    WadError,
>)
    ensures
        match resolve_marker(lump_views(lumps@), requested_map_name@) {
            Ok(n) => r matches Ok(v) && v@ == n,
            Err(e) => r matches Err(e2) && e2 == e,
        },
{
    let requested = normalize_name(requested_map_name);
    if has_lump_named(lumps, requested.as_slice(), 0, lumps.len()) {
        return Ok(requested);
    }
    let markers = find_map_markers(lumps);
    let ghost ms = markers_upto(lump_views(lumps@), lumps@.len());
    let map01_bytes: [u8; 5] = [77, 65, 80, 48, 49];
    let e1m1_bytes: [u8; 4] = [69, 49, 77, 49];
    proof {
        assert(map01_bytes@ =~= map01());
        assert(e1m1_bytes@ =~= e1m1());
    }
    if bytes_eq(requested.as_slice(), map01_bytes.as_slice()) {
        let mut i: usize = 0;
        while i < markers.len()
            invariant
                i <= markers@.len(),
                markers@.map_values(|n: Vec<u8>| n@) == ms,
                ms == markers_upto(lump_views(lumps@), lumps@.len()),
                requested@ == normalize(requested_map_name@),
                requested@ == map01(),
                !has_name_in(lump_views(lumps@), requested@, 0, lumps@.len() as int),
                e1m1_bytes@ == e1m1(),
                forall|k: int| 0 <= k < i ==> #[trigger] ms[k] != e1m1(),
            decreases markers@.len() - i,
        {
            if bytes_eq(markers[i].as_slice(), e1m1_bytes.as_slice()) {
                proof {
                    assert(ms[i as int] == e1m1());
                }
                let mut out: Vec<u8> = Vec::new();
                out.extend_from_slice(e1m1_bytes.as_slice());
                proof {
                    assert(out@ =~= e1m1());
                    assert(ms.contains(e1m1()));
                }
                return Ok(out);
            }
            i = i + 1;
        }
    }
    if markers.len() > 0 {
        let first = markers[0].clone();
        proof {
            assert(ms[0] == markers@[0]@);
        }
        return Ok(first);
    }
    Err(WadError::NoMapMarkers)
}

/// Finds the lumps of map `map_name`; see `map_lumps`.
fn locate_map_lumps(lumps: &[LumpEntry], map_name: &[u8]) -> (r: Result<
    (usize, usize, usize, usize, Option<usize>),
    WadError,
>)
    ensures
        match map_lumps(lump_views(lumps@), map_name@) {
            Ok((iv, il, isd, ise, it)) => r matches Ok((a, b, c, d, t)) && a == iv && b == il && c == isd
                && d == ise && a < lumps@.len() && b < lumps@.len() && c < lumps@.len() && d
                < lumps@.len() && (match it {
                Some(x) => t == Some(x as usize) && x < lumps@.len(),
                None => t is None,
            }),
            Err(e) => r matches Err(e2) && e2 == e,
        },
{
    let n = lumps.len();
    let name = normalize_name(map_name);
    proof {
        assert(VERTEXES@ =~= vertexes_name());
        assert(LINEDEFS@ =~= linedefs_name());
        assert(SIDEDEFS@ =~= sidedefs_name());
        assert(SECTORS@ =~= sectors_name());
        assert(THINGS@ =~= things_name());
    }
    let marker_index = match find_lump_index(lumps, name.as_slice(), 0) {
        Some(i) => i,
        None => {
            return Err(WadError::MarkerNotFound);
        },
    };
    assert(marker_index < n);
    let after = marker_index + 1;
    let vertices_index = match find_lump_index(lumps, VERTEXES.as_slice(), after) {
        Some(i) => i,
        None => {
            return Err(WadError::MissingLump(LumpKind::Vertexes));
        },
    };
    let linedefs_index = match find_lump_index(lumps, LINEDEFS.as_slice(), after) {
        Some(i) => i,
        None => {
            return Err(WadError::MissingLump(LumpKind::Linedefs));
        },
    };
    let sidedefs_index = match find_lump_index(lumps, SIDEDEFS.as_slice(), after) {
        Some(i) => i,
        None => {
            return Err(WadError::MissingLump(LumpKind::Sidedefs));
        },
    };
    let sectors_index = match find_lump_index(lumps, SECTORS.as_slice(), after) {
        Some(i) => i,
        None => {
            return Err(WadError::MissingLump(LumpKind::Sectors));
        },
    };
    let things_index = find_lump_index(lumps, THINGS.as_slice(), after);
    Ok((vertices_index, linedefs_index, sidedefs_index, sectors_index, things_index))
}

/// Reads map `map_name`; see `parse_map`.
pub fn parse_map_lumps(wad_bytes: &[u8], lumps: &[LumpEntry], map_name: &[u8]) -> (r: Result<
    ParsedMap,
    WadError,
>)
    requires
        forall|i: int| 0 <= i < lumps@.len() ==> #[trigger] lumps@[i].offset + lumps@[i].size <= usize::MAX,
    ensures
        match parse_map(wad_bytes@, lump_views(lumps@), map_name@) {
            Ok(m) => r matches Ok(v) && v@ == m,
            Err(e) => r matches Err(e2) && e2 == e,
        },
{
    let ghost ls = lump_views(lumps@);
    let (vertices_index, linedefs_index, sidedefs_index, sectors_index, things_index) =
        match locate_map_lumps(lumps, map_name) {
        Ok(t) => t,
        Err(e) => {
            return Err(e);
        },
    };
    proof {
        assert(ls[vertices_index as int] == lumps@[vertices_index as int]@);
        assert(ls[linedefs_index as int] == lumps@[linedefs_index as int]@);
        assert(ls[sidedefs_index as int] == lumps@[sidedefs_index as int]@);
        assert(ls[sectors_index as int] == lumps@[sectors_index as int]@);
    }
    let vertices = match parse_vertices(wad_bytes, &lumps[vertices_index]) {
        Ok(v) => v,
        Err(e) => {
            return Err(e);
        },
    };
    let linedefs = match parse_linedefs(wad_bytes, &lumps[linedefs_index]) {
        Ok(v) => v,
        Err(e) => {
            return Err(e);
        },
    };
    let sidedefs = match parse_sidedefs(wad_bytes, &lumps[sidedefs_index]) {
        Ok(v) => v,
        Err(e) => {
            return Err(e);
        },
    };
    let sectors = match parse_sectors(wad_bytes, &lumps[sectors_index]) {
        Ok(v) => v,
        Err(e) => {
            return Err(e);
        },
    };
    let things = match things_index {
        Some(t) => {
            proof {
                assert(ls[t as int] == lumps@[t as int]@);
            }
            match parse_things(wad_bytes, &lumps[t]) {
                Ok(v) => v,
                Err(e) => {
                    return Err(e);
                },
            }
        },
        None => Vec::new(),
    };
    let map = ParsedMap { vertices, linedefs, sidedefs, sectors, things };
    proof {
        if things_index is None {
            assert(map.things@ =~= Seq::<Thing>::empty());
        }
    }
    Ok(map)
}

/// The first thing of kind `kind` among the first `n`, if any.
pub open spec fn first_of_kind(things: Seq<Thing>, kind: u16, n: nat) -> Option<Thing>
    decreases n,
{
    if n == 0 {
        None
    } else {
        match first_of_kind(things, kind, (n - 1) as nat) {
            Some(t) => Some(t),
            None => if things[n - 1].kind == kind {
                Some(things[n - 1])
            } else {
                None
            },
        }
    }
}

/// Where the player starts: the first single-player start (kind 1), else the
/// first co-op start of kind 2, 3 or 4 in that order, else the first
/// deathmatch start (kind 11).
pub open spec fn player_spawn(things: Seq<Thing>) -> Option<Thing> {
    let n = things.len();
    match first_of_kind(things, 1, n) {
        Some(t) => Some(t),
        None => match first_of_kind(things, 2, n) {
            Some(t) => Some(t),
            None => match first_of_kind(things, 3, n) {
                Some(t) => Some(t),
                None => match first_of_kind(things, 4, n) {
                    Some(t) => Some(t),
                    None => first_of_kind(things, 11, n),
                },
            },
        },
    }
}

fn first_thing_of_kind(things: &Vec<Thing>, kind: u16) -> (r: Option<Thing>)
    ensures
        r == first_of_kind(things@, kind, things@.len()),
{
    let mut i: usize = 0;
    while i < things.len()
        invariant
            i <= things@.len(),
            first_of_kind(things@, kind, i as nat) is None,
        decreases things@.len() - i,
    {
        if things[i].kind == kind {
            proof {
                lemma_first_of_kind_found(things@, kind, (i + 1) as nat, things@.len());
            }
            return Some(things[i]);
        }
        i = i + 1;
    }
    None
}

proof fn lemma_first_of_kind_found(things: Seq<Thing>, kind: u16, k: nat, m: nat)
    requires
        k <= m,
        first_of_kind(things, kind, k) is Some,
    ensures
        first_of_kind(things, kind, m) == first_of_kind(things, kind, k),
    decreases m - k,
{
    if k < m {
        lemma_first_of_kind_found(things, kind, k, (m - 1) as nat);
    }
}

/// What `first_of_kind` finds: the earliest of the first `n` things of the
/// kind, or nothing when none of them is of the kind.
proof fn lemma_first_of_kind_is_first(things: Seq<Thing>, kind: u16, n: nat)
    requires
        n <= things.len(),
    ensures
        first_of_kind(things, kind, n) is None <==> forall|j: int| 0 <= j < n ==> things[j].kind != kind,
        first_of_kind(things, kind, n) matches Some(t) ==> exists|i: int|
            0 <= i < n && things[i] == t && t.kind == kind && forall|j: int| 0 <= j < i ==> things[j].kind != kind,
    decreases n,
{
    if n > 0 {
        lemma_first_of_kind_is_first(things, kind, (n - 1) as nat);
        if first_of_kind(things, kind, (n - 1) as nat) is None && things[n - 1].kind == kind {
            assert(things[n - 1].kind == kind);
        }
    }
}

/// The order in which player starts are preferred: single-player (kind 1),
/// the co-op starts 2, 3 and 4, then deathmatch (kind 11).
pub open spec fn start_priority() -> Seq<u16> {
    seq![1u16, 2u16, 3u16, 4u16, 11u16]
}

/// The player start chosen among `things`: there is none exactly when no
/// thing is a player start of any kind; otherwise it is a thing of the map
/// of some start kind, the first thing of its kind, and no thing of a kind
/// preferred to it exists. So a single-player start is always chosen over a
/// co-op or deathmatch start.
pub proof fn lemma_spawn_is_preferred_start(things: Seq<Thing>)
    ensures
        player_spawn(things) is None <==> forall|j: int, p: int|
            #![trigger things[j], start_priority()[p]]
            0 <= j < things.len() && 0 <= p < 5 ==> things[j].kind != start_priority()[p],
        player_spawn(things) matches Some(t) ==> exists|i: int, p: int|
            0 <= i < things.len() && 0 <= p < 5 && things[i] == t && t.kind == start_priority()[p]
                && (forall|j: int| 0 <= j < i ==> things[j].kind != t.kind) && (forall|j: int, q: int|
                #![trigger things[j], start_priority()[q]]
                0 <= j < things.len() && 0 <= q < p ==> things[j].kind != start_priority()[q]),
{
    let n = things.len();
    let pr = start_priority();
    lemma_first_of_kind_is_first(things, 1, n);
    lemma_first_of_kind_is_first(things, 2, n);
    lemma_first_of_kind_is_first(things, 3, n);
    lemma_first_of_kind_is_first(things, 4, n);
    lemma_first_of_kind_is_first(things, 11, n);
    assert(pr[0] == 1 && pr[1] == 2 && pr[2] == 3 && pr[3] == 4 && pr[4] == 11);
    if player_spawn(things) is None {
        assert forall|j: int, p: int| #![trigger things[j], pr[p]] 0 <= j < n && 0 <= p < 5 implies things[j].kind != pr[p] by {
            if p == 0 {} else if p == 1 {} else if p == 2 {} else if p == 3 {} else {}
        }
    } else {
        let t = player_spawn(things)->Some_0;
        let p: int = if first_of_kind(things, 1, n) is Some {
            0
        } else if first_of_kind(things, 2, n) is Some {
            1
        } else if first_of_kind(things, 3, n) is Some {
            2
        } else if first_of_kind(things, 4, n) is Some {
            3
        } else {
            4
        };
        assert(first_of_kind(things, pr[p], n) == Some(t));
        let i = choose|i: int|
            0 <= i < n && things[i] == t && t.kind == pr[p] && forall|j: int| 0 <= j < i ==> things[j].kind != pr[p];
        assert forall|j: int, q: int| #![trigger things[j], pr[q]] 0 <= j < n && 0 <= q < p implies things[j].kind != pr[q] by {
            if q == 0 {} else if q == 1 {} else if q == 2 {} else {}
        }
        assert(0 <= i < n && 0 <= p < 5 && things[i] == t && t.kind == pr[p]);
    }
}

/// Finds the player start; see `player_spawn`.
pub fn find_player_spawn(map: &ParsedMap) -> (r: Option<Thing>)
    ensures
        r == player_spawn(map.things@),
{
    let priority: [u16; 5] = [1, 2, 3, 4, 11];
    let mut i: usize = 0;
    while i < 5
        invariant
            i <= 5,
            priority@ == seq![1u16, 2u16, 3u16, 4u16, 11u16],
            forall|k: int| 0 <= k < i ==> first_of_kind(map.things@, #[trigger] priority@[k], map.things@.len()) is None,
        decreases 5 - i,
    {
        let kind = priority[i];
        match first_thing_of_kind(&map.things, kind) {
            Some(t) => {
                return Some(t);
            },
            None => {},
        }
        i = i + 1;
    }
    None
}

/// Whether a linedef special opens a door.
pub fn is_door_linedef(special: u16) -> (r: bool)
    ensures
        r == (special == 1 || special == 26 || special == 27 || special == 28 || special == 31
            || special == 32 || special == 33 || special == 34 || special == 117 || special
            == 118),
{
    special == 1 || special == 26 || special == 27 || special == 28 || special == 31 || special
        == 32 || special == 33 || special == 34 || special == 117 || special == 118
}

/// The bytes of "METAL".
pub open spec fn metal() -> Seq<u8> {
    seq![77u8, 69u8, 84u8, 65u8, 76u8]
}

/// A texture name as used for materials: trimmed and upper-cased, with an
/// empty name or "-" standing for "METAL".
pub open spec fn cleaned_texture(name: Seq<u8>) -> Seq<u8> {
    let t = utrim(name);
    if t.len() == 0 || t == seq![45u8] {
        metal()
    } else {
        upper(t)
    }
}

/// Cleans a texture name; see `cleaned_texture`.
pub fn clean_texture_name(texture_name: &[u8]) -> (r: Vec<u8>)
    ensures
        r@ == cleaned_texture(texture_name@),
{
    let n = normalize_name(texture_name);
    proof {
        let t = utrim(texture_name@);
        assert(n@ == upper(t));
        // Upper-casing keeps the length and leaves "-" alone.
        if n@.len() == 1 && n@[0] == 45 {
            assert(t[0] == 45);
            assert(t =~= seq![45u8]);
        }
        if t =~= seq![45u8] {
            assert(n@[0] == 45);
        }
    }
    if n.len() == 0 || (n.len() == 1 && n[0] == 45) {
        let metal_bytes: [u8; 5] = [77, 69, 84, 65, 76];
        assert(metal_bytes@ =~= metal());
        let mut out: Vec<u8> = Vec::new();
        out.extend_from_slice(metal_bytes.as_slice());
        return out;
    }
    n
}

/// How a map container is recognised: by a WAD ("IWAD", "PWAD") or ZIP
/// ("PK\x03\x04") signature first, whatever the file is called; only
/// without one by the name's extension, in any case: ".wad" for a WAD,
/// ".pk3" or ".zip" for an archive.
pub proof fn lemma_container_recognised(header: Seq<u8>, stem: Seq<u8>, path: Seq<u8>)
    ensures
        header.len() >= 4 && (header.subrange(0, 4) == seq![73u8, 87u8, 65u8, 68u8] || header.subrange(0, 4)
            == seq![80u8, 87u8, 65u8, 68u8]) ==> container_kind(header, path) == MapContainerKind::Wad,
        header.len() >= 4 && header.subrange(0, 4) == seq![80u8, 75u8, 3u8, 4u8] ==> container_kind(header, path)
            == MapContainerKind::ZipLike,
        header.len() < 4 ==> {
            &&& container_kind(header, stem + seq![46u8, 119u8, 97u8, 100u8]) == MapContainerKind::Wad
            &&& container_kind(header, stem + seq![46u8, 87u8, 65u8, 68u8]) == MapContainerKind::Wad
            &&& container_kind(header, stem + seq![46u8, 112u8, 107u8, 51u8]) == MapContainerKind::ZipLike
            &&& container_kind(header, stem + seq![46u8, 80u8, 75u8, 51u8]) == MapContainerKind::ZipLike
            &&& container_kind(header, stem + seq![46u8, 122u8, 105u8, 112u8]) == MapContainerKind::ZipLike
            &&& container_kind(header, stem + seq![46u8, 90u8, 73u8, 80u8]) == MapContainerKind::ZipLike
        },
{
    let exts = seq![
        seq![46u8, 119u8, 97u8, 100u8],
        seq![46u8, 87u8, 65u8, 68u8],
        seq![46u8, 112u8, 107u8, 51u8],
        seq![46u8, 80u8, 75u8, 51u8],
        seq![46u8, 122u8, 105u8, 112u8],
        seq![46u8, 90u8, 73u8, 80u8],
    ];
    assert forall|k: int| 0 <= k < 6 implies {
        let p = stem + #[trigger] exts[k];
        let lower = Seq::new(p.len(), |i: int| lower_byte(p[i]));
        lower.subrange(lower.len() - 4, lower.len() as int) == Seq::new(4, |i: int| lower_byte(exts[k][i]))
    } by {
        let p = stem + exts[k];
        let lower = Seq::new(p.len(), |i: int| lower_byte(p[i]));
        assert(lower.subrange(lower.len() - 4, lower.len() as int) =~= Seq::new(4, |i: int| lower_byte(exts[k][i])));
    }
    assert(Seq::new(4, |i: int| lower_byte(exts[0][i])) =~= seq![46u8, 119u8, 97u8, 100u8]);
    assert(Seq::new(4, |i: int| lower_byte(exts[1][i])) =~= seq![46u8, 119u8, 97u8, 100u8]);
    assert(Seq::new(4, |i: int| lower_byte(exts[2][i])) =~= seq![46u8, 112u8, 107u8, 51u8]);
    assert(Seq::new(4, |i: int| lower_byte(exts[3][i])) =~= seq![46u8, 112u8, 107u8, 51u8]);
    assert(Seq::new(4, |i: int| lower_byte(exts[4][i])) =~= seq![46u8, 122u8, 105u8, 112u8]);
    assert(Seq::new(4, |i: int| lower_byte(exts[5][i])) =~= seq![46u8, 122u8, 105u8, 112u8]);
    assert(iwad() == seq![73u8, 87u8, 65u8, 68u8]);
    assert(pwad() == seq![80u8, 87u8, 65u8, 68u8]);
}

/// How a map container with these first bytes and this path is read: by its
/// signature ("IWAD"/"PWAD", or the ZIP local-header magic "PK\x03\x04")
/// when four bytes were read, else by its extension, compared without case
/// (".wad"; ".pk3" or ".zip").
pub open spec fn container_kind(header: Seq<u8>, path: Seq<u8>) -> MapContainerKind {
    let lower = Seq::new(path.len(), |i: int| lower_byte(path[i]));
    if header.len() >= 4 && (header.subrange(0, 4) == iwad() || header.subrange(0, 4) == pwad()) {
        MapContainerKind::Wad
    } else if header.len() >= 4 && header.subrange(0, 4) == seq![0x50u8, 0x4Bu8, 0x03u8, 0x04u8] {
        MapContainerKind::ZipLike
    } else if lower.len() >= 4 && lower.subrange(lower.len() - 4, lower.len() as int) == seq![46u8, 119u8, 97u8, 100u8] {
        MapContainerKind::Wad
    } else if lower.len() >= 4 && (lower.subrange(lower.len() - 4, lower.len() as int) == seq![46u8, 112u8, 107u8, 51u8]
        || lower.subrange(lower.len() - 4, lower.len() as int) == seq![46u8, 122u8, 105u8, 112u8]) {
        MapContainerKind::ZipLike
    } else {
        MapContainerKind::Unknown
    }
}

/// `b` with an ASCII upper-case letter made lower-case.
pub open spec fn lower_byte(b: u8) -> u8 {
    if 65 <= b <= 90 {
        (b + 32) as u8
    } else {
        b
    }
}

/// Whether the last four bytes of `path`, lower-cased, are `ext`.
pub(crate) fn ends_with_ci(path: &[u8], ext: [u8; 4]) -> (r: bool)
    ensures
        r == (path@.len() >= 4 && Seq::new(path@.len(), |i: int| lower_byte(path@[i])).subrange(
            path@.len() - 4,
            path@.len() as int,
        ) == ext@),
{
    let ghost lower = Seq::new(path@.len(), |i: int| lower_byte(path@[i]));
    if path.len() < 4 {
        return false;
    }
    let n = path.len();
    let mut k: usize = 0;
    while k < 4
        invariant
            k <= 4,
            n == path@.len(),
            n >= 4,
            lower == Seq::new(path@.len(), |i: int| lower_byte(path@[i])),
            forall|j: int| 0 <= j < k ==> lower[n - 4 + j] == ext@[j],
        decreases 4 - k,
    {
        let b = path[n - 4 + k];
        let l = if b >= 65 && b <= 90 {
            b + 32
        } else {
            b
        };
        if l != ext[k] {
            proof {
                assert(lower.subrange(n - 4, n as int)[k as int] == lower[n - 4 + k]);
            }
            return false;
        }
        k = k + 1;
    }
    assert(lower.subrange(n - 4, n as int) =~= ext@);
    true
}

/// Classifies a map container; see `container_kind`.
pub fn detect_container_kind(header: &[u8], path: &[u8]) -> (r: MapContainerKind)
    ensures
        r == container_kind(header@, path@),
{
    proof {
        assert([73u8, 87u8, 65u8, 68u8]@ =~= iwad());
        assert([80u8, 87u8, 65u8, 68u8]@ =~= pwad());
        assert([0x50u8, 0x4Bu8, 0x03u8, 0x04u8]@ =~= seq![0x50u8, 0x4Bu8, 0x03u8, 0x04u8]);
        assert([46u8, 119u8, 97u8, 100u8]@ =~= seq![46u8, 119u8, 97u8, 100u8]);
        assert([46u8, 112u8, 107u8, 51u8]@ =~= seq![46u8, 112u8, 107u8, 51u8]);
        assert([46u8, 122u8, 105u8, 112u8]@ =~= seq![46u8, 122u8, 105u8, 112u8]);
    }
    if header.len() >= 4 && (has_signature(header, [73, 87, 65, 68]) || has_signature(header, [80, 87, 65, 68])) {
        return MapContainerKind::Wad;
    }
    if header.len() >= 4 && has_signature(header, [0x50, 0x4B, 0x03, 0x04]) {
        return MapContainerKind::ZipLike;
    }
    if ends_with_ci(path, [46, 119, 97, 100]) {
        return MapContainerKind::Wad;
    }
    if ends_with_ci(path, [46, 112, 107, 51]) || ends_with_ci(path, [46, 122, 105, 112]) {
        return MapContainerKind::ZipLike;
    }
    MapContainerKind::Unknown
}

} // verus!
