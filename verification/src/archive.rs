//! Reading ZIP archives (PK3 files) held in memory, through the `zip` crate.

use vstd::prelude::*;
use std::io::Cursor;
use std::io::Read;
use zip::ZipArchive;
use zip::result::ZipError;
use vstd::utf8::{decode_utf8, valid_utf8};

verus! {

#[verifier::external_type_specification]
#[verifier::external_body]
#[verifier::reject_recursive_types(R)]
pub struct ExZipArchive<R>(ZipArchive<R>);

#[verifier::external_type_specification]
#[verifier::external_body]
pub struct ExZipError(ZipError);

#[verifier::external_type_specification]
#[verifier::external_body]
pub struct ExIoError(std::io::Error);

#[verifier::external_type_specification]
#[verifier::external_body]
#[verifier::reject_recursive_types(T)]
pub struct ExCursor<T>(Cursor<T>);

/// Why an entry could not be read.
#[derive(Debug)]
pub enum EntryError {
    /// `ZipArchive::by_index` failed.
    Open(ZipError),
    /// Reading the entry's data failed.
    Read(std::io::Error),
}

/// The entry names of the archive in `bytes`, in index order, when
/// `ZipArchive::new` reads its central directory.
pub uninterp spec fn zip_names(bytes: Seq<u8>) -> Option<Seq<Seq<char>>>;

/// The bytes an opened archive was read from.
pub uninterp spec fn zip_source(a: ZipArchive<Cursor<Vec<u8>>>) -> Seq<u8>;

/// Whether `ZipArchive::by_index` gives entry `i` of the archive in `bytes`.
pub uninterp spec fn zip_entry_opens(bytes: Seq<u8>, i: nat) -> bool;

/// The data of entry `i` of the archive in `bytes`, when reading it to its
/// end succeeds.
pub uninterp spec fn zip_entry_data(bytes: Seq<u8>, i: nat) -> Option<Seq<u8>>;

/// Opens the archive in `bytes` with `ZipArchive::new` over a `Cursor`.
#[verifier::external_body]
pub(crate) fn zip_open(bytes: Vec<u8>) -> (r: Result<ZipArchive<Cursor<Vec<u8>>>, ZipError>)
    ensures
        r is Ok <==> zip_names(bytes@) is Some,
        r matches Ok(a) ==> zip_source(a) == bytes@,
{
    ZipArchive::new(Cursor::new(bytes))
}

/// The number of entries, by `ZipArchive::len`.
#[verifier::external_body]
pub(crate) fn zip_len(a: &ZipArchive<Cursor<Vec<u8>>>) -> (r: usize)
    ensures
        zip_names(zip_source(*a)) matches Some(ns) ==> r == ns.len(),
{
    a.len()
}

/// The name of entry `i`: `ZipArchive::by_index`, then `ZipFile::name`.
#[verifier::external_body]
pub(crate) fn zip_entry_name(a: &mut ZipArchive<Cursor<Vec<u8>>>, i: usize) -> (r: Result<String, ZipError>)
    ensures
        zip_source(*final(a)) == zip_source(*old(a)),
        r is Ok <==> zip_entry_opens(zip_source(*old(a)), i as nat),
        r matches Ok(s) ==> zip_names(zip_source(*old(a))) matches Some(ns) && i < ns.len() && s@ == ns[i as int],
{
    match a.by_index(i) {
        Ok(f) => Ok(f.name().to_string()),
        Err(e) => Err(e),
    }
}

/// The data of entry `i`: `ZipArchive::by_index`, then `Read::read_to_end`.
#[verifier::external_body]
pub(crate) fn zip_entry_bytes(a: &mut ZipArchive<Cursor<Vec<u8>>>, i: usize) -> (r: Result<Vec<u8>, EntryError>)
    ensures
        zip_source(*final(a)) == zip_source(*old(a)),
        r matches Err(EntryError::Open(_)) <==> !zip_entry_opens(zip_source(*old(a)), i as nat),
        zip_entry_opens(zip_source(*old(a)), i as nat) ==> (r is Ok <==> zip_entry_data(zip_source(*old(a)), i as nat) is Some),
        r matches Ok(v) ==> zip_entry_data(zip_source(*old(a)), i as nat) == Some(v@),
{
    match a.by_index(i) {
        Ok(mut f) => {
            let mut v = Vec::new();
            match f.read_to_end(&mut v) {
                Ok(_) => Ok(v),
                Err(e) => Err(EntryError::Read(e)),
            }
        },
        Err(e) => Err(EntryError::Open(e)),
    }
}

/// The text of entry `i`: `ZipArchive::by_index`, then
/// `Read::read_to_string`, which fails when the data is not UTF-8.
#[verifier::external_body]
pub(crate) fn zip_entry_text(a: &mut ZipArchive<Cursor<Vec<u8>>>, i: usize) -> (r: Result<String, EntryError>)
    ensures
        zip_source(*final(a)) == zip_source(*old(a)),
        r matches Err(EntryError::Open(_)) <==> !zip_entry_opens(zip_source(*old(a)), i as nat),
        zip_entry_opens(zip_source(*old(a)), i as nat) ==> (r is Ok <==> (zip_entry_data(zip_source(*old(a)), i as nat) matches Some(d) && valid_utf8(d))),
        r matches Ok(s) ==> (zip_entry_data(zip_source(*old(a)), i as nat) matches Some(d) && s@ == decode_utf8(d)),
{
    match a.by_index(i) {
        Ok(mut f) => {
            let mut s = String::new();
            match f.read_to_string(&mut s) {
                Ok(_) => Ok(s),
                Err(e) => Err(EntryError::Read(e)),
            }
        },
        Err(e) => Err(EntryError::Open(e)),
    }
}

} // verus!
