//! Decompression of attachments, through the `zip` and `flate2` crates.

use vstd::prelude::*;
use std::io::Read;

verus! {

/// `std::io::Error`.
#[verifier::external_type_specification]
#[verifier::external_body]
pub struct ExIoError(std::io::Error);

/// `std::io::Cursor`.
#[verifier::external_type_specification]
#[verifier::external_body]
#[verifier::reject_recursive_types(T)]
pub struct ExCursor<T>(std::io::Cursor<T>);

/// `zip`'s error type.
#[verifier::external_type_specification]
#[verifier::external_body]
pub struct ExZipError(zip::result::ZipError);

/// `zip::ZipArchive`.
#[verifier::external_type_specification]
#[verifier::external_body]
#[verifier::reject_recursive_types(R)]
pub struct ExZipArchive<R>(zip::ZipArchive<R>);

/// An archive opened over bytes held in memory.
pub type Archive = zip::ZipArchive<std::io::Cursor<Vec<u8>>>;

/// What `zip::ZipArchive::new` makes of a buffer: `None` when it refuses
/// the buffer as a ZIP archive, else the archive's entries in index order
/// (see [`zip_entries`] for what each entry holds).
pub uninterp spec fn zip_listing(data: Seq<u8>) -> Option<Seq<Option<(Seq<u8>, Option<Seq<u8>>)>>>;

/// The entries of an opened archive, in index order. Entry `i` is `None`
/// when `ZipArchive::by_index(i)` fails; else it holds the entry's name
/// and, when reading the entry to its end succeeds, the entry's
/// decompressed contents.
pub uninterp spec fn zip_entries(archive: Archive) -> Seq<Option<(Seq<u8>, Option<Seq<u8>>)>>;

/// Opens a ZIP archive over a copy of `data` with `zip::ZipArchive::new`.
/// Trusted: success and the entries are those named by `zip_listing`.
#[verifier::external_body]
pub(crate) fn zip_open(data: &[u8]) -> (res: Result<Archive, zip::result::ZipError>)
    ensures
        res is Ok <==> zip_listing(data@) is Some,
        res matches Ok(a) ==> Some(zip_entries(a)) == zip_listing(data@),
{
    zip::ZipArchive::new(std::io::Cursor::new(data.to_vec()))
}

/// The number of entries, `zip::ZipArchive::len`.
#[verifier::external_body]
pub(crate) fn zip_len(archive: &Archive) -> (n: usize)
    ensures
        n == zip_entries(*archive).len(),
{
    archive.len()
}

/// The name of entry `i`, from `zip::ZipArchive::by_index` and
/// `zip::read::ZipFile::name`. Trusted: it fails exactly when entry `i` is
/// `None`, gives the entry's name otherwise, and leaves the entries as they were.
#[verifier::external_body]
pub(crate) fn zip_entry_name(archive: &mut Archive, i: usize) -> (res: Result<Vec<u8>, zip::result::ZipError>)
    requires
        i < zip_entries(*old(archive)).len(),
    ensures
        zip_entries(*final(archive)) == zip_entries(*old(archive)),
        res is Ok <==> zip_entries(*old(archive))[i as int] is Some,
        res matches Ok(name) ==> name@ == zip_entries(*old(archive))[i as int].unwrap().0,
{
    Ok(archive.by_index(i)?.name().as_bytes().to_vec())
}

/// The contents of entry `i`, from `zip::ZipArchive::by_index` and reading
/// the entry to its end. Trusted: it succeeds exactly when entry `i` holds
/// contents, gives them, and leaves the entries as they were.
#[verifier::external_body]
pub(crate) fn zip_entry_contents(archive: &mut Archive, i: usize) -> (res: Result<Vec<u8>, zip::result::ZipError>)
    requires
        i < zip_entries(*old(archive)).len(),
    ensures
        zip_entries(*final(archive)) == zip_entries(*old(archive)),
        res is Ok <==> zip_entries(*old(archive))[i as int] matches Some((_, Some(_))),
        res matches Ok(data) ==> Some(data@) == zip_entries(*old(archive))[i as int].unwrap().1,
{
    let mut data = Vec::new();
    archive.by_index(i)?.read_to_end(&mut data)?;
    Ok(data)
}

/// What `flate2::read::GzDecoder` reads from a buffer to its end: `None` when
/// reading fails, else the decompressed bytes.
pub uninterp spec fn gzip_decoded(data: Seq<u8>) -> Option<Seq<u8>>;

/// Decompresses a copy of `data` with `flate2::read::GzDecoder`, read to its
/// end. Trusted: the outcome is the one named by `gzip_decoded`.
#[verifier::external_body]
pub(crate) fn gunzip(data: &[u8]) -> (res: Result<Vec<u8>, std::io::Error>)
    ensures
        res is Ok <==> gzip_decoded(data@) is Some,
        res matches Ok(out) ==> Some(out@) == gzip_decoded(data@),
{
    let mut out = Vec::new();
    flate2::read::GzDecoder::new(std::io::Cursor::new(data.to_vec())).read_to_end(&mut out)?;
    Ok(out)
}

} // verus!
