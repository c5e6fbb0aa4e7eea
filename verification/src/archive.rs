//! ZIP archives, as far as the library reads them: the names of their
//! entries, and the content of an entry.

use vstd::prelude::*;
use crate::text::texts;

verus! {

/// What `zip::ZipArchive` finds in the bytes of an archive: the names of its
/// entries in the order of its directory, or `None` where the bytes are no
/// archive.
pub uninterp spec fn zip_names_of(archive: Seq<u8>) -> Option<Seq<Seq<char>>>;

/// What `zip::ZipArchive` reads for a name: the content of the entry,
/// decompressed, or `None` where the bytes are no archive, the archive has no
/// such entry, or the entry cannot be read.
pub uninterp spec fn zip_entry_of(archive: Seq<u8>, name: Seq<char>) -> Option<Seq<u8>>;

/// The names as plain data.
pub open spec fn name_views(names: Option<Vec<String>>) -> Option<Seq<Seq<char>>> {
    match names {
        Some(n) => Some(texts(n@)),
        None => None,
    }
}

/// The bytes as plain data.
pub open spec fn byte_views(bytes: Option<Vec<u8>>) -> Option<Seq<u8>> {
    match bytes {
        Some(b) => Some(b@),
        None => None,
    }
}

/// Opens the archive with `zip::ZipArchive::new` and lists its entries with
/// `ZipArchive::file_names`. The contract names the result.
#[verifier::external_body]
pub(crate) fn zip_names(archive: &Vec<u8>) -> (r: Option<Vec<String>>)
    ensures
        name_views(r) == zip_names_of(archive@),
{
    let opened = zip::ZipArchive::new(std::io::Cursor::new(archive.as_slice())).ok()?;
    Some(opened.file_names().map(|n| n.to_string()).collect())
}

/// Opens the archive with `zip::ZipArchive::new`, looks the entry up with
/// `ZipArchive::by_name` and reads it to its end. The contract names the
/// result.
#[verifier::external_body]
pub(crate) fn zip_entry(archive: &Vec<u8>, name: &str) -> (r: Option<Vec<u8>>)
    ensures
        byte_views(r) == zip_entry_of(archive@, name@),
{
    let mut opened = zip::ZipArchive::new(std::io::Cursor::new(archive.as_slice())).ok()?;
    let mut entry = opened.by_name(name).ok()?;
    let mut content = Vec::new();
    std::io::Read::read_to_end(&mut entry, &mut content).ok()?;
    Some(content)
}

} // verus!
