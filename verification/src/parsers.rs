//! Reading the container of a book: one reader for each family of formats,
//! chosen by the format that the file was classified as.

use vstd::prelude::*;
use crate::comic::{ComicParser, comic_of};
use crate::epub::{EpubParser, epub_of};
use crate::fb2::{Fb2Parser, fb2_of, zipped_fb2_of};
use crate::library_item::{BookInfo, BookInfoView, LibraryItemFormat};
use crate::mobi::{MobiParser, mobi_of};
use crate::paths::{stem, stem_of};
use crate::text::{ascii_lower, ends_with, lossy_text_of, to_ascii_lower};

verus! {

/// Whether a file name is that of a zipped file: it ends in `.zip`, in any
/// case.
pub open spec fn is_zipped_name(file_name: Seq<char>) -> bool {
    ".zip"@.is_suffix_of(ascii_lower(file_name))
}

/// Whether a file name is that of a zipped file.
pub fn is_zipped(file_name: &str) -> (r: bool)
    ensures
        r == is_zipped_name(file_name@),
{
    let lowered = to_ascii_lower(file_name);
    ends_with(lowered.as_str(), ".zip")
}

/// What the file of a format says of the book, from the file's name and its
/// content. A FictionBook is read from an archive where its name says that it
/// is zipped, else as it is; a comic without a title of its own goes by the
/// stem of its file name; a comic archive in RAR format is not read.
pub open spec fn book_info_of(
    format: LibraryItemFormat,
    file_name: Seq<char>,
    content: Seq<u8>,
) -> Option<BookInfoView> {
    match format {
        LibraryItemFormat::Epub => epub_of(content),
        LibraryItemFormat::Fb2 => if is_zipped_name(file_name) {
            zipped_fb2_of(content)
        } else {
            fb2_of(lossy_text_of(content))
        },
        LibraryItemFormat::Mobi => mobi_of(content),
        LibraryItemFormat::Cbz => comic_of(content, stem_of(file_name)),
        LibraryItemFormat::Cbr => None,
    }
}

/// Reads the container of a book of the given format. `None` where the
/// content is no container of that format: such a file yields no item.
pub fn parse_book_info(format: LibraryItemFormat, file_name: &str, content: &Vec<u8>) -> (r: Option<
    BookInfo,
>)
    ensures
        match r {
            Some(info) => book_info_of(format, file_name@, content@) == Some(info@),
            None => book_info_of(format, file_name@, content@).is_none(),
        },
{
    match format {
        LibraryItemFormat::Epub => EpubParser::new().parse(content),
        LibraryItemFormat::Fb2 => {
            if is_zipped(file_name) {
                Fb2Parser::new().parse_zipped(content)
            } else {
                Fb2Parser::new().parse(content)
            }
        },
        LibraryItemFormat::Mobi => MobiParser::new().parse(content),
        LibraryItemFormat::Cbz => {
            let title = stem(file_name);
            ComicParser::new().parse(content, title.as_str())
        },
        LibraryItemFormat::Cbr => None,
    }
}

} // verus!
