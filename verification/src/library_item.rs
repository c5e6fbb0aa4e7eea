//! The items of a library: their formats, their descriptive facts, and what
//! can be derived from these and from the reader's metadata.

use vstd::prelude::*;
use crate::koreader_metadata::{Annotation, KoReaderMetadata, bookmark_total, lemma_bookmark_total_bound};
use crate::paths::{extension, extension_of, file_name, file_name_of, text_of};
use crate::koreader_metadata::Summary;
use crate::text::{ascii_lower, concat2, concat3, ends_with, eq_ignore_ascii_case, join_texts, joined_with, lowercase_of, owned, text_eq, texts, to_lowercase};

verus! {

/// The broad kind of a library item.
#[derive(Debug, Clone, Copy, PartialEq, Eq, Structural)]
pub enum ContentType {
    Book,
    Comic,
}

impl ContentType {
    /// The lowercase name of the kind.
    pub open spec fn label_of(self) -> Seq<char> {
        match self {
            ContentType::Book => "book"@,
            ContentType::Comic => "comic"@,
        }
    }

    /// The lowercase name of the kind: `book` or `comic`.
    pub fn label(&self) -> (r: String)
        ensures
            r@ == self.label_of(),
    {
        match self {
            ContentType::Book => owned("book"),
            ContentType::Comic => owned("comic"),
        }
    }
}

/// The file formats that make a file a library item.
#[derive(Debug, Clone, Copy, PartialEq, Eq, Structural)]
pub enum LibraryItemFormat {
    Epub,
    Fb2,
    Mobi,
    Cbz,
    Cbr,
}

/// Whether this library reads comic archives in RAR format. It has no reader
/// for them: a scan passes such files over, as it does files of any other
/// kind that it cannot read.
pub const CBR_SUPPORTED: bool = false;

/// The format that a lowercase extension stands for. `cbr` counts only where
/// the build can read such archives.
pub open spec fn format_of_extension(ext: Seq<char>, cbr_enabled: bool) -> Option<
    LibraryItemFormat,
> {
    if ext == "epub"@ {
        Some(LibraryItemFormat::Epub)
    } else if ext == "fb2"@ {
        Some(LibraryItemFormat::Fb2)
    } else if ext == "mobi"@ {
        Some(LibraryItemFormat::Mobi)
    } else if ext == "cbz"@ {
        Some(LibraryItemFormat::Cbz)
    } else if ext == "cbr"@ && cbr_enabled {
        Some(LibraryItemFormat::Cbr)
    } else {
        None
    }
}

/// The format of a file, from its lowercase name and lowercase extension. A
/// name that ends in `.fb2.zip` is an FB2 book whatever its extension says.
pub open spec fn format_of_lowered(
    name: Seq<char>,
    ext: Option<Seq<char>>,
    cbr_enabled: bool,
) -> Option<LibraryItemFormat> {
    if ".fb2.zip"@.is_suffix_of(name) {
        Some(LibraryItemFormat::Fb2)
    } else {
        match ext {
            Some(e) => format_of_extension(e, cbr_enabled),
            None => None,
        }
    }
}

/// The format of the file at a path: that of its final component, compared
/// without regard to case.
pub open spec fn format_of_path(path: Seq<char>, cbr_enabled: bool) -> Option<LibraryItemFormat> {
    match file_name_of(path) {
        None => None,
        Some(name) => format_of_lowered(
            lowercase_of(name),
            match extension_of(name) {
                Some(e) => Some(lowercase_of(e)),
                None => None,
            },
            cbr_enabled,
        ),
    }
}

/// The name of the metadata file that the reader writes for a format.
pub open spec fn metadata_filename_of(format: LibraryItemFormat) -> Seq<char> {
    match format {
        LibraryItemFormat::Epub => "metadata.epub.lua"@,
        LibraryItemFormat::Fb2 => "metadata.fb2.lua"@,
        LibraryItemFormat::Mobi => "metadata.mobi.lua"@,
        LibraryItemFormat::Cbz => "metadata.cbz.lua"@,
        LibraryItemFormat::Cbr => "metadata.cbr.lua"@,
    }
}

/// The broad kind that a format belongs to.
pub open spec fn content_type_of(format: LibraryItemFormat) -> ContentType {
    match format {
        LibraryItemFormat::Epub | LibraryItemFormat::Fb2 | LibraryItemFormat::Mobi => {
            ContentType::Book
        },
        LibraryItemFormat::Cbz | LibraryItemFormat::Cbr => ContentType::Comic,
    }
}

impl LibraryItemFormat {
    /// The format named by a lowercase extension.
    pub fn from_extension(ext: &str, cbr_enabled: bool) -> (r: Option<LibraryItemFormat>)
        ensures
            r == format_of_extension(ext@, cbr_enabled),
    {
        if text_eq(ext, "epub") {
            Some(LibraryItemFormat::Epub)
        } else if text_eq(ext, "fb2") {
            Some(LibraryItemFormat::Fb2)
        } else if text_eq(ext, "mobi") {
            Some(LibraryItemFormat::Mobi)
        } else if text_eq(ext, "cbz") {
            Some(LibraryItemFormat::Cbz)
        } else if cbr_enabled && text_eq(ext, "cbr") {
            Some(LibraryItemFormat::Cbr)
        } else {
            None
        }
    }

    /// Classifies a file by its lowercase name and lowercase extension.
    pub fn from_lowered(name: &str, ext: &Option<String>, cbr_enabled: bool) -> (r: Option<
        LibraryItemFormat,
    >)
        ensures
            r == format_of_lowered(name@, text_of(*ext), cbr_enabled),
            ".fb2.zip"@.is_suffix_of(name@) ==> r == Some(LibraryItemFormat::Fb2),
    {
        if ends_with(name, ".fb2.zip") {
            return Some(LibraryItemFormat::Fb2);
        }
        match ext {
            Some(e) => LibraryItemFormat::from_extension(e.as_str(), cbr_enabled),
            None => None,
        }
    }

    /// Classifies the file at `path`, with `cbr` archives counted or not.
    pub fn classify(path: &str, cbr_enabled: bool) -> (r: Option<LibraryItemFormat>)
        ensures
            r == format_of_path(path@, cbr_enabled),
    {
        match file_name(path) {
            None => None,
            Some(name) => {
                let lowered = to_lowercase(name.as_str());
                let ext = match extension(name.as_str()) {
                    Some(e) => Some(to_lowercase(e.as_str())),
                    None => None,
                };
                LibraryItemFormat::from_lowered(lowered.as_str(), &ext, cbr_enabled)
            },
        }
    }

    /// Classifies the file at `path` for a scan: among the formats that this
    /// library reads.
    pub fn readable(path: &str) -> (r: Option<LibraryItemFormat>)
        ensures
            r == format_of_path(path@, CBR_SUPPORTED),
            r != Some(LibraryItemFormat::Cbr),
    {
        LibraryItemFormat::classify(path, CBR_SUPPORTED)
    }

    /// Classifies the file at `path`, counting every format.
    pub fn from_path(path: &str) -> (r: Option<LibraryItemFormat>)
        ensures
            r == format_of_path(path@, true),
    {
        LibraryItemFormat::classify(path, true)
    }

    /// The name of the metadata file that the reader writes for this format.
    pub fn metadata_filename(&self) -> (r: &'static str)
        ensures
            r@ == metadata_filename_of(*self),
    {
        match self {
            LibraryItemFormat::Epub => "metadata.epub.lua",
            LibraryItemFormat::Fb2 => "metadata.fb2.lua",
            LibraryItemFormat::Mobi => "metadata.mobi.lua",
            LibraryItemFormat::Cbz => "metadata.cbz.lua",
            LibraryItemFormat::Cbr => "metadata.cbr.lua",
        }
    }

    /// Whether `filename` is the metadata file name of some format.
    pub fn is_metadata_file(filename: &str) -> (r: bool)
        ensures
            r == exists|f: LibraryItemFormat| metadata_filename_of(f) == filename@,
    {
        let r = text_eq(filename, "metadata.epub.lua") || text_eq(filename, "metadata.fb2.lua")
            || text_eq(filename, "metadata.mobi.lua") || text_eq(filename, "metadata.cbz.lua")
            || text_eq(filename, "metadata.cbr.lua");
        proof {
            if r {
                let f = if filename@ == "metadata.epub.lua"@ {
                    LibraryItemFormat::Epub
                } else if filename@ == "metadata.fb2.lua"@ {
                    LibraryItemFormat::Fb2
                } else if filename@ == "metadata.mobi.lua"@ {
                    LibraryItemFormat::Mobi
                } else if filename@ == "metadata.cbz.lua"@ {
                    LibraryItemFormat::Cbz
                } else {
                    LibraryItemFormat::Cbr
                };
                assert(metadata_filename_of(f) == filename@);
            }
        }
        r
    }

    /// The broad kind of this format.
    pub fn content_type(&self) -> (r: ContentType)
        ensures
            r == content_type_of(*self),
    {
        match self {
            LibraryItemFormat::Epub | LibraryItemFormat::Fb2 | LibraryItemFormat::Mobi => {
                ContentType::Book
            },
            LibraryItemFormat::Cbz | LibraryItemFormat::Cbr => ContentType::Comic,
        }
    }
}

/// The readers of book containers, one for each family of formats.
#[derive(Debug, Clone, Copy, PartialEq, Eq, Structural)]
pub enum ParserKind {
    Epub,
    Fb2,
    Comic,
    Mobi,
}

impl LibraryItemFormat {
    /// The reader that extracts the descriptive facts of a file of this
    /// format: both comic archives share one.
    pub fn parser(&self) -> (r: ParserKind)
        ensures
            r == match *self {
                LibraryItemFormat::Epub => ParserKind::Epub,
                LibraryItemFormat::Fb2 => ParserKind::Fb2,
                LibraryItemFormat::Cbz | LibraryItemFormat::Cbr => ParserKind::Comic,
                LibraryItemFormat::Mobi => ParserKind::Mobi,
            },
    {
        match self {
            LibraryItemFormat::Epub => ParserKind::Epub,
            LibraryItemFormat::Fb2 => ParserKind::Fb2,
            LibraryItemFormat::Cbz | LibraryItemFormat::Cbr => ParserKind::Comic,
            LibraryItemFormat::Mobi => ParserKind::Mobi,
        }
    }
}

/// What the reader says of where it stands with a book.
#[derive(Debug, Clone, Copy, PartialEq, Eq, Structural)]
pub enum BookStatus {
    Reading,
    Complete,
    Abandoned,
    Unknown,
}

impl BookStatus {
    /// The lowercase name of the status.
    pub open spec fn label_of(self) -> Seq<char> {
        match self {
            BookStatus::Reading => "reading"@,
            BookStatus::Complete => "complete"@,
            BookStatus::Abandoned => "abandoned"@,
            BookStatus::Unknown => "unknown"@,
        }
    }

    /// The status that a lowercase name stands for; any other name is
    /// `Unknown`.
    pub open spec fn of_label(label: Seq<char>) -> BookStatus {
        if label == "reading"@ {
            BookStatus::Reading
        } else if label == "complete"@ {
            BookStatus::Complete
        } else if label == "abandoned"@ {
            BookStatus::Abandoned
        } else {
            BookStatus::Unknown
        }
    }

    /// The lowercase name of the status.
    pub fn label(&self) -> (r: String)
        ensures
            r@ == self.label_of(),
    {
        match self {
            BookStatus::Reading => owned("reading"),
            BookStatus::Complete => owned("complete"),
            BookStatus::Abandoned => owned("abandoned"),
            BookStatus::Unknown => owned("unknown"),
        }
    }

    /// Reads a status from its lowercase name; any other name is `Unknown`.
    pub fn from_label(label: &str) -> (r: BookStatus)
        ensures
            r == BookStatus::of_label(label@),
    {
        if text_eq(label, "reading") {
            BookStatus::Reading
        } else if text_eq(label, "complete") {
            BookStatus::Complete
        } else if text_eq(label, "abandoned") {
            BookStatus::Abandoned
        } else {
            BookStatus::Unknown
        }
    }
}

/// The descriptive facts that a book's own container holds.
#[derive(Debug, Clone)]
pub struct BookInfo {
    pub title: String,
    pub authors: Vec<String>,
    pub description: Option<String>,
    pub language: Option<String>,
    pub publisher: Option<String>,
    pub identifiers: Vec<Identifier>,
    pub subjects: Vec<String>,
    pub series: Option<String>,
    pub series_number: Option<String>,
    pub pages: Option<u32>,
    pub cover_data: Option<Vec<u8>>,
    pub cover_mime_type: Option<String>,
}

/// The descriptive facts as plain data.
pub struct BookInfoView {
    pub title: Seq<char>,
    pub authors: Seq<Seq<char>>,
    pub description: Option<Seq<char>>,
    pub language: Option<Seq<char>>,
    pub publisher: Option<Seq<char>>,
    pub identifiers: Seq<(Seq<char>, Seq<char>)>,
    pub subjects: Seq<Seq<char>>,
    pub series: Option<Seq<char>>,
    pub series_number: Option<Seq<char>>,
    pub pages: Option<u32>,
    pub cover_data: Option<Seq<u8>>,
    pub cover_mime_type: Option<Seq<char>>,
}

impl View for BookInfo {
    type V = BookInfoView;

    open spec fn view(&self) -> BookInfoView {
        BookInfoView {
            title: self.title@,
            authors: texts(self.authors@),
            description: text_of(self.description),
            language: text_of(self.language),
            publisher: text_of(self.publisher),
            identifiers: self.identifiers@.map_values(|i: Identifier| i@),
            subjects: texts(self.subjects@),
            series: text_of(self.series),
            series_number: text_of(self.series_number),
            pages: self.pages,
            cover_data: match self.cover_data {
                Some(d) => Some(d@),
                None => None,
            },
            cover_mime_type: text_of(self.cover_mime_type),
        }
    }
}

/// An identifier of a book under some scheme (ISBN, ASIN, ...).
#[derive(Debug, Clone)]
pub struct Identifier {
    pub scheme: String,
    pub value: String,
}

impl View for Identifier {
    type V = (Seq<char>, Seq<char>);

    open spec fn view(&self) -> (Seq<char>, Seq<char>) {
        (self.scheme@, self.value@)
    }
}

/// The name under which a scheme is shown, given the scheme in lowercase and
/// as written. A scheme that is not known is shown as written.
pub open spec fn display_scheme_of(lowered: Seq<char>, scheme: Seq<char>) -> Seq<char> {
    if lowered == "isbn"@ {
        "ISBN"@
    } else if lowered == "google"@ {
        "Google Books"@
    } else if lowered == "amazon"@ || lowered == "asin"@ || lowered == "mobi-asin"@ {
        "Amazon"@
    } else if lowered == "goodreads"@ {
        "Goodreads"@
    } else if lowered == "doi"@ {
        "DOI"@
    } else if lowered == "kobo"@ {
        "Kobo"@
    } else if lowered == "oclc"@ {
        "WorldCat"@
    } else if lowered == "lccn"@ {
        "Library of Congress"@
    } else if lowered == "hardcover"@ || lowered == "hardcover-slug"@ {
        "Hardcover"@
    } else if lowered == "hardcover-edition"@ {
        "Hardcover Edition"@
    } else {
        scheme
    }
}

/// The address at which a scheme's catalogue shows a value, without the
/// value: `None` for a scheme that has no such address.
pub open spec fn url_base_of(lowered: Seq<char>) -> Option<Seq<char>> {
    if lowered == "isbn"@ {
        Some("https://www.worldcat.org/isbn/"@)
    } else if lowered == "google"@ {
        Some("https://books.google.com/books?id="@)
    } else if lowered == "amazon"@ || lowered == "asin"@ || lowered == "mobi-asin"@ {
        Some("https://www.amazon.com/dp/"@)
    } else if lowered == "goodreads"@ {
        Some("https://www.goodreads.com/book/show/"@)
    } else if lowered == "doi"@ {
        Some("https://doi.org/"@)
    } else if lowered == "kobo"@ {
        Some("https://www.kobo.com/ebook/"@)
    } else if lowered == "oclc"@ {
        Some("https://www.worldcat.org/oclc/"@)
    } else if lowered == "hardcover"@ || lowered == "hardcover-edition"@ {
        Some("https://hardcover.app/books/"@)
    } else {
        None
    }
}

/// The address of a value under a scheme: the scheme's base followed by the
/// value.
pub open spec fn url_of(lowered: Seq<char>, value: Seq<char>) -> Option<Seq<char>> {
    match url_base_of(lowered) {
        Some(base) => Some(base + value),
        None => None,
    }
}

/// The name under which a scheme is shown, from its lowercase form.
pub fn display_scheme_for(lowered: &str, scheme: &str) -> (r: String)
    ensures
        r@ == display_scheme_of(lowered@, scheme@),
{
    if text_eq(lowered, "isbn") {
        owned("ISBN")
    } else if text_eq(lowered, "google") {
        owned("Google Books")
    } else if text_eq(lowered, "amazon") || text_eq(lowered, "asin") || text_eq(
        lowered,
        "mobi-asin",
    ) {
        owned("Amazon")
    } else if text_eq(lowered, "goodreads") {
        owned("Goodreads")
    } else if text_eq(lowered, "doi") {
        owned("DOI")
    } else if text_eq(lowered, "kobo") {
        owned("Kobo")
    } else if text_eq(lowered, "oclc") {
        owned("WorldCat")
    } else if text_eq(lowered, "lccn") {
        owned("Library of Congress")
    } else if text_eq(lowered, "hardcover") || text_eq(lowered, "hardcover-slug") {
        owned("Hardcover")
    } else if text_eq(lowered, "hardcover-edition") {
        owned("Hardcover Edition")
    } else {
        owned(scheme)
    }
}

/// The address of `value` under a scheme, from the scheme's lowercase form.
pub fn url_for(lowered: &str, value: &str) -> (r: Option<String>)
    ensures
        text_of(r) == url_of(lowered@, value@),
{
    if text_eq(lowered, "isbn") {
        Some(concat2("https://www.worldcat.org/isbn/", value))
    } else if text_eq(lowered, "google") {
        Some(concat2("https://books.google.com/books?id=", value))
    } else if text_eq(lowered, "amazon") || text_eq(lowered, "asin") || text_eq(
        lowered,
        "mobi-asin",
    ) {
        Some(concat2("https://www.amazon.com/dp/", value))
    } else if text_eq(lowered, "goodreads") {
        Some(concat2("https://www.goodreads.com/book/show/", value))
    } else if text_eq(lowered, "doi") {
        Some(concat2("https://doi.org/", value))
    } else if text_eq(lowered, "kobo") {
        Some(concat2("https://www.kobo.com/ebook/", value))
    } else if text_eq(lowered, "oclc") {
        Some(concat2("https://www.worldcat.org/oclc/", value))
    } else if text_eq(lowered, "hardcover") || text_eq(lowered, "hardcover-edition") {
        Some(concat2("https://hardcover.app/books/", value))
    } else {
        None
    }
}

impl Identifier {
    pub fn new(scheme: String, value: String) -> (r: Self)
        ensures
            r.scheme == scheme,
            r.value == value,
    {
        Identifier { scheme, value }
    }

    /// The name under which this identifier's scheme is shown.
    pub fn display_scheme(&self) -> (r: String)
        ensures
            r@ == display_scheme_of(lowercase_of(self.scheme@), self.scheme@),
    {
        let lowered = to_lowercase(self.scheme.as_str());
        display_scheme_for(lowered.as_str(), self.scheme.as_str())
    }

    /// The address at which this identifier can be looked up, if its scheme
    /// has one.
    pub fn url(&self) -> (r: Option<String>)
        ensures
            text_of(r) == url_of(lowercase_of(self.scheme@), self.value@),
    {
        let lowered = to_lowercase(self.scheme.as_str());
        url_for(lowered.as_str(), self.value.as_str())
    }

    /// Whether this identifier can be looked up at an address.
    pub fn is_linkable(&self) -> (r: bool)
        ensures
            r == url_base_of(lowercase_of(self.scheme@)).is_some(),
    {
        self.url().is_some()
    }
}

/// An identifier on its way to being shown: its scheme in lowercase, its
/// scheme as written, and its value.
pub type Shown = (Seq<char>, Seq<char>, Seq<char>);

struct Candidate {
    lowered: String,
    scheme: String,
    value: String,
}

impl View for Candidate {
    type V = Shown;

    closed spec fn view(&self) -> Shown {
        (self.lowered@, self.scheme@, self.value@)
    }
}

spec fn candidate_views(s: Seq<Candidate>) -> Seq<Shown> {
    s.map_values(|c: Candidate| c@)
}

/// The schemes and values of a sequence of identifiers.
pub open spec fn identifier_views(s: Seq<Identifier>) -> Seq<(Seq<char>, Seq<char>)> {
    s.map_values(|i: Identifier| i@)
}

/// The lowercase forms of the schemes of a sequence of identifiers.
pub open spec fn lowered_schemes(s: Seq<Identifier>) -> Seq<Seq<char>> {
    s.map_values(|i: Identifier| lowercase_of(i.scheme@))
}

/// Whether a lowercase scheme names a book's page on Hardcover.
pub open spec fn is_slug_scheme(lowered: Seq<char>) -> bool {
    lowered == "hardcover"@ || lowered == "hardcover-slug"@
}

/// Whether a lowercase scheme is one of Hardcover's.
pub open spec fn is_hardcover_scheme(lowered: Seq<char>) -> bool {
    is_slug_scheme(lowered) || lowered == "hardcover-edition"@
}

/// The position of the first scheme that names a Hardcover page, or `-1`.
pub open spec fn slug_index(lowered: Seq<Seq<char>>) -> int
    decreases lowered.len(),
{
    if lowered.len() == 0 {
        -1
    } else {
        let before = slug_index(lowered.drop_last());
        if before >= 0 {
            before
        } else if is_slug_scheme(lowered.last()) {
            lowered.len() - 1
        } else {
            -1
        }
    }
}

/// One candidate for each identifier whose scheme is `hardcover-edition` in
/// any ASCII case: the edition's address below the book's page `slug`.
pub open spec fn edition_candidates(ids: Seq<(Seq<char>, Seq<char>)>, slug: Seq<char>) -> Seq<
    Shown,
>
    decreases ids.len(),
{
    if ids.len() == 0 {
        Seq::empty()
    } else {
        let rest = edition_candidates(ids.drop_last(), slug);
        if ascii_lower(ids.last().0) == ascii_lower("hardcover-edition"@) {
            rest.push(
                ("hardcover-edition"@, "hardcover-edition"@, slug + "/editions/"@ + ids.last().1),
            )
        } else {
            rest
        }
    }
}

/// The Hardcover identifiers in normal form: the book's page first, then its
/// editions; none where no identifier names the page.
pub open spec fn hardcover_candidates(
    ids: Seq<(Seq<char>, Seq<char>)>,
    lowered: Seq<Seq<char>>,
) -> Seq<Shown> {
    let i = slug_index(lowered);
    if 0 <= i < ids.len() {
        seq![("hardcover"@, "hardcover"@, ids[i].1)] + edition_candidates(ids, ids[i].1)
    } else {
        Seq::empty()
    }
}

/// The identifiers whose scheme is none of Hardcover's, in order.
pub open spec fn plain_candidates(
    ids: Seq<(Seq<char>, Seq<char>)>,
    lowered: Seq<Seq<char>>,
) -> Seq<Shown>
    decreases ids.len(),
{
    if ids.len() == 0 || lowered.len() != ids.len() {
        Seq::empty()
    } else {
        let rest = plain_candidates(ids.drop_last(), lowered.drop_last());
        if is_hardcover_scheme(lowered.last()) {
            rest
        } else {
            rest.push((lowered.last(), ids.last().0, ids.last().1))
        }
    }
}

/// Two candidates are the same identifier where their lowercase schemes and
/// their values agree.
pub open spec fn same_key(a: Shown, b: Shown) -> bool {
    a.0 == b.0 && a.2 == b.2
}

/// Whether some candidate of `c` is the same identifier as `x`.
pub open spec fn seen_in(c: Seq<Shown>, x: Shown) -> bool {
    exists|j: int| 0 <= j < c.len() && same_key(#[trigger] c[j], x)
}

/// The candidates without those that repeat an earlier one.
pub open spec fn first_occurrences(c: Seq<Shown>) -> Seq<Shown>
    decreases c.len(),
{
    if c.len() == 0 {
        Seq::empty()
    } else {
        let rest = first_occurrences(c.drop_last());
        if seen_in(c.drop_last(), c.last()) {
            rest
        } else {
            rest.push(c.last())
        }
    }
}

/// The candidates whose scheme is shown under another name than written, as
/// identifiers.
pub open spec fn shown_identifiers(c: Seq<Shown>) -> Seq<(Seq<char>, Seq<char>)>
    decreases c.len(),
{
    if c.len() == 0 {
        Seq::empty()
    } else {
        let rest = shown_identifiers(c.drop_last());
        if display_scheme_of(c.last().0, c.last().1) != c.last().1 {
            rest.push((c.last().1, c.last().2))
        } else {
            rest
        }
    }
}

/// The identifiers to show for a book: Hardcover's in normal form first, then
/// the others; each only once; only those of a known scheme.
pub open spec fn identifiers_of(
    ids: Seq<(Seq<char>, Seq<char>)>,
    lowered: Seq<Seq<char>>,
) -> Seq<(Seq<char>, Seq<char>)> {
    shown_identifiers(
        first_occurrences(hardcover_candidates(ids, lowered) + plain_candidates(ids, lowered)),
    )
}

/// Removing repeats does not change which identifiers occur.
proof fn lemma_first_occurrences_seen(c: Seq<Shown>, x: Shown)
    ensures
        seen_in(first_occurrences(c), x) == seen_in(c, x),
    decreases c.len(),
{
    if c.len() > 0 {
        let init = c.drop_last();
        let last = c.last();
        lemma_first_occurrences_seen(init, x);
        lemma_first_occurrences_seen(init, last);
        let f = first_occurrences(c);
        let fi = first_occurrences(init);
        if seen_in(c, x) {
            let j = choose|j: int| 0 <= j < c.len() && same_key(#[trigger] c[j], x);
            if j < c.len() - 1 {
                assert(same_key(init[j], x));
                assert(seen_in(init, x));
                let k = choose|k: int| 0 <= k < fi.len() && same_key(#[trigger] fi[k], x);
                assert(same_key(f[k], x));
            } else if seen_in(init, last) {
                let k = choose|k: int| 0 <= k < fi.len() && same_key(#[trigger] fi[k], last);
                assert(same_key(f[k], x));
            } else {
                assert(same_key(f[f.len() - 1], x));
            }
        }
        if seen_in(f, x) {
            let k = choose|k: int| 0 <= k < f.len() && same_key(#[trigger] f[k], x);
            if k < fi.len() {
                assert(same_key(fi[k], x));
                assert(seen_in(init, x));
                let j = choose|j: int| 0 <= j < init.len() && same_key(#[trigger] init[j], x);
                assert(same_key(c[j], x));
            } else {
                assert(same_key(c[c.len() - 1], x));
            }
        }
    }
}

/// After repeats are removed no two candidates are the same identifier, and
/// every one that is left was a candidate.
pub proof fn lemma_first_occurrences_distinct(c: Seq<Shown>)
    ensures
        forall|i: int, j: int|
            0 <= i < j < first_occurrences(c).len() ==> !same_key(
                first_occurrences(c)[i],
                first_occurrences(c)[j],
            ),
        forall|i: int|
            0 <= i < first_occurrences(c).len() ==> c.contains(#[trigger] first_occurrences(c)[i]),
    decreases c.len(),
{
    if c.len() > 0 {
        let init = c.drop_last();
        let last = c.last();
        lemma_first_occurrences_distinct(init);
        lemma_first_occurrences_seen(init, last);
        let rest = first_occurrences(init);
        let out = first_occurrences(c);
        assert forall|i: int, j: int| 0 <= i < j < out.len() implies !same_key(out[i], out[j]) by {
            if j < rest.len() {
                assert(!same_key(rest[i], rest[j]));
            } else if same_key(out[i], out[j]) {
                assert(same_key(rest[i], last));
                assert(seen_in(rest, last));
            }
        }
        assert forall|i: int| 0 <= i < out.len() implies c.contains(#[trigger] out[i]) by {
            if i < rest.len() {
                let k = choose|k: int| 0 <= k < init.len() && init[k] == rest[i];
                assert(c[k] == out[i]);
            } else {
                assert(c[c.len() - 1] == out[i]);
            }
        }
    }
}

/// Every identifier that is shown has a scheme that goes by another name
/// than it is written with, and was a candidate.
pub proof fn lemma_shown_identifiers_known(c: Seq<Shown>, i: int)
    requires
        0 <= i < shown_identifiers(c).len(),
    ensures
        exists|k: int|
            0 <= k < c.len() && display_scheme_of((#[trigger] c[k]).0, c[k].1) != c[k].1
                && shown_identifiers(c)[i] == (c[k].1, c[k].2),
    decreases c.len(),
{
    let init = c.drop_last();
    let rest = shown_identifiers(init);
    if i < rest.len() {
        lemma_shown_identifiers_known(init, i);
        let k = choose|k: int|
            0 <= k < init.len() && display_scheme_of((#[trigger] init[k]).0, init[k].1)
                != init[k].1 && rest[i] == (init[k].1, init[k].2);
        assert(c[k] == init[k]);
    } else {
        assert(c[c.len() - 1] == c.last());
    }
}

/// Whether some candidate of `v` is the same identifier as `x`.
fn seen(v: &Vec<Candidate>, x: &Candidate) -> (r: bool)
    ensures
        r == seen_in(candidate_views(v@), x@),
{
    let mut i: usize = 0;
    while i < v.len()
        invariant
            i <= v.len(),
            forall|j: int| 0 <= j < i ==> !same_key(#[trigger] candidate_views(v@)[j], x@),
        decreases v.len() - i,
    {
        if text_eq(v[i].lowered.as_str(), x.lowered.as_str()) && text_eq(
            v[i].value.as_str(),
            x.value.as_str(),
        ) {
            assert(same_key(candidate_views(v@)[i as int], x@));
            return true;
        }
        i += 1;
    }
    false
}

/// The Hardcover identifiers of a book in normal form.
fn hardcover(ids: &Vec<Identifier>, lowered: &Vec<String>) -> (r: Vec<Candidate>)
    ensures
        candidate_views(r@) == hardcover_candidates(identifier_views(ids@), texts(lowered@)),
{
    let ghost iv = identifier_views(ids@);
    let ghost lv = texts(lowered@);
    let mut found: Option<usize> = None;
    let mut i: usize = 0;
    while i < lowered.len()
        invariant
            i <= lowered.len(),
            lv == texts(lowered@),
            found matches Some(k) ==> k < i,
            match found {
                Some(k) => k as int == slug_index(lv.take(i as int)),
                None => slug_index(lv.take(i as int)) == -1,
            },
        decreases lowered.len() - i,
    {
        proof {
            assert(lv.take(i + 1).drop_last() =~= lv.take(i as int));
            assert(lv.take(i + 1).last() == lowered@[i as int]@);
        }
        if found.is_none() && (text_eq(lowered[i].as_str(), "hardcover") || text_eq(
            lowered[i].as_str(),
            "hardcover-slug",
        )) {
            found = Some(i);
        }
        i += 1;
    }
    assert(lv.take(lowered.len() as int) =~= lv);
    let mut out: Vec<Candidate> = Vec::new();
    let found = match found {
        Some(k) => if k < ids.len() {
            Some(k)
        } else {
            None
        },
        None => None,
    };
    if let Some(k) = found {
        let slug = ids[k].value.clone();
        assert(slug@ == iv[k as int].1);
        out.push(
            Candidate { lowered: owned("hardcover"), scheme: owned("hardcover"), value: slug.clone() },
        );
        assert(candidate_views(out@) =~= seq![("hardcover"@, "hardcover"@, slug@)]);
        let mut j: usize = 0;
        while j < ids.len()
            invariant
                j <= ids.len(),
                iv == identifier_views(ids@),
                candidate_views(out@) == seq![("hardcover"@, "hardcover"@, slug@)]
                    + edition_candidates(iv.take(j as int), slug@),
            decreases ids.len() - j,
        {
            proof {
                assert(iv.take(j + 1).drop_last() =~= iv.take(j as int));
                assert(iv.take(j + 1).last() == ids@[j as int]@);
            }
            if eq_ignore_ascii_case(ids[j].scheme.as_str(), "hardcover-edition") {
                let ghost before = candidate_views(out@);
                let c = Candidate {
                    lowered: owned("hardcover-edition"),
                    scheme: owned("hardcover-edition"),
                    value: concat3(slug.as_str(), "/editions/", ids[j].value.as_str()),
                };
                out.push(c);
                assert(candidate_views(out@) =~= before.push(c@));
            }
            j += 1;
            assert(candidate_views(out@) =~= seq![("hardcover"@, "hardcover"@, slug@)]
                + edition_candidates(iv.take(j as int), slug@));
        }
        assert(iv.take(ids.len() as int) =~= iv);
    }
    assert(candidate_views(out@) =~= hardcover_candidates(iv, lv));
    out
}

/// The candidates for a book's identifiers, Hardcover's first.
fn candidates(ids: &Vec<Identifier>, lowered: &Vec<String>) -> (r: Vec<Candidate>)
    ensures
        candidate_views(r@) == hardcover_candidates(identifier_views(ids@), texts(lowered@))
            + plain_candidates(identifier_views(ids@), texts(lowered@)),
{
    let ghost iv = identifier_views(ids@);
    let ghost lv = texts(lowered@);
    let mut out = hardcover(ids, lowered);
    let ghost head = candidate_views(out@);
    if lowered.len() != ids.len() {
        assert(candidate_views(out@) =~= head + plain_candidates(iv, lv));
        return out;
    }
    let mut j: usize = 0;
    while j < ids.len()
        invariant
            j <= ids.len(),
            lowered.len() == ids.len(),
            iv == identifier_views(ids@),
            lv == texts(lowered@),
            candidate_views(out@) == head + plain_candidates(iv.take(j as int), lv.take(j as int)),
        decreases ids.len() - j,
    {
        proof {
            assert(iv.take(j + 1).drop_last() =~= iv.take(j as int));
            assert(lv.take(j + 1).drop_last() =~= lv.take(j as int));
            assert(iv.take(j + 1).last() == ids@[j as int]@);
            assert(lv.take(j + 1).last() == lowered@[j as int]@);
        }
        let l = lowered[j].as_str();
        if !(text_eq(l, "hardcover") || text_eq(l, "hardcover-slug") || text_eq(
            l,
            "hardcover-edition",
        )) {
            let ghost before = candidate_views(out@);
            let c = Candidate {
                lowered: lowered[j].clone(),
                scheme: ids[j].scheme.clone(),
                value: ids[j].value.clone(),
            };
            out.push(c);
            assert(candidate_views(out@) =~= before.push(c@));
        }
        j += 1;
        assert(candidate_views(out@) =~= head + plain_candidates(
            iv.take(j as int),
            lv.take(j as int),
        ));
    }
    assert(iv.take(ids.len() as int) =~= iv);
    assert(lv.take(ids.len() as int) =~= lv);
    out
}

/// The candidates as identifiers: each with its scheme as written and its
/// value.
pub open spec fn as_identifiers(c: Seq<Shown>) -> Seq<(Seq<char>, Seq<char>)> {
    c.map_values(|x: Shown| (x.1, x.2))
}

/// The Hardcover identifiers of a book in normal form, from the book's
/// identifiers and the lowercase forms of their schemes.
pub fn hardcover_identifiers_from(ids: &Vec<Identifier>, lowered: &Vec<String>) -> (r: Vec<
    Identifier,
>)
    ensures
        identifier_views(r@) == as_identifiers(
            hardcover_candidates(identifier_views(ids@), texts(lowered@)),
        ),
{
    let found = hardcover(ids, lowered);
    let ghost fv = candidate_views(found@);
    let mut out: Vec<Identifier> = Vec::new();
    let mut i: usize = 0;
    while i < found.len()
        invariant
            i <= found.len(),
            fv == candidate_views(found@),
            identifier_views(out@) == as_identifiers(fv).take(i as int),
        decreases found.len() - i,
    {
        let ghost before = identifier_views(out@);
        let id = Identifier { scheme: found[i].scheme.clone(), value: found[i].value.clone() };
        assert(fv[i as int] == found@[i as int]@);
        out.push(id);
        i += 1;
        assert(identifier_views(out@) =~= before.push(id@));
        assert(identifier_views(out@) =~= as_identifiers(fv).take(i as int));
    }
    assert(as_identifiers(fv).take(found.len() as int) =~= as_identifiers(fv));
    out
}

/// The identifiers to show, from a book's identifiers and the lowercase
/// forms of their schemes.
pub fn identifiers_from(ids: &Vec<Identifier>, lowered: &Vec<String>) -> (r: Vec<Identifier>)
    ensures
        identifier_views(r@) == identifiers_of(identifier_views(ids@), texts(lowered@)),
{
    let all = candidates(ids, lowered);
    let ghost av = candidate_views(all@);
    let mut kept: Vec<Candidate> = Vec::new();
    let mut i: usize = 0;
    assert(candidate_views(kept@) =~= first_occurrences(av.take(0)));
    while i < all.len()
        invariant
            i <= all.len(),
            av == candidate_views(all@),
            candidate_views(kept@) == first_occurrences(av.take(i as int)),
        decreases all.len() - i,
    {
        proof {
            assert(av.take(i + 1).drop_last() =~= av.take(i as int));
            assert(av.take(i + 1).last() == all@[i as int]@);
            lemma_first_occurrences_seen(av.take(i as int), all@[i as int]@);
        }
        if !seen(&kept, &all[i]) {
            let ghost before = candidate_views(kept@);
            let c = Candidate {
                lowered: all[i].lowered.clone(),
                scheme: all[i].scheme.clone(),
                value: all[i].value.clone(),
            };
            kept.push(c);
            assert(candidate_views(kept@) =~= before.push(c@));
        }
        i += 1;
    }
    assert(av.take(all.len() as int) =~= av);
    let ghost kv = candidate_views(kept@);
    let mut out: Vec<Identifier> = Vec::new();
    let mut j: usize = 0;
    assert(identifier_views(out@) =~= shown_identifiers(kv.take(0)));
    while j < kept.len()
        invariant
            j <= kept.len(),
            kv == candidate_views(kept@),
            identifier_views(out@) == shown_identifiers(kv.take(j as int)),
        decreases kept.len() - j,
    {
        proof {
            assert(kv.take(j + 1).drop_last() =~= kv.take(j as int));
            assert(kv.take(j + 1).last() == kept@[j as int]@);
        }
        let shown = display_scheme_for(kept[j].lowered.as_str(), kept[j].scheme.as_str());
        if !text_eq(shown.as_str(), kept[j].scheme.as_str()) {
            let ghost before = identifier_views(out@);
            let id = Identifier { scheme: kept[j].scheme.clone(), value: kept[j].value.clone() };
            out.push(id);
            assert(identifier_views(out@) =~= before.push(id@));
        }
        j += 1;
    }
    assert(kv.take(kept.len() as int) =~= kv);
    out
}

/// The lowercase form of each identifier's scheme.
fn lowered_schemes_of(ids: &Vec<Identifier>) -> (r: Vec<String>)
    ensures
        r.len() == ids.len(),
        texts(r@) == lowered_schemes(ids@),
{
    let mut r: Vec<String> = Vec::new();
    let mut i: usize = 0;
    while i < ids.len()
        invariant
            i <= ids.len(),
            r.len() == i,
            texts(r@) == lowered_schemes(ids@).take(i as int),
        decreases ids.len() - i,
    {
        let ghost before = texts(r@);
        let l = to_lowercase(ids[i].scheme.as_str());
        r.push(l);
        assert(texts(r@) =~= before.push(l@));
        i += 1;
        assert(texts(r@) =~= lowered_schemes(ids@).take(i as int));
    }
    assert(lowered_schemes(ids@).take(ids.len() as int) =~= lowered_schemes(ids@));
    r
}

/// One item of the library: a file, what its container says of the book, and
/// what the reader recorded about it.
#[derive(Debug, Clone)]
pub struct LibraryItem {
    pub id: String,
    pub book_info: BookInfo,
    pub koreader_metadata: Option<KoReaderMetadata>,
    pub file_path: String,
    pub format: LibraryItemFormat,
}

impl LibraryItem {
    /// The reader's summary of the book, where there is one.
    pub open spec fn summary_of(&self) -> Option<Summary> {
        match self.koreader_metadata {
            Some(m) => m.summary,
            None => None,
        }
    }

    /// The reader's rating, where there is one.
    pub open spec fn rating_of(&self) -> Option<u32> {
        match self.summary_of() {
            Some(s) => s.rating,
            None => None,
        }
    }

    /// The annotations of the book; none without metadata.
    pub open spec fn annotations_of(&self) -> Seq<Annotation> {
        match self.koreader_metadata {
            Some(m) => m.annotations@,
            None => Seq::empty(),
        }
    }

    /// The reader's status for the book; `Unknown` without a summary.
    pub fn status(&self) -> (r: BookStatus)
        ensures
            r == match self.summary_of() {
                Some(s) => s.status,
                None => BookStatus::Unknown,
            },
    {
        match &self.koreader_metadata {
            Some(m) => match &m.summary {
                Some(s) => s.status,
                None => BookStatus::Unknown,
            },
            None => BookStatus::Unknown,
        }
    }

    /// The reader's rating, where the summary holds one.
    pub fn rating(&self) -> (r: Option<u32>)
        ensures
            r == self.rating_of(),
    {
        match &self.koreader_metadata {
            Some(m) => match &m.summary {
                Some(s) => s.rating,
                None => None,
            },
            None => None,
        }
    }

    /// Five stars, of which the first `rating` are lit.
    pub fn star_display(&self) -> (r: [bool; 5])
        ensures
            forall|i: int|
                0 <= i < 5 ==> r[i] == (match self.rating_of() {
                    Some(n) => n as int,
                    None => 0,
                } >= i + 1),
    {
        let rating: u32 = match self.rating() {
            Some(n) => n,
            None => 0,
        };
        [rating >= 1, rating >= 2, rating >= 3, rating >= 4, rating >= 5]
    }

    /// The note of the reader's summary.
    pub fn review_note(&self) -> (r: Option<&String>)
        ensures
            r == match self.summary_of() {
                Some(s) => match s.note {
                    Some(n) => Some(&n),
                    None => None,
                },
                None => None,
            },
    {
        match &self.koreader_metadata {
            Some(m) => match &m.summary {
                Some(s) => s.note.as_ref(),
                None => None,
            },
            None => None,
        }
    }

    /// The reader's progress in millionths of the book.
    pub fn progress_millionths(&self) -> (r: Option<u32>)
        ensures
            r == match self.koreader_metadata {
                Some(m) => m.percent_finished,
                None => None,
            },
    {
        match &self.koreader_metadata {
            Some(m) => m.percent_finished,
            None => None,
        }
    }

    /// The reader's progress in percent, rounded to the nearest whole number,
    /// halves upwards; `0` without metadata.
    pub fn progress_percentage_display(&self) -> (r: u32)
        ensures
            r as int == match self.koreader_metadata {
                Some(m) => match m.percent_finished {
                    Some(p) => (p + 5000) / 10000,
                    None => 0,
                },
                None => 0,
            },
    {
        match self.progress_millionths() {
            Some(p) => {
                let wide: u64 = (p as u64 + 5000) / 10000;
                wide as u32
            },
            None => 0,
        }
    }

    /// The annotations; none without metadata.
    pub fn annotations(&self) -> (r: &[Annotation])
        ensures
            r@ == self.annotations_of(),
    {
        match &self.koreader_metadata {
            Some(m) => m.annotations.as_slice(),
            None => &[],
        }
    }

    /// The number of annotations.
    pub fn annotation_count(&self) -> (r: usize)
        ensures
            r == self.annotations_of().len(),
    {
        match &self.koreader_metadata {
            Some(m) => m.annotations.len(),
            None => 0,
        }
    }

    /// The number of bookmarks among the annotations.
    pub fn bookmark_count(&self) -> (r: usize)
        ensures
            r as nat == bookmark_total(self.annotations_of()),
    {
        match &self.koreader_metadata {
            Some(m) => m.bookmark_count(),
            None => 0,
        }
    }

    /// The number of highlights: the annotations that are no bookmarks.
    pub fn highlight_count(&self) -> (r: usize)
        ensures
            r as nat == self.annotations_of().len() - bookmark_total(self.annotations_of()),
    {
        match &self.koreader_metadata {
            Some(m) => {
                proof {
                    lemma_bookmark_total_bound(m.annotations@);
                }
                m.annotations.len() - m.bookmark_count()
            },
            None => 0,
        }
    }

    /// The page count: the reader's where it recorded one, else the
    /// container's.
    pub fn doc_pages(&self) -> (r: Option<u32>)
        ensures
            r == match self.koreader_metadata {
                Some(m) => if m.doc_pages.is_some() {
                    m.doc_pages
                } else {
                    self.book_info.pages
                },
                None => self.book_info.pages,
            },
    {
        match &self.koreader_metadata {
            Some(m) => match m.doc_pages {
                Some(p) => Some(p),
                None => self.book_info.pages,
            },
            None => self.book_info.pages,
        }
    }

    /// The number of notes that the reader counted; `0` where it kept no count.
    pub fn note_count(&self) -> (r: usize)
        ensures
            r as int == match self.koreader_metadata {
                Some(m) => match m.stats {
                    Some(s) => match s.notes {
                        Some(n) => n as int,
                        None => 0,
                    },
                    None => 0,
                },
                None => 0,
            },
    {
        match &self.koreader_metadata {
            Some(m) => match &m.stats {
                Some(s) => match s.notes {
                    Some(n) => n as usize,
                    None => 0,
                },
                None => 0,
            },
            None => 0,
        }
    }

    /// The language: the container's where it names one, else the reader's.
    pub fn language(&self) -> (r: Option<&String>)
        ensures
            r == match self.book_info.language {
                Some(l) => Some(&l),
                None => match self.koreader_metadata {
                    Some(m) => match m.text_lang {
                        Some(t) => Some(&t),
                        None => None,
                    },
                    None => None,
                },
            },
    {
        match &self.book_info.language {
            Some(l) => Some(l),
            None => match &self.koreader_metadata {
                Some(m) => m.text_lang.as_ref(),
                None => None,
            },
        }
    }

    pub fn publisher(&self) -> (r: Option<&String>)
        ensures
            r == match self.book_info.publisher {
                Some(p) => Some(&p),
                None => None,
            },
    {
        self.book_info.publisher.as_ref()
    }

    /// The book's Hardcover identifiers in normal form: its page on
    /// Hardcover, as `hardcover`, and each of its editions below that page,
    /// as `hardcover-edition`. None where no identifier names the page.
    pub fn get_normalized_hardcover_identifiers(&self) -> (r: Vec<Identifier>)
        ensures
            identifier_views(r@) == as_identifiers(
                hardcover_candidates(
                    identifier_views(self.book_info.identifiers@),
                    lowered_schemes(self.book_info.identifiers@),
                ),
            ),
    {
        let lowered = lowered_schemes_of(&self.book_info.identifiers);
        hardcover_identifiers_from(&self.book_info.identifiers, &lowered)
    }

    /// The identifiers to show for the book.
    pub fn identifiers(&self) -> (r: Vec<Identifier>)
        ensures
            identifier_views(r@) == identifiers_of(
                identifier_views(self.book_info.identifiers@),
                lowered_schemes(self.book_info.identifiers@),
            ),
    {
        let lowered = lowered_schemes_of(&self.book_info.identifiers);
        identifiers_from(&self.book_info.identifiers, &lowered)
    }

    pub fn subjects(&self) -> (r: &Vec<String>)
        ensures
            r == &self.book_info.subjects,
    {
        &self.book_info.subjects
    }

    /// The subjects in one line, separated by a comma and a space; `None`
    /// where there are none.
    pub fn subjects_display(&self) -> (r: Option<String>)
        ensures
            text_of(r) == if self.book_info.subjects@.len() == 0 {
                None
            } else {
                Some(joined_with(texts(self.book_info.subjects@), ", "@))
            },
    {
        if self.book_info.subjects.len() == 0 {
            None
        } else {
            Some(join_texts(&self.book_info.subjects, ", "))
        }
    }

    pub fn series(&self) -> (r: Option<&String>)
        ensures
            r == match self.book_info.series {
                Some(s) => Some(&s),
                None => None,
            },
    {
        self.book_info.series.as_ref()
    }

    pub fn series_number(&self) -> (r: Option<&String>)
        ensures
            r == match self.book_info.series_number {
                Some(s) => Some(&s),
                None => None,
            },
    {
        self.book_info.series_number.as_ref()
    }

    /// The series with the book's number in it, as `Series #3`; the series
    /// alone where the number is missing; `None` without a series.
    pub fn series_display(&self) -> (r: Option<String>)
        ensures
            text_of(r) == match self.book_info.series {
                Some(s) => match self.book_info.series_number {
                    Some(n) => Some(s@ + " #"@ + n@),
                    None => Some(s@),
                },
                None => None,
            },
    {
        match &self.book_info.series {
            Some(s) => match &self.book_info.series_number {
                Some(n) => Some(concat3(s.as_str(), " #", n.as_str())),
                None => Some(s.clone()),
            },
            None => None,
        }
    }

    pub fn content_type(&self) -> (r: ContentType)
        ensures
            r == content_type_of(self.format),
    {
        self.format.content_type()
    }

    pub fn is_comic(&self) -> (r: bool)
        ensures
            r == (content_type_of(self.format) == ContentType::Comic),
    {
        self.content_type() == ContentType::Comic
    }

    pub fn is_book(&self) -> (r: bool)
        ensures
            r == (content_type_of(self.format) == ContentType::Book),
    {
        self.content_type() == ContentType::Book
    }
}

} // verus!
