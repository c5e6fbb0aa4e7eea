use koshelf::library_item::{
    display_scheme_for, identifiers_from, url_for, BookInfo, BookStatus, ContentType, Identifier,
    LibraryItem, LibraryItemFormat, ParserKind,
};
use koshelf::koreader_metadata::{Annotation, DocumentStats, KoReaderMetadata, Summary};

fn info(title: &str) -> BookInfo {
    BookInfo {
        title: title.to_string(),
        authors: vec!["An Author".to_string()],
        description: None,
        language: None,
        publisher: None,
        identifiers: Vec::new(),
        subjects: Vec::new(),
        series: None,
        series_number: None,
        pages: None,
        cover_data: None,
        cover_mime_type: None,
    }
}

fn item(metadata: Option<KoReaderMetadata>) -> LibraryItem {
    LibraryItem {
        id: "a-book".to_string(),
        book_info: info("A Book"),
        koreader_metadata: metadata,
        file_path: "/library/a-book.epub".to_string(),
        format: LibraryItemFormat::Epub,
    }
}

fn note(pos: Option<&str>) -> Annotation {
    Annotation {
        chapter: None,
        datetime: None,
        pageno: None,
        text: None,
        note: None,
        pos0: pos.map(|p| p.to_string()),
        pos1: pos.map(|p| p.to_string()),
    }
}

#[test]
fn fb2_zip_is_fb2_not_zip() {
    assert_eq!(LibraryItemFormat::from_path("a.fb2.zip"), Some(LibraryItemFormat::Fb2));
    assert_eq!(LibraryItemFormat::from_path("/books/War and Peace.FB2.ZIP"), Some(LibraryItemFormat::Fb2));
    assert_eq!(LibraryItemFormat::from_path("a.zip"), None);
}

#[test]
fn extensions_match_without_regard_to_case() {
    assert_eq!(LibraryItemFormat::from_path("/x/y/BOOK.EPUB"), Some(LibraryItemFormat::Epub));
    assert_eq!(LibraryItemFormat::from_path("b.Fb2"), Some(LibraryItemFormat::Fb2));
    assert_eq!(LibraryItemFormat::from_path("c.mobi"), Some(LibraryItemFormat::Mobi));
    assert_eq!(LibraryItemFormat::from_path("d.cbz"), Some(LibraryItemFormat::Cbz));
    assert_eq!(LibraryItemFormat::from_path("e.cbr"), Some(LibraryItemFormat::Cbr));
}

#[test]
fn files_that_are_no_items_are_not_classified() {
    assert_eq!(LibraryItemFormat::from_path("notes.txt"), None);
    assert_eq!(LibraryItemFormat::from_path("epub"), None);
    assert_eq!(LibraryItemFormat::from_path(".epub"), None);
    assert_eq!(LibraryItemFormat::from_path("/"), None);
    assert_eq!(LibraryItemFormat::from_path(""), None);
    assert_eq!(LibraryItemFormat::from_path("book.epub.bak"), None);
}

#[test]
fn cbr_counts_only_where_enabled() {
    assert_eq!(LibraryItemFormat::classify("e.cbr", true), Some(LibraryItemFormat::Cbr));
    assert_eq!(LibraryItemFormat::classify("e.cbr", false), None);
    assert_eq!(LibraryItemFormat::classify("e.cbz", false), Some(LibraryItemFormat::Cbz));
    assert_eq!(LibraryItemFormat::from_extension("cbr", false), None);
}

#[test]
fn lowered_names_classify_directly() {
    let ext = Some("zip".to_string());
    assert_eq!(LibraryItemFormat::from_lowered("a.fb2.zip", &ext, true), Some(LibraryItemFormat::Fb2));
    assert_eq!(LibraryItemFormat::from_lowered("a.zip", &ext, true), None);
    assert_eq!(LibraryItemFormat::from_lowered("a", &None, true), None);
}

#[test]
fn metadata_file_names_follow_the_format() {
    assert_eq!(LibraryItemFormat::Epub.metadata_filename(), "metadata.epub.lua");
    assert_eq!(LibraryItemFormat::Fb2.metadata_filename(), "metadata.fb2.lua");
    assert_eq!(LibraryItemFormat::Mobi.metadata_filename(), "metadata.mobi.lua");
    assert_eq!(LibraryItemFormat::Cbz.metadata_filename(), "metadata.cbz.lua");
    assert_eq!(LibraryItemFormat::Cbr.metadata_filename(), "metadata.cbr.lua");
    assert!(LibraryItemFormat::is_metadata_file("metadata.cbz.lua"));
    assert!(!LibraryItemFormat::is_metadata_file("metadata.pdf.lua"));
    assert!(!LibraryItemFormat::is_metadata_file("METADATA.EPUB.LUA"));
}

#[test]
fn formats_fall_into_books_and_comics() {
    assert_eq!(LibraryItemFormat::Epub.content_type(), ContentType::Book);
    assert_eq!(LibraryItemFormat::Fb2.content_type(), ContentType::Book);
    assert_eq!(LibraryItemFormat::Mobi.content_type(), ContentType::Book);
    assert_eq!(LibraryItemFormat::Cbz.content_type(), ContentType::Comic);
    assert_eq!(LibraryItemFormat::Cbr.content_type(), ContentType::Comic);
    assert_eq!(ContentType::Book.label(), "book");
    assert_eq!(ContentType::Comic.label(), "comic");
}

#[test]
fn each_format_has_its_reader() {
    assert_eq!(LibraryItemFormat::Epub.parser(), ParserKind::Epub);
    assert_eq!(LibraryItemFormat::Fb2.parser(), ParserKind::Fb2);
    assert_eq!(LibraryItemFormat::Mobi.parser(), ParserKind::Mobi);
    assert_eq!(LibraryItemFormat::Cbz.parser(), ParserKind::Comic);
    assert_eq!(LibraryItemFormat::Cbr.parser(), ParserKind::Comic);
}

#[test]
fn status_labels_round_trip() {
    for s in [BookStatus::Reading, BookStatus::Complete, BookStatus::Abandoned, BookStatus::Unknown] {
        assert_eq!(BookStatus::from_label(&s.label()), s);
    }
    assert_eq!(BookStatus::from_label("finished"), BookStatus::Unknown);
    assert_eq!(BookStatus::Abandoned.label(), "abandoned");
}

#[test]
fn schemes_are_shown_under_their_names() {
    assert_eq!(Identifier::new("isbn".into(), "1".into()).display_scheme(), "ISBN");
    assert_eq!(Identifier::new("Google".into(), "1".into()).display_scheme(), "Google Books");
    assert_eq!(Identifier::new("MOBI-ASIN".into(), "1".into()).display_scheme(), "Amazon");
    assert_eq!(Identifier::new("lccn".into(), "1".into()).display_scheme(), "Library of Congress");
    assert_eq!(Identifier::new("hardcover-slug".into(), "1".into()).display_scheme(), "Hardcover");
    assert_eq!(Identifier::new("hardcover-edition".into(), "1".into()).display_scheme(), "Hardcover Edition");
    assert_eq!(Identifier::new("uuid".into(), "1".into()).display_scheme(), "uuid");
    assert_eq!(display_scheme_for("oclc", "OCLC"), "WorldCat");
    assert_eq!(display_scheme_for("other", "Other"), "Other");
}

#[test]
fn schemes_link_to_their_catalogues() {
    let url = |scheme: &str, value: &str| Identifier::new(scheme.into(), value.into()).url();
    assert_eq!(url("ISBN", "978"), Some("https://www.worldcat.org/isbn/978".to_string()));
    assert_eq!(url("google", "x"), Some("https://books.google.com/books?id=x".to_string()));
    assert_eq!(url("asin", "B0"), Some("https://www.amazon.com/dp/B0".to_string()));
    assert_eq!(url("goodreads", "7"), Some("https://www.goodreads.com/book/show/7".to_string()));
    assert_eq!(url("doi", "10.1/x"), Some("https://doi.org/10.1/x".to_string()));
    assert_eq!(url("kobo", "k"), Some("https://www.kobo.com/ebook/k".to_string()));
    assert_eq!(url("oclc", "9"), Some("https://www.worldcat.org/oclc/9".to_string()));
    assert_eq!(url("hardcover", "dune"), Some("https://hardcover.app/books/dune".to_string()));
    assert_eq!(url("lccn", "1"), None);
    assert_eq!(url("hardcover-slug", "dune"), None);
    assert_eq!(url_for("uuid", "1"), None);
    assert!(Identifier::new("Kobo".into(), "k".into()).is_linkable());
    assert!(!Identifier::new("uuid".into(), "k".into()).is_linkable());
}

#[test]
fn identifiers_put_hardcover_first_and_drop_repeats() {
    let mut it = item(None);
    it.book_info.identifiers = vec![
        Identifier::new("isbn".into(), "978".into()),
        Identifier::new("Hardcover-Edition".into(), "42".into()),
        Identifier::new("hardcover-slug".into(), "dune".into()),
        Identifier::new("ISBN".into(), "978".into()),
        Identifier::new("uuid".into(), "abc".into()),
        Identifier::new("hardcover".into(), "other".into()),
        Identifier::new("asin".into(), "B0".into()),
    ];
    let shown: Vec<(String, String)> =
        it.identifiers().into_iter().map(|i| (i.scheme, i.value)).collect();
    assert_eq!(
        shown,
        vec![
            ("hardcover".to_string(), "dune".to_string()),
            ("hardcover-edition".to_string(), "dune/editions/42".to_string()),
            ("isbn".to_string(), "978".to_string()),
            ("asin".to_string(), "B0".to_string()),
        ]
    );
}

#[test]
fn hardcover_identifiers_are_brought_into_normal_form() {
    let mut it = item(None);
    it.book_info.identifiers = vec![
        Identifier::new("HARDCOVER-EDITION".into(), "1".into()),
        Identifier::new("isbn".into(), "978".into()),
        Identifier::new("Hardcover-Slug".into(), "dune".into()),
        Identifier::new("hardcover".into(), "later".into()),
        Identifier::new("hardcover-edition".into(), "2".into()),
    ];
    let normal: Vec<(String, String)> = it
        .get_normalized_hardcover_identifiers()
        .into_iter()
        .map(|i| (i.scheme, i.value))
        .collect();
    assert_eq!(
        normal,
        vec![
            ("hardcover".to_string(), "dune".to_string()),
            ("hardcover-edition".to_string(), "dune/editions/1".to_string()),
            ("hardcover-edition".to_string(), "dune/editions/2".to_string()),
        ]
    );
    it.book_info.identifiers = vec![Identifier::new("hardcover-edition".into(), "2".into())];
    assert!(it.get_normalized_hardcover_identifiers().is_empty());
}

#[test]
fn identifiers_written_as_shown_are_left_out() {
    let mut it = item(None);
    it.book_info.identifiers = vec![Identifier::new("ISBN".into(), "978".into())];
    assert!(it.identifiers().is_empty());
    it.book_info.identifiers = vec![Identifier::new("hardcover-edition".into(), "9".into())];
    assert!(it.identifiers().is_empty());
}

#[test]
fn identifiers_from_takes_the_lowered_schemes() {
    let ids = vec![Identifier::new("X".into(), "1".into()), Identifier::new("Y".into(), "2".into())];
    let lowered = vec!["doi".to_string(), "y".to_string()];
    let shown = identifiers_from(&ids, &lowered);
    assert_eq!(shown.len(), 1);
    assert_eq!(shown[0].scheme, "X");
    assert_eq!(shown[0].value, "1");
}

#[test]
fn identifiers_without_their_lowered_schemes_keep_only_hardcover() {
    let ids = vec![
        Identifier::new("isbn".into(), "1".into()),
        Identifier::new("hardcover-edition".into(), "7".into()),
    ];
    let lowered = vec!["hardcover".to_string()];
    let shown: Vec<(String, String)> =
        identifiers_from(&ids, &lowered).into_iter().map(|i| (i.scheme, i.value)).collect();
    assert_eq!(
        shown,
        vec![
            ("hardcover".to_string(), "1".to_string()),
            ("hardcover-edition".to_string(), "1/editions/7".to_string()),
        ]
    );
    assert!(identifiers_from(&ids, &Vec::new()).is_empty());
    let beyond = vec!["x".to_string(), "y".to_string(), "hardcover".to_string()];
    assert!(identifiers_from(&ids, &beyond).is_empty());
}

#[test]
fn an_item_without_metadata_says_little() {
    let it = item(None);
    assert_eq!(it.status(), BookStatus::Unknown);
    assert_eq!(it.rating(), None);
    assert_eq!(it.star_display(), [false; 5]);
    assert_eq!(it.review_note(), None);
    assert_eq!(it.progress_millionths(), None);
    assert_eq!(it.progress_percentage_display(), 0);
    assert!(it.annotations().is_empty());
    assert_eq!(it.annotation_count(), 0);
    assert_eq!(it.bookmark_count(), 0);
    assert_eq!(it.highlight_count(), 0);
    assert_eq!(it.doc_pages(), None);
    assert_eq!(it.note_count(), 0);
    assert_eq!(it.language(), None);
    assert_eq!(it.publisher(), None);
    assert_eq!(it.subjects_display(), None);
    assert_eq!(it.series_display(), None);
    assert!(it.is_book());
    assert!(!it.is_comic());
    assert_eq!(it.content_type(), ContentType::Book);
}

#[test]
fn an_item_with_metadata_reports_it() {
    let mut m = KoReaderMetadata::empty();
    m.summary = Some(Summary {
        status: BookStatus::Reading,
        rating: Some(3),
        note: Some("fine".to_string()),
        modified: None,
    });
    m.percent_finished = Some(536_781);
    m.doc_pages = Some(320);
    m.stats = Some(DocumentStats { notes: Some(7), highlights: None, pages: None });
    m.text_lang = Some("de".to_string());
    m.annotations = vec![note(None), note(Some("p1")), note(None), note(Some("p2"))];
    let mut it = item(Some(m));
    it.book_info.pages = Some(300);
    it.book_info.subjects = vec!["History".to_string(), "War".to_string(), "Europe".to_string()];
    it.book_info.series = Some("Saga".to_string());
    it.book_info.series_number = Some("2".to_string());
    it.book_info.publisher = Some("Press".to_string());
    assert_eq!(it.status(), BookStatus::Reading);
    assert_eq!(it.rating(), Some(3));
    assert_eq!(it.star_display(), [true, true, true, false, false]);
    assert_eq!(it.review_note(), Some(&"fine".to_string()));
    assert_eq!(it.progress_millionths(), Some(536_781));
    assert_eq!(it.progress_percentage_display(), 54);
    assert_eq!(it.annotations().len(), 4);
    assert_eq!(it.annotation_count(), 4);
    assert_eq!(it.bookmark_count(), 2);
    assert_eq!(it.highlight_count(), 2);
    assert_eq!(it.doc_pages(), Some(320));
    assert_eq!(it.note_count(), 7);
    assert_eq!(it.language(), Some(&"de".to_string()));
    assert_eq!(it.publisher(), Some(&"Press".to_string()));
    assert_eq!(it.subjects().len(), 3);
    assert_eq!(it.subjects_display(), Some("History, War, Europe".to_string()));
    assert_eq!(it.series(), Some(&"Saga".to_string()));
    assert_eq!(it.series_number(), Some(&"2".to_string()));
    assert_eq!(it.series_display(), Some("Saga #2".to_string()));
}

#[test]
fn progress_rounds_halves_upwards() {
    let shown = |p: u32| {
        let mut m = KoReaderMetadata::empty();
        m.percent_finished = Some(p);
        item(Some(m)).progress_percentage_display()
    };
    assert_eq!(shown(0), 0);
    assert_eq!(shown(4_999), 0);
    assert_eq!(shown(5_000), 1);
    assert_eq!(shown(994_999), 99);
    assert_eq!(shown(995_000), 100);
    assert_eq!(shown(1_000_000), 100);
    assert_eq!(shown(u32::MAX), 429_497);
}

#[test]
fn the_container_gives_pages_and_language_where_the_reader_does_not() {
    let mut it = item(Some(KoReaderMetadata::empty()));
    it.book_info.pages = Some(300);
    it.book_info.language = Some("en".to_string());
    assert_eq!(it.doc_pages(), Some(300));
    assert_eq!(it.language(), Some(&"en".to_string()));
    it.book_info.series = Some("Saga".to_string());
    assert_eq!(it.series_display(), Some("Saga".to_string()));
    it.book_info.series = None;
    it.book_info.series_number = Some("2".to_string());
    assert_eq!(it.series_display(), None);
}

#[test]
fn five_stars_light_up_one_by_one() {
    for rating in 0u32..=7 {
        let mut m = KoReaderMetadata::empty();
        m.summary = Some(Summary { status: BookStatus::Complete, rating: Some(rating), note: None, modified: None });
        let stars = item(Some(m)).star_display();
        for (i, lit) in stars.iter().enumerate() {
            assert_eq!(*lit, rating as usize >= i + 1);
        }
    }
}

#[test]
fn bookmarks_have_no_text_range() {
    assert!(note(None).is_bookmark());
    assert!(!note(None).is_highlight());
    assert!(note(Some("x")).is_highlight());
    let mut half = note(None);
    half.pos1 = Some("end".to_string());
    assert!(half.is_highlight());
}
