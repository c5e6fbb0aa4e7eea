use koshelf::cli::PathFact;
use koshelf::config::AppSettings;
use koshelf::i18n::{
    bcp47_language, get_available_locales, language_display_name, list_supported_languages,
    normalize_language, normalized_language, resource_chain, resource_names, split_message_key,
    strip_resource, supported_languages, LocaleFile,
};
use koshelf::koreader_metadata::{KoReaderMetadata, Summary};
use koshelf::library_item::{BookInfo, BookStatus, LibraryItem, LibraryItemFormat};
use koshelf::scanner::MetadataLocation;
use koshelf::server::{
    apply_language, browse_entries, index_page, library_counts, shelf, validate_setup, IndexPage,
    LibraryCounts, ListedEntry, SetupError, Shelf,
};
use koshelf::site_generator::{effective_language, regeneration_config, retain_shown, sections};
use koshelf::time_config::TimeConfig;

fn file(path: &str, contents: &str) -> LocaleFile {
    LocaleFile { path: path.to_string(), contents: contents.to_string() }
}

fn item(title: &str, format: LibraryItemFormat, status: Option<BookStatus>, progress: Option<u32>) -> LibraryItem {
    let metadata = if status.is_some() || progress.is_some() {
        let mut m = KoReaderMetadata::empty();
        m.percent_finished = progress;
        m.summary = status.map(|s| Summary { status: s, rating: None, note: None, modified: None });
        Some(m)
    } else {
        None
    };
    LibraryItem {
        id: title.to_lowercase(),
        book_info: BookInfo {
            title: title.to_string(),
            authors: Vec::new(),
            description: None,
            language: None,
            publisher: None,
            identifiers: Vec::new(),
            subjects: Vec::new(),
            series: None,
            series_number: None,
            pages: None,
            cover_data: None,
            cover_mime_type: None,
        },
        koreader_metadata: metadata,
        file_path: format!("/l/{}", title),
        format,
    }
}

fn entry(name: &str, is_dir: bool) -> ListedEntry {
    ListedEntry { name: name.to_string(), path: format!("/root/{}", name), is_dir }
}

#[test]
fn available_languages_are_named_and_ordered_by_name() {
    let files = vec![
        file("pt.ftl", "# Portuguese\n-lang-name = Português\nhello = Olá\n"),
        file("en.ftl", "  -lang-name   =   English  \r\n-lang-name = Other\n"),
        file("de.ftl", "hello = Hallo\n"),
        file("notes.txt", "-lang-name = Notes\n"),
        file("sub/fr.ftl", "-lang-name\n-lang-name-short = Fr\n-lang-name = Français\n"),
        file("zz.ftl", "-lang-name = \n"),
    ];
    let found: Vec<(String, String)> =
        get_available_locales(&files).into_iter().map(|l| (l.code, l.name)).collect();
    assert_eq!(
        found,
        vec![
            ("zz".to_string(), "".to_string()),
            ("de".to_string(), "DE".to_string()),
            ("en".to_string(), "English".to_string()),
            ("fr".to_string(), "Fr".to_string()),
            ("pt".to_string(), "Português".to_string()),
        ]
    );
    assert!(get_available_locales(&Vec::new()).is_empty());
}

#[test]
fn languages_of_one_name_keep_their_order() {
    let files = vec![
        file("b.ftl", "-lang-name = Same\n"),
        file("a.ftl", "-lang-name = Same\n"),
        file("c.ftl", "-lang-name = Earlier\n"),
    ];
    let codes: Vec<String> = get_available_locales(&files).into_iter().map(|l| l.code).collect();
    assert_eq!(codes, vec!["c", "b", "a"]);
}

#[test]
fn supported_languages_are_listed_by_dialect() {
    let files = vec![
        file("pt_BR.ftl", "-lang-name = Português (Brasil)\n-lang-dialect = pt_BR\n"),
        file("de.ftl", " -lang-dialect = de_DE \n-lang-name = Deutsch\n-lang-name = Deutsch (DE)\n"),
        file("en.ftl", "-lang-name = English\n"),
        file("readme.md", "-lang-name = No\n-lang-dialect = no_NO\n"),
        file("xx.ftl.ftl", "something = else\n"),
        file("dir/en.ftl", "-lang-dialect = en_US\n"),
        file("de_AT.ftl", "-lang-name = Deutsch (AT)\n-lang-dialect = de_DE\n"),
    ];
    let table = supported_languages(&files);
    assert_eq!(
        table,
        vec![
            ("de_DE".to_string(), "Deutsch (AT)".to_string()),
            ("en".to_string(), "Unknown (en)".to_string()),
            ("pt_BR".to_string(), "Português (Brasil)".to_string()),
            ("xx".to_string(), "Unknown (xx)".to_string()),
        ]
    );
    assert_eq!(
        list_supported_languages(&files),
        "Supported Languages:\n\n- de_DE: Deutsch (AT)\n- en: Unknown (en)\n- pt_BR: Português (Brasil)\n- xx: Unknown (xx)\n\nUsage:\n  --language <locale>    (e.g., --language de_DE)\n\n"
    );
    assert_eq!(
        list_supported_languages(&Vec::new()),
        "Supported Languages:\n\n\nUsage:\n  --language <locale>    (e.g., --language de_DE)\n\n"
    );
}

#[test]
fn language_tags_are_brought_into_normal_form() {
    assert_eq!(normalized_language("pt-br"), "pt_BR");
    assert_eq!(normalized_language("en_US"), "en_US");
    assert_eq!(normalized_language("DE"), "de");
    assert_eq!(normalized_language("zh-hans-cn"), "zh_Hans_CN");
    assert_eq!(normalized_language("not a language"), "en");
    assert_eq!(normalized_language(""), "en");
    assert_eq!(normalize_language(&Some("sr-Latn-RS".to_string())), "sr_Latn_RS");
    assert_eq!(normalize_language(&None), "en");
    assert_eq!(bcp47_language("pt_BR"), "pt-BR");
}

#[test]
fn resources_go_from_the_region_to_english() {
    assert_eq!(resource_names("pt_BR"), vec!["pt_BR.ftl", "pt.ftl", "en.ftl"]);
    assert_eq!(resource_names("fr"), vec!["fr.ftl", "en.ftl"]);
    assert_eq!(resource_names("en"), vec!["en.ftl"]);
    assert_eq!(resource_names("en_GB"), vec!["en_GB.ftl", "en.ftl"]);
    assert_eq!(resource_names("zh_Hans_CN"), vec!["zh_Hans_CN.ftl", "zh.ftl", "en.ftl"]);
    assert_eq!(resource_names("pt_"), vec!["pt.ftl", "en.ftl"]);
    let available = vec!["en.ftl".to_string(), "pt.ftl".to_string(), "de.ftl".to_string()];
    assert_eq!(resource_chain("pt_BR", &available), vec!["pt.ftl", "en.ftl"]);
    assert_eq!(resource_chain("fr", &available), vec!["en.ftl"]);
    assert_eq!(resource_chain("de", &Vec::new()), Vec::<String>::new());
}

#[test]
fn resources_lose_blank_lines_and_comments() {
    assert_eq!(
        strip_resource("# comment\n\nhello = Hi\n   \n  # indented comment\n  .attr = x\r\nbye = Bye\n"),
        "hello = Hi\n  .attr = x\nbye = Bye"
    );
    assert_eq!(strip_resource(""), "");
    assert_eq!(strip_resource("#only\n"), "");
}

#[test]
fn message_keys_name_a_message_and_an_attribute() {
    assert_eq!(split_message_key("title"), ("title".to_string(), None));
    assert_eq!(split_message_key("button.label"), ("button".to_string(), Some("label".to_string())));
    assert_eq!(split_message_key("a.b.c"), ("a".to_string(), Some("b.c".to_string())));
    assert_eq!(split_message_key("a."), ("a".to_string(), Some(String::new())));
}

#[test]
fn languages_without_a_name_show_their_code() {
    assert_eq!(language_display_name(Some("Deutsch".to_string()), "de"), "Deutsch");
    assert_eq!(language_display_name(None, "pt"), "PT");
    assert_eq!(language_display_name(None, "straße"), "STRASSE");
}

#[test]
fn the_root_shows_the_setup_until_settings_exist() {
    assert_eq!(index_page(false, false, false), IndexPage::Setup);
    assert_eq!(index_page(false, true, true), IndexPage::Setup);
    assert_eq!(index_page(true, false, false), IndexPage::Loading);
    assert_eq!(index_page(true, true, true), IndexPage::Application);
    assert_eq!(index_page(true, true, false), IndexPage::ReadFailure);
}

#[test]
fn browsing_offers_folders_first_then_stores() {
    let listed = vec![
        entry("zeta", true),
        entry("stats.sqlite3", false),
        entry(".hidden", true),
        entry("book.epub", false),
        entry("Alpha", true),
        entry("a.sqlite3", false),
        entry(".secret.sqlite3", false),
        entry("alpha", true),
        entry("dir.sqlite3", true),
    ];
    let offered: Vec<(String, bool)> =
        browse_entries(listed).into_iter().map(|e| (e.name, e.is_dir)).collect();
    assert_eq!(
        offered,
        vec![
            ("Alpha".to_string(), true),
            ("alpha".to_string(), true),
            ("dir.sqlite3".to_string(), true),
            ("zeta".to_string(), true),
            ("a.sqlite3".to_string(), false),
            ("stats.sqlite3".to_string(), false),
        ]
    );
    assert!(browse_entries(Vec::new()).is_empty());
}

#[test]
fn entries_of_one_name_keep_their_order() {
    let mut first = entry("same", true);
    first.path = "/one/same".to_string();
    let mut second = entry("same", true);
    second.path = "/two/same".to_string();
    let paths: Vec<String> = browse_entries(vec![first, second]).into_iter().map(|e| e.path).collect();
    assert_eq!(paths, vec!["/one/same", "/two/same"]);
}

#[test]
fn a_setup_needs_existing_folders_and_store() {
    let there = PathFact { exists: true, is_dir: true };
    let a_file = PathFact { exists: true, is_dir: false };
    let missing = PathFact { exists: false, is_dir: false };
    assert_eq!(validate_setup(&vec![there, there], &Some(a_file)), Ok(()));
    assert_eq!(validate_setup(&Vec::new(), &None), Ok(()));
    assert_eq!(validate_setup(&vec![there, a_file, missing], &None), Err(SetupError::InvalidLibraryPath(1)));
    assert_eq!(validate_setup(&vec![missing], &Some(missing)), Err(SetupError::InvalidLibraryPath(0)));
    assert_eq!(validate_setup(&vec![there], &Some(missing)), Err(SetupError::InvalidStatisticsPath));
}

#[test]
fn a_new_language_keeps_the_other_settings() {
    let saved = AppSettings {
        library_paths: vec!["/l".to_string()],
        statistics_db_path: Some("/own".to_string()),
        language: "en".to_string(),
    };
    let changed = apply_language(Some(saved.clone()), "de".to_string(), &Some("/served".to_string()));
    assert_eq!(changed.language, "de");
    assert_eq!(changed.library_paths, vec!["/l".to_string()]);
    assert_eq!(changed.statistics_db_path, Some("/own".to_string()));
    let mut without = saved;
    without.statistics_db_path = None;
    let filled = apply_language(Some(without), "fr".to_string(), &Some("/served".to_string()));
    assert_eq!(filled.statistics_db_path, Some("/served".to_string()));
    let fresh = apply_language(None, "pt".to_string(), &None);
    assert_eq!(fresh.language, "pt");
    assert!(fresh.library_paths.is_empty());
    assert_eq!(fresh.statistics_db_path, None);
}

#[test]
fn the_library_is_counted_by_shelf() {
    let items = vec![
        item("a", LibraryItemFormat::Epub, None, None),
        item("b", LibraryItemFormat::Epub, Some(BookStatus::Reading), Some(500_000)),
        item("c", LibraryItemFormat::Cbz, Some(BookStatus::Complete), Some(1_000_000)),
        item("d", LibraryItemFormat::Mobi, Some(BookStatus::Abandoned), Some(1_000_000)),
        item("e", LibraryItemFormat::Epub, None, Some(1)),
        item("f", LibraryItemFormat::Epub, None, Some(0)),
        item("g", LibraryItemFormat::Epub, Some(BookStatus::Abandoned), None),
        item("h", LibraryItemFormat::Epub, None, Some(999_999)),
        item("i", LibraryItemFormat::Epub, None, Some(2_000_000)),
    ];
    assert_eq!(
        library_counts(&items),
        LibraryCounts { total: 9, read: 2, reading: 3, unread: 2, paused: 2 }
    );
    assert_eq!(shelf(&items[0]), Shelf::Unread);
    assert_eq!(shelf(&items[1]), Shelf::Reading);
    assert_eq!(shelf(&items[2]), Shelf::Read);
    assert_eq!(shelf(&items[3]), Shelf::Paused);
    assert_eq!(
        library_counts(&Vec::new()),
        LibraryCounts { total: 0, read: 0, reading: 0, unread: 0, paused: 0 }
    );
}

#[test]
fn unread_items_are_shown_only_on_request() {
    let items = || vec![
        item("unread", LibraryItemFormat::Epub, None, None),
        item("read", LibraryItemFormat::Epub, Some(BookStatus::Complete), None),
        item("begun", LibraryItemFormat::Cbz, None, Some(10)),
    ];
    let titles = |v: Vec<LibraryItem>| -> Vec<String> { v.into_iter().map(|i| i.book_info.title).collect() };
    assert_eq!(titles(retain_shown(items(), false)), vec!["read", "begun"]);
    assert_eq!(titles(retain_shown(items(), true)), vec!["unread", "read", "begun"]);
    assert!(retain_shown(Vec::new(), true).is_empty());
}

#[test]
fn items_fall_into_sections() {
    let items = vec![
        item("c1", LibraryItemFormat::Cbz, None, None),
        item("b1", LibraryItemFormat::Epub, None, None),
        item("b2", LibraryItemFormat::Mobi, None, None),
        item("c2", LibraryItemFormat::Cbr, None, None),
        item("b3", LibraryItemFormat::Fb2, None, None),
    ];
    let s = sections(&items, true);
    assert_eq!(s.books, vec![1, 2, 4]);
    assert_eq!(s.comics, vec![0, 3]);
    assert!(s.nav.has_books && s.nav.has_comics && !s.nav.stats_at_root);
    let only_books = sections(&items[1..3].to_vec(), false);
    assert!(only_books.nav.has_books && !only_books.nav.has_comics);
    let empty = sections(&Vec::new(), true);
    assert!(!empty.nav.has_books && !empty.nav.has_comics && empty.nav.stats_at_root);
    assert!(!sections(&Vec::new(), false).nav.stats_at_root);
}

#[test]
fn regeneration_works_from_what_the_server_holds() {
    let config = regeneration_config("/out", "de".to_string());
    assert_eq!(config.output_dir, "/out");
    assert_eq!(config.language, "de");
    assert_eq!(config.site_title, "KoShelf Library");
    assert!(config.library_paths.is_empty());
    assert!(matches!(config.metadata_location, MetadataLocation::InBookFolder));
    assert!(config.statistics_db_path.is_none());
    assert!(config.include_unread && !config.include_all_stats && config.is_internal_server);
    assert_eq!(config.time_config, TimeConfig::new(0, 0));
    assert_eq!((config.heatmap_scale_max, config.min_pages_per_day, config.min_time_per_day), (None, None, None));
}

#[test]
fn plain_english_yields_to_the_chosen_language() {
    assert_eq!(effective_language("de", "fr"), "de");
    assert_eq!(effective_language("en", "fr"), "fr");
    assert_eq!(effective_language("en_US", "fr"), "en_US");
    assert_eq!(effective_language("en", "en"), "en");
}
