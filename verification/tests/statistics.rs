use koshelf::completions::{
    content_type_for, content_type_table, date_text, derive_completions,
};
use koshelf::config::SiteConfig;
use koshelf::index::ContentHashSet;
use koshelf::koreader_metadata::KoReaderMetadata;
use koshelf::library_item::{BookInfo, ContentType, LibraryItem, LibraryItemFormat};
use koshelf::reading_days::{book_days, DayBucket};
use koshelf::scanner::MetadataLocation;
use koshelf::site_generator::{aggregate_statistics, recap_latest_href, year_of};
use koshelf::statistics::{
    BookCompletions, ReadCompletion, StatBook, StatisticsCalculator, StatisticsData,
    StatisticsRecord,
};
use koshelf::time_config::{parse_day_start, OffsetChange, TimeConfig, TimeConfigError};

const DAY: i64 = 86_400;
const JAN_1_2024: i64 = 19_723;

fn at(day: i64, hour: i64, minute: i64) -> i64 {
    day * DAY + hour * 3600 + minute * 60
}

fn record(hash: &str, date: i64, pages: u32, seconds: u32) -> StatisticsRecord {
    StatisticsRecord { content_hash: hash.to_string(), date, pages_read: pages, duration_seconds: seconds }
}

fn book(hash: &str, pages: u32) -> StatBook {
    StatBook {
        content_hash: hash.to_string(),
        title: format!("Title of {}", hash),
        pages,
        content_type: None,
        completions: None,
    }
}

fn library(hashes: &[&str]) -> ContentHashSet {
    let mut set = ContentHashSet::new();
    for h in hashes {
        set.insert(h.to_string());
    }
    set
}

fn config(min_pages: Option<u32>, min_time: Option<u32>, include_all: bool, tc: TimeConfig) -> SiteConfig {
    SiteConfig {
        output_dir: String::new(),
        site_title: String::new(),
        include_unread: false,
        library_paths: Vec::new(),
        metadata_location: MetadataLocation::InBookFolder,
        statistics_db_path: None,
        heatmap_scale_max: None,
        time_config: tc,
        min_pages_per_day: min_pages,
        min_time_per_day: min_time,
        include_all_stats: include_all,
        is_internal_server: false,
        language: "en".to_string(),
    }
}

fn dates(data: &StatisticsData) -> Vec<(String, i64)> {
    data.records.iter().map(|r| (r.content_hash.clone(), r.date)).collect()
}

#[test]
fn half_past_midnight_belongs_to_the_day_before() {
    let tc = TimeConfig::new(0, 4 * 60);
    assert_eq!(tc.logical_day(at(JAN_1_2024 + 1, 0, 30)), JAN_1_2024);
    assert_eq!(tc.logical_day(at(JAN_1_2024 + 1, 3, 59)), JAN_1_2024);
    assert_eq!(tc.logical_day(at(JAN_1_2024 + 1, 4, 0)), JAN_1_2024 + 1);
    assert_eq!(tc.logical_day(at(JAN_1_2024 + 1, 23, 59)), JAN_1_2024 + 1);
}

#[test]
fn the_zone_decides_the_local_time() {
    let east = TimeConfig::new(3600, 4 * 60);
    assert_eq!(east.logical_day(at(JAN_1_2024, 23, 30)), JAN_1_2024);
    assert_eq!(east.logical_day(at(JAN_1_2024 + 1, 3, 0)), JAN_1_2024 + 1);
    let west = TimeConfig::new(-5 * 3600, 0);
    assert_eq!(west.logical_day(at(JAN_1_2024, 4, 59)), JAN_1_2024 - 1);
    assert_eq!(west.logical_day(at(JAN_1_2024, 5, 0)), JAN_1_2024);
}

#[test]
fn summer_time_moves_the_day_boundary() {
    // Berlin in 2024: one hour ahead of UTC, two from 31 March 01:00 UTC to 27 October 01:00 UTC.
    let spring = at(19_813, 1, 0);
    let autumn = at(20_023, 1, 0);
    let berlin = TimeConfig::new(3600, 0).with_changes(vec![
        OffsetChange { at: spring, utc_offset_seconds: 7200 },
        OffsetChange { at: autumn, utc_offset_seconds: 3600 },
    ]);
    assert_eq!(berlin.utc_offset_at(spring - 1), 3600);
    assert_eq!(berlin.utc_offset_at(spring), 7200);
    assert_eq!(berlin.utc_offset_at(autumn - 1), 7200);
    assert_eq!(berlin.utc_offset_at(autumn), 3600);
    assert_eq!(berlin.utc_offset_at(i64::MIN), 3600);
    // 22:30 UTC is 23:30 in winter and 00:30 of the next day in summer.
    assert_eq!(berlin.logical_day(at(JAN_1_2024, 22, 30)), JAN_1_2024);
    assert_eq!(berlin.logical_day(at(19_900, 22, 30)), 19_901);
    assert_eq!(berlin.logical_day(at(20_100, 22, 30)), 20_100);
}

#[test]
fn days_before_the_epoch_and_at_the_ends_of_time_are_counted() {
    let midnight = TimeConfig::new(0, 0);
    assert_eq!(midnight.logical_day(0), 0);
    assert_eq!(midnight.logical_day(-1), -1);
    assert_eq!(midnight.logical_day(-86_400), -1);
    assert_eq!(midnight.logical_day(-86_401), -2);
    assert_eq!(midnight.logical_day(i64::MAX), 106_751_991_167_300);
    assert_eq!(midnight.logical_day(i64::MIN), -106_751_991_167_301);
    let extreme = TimeConfig::new(i32::MIN, 1439);
    assert_eq!(extreme.logical_day(i64::MIN), (i64::MIN as i128 + i32::MIN as i128 - 1439 * 60).div_euclid(86_400) as i64);
    assert_eq!(TimeConfig::new(7, 1500).day_start_minutes, 60);
}

#[test]
fn day_starts_are_read_as_hours_and_minutes() {
    assert_eq!(parse_day_start("00:00"), Ok(0));
    assert_eq!(parse_day_start("04:00"), Ok(240));
    assert_eq!(parse_day_start("23:59"), Ok(1439));
    assert_eq!(parse_day_start("24:00"), Err(TimeConfigError::OutOfRange));
    assert_eq!(parse_day_start("12:60"), Err(TimeConfigError::OutOfRange));
    assert_eq!(parse_day_start("4:00"), Err(TimeConfigError::Malformed));
    assert_eq!(parse_day_start("04-00"), Err(TimeConfigError::Malformed));
    assert_eq!(parse_day_start("0400"), Err(TimeConfigError::Malformed));
    assert_eq!(parse_day_start("ab:cd"), Err(TimeConfigError::Malformed));
    assert_eq!(parse_day_start(""), Err(TimeConfigError::Malformed));
    assert_eq!(
        TimeConfig::from_cli(3600, &Some("04:30".to_string())),
        Ok(TimeConfig::new(3600, 270))
    );
    assert_eq!(TimeConfig::from_cli(0, &None), Ok(TimeConfig::new(0, 0)));
    assert_eq!(TimeConfig::from_cli(0, &Some("25:00".to_string())), Err(TimeConfigError::OutOfRange));
}

#[test]
fn a_day_below_the_page_minimum_is_dropped_whole() {
    let tc = TimeConfig::new(0, 0);
    let mut data = StatisticsData::new(
        vec![book("a", 20)],
        vec![
            record("a", at(1, 10, 0), 2, 600),
            record("a", at(1, 20, 0), 3, 600),
            record("a", at(2, 10, 0), 20, 600),
        ],
    );
    StatisticsCalculator::filter_stats(&mut data, &tc, Some(10), None);
    assert_eq!(dates(&data), vec![("a".to_string(), at(2, 10, 0))]);
    StatisticsCalculator::populate_completions(&mut data, &tc);
    let entries = &data.books[0].completions.as_ref().unwrap().entries;
    assert_eq!(entries.len(), 1);
    assert_eq!((entries[0].start_day, entries[0].end_day), (2, 2));
    assert_eq!(entries[0].start_date, "1970-01-03");
}

#[test]
fn thresholds_look_at_whole_buckets() {
    let tc = TimeConfig::new(0, 4 * 60);
    let records = vec![
        record("a", at(5, 23, 0), 6, 100),
        record("b", at(5, 23, 30), 9, 5000),
        record("a", at(6, 1, 0), 4, 100),
        record("a", at(6, 5, 0), 9, 900),
        record("a", at(6, 6, 0), 0, 0),
    ];
    let mut by_pages = StatisticsData::new(Vec::new(), records.clone());
    StatisticsCalculator::filter_stats(&mut by_pages, &tc, Some(10), None);
    assert_eq!(dates(&by_pages), vec![("a".to_string(), at(5, 23, 0)), ("a".to_string(), at(6, 1, 0))]);
    let mut by_time = StatisticsData::new(Vec::new(), records.clone());
    StatisticsCalculator::filter_stats(&mut by_time, &tc, None, Some(900));
    assert_eq!(
        dates(&by_time),
        vec![("b".to_string(), at(5, 23, 30)), ("a".to_string(), at(6, 5, 0)), ("a".to_string(), at(6, 6, 0))]
    );
    let mut both = StatisticsData::new(Vec::new(), records.clone());
    StatisticsCalculator::filter_stats(&mut both, &tc, Some(9), Some(900));
    assert_eq!(
        dates(&both),
        vec![("b".to_string(), at(5, 23, 30)), ("a".to_string(), at(6, 5, 0)), ("a".to_string(), at(6, 6, 0))]
    );
    let mut none = StatisticsData::new(Vec::new(), records.clone());
    StatisticsCalculator::filter_stats(&mut none, &tc, None, None);
    assert_eq!(none.records.len(), 5);
}

#[test]
fn the_library_scope_keeps_only_its_books() {
    let records = vec![record("in", 10, 1, 1), record("out", 20, 1, 1), record("in", 30, 1, 1)];
    let books = vec![book("out", 1), book("in", 1)];
    let set = library(&["in", "other"]);
    let mut scoped = StatisticsData::new(books.clone(), records.clone());
    StatisticsCalculator::scope_to_library(&mut scoped, false, &set);
    assert_eq!(dates(&scoped), vec![("in".to_string(), 10), ("in".to_string(), 30)]);
    assert_eq!(scoped.books.len(), 1);
    assert_eq!(scoped.books[0].content_hash, "in");
    let mut all = StatisticsData::new(books.clone(), records.clone());
    StatisticsCalculator::scope_to_library(&mut all, true, &set);
    assert_eq!(all.records.len(), 3);
    assert_eq!(all.books.len(), 2);
    let mut empty_library = StatisticsData::new(books.clone(), records.clone());
    StatisticsCalculator::scope_to_library(&mut empty_library, false, &library(&[]));
    assert!(empty_library.records.is_empty() && empty_library.books.is_empty());
    let mut unscoped = StatisticsData::new(books.clone(), records.clone());
    StatisticsCalculator::scope_to_library(&mut unscoped, true, &library(&[]));
    assert_eq!((unscoped.records.len(), unscoped.books.len()), (3, 2));
    let mut direct = StatisticsData::new(books, records);
    StatisticsCalculator::filter_to_library(&mut direct, &library(&[]));
    assert!(direct.records.is_empty() && direct.books.is_empty());
}

#[test]
fn days_are_summed_and_ordered() {
    let tc = TimeConfig::new(0, 0);
    let records = vec![
        record("a", at(7, 1, 0), 5, 50),
        record("b", at(3, 1, 0), 100, 100),
        record("a", at(3, 1, 0), 1, 10),
        record("a", at(7, 9, 0), 6, 60),
        record("a", at(5, 1, 0), 2, 20),
        record("a", at(-2, 1, 0), 9, 90),
    ];
    assert_eq!(
        book_days(&records, "a", &tc),
        vec![
            DayBucket { day: -2, pages_read: 9, duration_seconds: 90 },
            DayBucket { day: 3, pages_read: 1, duration_seconds: 10 },
            DayBucket { day: 5, pages_read: 2, duration_seconds: 20 },
            DayBucket { day: 7, pages_read: 11, duration_seconds: 110 },
        ]
    );
    assert_eq!(book_days(&records, "none", &tc), Vec::<DayBucket>::new());
    let big = vec![record("a", 0, u32::MAX, u32::MAX), record("a", 1, u32::MAX, u32::MAX)];
    assert_eq!(book_days(&big, "a", &tc)[0].pages_read, 2 * u32::MAX as u128);
}

#[test]
fn a_book_is_complete_when_its_pages_are_read() {
    let day = |day: i64, pages: u128| DayBucket { day, pages_read: pages, duration_seconds: 0 };
    let days = vec![day(1, 40), day(2, 40), day(5, 30), day(9, 100), day(10, 99), day(20, 2), day(30, 5)];
    assert_eq!(derive_completions(&days, 100), vec![(1, 5), (9, 9), (10, 20)]);
    assert_eq!(derive_completions(&days, 0), Vec::<(i64, i64)>::new());
    assert_eq!(derive_completions(&days, 1000), Vec::<(i64, i64)>::new());
    assert_eq!(derive_completions(&Vec::new(), 10), Vec::<(i64, i64)>::new());
    assert_eq!(derive_completions(&vec![day(4, u128::MAX), day(5, u128::MAX)], u32::MAX), vec![(4, 4), (5, 5)]);
    assert_eq!(derive_completions(&vec![day(1, 0), day(2, 1)], 1), vec![(1, 2)]);
}

#[test]
fn days_are_written_as_calendar_dates() {
    assert_eq!(date_text(0), "1970-01-01");
    assert_eq!(date_text(JAN_1_2024), "2024-01-01");
    assert_eq!(date_text(19_782), "2024-02-29");
    assert_eq!(date_text(-1), "1969-12-31");
    assert_eq!(date_text(-719_163), "0000-12-31");
    assert_eq!(date_text(i64::MAX), "");
    assert_eq!(date_text(i64::MIN), "");
    assert_eq!(date_text(2_147_483_647), "");
    assert_eq!(date_text(100_000_000), "");
}

#[test]
fn completions_are_filled_in_for_every_book() {
    let tc = TimeConfig::new(0, 0);
    let mut data = StatisticsData::new(
        vec![book("a", 10), book("b", 10), book("c", 0)],
        vec![
            record("a", at(JAN_1_2024, 8, 0), 4, 60),
            record("b", at(JAN_1_2024, 9, 0), 3, 60),
            record("a", at(JAN_1_2024 + 2, 8, 0), 6, 60),
            record("a", at(JAN_1_2024 + 40, 8, 0), 10, 60),
            record("c", at(JAN_1_2024, 8, 0), 500, 60),
        ],
    );
    StatisticsCalculator::populate_completions(&mut data, &tc);
    let spans = |i: usize| -> Vec<(String, String)> {
        data.books[i].completions.as_ref().unwrap().entries.iter()
            .map(|e| (e.start_date.clone(), e.end_date.clone())).collect()
    };
    assert_eq!(
        spans(0),
        vec![
            ("2024-01-01".to_string(), "2024-01-03".to_string()),
            ("2024-02-10".to_string(), "2024-02-10".to_string()),
        ]
    );
    assert!(spans(1).is_empty());
    assert!(spans(2).is_empty());
    assert_eq!(data.records.len(), 5);
    assert_eq!(data.books[0].title, "Title of a");
}

#[test]
fn books_are_tagged_by_fingerprint() {
    let table = vec![
        ("a".to_string(), ContentType::Book),
        ("b".to_string(), ContentType::Comic),
        ("a".to_string(), ContentType::Comic),
    ];
    assert_eq!(content_type_for(&table, "a"), Some(ContentType::Comic));
    assert_eq!(content_type_for(&table, "b"), Some(ContentType::Comic));
    assert_eq!(content_type_for(&table, "c"), None);
    let mut data = StatisticsData::new(vec![book("b", 1), book("c", 1), book("a", 1)], Vec::new());
    data.books[1].content_type = Some(ContentType::Book);
    data.tag_content_types(&table);
    let tags: Vec<Option<ContentType>> = data.books.iter().map(|b| b.content_type).collect();
    assert_eq!(tags, vec![Some(ContentType::Comic), None, Some(ContentType::Comic)]);
}

#[test]
fn the_type_table_joins_items_by_their_fingerprints() {
    let item = |format: LibraryItemFormat, checksum: Option<&str>, with_metadata: bool| LibraryItem {
        id: "x".to_string(),
        book_info: BookInfo {
            title: "x".to_string(),
            authors: Vec::new(),
            description: None,
            language: None,
            publisher: None,
            identifiers: Vec::new(),
            subjects: Vec::new(),
            series: None,
            series_number: None,
            pages: None,
            cover_data: None,
            cover_mime_type: None,
        },
        koreader_metadata: if with_metadata {
            let mut m = KoReaderMetadata::empty();
            m.partial_md5_checksum = checksum.map(|c| c.to_string());
            Some(m)
        } else {
            None
        },
        file_path: "x".to_string(),
        format,
    };
    let items = vec![
        item(LibraryItemFormat::Epub, Some("rec"), true),
        item(LibraryItemFormat::Cbz, None, true),
        item(LibraryItemFormat::Mobi, None, false),
        item(LibraryItemFormat::Cbr, None, false),
    ];
    assert!(content_type_table(&items, &vec![Some("f0".to_string())]).is_empty());
    let file_hashes = vec![Some("f0".to_string()), Some("f1".to_string()), None, Some("f3".to_string())];
    assert_eq!(
        content_type_table(&items, &file_hashes),
        vec![
            ("rec".to_string(), ContentType::Book),
            ("f1".to_string(), ContentType::Comic),
            ("f3".to_string(), ContentType::Comic),
        ]
    );
}

#[test]
fn aggregation_filters_scopes_completes_and_tags_in_that_order() {
    let tc = TimeConfig::new(0, 0);
    let mut data = StatisticsData::new(
        vec![book("in", 10), book("out", 10)],
        vec![
            record("in", at(1, 8, 0), 5, 60),
            record("in", at(2, 8, 0), 10, 60),
            record("out", at(2, 8, 0), 10, 60),
            record("in", at(3, 8, 0), 9, 60),
        ],
    );
    let table = vec![("in".to_string(), ContentType::Comic)];
    aggregate_statistics(&mut data, &config(Some(10), None, false, tc.clone()), &library(&["in"]), &table);
    assert_eq!(dates(&data), vec![("in".to_string(), at(2, 8, 0))]);
    assert_eq!(data.books.len(), 1);
    assert_eq!(data.books[0].content_type, Some(ContentType::Comic));
    let entries = &data.books[0].completions.as_ref().unwrap().entries;
    assert_eq!(entries.len(), 1);
    assert_eq!((entries[0].start_day, entries[0].end_day), (2, 2));
}

#[test]
fn aggregation_without_scope_keeps_every_book() {
    let tc = TimeConfig::new(0, 0);
    let mut data = StatisticsData::new(
        vec![book("in", 10), book("out", 10)],
        vec![record("in", at(1, 8, 0), 5, 60), record("out", at(2, 8, 0), 10, 60)],
    );
    aggregate_statistics(&mut data, &config(None, None, true, tc.clone()), &library(&["in"]), &Vec::new());
    assert_eq!(data.records.len(), 2);
    assert_eq!(data.books.len(), 2);
    assert_eq!(data.books[1].completions.as_ref().unwrap().entries.len(), 1);
    assert_eq!(data.books[0].completions.as_ref().unwrap().entries.len(), 0);
    assert_eq!(data.books[0].content_type, None);
}

#[test]
fn the_scope_holds_where_no_item_is_shown() {
    let tc = TimeConfig::new(0, 0);
    let mut data = StatisticsData::new(
        vec![book("foreign", 10), book("hidden", 10)],
        vec![record("foreign", at(1, 8, 0), 10, 60), record("hidden", at(2, 8, 0), 10, 60)],
    );
    aggregate_statistics(&mut data, &config(None, None, false, tc.clone()), &library(&["hidden"]), &Vec::new());
    assert_eq!(dates(&data), vec![("hidden".to_string(), at(2, 8, 0))]);
    assert_eq!(data.books.len(), 1);
    assert_eq!(data.books[0].content_hash, "hidden");
    let mut nothing = StatisticsData::new(vec![book("foreign", 10)], vec![record("foreign", at(1, 8, 0), 10, 60)]);
    aggregate_statistics(&mut nothing, &config(None, None, false, tc), &library(&[]), &Vec::new());
    assert!(nothing.records.is_empty() && nothing.books.is_empty());
}

#[test]
fn the_latest_recap_is_that_of_the_latest_completion() {
    let completion = |end: &str| ReadCompletion {
        start_day: 0,
        end_day: 0,
        start_date: "2000-01-01".to_string(),
        end_date: end.to_string(),
    };
    let with = |ends: &[&str]| {
        let mut b = book("x", 1);
        b.completions = Some(BookCompletions { entries: ends.iter().map(|e| completion(e)).collect() });
        b
    };
    let data = StatisticsData::new(
        vec![with(&["2021-05-01", "2023-01-09"]), book("y", 1), with(&["2022-12-31", "bad", ""])],
        Vec::new(),
    );
    assert_eq!(recap_latest_href(Some(&data)), Some("/recap/2023/".to_string()));
    assert_eq!(recap_latest_href(None), None);
    let none = StatisticsData::new(vec![book("y", 1), with(&[]), with(&["soon"])], Vec::new());
    assert_eq!(recap_latest_href(Some(&none)), None);
    let old = StatisticsData::new(vec![with(&["-044-03-15", "-100-01-01"])], Vec::new());
    assert_eq!(recap_latest_href(Some(&old)), Some("/recap/-44/".to_string()));
}

#[test]
fn years_are_the_first_four_characters() {
    assert_eq!(year_of("2024-01-01"), Some(2024));
    assert_eq!(year_of("0001-01-01"), Some(1));
    assert_eq!(year_of("+10000-01-01"), Some(100));
    assert_eq!(year_of("-0044-03-15"), Some(-4));
    assert_eq!(year_of("20a4"), None);
    assert_eq!(year_of("202"), None);
    assert_eq!(year_of("----"), None);
    assert_eq!(year_of("+-12"), None);
    assert_eq!(year_of(""), None);
}
