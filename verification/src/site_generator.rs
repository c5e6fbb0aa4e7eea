//! What site generation decides before anything is written: which items are
//! shown, in which sections, with which statistics.

use vstd::prelude::*;
use crate::completions::{completions_of, entries_match, lemma_library_scope, same_book, type_for, type_views};
use crate::config::SiteConfig;
use crate::index::ContentHashSet;
use crate::library_item::{BookStatus, ContentType, LibraryItem, content_type_of};
use crate::paths::text_of;
use crate::reading_days::day_series;
use crate::scanner::MetadataLocation;
use crate::statistics::{ReadCompletion, RecordView, StatBook, StatisticsCalculator, StatisticsData, books_in_library, lemma_books_in_library, record_views, records_in_library, surviving};
use crate::text::{chars_of, concat3, decimal_value, is_decimal, is_digit, owned, signed_decimal_string, signed_decimal_text, text_eq};
use crate::time_config::TimeConfig;

verus! {

/// The configuration with which the server regenerates the site for the
/// items it holds: nothing is scanned, nothing is filtered.
pub fn regeneration_config(output_dir: &str, language: String) -> (r: SiteConfig)
    ensures
        r.output_dir@ == output_dir@,
        r.library_paths@.len() == 0,
        r.metadata_location == MetadataLocation::InBookFolder,
        r.statistics_db_path.is_none(),
        r.language == language,
        r.site_title@ == "KoShelf Library"@,
        r.include_unread,
        !r.include_all_stats,
        r.heatmap_scale_max.is_none(),
        r.min_pages_per_day.is_none(),
        r.min_time_per_day.is_none(),
        r.time_config.utc_offset_seconds == 0,
        r.time_config.offset_changes@.len() == 0,
        r.time_config.day_start_minutes == 0,
        r.is_internal_server,
{
    SiteConfig {
        output_dir: owned(output_dir),
        site_title: owned("KoShelf Library"),
        include_unread: true,
        library_paths: Vec::new(),
        metadata_location: MetadataLocation::InBookFolder,
        statistics_db_path: None,
        heatmap_scale_max: None,
        time_config: TimeConfig::new(0, 0),
        min_pages_per_day: None,
        min_time_per_day: None,
        include_all_stats: false,
        is_internal_server: true,
        language,
    }
}

/// The language in which the site is generated: the configured one, unless
/// that is plain English, for which the language chosen on the server holds.
pub fn effective_language(config_language: &str, global_locale: &str) -> (r: String)
    ensures
        r@ == if config_language@ != "en"@ {
            config_language@
        } else {
            global_locale@
        },
{
    if !text_eq(config_language, "en") {
        owned(config_language)
    } else {
        owned(global_locale)
    }
}

/// Whether an item is shown: one with metadata always; one without only
/// where unread items are asked for.
pub open spec fn is_shown(item: LibraryItem, include_unread: bool) -> bool {
    item.koreader_metadata.is_some() || (include_unread && match item.summary_of() {
        Some(s) => s.status == BookStatus::Unknown,
        None => true,
    })
}

/// The items that are shown, in order.
pub open spec fn shown_items(items: Seq<LibraryItem>, include_unread: bool) -> Seq<LibraryItem>
    decreases items.len(),
{
    if items.len() == 0 {
        Seq::empty()
    } else {
        let rest = shown_items(items.drop_last(), include_unread);
        if is_shown(items.last(), include_unread) {
            rest.push(items.last())
        } else {
            rest
        }
    }
}

/// Keeps the items that are shown.
pub fn retain_shown(items: Vec<LibraryItem>, include_unread: bool) -> (r: Vec<LibraryItem>)
    ensures
        r@ == shown_items(items@, include_unread),
{
    let mut out: Vec<LibraryItem> = Vec::new();
    assert(out@ =~= shown_items(items@.take(0), include_unread));
    for item in it: items.into_iter()
        invariant
            it.seq() == items@,
            out@ == shown_items(items@.take(it.index() as int), include_unread),
    {
        proof {
            let i = it.index() as int;
            assert(items@.take(i + 1).drop_last() =~= items@.take(i));
        }
        let shown = item.koreader_metadata.is_some() || (include_unread && item.status()
            == BookStatus::Unknown);
        if shown {
            out.push(item);
        }
    }
    assert(items@.take(items@.len() as int) =~= items@);
    out
}

/// The positions of the items of a kind, in order.
pub open spec fn positions_of(items: Seq<LibraryItem>, kind: ContentType) -> Seq<usize>
    decreases items.len(),
{
    if items.len() == 0 {
        Seq::empty()
    } else {
        let rest = positions_of(items.drop_last(), kind);
        if content_type_of(items.last().format) == kind {
            rest.push((items.len() - 1) as usize)
        } else {
            rest
        }
    }
}

/// Which sections the site has.
#[derive(Debug, Clone, Copy, PartialEq, Eq, Structural)]
pub struct NavContext {
    pub has_books: bool,
    pub has_comics: bool,
    /// Whether the statistics stand at the root: there are statistics and
    /// nothing else.
    pub stats_at_root: bool,
}

/// The items of a site by section.
#[derive(Debug, Clone)]
pub struct Sections {
    /// The positions of the books among the items.
    pub books: Vec<usize>,
    /// The positions of the comics among the items.
    pub comics: Vec<usize>,
    pub nav: NavContext,
}

/// Sorts the items into sections. `has_statistics` says whether statistics
/// will be shown.
pub fn sections(items: &Vec<LibraryItem>, has_statistics: bool) -> (r: Sections)
    ensures
        r.books@ == positions_of(items@, ContentType::Book),
        r.comics@ == positions_of(items@, ContentType::Comic),
        r.books@.len() + r.comics@.len() == items@.len(),
        r.nav.has_books == (r.books@.len() > 0),
        r.nav.has_comics == (r.comics@.len() > 0),
        r.nav.stats_at_root == (has_statistics && items@.len() == 0),
{
    let mut books: Vec<usize> = Vec::new();
    let mut comics: Vec<usize> = Vec::new();
    let mut i: usize = 0;
    while i < items.len()
        invariant
            i <= items.len(),
            books@ == positions_of(items@.take(i as int), ContentType::Book),
            comics@ == positions_of(items@.take(i as int), ContentType::Comic),
            books@.len() + comics@.len() == i,
        decreases items.len() - i,
    {
        proof {
            assert(items@.take(i + 1).drop_last() =~= items@.take(i as int));
        }
        if items[i].is_book() {
            books.push(i);
        } else {
            comics.push(i);
        }
        i += 1;
    }
    assert(items@.take(items.len() as int) =~= items@);
    let nav = NavContext {
        has_books: books.len() > 0,
        has_comics: comics.len() > 0,
        stats_at_root: has_statistics && items.len() == 0,
    };
    Sections { books, comics, nav }
}

/// The number that a short text stands for, with or without a sign in
/// front.
pub open spec fn signed_value(s: Seq<char>) -> Option<int> {
    if s.len() == 0 {
        None
    } else if s[0] == '-' {
        if is_decimal(s.skip(1)) {
            Some(-(decimal_value(s.skip(1)) as int))
        } else {
            None
        }
    } else if s[0] == '+' {
        if is_decimal(s.skip(1)) {
            Some(decimal_value(s.skip(1)) as int)
        } else {
            None
        }
    } else if is_decimal(s) {
        Some(decimal_value(s) as int)
    } else {
        None
    }
}

/// The year that a date begins with: its first four characters as a number.
pub open spec fn year_prefix(date: Seq<char>) -> Option<int> {
    if date.len() < 4 {
        None
    } else {
        signed_value(date.subrange(0, 4))
    }
}

/// The later of a year found so far and another year.
pub open spec fn later(so_far: Option<int>, year: Option<int>) -> Option<int> {
    match (so_far, year) {
        (Some(a), Some(b)) => Some(
            if a >= b {
                a
            } else {
                b
            },
        ),
        (Some(a), None) => Some(a),
        (None, y) => y,
    }
}

/// The latest year in which one of the completions ended, or `so_far` where
/// that is later.
pub open spec fn latest_end(entries: Seq<ReadCompletion>, so_far: Option<int>) -> Option<int>
    decreases entries.len(),
{
    if entries.len() == 0 {
        so_far
    } else {
        later(latest_end(entries.drop_last(), so_far), year_prefix(entries.last().end_date@))
    }
}

/// The latest year in which a book was completed.
pub open spec fn latest_completion_year(books: Seq<StatBook>) -> Option<int>
    decreases books.len(),
{
    if books.len() == 0 {
        None
    } else {
        match books.last().completions {
            Some(c) => latest_end(c.entries@, latest_completion_year(books.drop_last())),
            None => latest_completion_year(books.drop_last()),
        }
    }
}

/// The value of up to three digits.
fn small_number(v: &Vec<char>, from: usize, to: usize) -> (r: Option<i32>)
    requires
        from <= to <= v.len(),
        to - from <= 4,
    ensures
        r.is_some() == is_decimal(v@.subrange(from as int, to as int)),
        r matches Some(n) ==> n as int == decimal_value(v@.subrange(from as int, to as int)) && 0
            <= n <= 9999,
{
    let ghost s = v@.subrange(from as int, to as int);
    if from == to {
        return None;
    }
    let mut n: i32 = 0;
    let mut i: usize = from;
    assert(s.take(0) =~= Seq::<char>::empty());
    while i < to
        invariant
            from <= i <= to <= v.len(),
            to - from <= 4,
            s == v@.subrange(from as int, to as int),
            forall|j: int| 0 <= j < i - from ==> is_digit(#[trigger] s[j]),
            n as int == decimal_value(s.take(i - from)),
            0 <= n,
            i - from == 0 ==> n == 0,
            i - from == 1 ==> n <= 9,
            i - from == 2 ==> n <= 99,
            i - from == 3 ==> n <= 999,
            i - from == 4 ==> n <= 9999,
        decreases to - i,
    {
        let c = v[i];
        if !('0' <= c && c <= '9') {
            assert(!is_digit(s[i - from]));
            return None;
        }
        proof {
            assert(s.take(i - from + 1).drop_last() =~= s.take(i - from));
            assert(s.take(i - from + 1).last() == c);
        }
        n = n * 10 + ((c as u8) - 48u8) as i32;
        i += 1;
    }
    assert(s.take(to - from) =~= s);
    Some(n)
}

/// The year that a date begins with.
pub fn year_of(date: &str) -> (r: Option<i32>)
    ensures
        match r {
            Some(y) => year_prefix(date@) == Some(y as int),
            None => year_prefix(date@).is_none(),
        },
{
    let v = chars_of(date);
    if v.len() < 4 {
        return None;
    }
    let ghost s = v@.subrange(0, 4);
    if v[0] == '-' {
        assert(s.skip(1) =~= v@.subrange(1, 4));
        match small_number(&v, 1, 4) {
            Some(n) => Some(-n),
            None => None,
        }
    } else if v[0] == '+' {
        assert(s.skip(1) =~= v@.subrange(1, 4));
        small_number(&v, 1, 4)
    } else {
        small_number(&v, 0, 4)
    }
}

/// The later of two years.
fn later_of(so_far: Option<i32>, year: Option<i32>) -> (r: Option<i32>)
    ensures
        option_int(r) == later(option_int(so_far), option_int(year)),
{
    match (so_far, year) {
        (Some(a), Some(b)) => Some(
            if a >= b {
                a
            } else {
                b
            },
        ),
        (Some(a), None) => Some(a),
        (None, y) => y,
    }
}

/// An optional year as an optional integer.
pub open spec fn option_int(o: Option<i32>) -> Option<int> {
    match o {
        Some(n) => Some(n as int),
        None => None,
    }
}

/// The address of the latest yearly recap: that of the latest year in which
/// a book was completed. `None` without statistics and without completions.
pub fn recap_latest_href(stats_data: Option<&StatisticsData>) -> (r: Option<String>)
    ensures
        text_of(r) == match stats_data {
            Some(sd) => match latest_completion_year(sd.books@) {
                Some(y) => Some("/recap/"@ + signed_decimal_text(y) + "/"@),
                None => None,
            },
            None => None,
        },
{
    match stats_data {
        None => None,
        Some(sd) => {
            let mut latest: Option<i32> = None;
            let mut b: usize = 0;
            while b < sd.books.len()
                invariant
                    b <= sd.books.len(),
                    option_int(latest) == latest_completion_year(sd.books@.take(b as int)),
                decreases sd.books.len() - b,
            {
                proof {
                    assert(sd.books@.take(b + 1).drop_last() =~= sd.books@.take(b as int));
                }
                if let Some(c) = &sd.books[b].completions {
                    let ghost start = option_int(latest);
                    let mut e: usize = 0;
                    while e < c.entries.len()
                        invariant
                            e <= c.entries.len(),
                            option_int(latest) == latest_end(c.entries@.take(e as int), start),
                        decreases c.entries.len() - e,
                    {
                        proof {
                            assert(c.entries@.take(e + 1).drop_last() =~= c.entries@.take(e as int));
                        }
                        latest = later_of(latest, year_of(c.entries[e].end_date.as_str()));
                        e += 1;
                    }
                    assert(c.entries@.take(c.entries.len() as int) =~= c.entries@);
                }
                b += 1;
            }
            assert(sd.books@.take(sd.books.len() as int) =~= sd.books@);
            match latest {
                Some(y) => {
                    let year = signed_decimal_string(y as i64);
                    Some(concat3("/recap/", year.as_str(), "/"))
                },
                None => None,
            }
        },
    }
}

/// Whether the statistics are cut down to the library: unless all are asked
/// for.
pub open spec fn is_scoped(config: SiteConfig) -> bool {
    !config.include_all_stats
}

/// The sessions that the statistics are made of: those whose buckets reach
/// the minimums, where any is set; of these, those of the library, where the
/// statistics are cut down to it.
pub open spec fn aggregated_records(
    records: Seq<RecordView>,
    config: SiteConfig,
    library: Set<Seq<char>>,
) -> Seq<RecordView> {
    let reached = if config.min_pages_per_day.is_some() || config.min_time_per_day.is_some() {
        surviving(
            records,
            records,
            config.time_config,
            config.min_pages_per_day,
            config.min_time_per_day,
        )
    } else {
        records
    };
    if is_scoped(config) {
        records_in_library(reached, library)
    } else {
        reached
    }
}

/// The books that the statistics are about.
pub open spec fn aggregated_books(
    books: Seq<StatBook>,
    config: SiteConfig,
    library: Set<Seq<char>>,
) -> Seq<StatBook> {
    if is_scoped(config) {
        books_in_library(books, library)
    } else {
        books
    }
}

/// Turns the raw statistics into those that are shown, in this order: days
/// below a minimum are dropped; what is not of the library is dropped, where
/// the statistics are cut down to it; completions are derived from what is
/// left; every book is tagged as book or comic.
pub fn aggregate_statistics(
    data: &mut StatisticsData,
    config: &SiteConfig,
    library_md5s: &ContentHashSet,
    content_types: &Vec<(String, ContentType)>,
)
    ensures
        record_views(final(data).records@) == aggregated_records(
            record_views(old(data).records@),
            *config,
            library_md5s@,
        ),
        final(data).books@.len() == aggregated_books(
            old(data).books@,
            *config,
            library_md5s@,
        ).len(),
        forall|b: int|
            0 <= b < final(data).books@.len() ==> {
                let source = aggregated_books(
                    old(data).books@,
                    *config,
                    library_md5s@,
                )[b];
                &&& same_book(source, #[trigger] final(data).books@[b])
                &&& final(data).books@[b].content_type == type_for(
                    type_views(content_types@),
                    source.content_hash@,
                )
                &&& final(data).books@[b].completions.is_some()
                &&& entries_match(
                    final(data).books@[b].completions.unwrap().entries@,
                    completions_of(
                        day_series(
                            record_views(final(data).records@),
                            source.content_hash@,
                            config.time_config,
                        ),
                        source.pages as nat,
                    ),
                )
            },
{
    if config.min_pages_per_day.is_some() || config.min_time_per_day.is_some() {
        StatisticsCalculator::filter_stats(
            data,
            &config.time_config,
            config.min_pages_per_day,
            config.min_time_per_day,
        );
    }
    StatisticsCalculator::scope_to_library(
        data,
        config.include_all_stats,
        library_md5s,
    );
    StatisticsCalculator::populate_completions(data, &config.time_config);
    data.tag_content_types(content_types);
}

/// With the scope on the library, the statistics hold nothing foreign: every
/// session and every book that is left has a fingerprint of the library,
/// whatever the library holds and whatever is shown of it.
pub proof fn lemma_scope_excludes_foreign(
    records: Seq<RecordView>,
    books: Seq<StatBook>,
    config: SiteConfig,
    library: Set<Seq<char>>,
)
    requires
        !config.include_all_stats,
    ensures
        forall|i: int|
            0 <= i < aggregated_records(records, config, library).len() ==> library.contains(
                (#[trigger] aggregated_records(records, config, library)[i]).content_hash,
            ),
        forall|b: int|
            0 <= b < aggregated_books(books, config, library).len() ==> library.contains(
                (#[trigger] aggregated_books(books, config, library)[b]).content_hash@,
            ),
{
    let reached = if config.min_pages_per_day.is_some() || config.min_time_per_day.is_some() {
        surviving(
            records,
            records,
            config.time_config,
            config.min_pages_per_day,
            config.min_time_per_day,
        )
    } else {
        records
    };
    lemma_library_scope(reached, library);
    lemma_books_in_library(books, library);
}

/// With all statistics asked for, no session is left out for its book.
pub proof fn lemma_unscoped_keeps_all(
    records: Seq<RecordView>,
    books: Seq<StatBook>,
    config: SiteConfig,
    library: Set<Seq<char>>,
)
    requires
        config.include_all_stats,
        config.min_pages_per_day.is_none(),
        config.min_time_per_day.is_none(),
    ensures
        aggregated_records(records, config, library) == records,
        aggregated_books(books, config, library) == books,
{
}

} // verus!
