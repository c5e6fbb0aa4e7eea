//! Completions: the spans of days over which a book was read from its first
//! page to its last, derived from the days on which it was read.

use vstd::prelude::*;
use crate::index::ContentHashSet;
use crate::koreader_metadata::KoReaderMetadata;
use crate::library_item::{ContentType, LibraryItem, content_type_of};
use crate::paths::text_of;
use crate::reading_days::{DayBucket, DayView, book_days, day_series, day_views, has_day, lemma_day_series};
use crate::scanner::recorded_hash;
use crate::statistics::{BookCompletions, ReadCompletion, RecordView, StatBook, StatisticsCalculator, StatisticsData, books_in_library, bucket_pages, bucket_seconds, bucket_survives, in_bucket, lemma_surviving_sound, record_day, record_views, records_in_library, surviving, totals_suffice};
use crate::text::text_eq;
use crate::time_config::TimeConfig;

verus! {

/// What `NaiveDate::from_num_days_from_ce_opt` returns for a day number,
/// written as `NaiveDate` displays itself (`YYYY-MM-DD`), or `None` where the
/// calendar of `chrono` has no such day.
pub uninterp spec fn iso_date_of(days_from_ce: int) -> Option<Seq<char>>;

/// Calls `NaiveDate::from_num_days_from_ce_opt` and displays the date. The
/// contract names the result.
#[verifier::external_body]
fn iso_date(days_from_ce: i32) -> (r: Option<String>)
    ensures
        text_of(r) == iso_date_of(days_from_ce as int),
{
    chrono::NaiveDate::from_num_days_from_ce_opt(days_from_ce).map(|d| d.to_string())
}

/// The day number of the epoch, counted from the first day of year 1.
pub const EPOCH_DAYS_FROM_CE: i64 = 719163;

/// A day since the epoch as `YYYY-MM-DD`; empty where the calendar has no
/// such day.
pub open spec fn date_text_of(day: int) -> Seq<char> {
    if -2147483648 <= day + 719163 <= 2147483647 {
        match iso_date_of(day + 719163) {
            Some(t) => t,
            None => Seq::empty(),
        }
    } else {
        Seq::empty()
    }
}

/// A day since the epoch as `YYYY-MM-DD`.
pub fn date_text(day: i64) -> (r: String)
    ensures
        r@ == date_text_of(day as int),
{
    if day < -2147483648 - EPOCH_DAYS_FROM_CE || day > 2147483647 - EPOCH_DAYS_FROM_CE {
        return String::new();
    }
    let from_ce: i32 = (day + EPOCH_DAYS_FROM_CE) as i32;
    match iso_date(from_ce) {
        Some(t) => t,
        None => String::new(),
    }
}

/// The state of a reading run after some days: the pages read since the run
/// began, and the day on which it began. No run is under way after a
/// completion, nor before the first day.
pub open spec fn run_after(days: Seq<DayView>, total: nat) -> (nat, Option<int>)
    decreases days.len(),
{
    if days.len() == 0 {
        (0, None)
    } else {
        let before = run_after(days.drop_last(), total);
        let pages = before.0 + days.last().pages;
        if total > 0 && pages >= total {
            (0, None)
        } else {
            (
                pages,
                Some(
                    match before.1 {
                        Some(s) => s,
                        None => days.last().day,
                    },
                ),
            )
        }
    }
}

/// The completions of a book of `total` pages that was read on the given
/// days: a run begins on the first day after the completion before it, and
/// is complete on the day on which its pages reach the book's. A book whose
/// number of pages is unknown (0) is never complete.
pub open spec fn completions_of(days: Seq<DayView>, total: nat) -> Seq<(int, int)>
    decreases days.len(),
{
    if days.len() == 0 {
        Seq::empty()
    } else {
        let rest = completions_of(days.drop_last(), total);
        let before = run_after(days.drop_last(), total);
        if total > 0 && before.0 + days.last().pages >= total {
            rest.push(
                (
                    match before.1 {
                        Some(s) => s,
                        None => days.last().day,
                    },
                    days.last().day,
                ),
            )
        } else {
            rest
        }
    }
}

/// The spans as plain pairs.
pub open spec fn span_views(s: Seq<(i64, i64)>) -> Seq<(int, int)> {
    s.map_values(|p: (i64, i64)| (p.0 as int, p.1 as int))
}

/// A book of unknown length has no completions.
proof fn lemma_no_total_no_completions(days: Seq<DayView>)
    ensures
        completions_of(days, 0).len() == 0,
    decreases days.len(),
{
    if days.len() > 0 {
        lemma_no_total_no_completions(days.drop_last());
    }
}

/// A run that is under way has read less than the book and began on one of
/// the days.
pub proof fn lemma_run_after(days: Seq<DayView>, total: nat)
    ensures
        total > 0 ==> run_after(days, total).0 < total,
        run_after(days, total).1 matches Some(s) ==> has_day(days, s),
        run_after(days, total).1.is_none() ==> run_after(days, total).0 == 0,
    decreases days.len(),
{
    if days.len() > 0 {
        let init = days.drop_last();
        lemma_run_after(init, total);
        match run_after(days, total).1 {
            Some(s) => {
                match run_after(init, total).1 {
                    Some(t) => {
                        let k = choose|k: int| 0 <= k < init.len() && (#[trigger] init[k]).day == t;
                        assert(days[k].day == s);
                    },
                    None => {
                        assert(days[days.len() - 1].day == s);
                    },
                }
            },
            None => {},
        }
    }
}

/// Every completion begins and ends on a day on which the book was read.
pub proof fn lemma_completion_days(days: Seq<DayView>, total: nat, k: int)
    requires
        0 <= k < completions_of(days, total).len(),
    ensures
        has_day(days, completions_of(days, total)[k].0),
        has_day(days, completions_of(days, total)[k].1),
    decreases days.len(),
{
    let init = days.drop_last();
    let rest = completions_of(init, total);
    if k < rest.len() {
        lemma_completion_days(init, total, k);
        let a = choose|a: int| 0 <= a < init.len() && (#[trigger] init[a]).day == rest[k].0;
        assert(days[a].day == rest[k].0);
        let b = choose|b: int| 0 <= b < init.len() && (#[trigger] init[b]).day == rest[k].1;
        assert(days[b].day == rest[k].1);
    } else {
        lemma_run_after(init, total);
        assert(days[days.len() - 1].day == completions_of(days, total)[k].1);
        match run_after(init, total).1 {
            Some(t) => {
                let a = choose|a: int| 0 <= a < init.len() && (#[trigger] init[a]).day == t;
                assert(days[a].day == t);
            },
            None => {},
        }
    }
}

/// A day whose bucket the thresholds dropped is never the first or the last
/// day of a completion that is derived afterwards: the bucket of every such
/// day reaches the minimums among all sessions.
pub proof fn lemma_dropped_days_never_complete(
    all: Seq<RecordView>,
    hash: Seq<char>,
    tc: TimeConfig,
    min_pages: Option<u32>,
    min_time: Option<u32>,
    total: nat,
    k: int,
)
    requires
        0 <= k < completions_of(
            day_series(surviving(all, all, tc, min_pages, min_time), hash, tc),
            total,
        ).len(),
    ensures
        ({
            let kept = surviving(all, all, tc, min_pages, min_time);
            let c = completions_of(day_series(kept, hash, tc), total)[k];
            &&& totals_suffice(
                bucket_pages(all, hash, c.0, tc),
                bucket_seconds(all, hash, c.0, tc),
                min_pages,
                min_time,
            )
            &&& totals_suffice(
                bucket_pages(all, hash, c.1, tc),
                bucket_seconds(all, hash, c.1, tc),
                min_pages,
                min_time,
            )
        }),
{
    let kept = surviving(all, all, tc, min_pages, min_time);
    let series = day_series(kept, hash, tc);
    let c = completions_of(series, total)[k];
    lemma_completion_days(series, total, k);
    lemma_day_series(kept, hash, tc);
    assert(has_day(series, c.0));
    let a = choose|j: int| 0 <= j < kept.len() && in_bucket(#[trigger] kept[j], hash, c.0, tc);
    lemma_surviving_sound(all, all, tc, min_pages, min_time, a);
    assert(has_day(series, c.1));
    let b = choose|j: int| 0 <= j < kept.len() && in_bucket(#[trigger] kept[j], hash, c.1, tc);
    lemma_surviving_sound(all, all, tc, min_pages, min_time, b);
}

/// The completions of a book of `total_pages` pages from the days on which it
/// was read, oldest first, each as its first and last day.
pub fn derive_completions(days: &Vec<DayBucket>, total_pages: u32) -> (r: Vec<(i64, i64)>)
    ensures
        span_views(r@) == completions_of(day_views(days@), total_pages as nat),
{
    let ghost dv = day_views(days@);
    let mut out: Vec<(i64, i64)> = Vec::new();
    if total_pages == 0 {
        proof {
            lemma_no_total_no_completions(dv);
            assert(span_views(out@) =~= completions_of(dv, 0));
        }
        return out;
    }
    let total: u128 = total_pages as u128;
    let mut pages: u128 = 0;
    let mut start: Option<i64> = None;
    let mut i: usize = 0;
    assert(span_views(out@) =~= completions_of(dv.take(0), total as nat));
    while i < days.len()
        invariant
            i <= days.len(),
            total == total_pages,
            total > 0,
            dv == day_views(days@),
            pages < total,
            pages as nat == run_after(dv.take(i as int), total as nat).0,
            match start {
                Some(s) => run_after(dv.take(i as int), total as nat).1 == Some(s as int),
                None => run_after(dv.take(i as int), total as nat).1.is_none(),
            },
            span_views(out@) == completions_of(dv.take(i as int), total as nat),
        decreases days.len() - i,
    {
        proof {
            assert(dv.take(i + 1).drop_last() =~= dv.take(i as int));
            assert(dv.take(i + 1).last() == days@[i as int]@);
        }
        let day = days[i].day;
        let begun: i64 = match start {
            Some(s) => s,
            None => day,
        };
        if days[i].pages_read >= total - pages {
            let ghost before = span_views(out@);
            out.push((begun, day));
            assert(span_views(out@) =~= before.push((begun as int, day as int)));
            pages = 0;
            start = None;
        } else {
            pages = pages + days[i].pages_read;
            start = Some(begun);
        }
        i += 1;
    }
    assert(dv.take(days.len() as int) =~= dv);
    out
}

/// Whether the entries are the given spans, each with its two days written
/// out.
pub open spec fn entries_match(entries: Seq<ReadCompletion>, spans: Seq<(int, int)>) -> bool {
    &&& entries.len() == spans.len()
    &&& forall|k: int|
        0 <= k < entries.len() ==> {
            &&& (#[trigger] entries[k]).start_day == spans[k].0
            &&& entries[k].end_day == spans[k].1
            &&& entries[k].start_date@ == date_text_of(spans[k].0)
            &&& entries[k].end_date@ == date_text_of(spans[k].1)
        }
}

/// The spans with their days written out.
fn dated(spans: &Vec<(i64, i64)>) -> (r: Vec<ReadCompletion>)
    ensures
        entries_match(r@, span_views(spans@)),
{
    let mut r: Vec<ReadCompletion> = Vec::new();
    let mut i: usize = 0;
    while i < spans.len()
        invariant
            i <= spans.len(),
            entries_match(r@, span_views(spans@).take(i as int)),
        decreases spans.len() - i,
    {
        let (a, b) = spans[i];
        r.push(
            ReadCompletion {
                start_day: a,
                end_day: b,
                start_date: date_text(a),
                end_date: date_text(b),
            },
        );
        i += 1;
    }
    assert(span_views(spans@).take(spans.len() as int) =~= span_views(spans@));
    r
}

/// The kind recorded for a fingerprint: that of the last entry with it.
pub open spec fn type_for(table: Seq<(Seq<char>, ContentType)>, hash: Seq<char>) -> Option<
    ContentType,
>
    decreases table.len(),
{
    if table.len() == 0 {
        None
    } else if table.last().0 == hash {
        Some(table.last().1)
    } else {
        type_for(table.drop_last(), hash)
    }
}

/// The table as plain data.
pub open spec fn type_views(s: Seq<(String, ContentType)>) -> Seq<(Seq<char>, ContentType)> {
    s.map_values(|p: (String, ContentType)| (p.0@, p.1))
}

/// The kind recorded for a fingerprint.
pub fn content_type_for(table: &Vec<(String, ContentType)>, hash: &str) -> (r: Option<ContentType>)
    ensures
        r == type_for(type_views(table@), hash@),
{
    let ghost tv = type_views(table@);
    let mut i: usize = table.len();
    assert(tv.take(table.len() as int) =~= tv);
    while i > 0
        invariant
            i <= table.len(),
            tv == type_views(table@),
            type_for(tv, hash@) == type_for(tv.take(i as int), hash@),
        decreases i,
    {
        i -= 1;
        proof {
            assert(tv.take(i + 1).drop_last() =~= tv.take(i as int));
            assert(tv.take(i + 1).last() == (table@[i as int].0@, table@[i as int].1));
        }
        if text_eq(table[i].0.as_str(), hash) {
            return Some(table[i].1);
        }
    }
    None
}

/// The fingerprint by which an item is joined to the statistics: the one
/// recorded in its metadata, else the one computed from its file.
pub open spec fn join_hash(item: LibraryItem, file_hash: Option<String>) -> Option<Seq<char>> {
    if recorded_hash(item.koreader_metadata).is_some() {
        recorded_hash(item.koreader_metadata)
    } else {
        text_of(file_hash)
    }
}

/// The kinds of the items by fingerprint, in the order of the items. An item
/// without a fingerprint has no entry.
pub open spec fn type_table_of(items: Seq<LibraryItem>, file_hashes: Seq<Option<String>>) -> Seq<
    (Seq<char>, ContentType),
>
    decreases items.len(),
{
    if items.len() == 0 || file_hashes.len() != items.len() {
        Seq::empty()
    } else {
        let rest = type_table_of(items.drop_last(), file_hashes.drop_last());
        match join_hash(items.last(), file_hashes.last()) {
            Some(h) => rest.push((h, content_type_of(items.last().format))),
            None => rest,
        }
    }
}

/// The kinds of the items by fingerprint. `file_hashes` holds for each item
/// the fingerprint computed from its file; it is read only for items whose
/// metadata records none. The table is empty where there is not one entry of
/// `file_hashes` for each item.
pub fn content_type_table(items: &Vec<LibraryItem>, file_hashes: &Vec<Option<String>>) -> (r: Vec<
    (String, ContentType),
>)
    ensures
        type_views(r@) == type_table_of(items@, file_hashes@),
{
    let mut r: Vec<(String, ContentType)> = Vec::new();
    let mut i: usize = 0;
    assert(type_views(r@) =~= type_table_of(items@.take(0), file_hashes@.take(0)));
    if file_hashes.len() != items.len() {
        return r;
    }
    while i < items.len()
        invariant
            i <= items.len(),
            file_hashes.len() == items.len(),
            type_views(r@) == type_table_of(items@.take(i as int), file_hashes@.take(i as int)),
        decreases items.len() - i,
    {
        proof {
            assert(items@.take(i + 1).drop_last() =~= items@.take(i as int));
            assert(file_hashes@.take(i + 1).drop_last() =~= file_hashes@.take(i as int));
        }
        let recorded: Option<String> = match &items[i].koreader_metadata {
            Some(m) => match &m.partial_md5_checksum {
                Some(h) => Some(h.clone()),
                None => None,
            },
            None => None,
        };
        let hash: Option<String> = match recorded {
            Some(h) => Some(h),
            None => match &file_hashes[i] {
                Some(h) => Some(h.clone()),
                None => None,
            },
        };
        if let Some(h) = hash {
            let ghost before = type_views(r@);
            let kind = items[i].format.content_type();
            r.push((h, kind));
            assert(type_views(r@) =~= before.push((h@, kind)));
        }
        i += 1;
    }
    assert(items@.take(items.len() as int) =~= items@);
    assert(file_hashes@.take(items.len() as int) =~= file_hashes@);
    r
}

/// Whether `after` is `before` with nothing changed but its completions and
/// its kind.
pub open spec fn same_book(before: StatBook, after: StatBook) -> bool {
    &&& after.content_hash == before.content_hash
    &&& after.title == before.title
    &&& after.pages == before.pages
}

impl StatisticsCalculator {
    /// Derives the completions of every book from the sessions, by the given
    /// time configuration. Sessions, and all else that is known of the books,
    /// stay as they are.
    pub fn populate_completions(data: &mut StatisticsData, time_config: &TimeConfig)
        ensures
            final(data).records == old(data).records,
            final(data).books@.len() == old(data).books@.len(),
            forall|b: int|
                0 <= b < old(data).books@.len() ==> {
                    &&& same_book(old(data).books@[b], #[trigger] final(data).books@[b])
                    &&& final(data).books@[b].content_type == old(data).books@[b].content_type
                    &&& final(data).books@[b].completions.is_some()
                    &&& entries_match(
                        final(data).books@[b].completions.unwrap().entries@,
                        completions_of(
                            day_series(
                                record_views(old(data).records@),
                                old(data).books@[b].content_hash@,
                                *time_config,
                            ),
                            old(data).books@[b].pages as nat,
                        ),
                    )
                },
    {
        let mut b: usize = 0;
        while b < data.books.len()
            invariant
                b <= data.books.len(),
                data.records == old(data).records,
                data.books@.len() == old(data).books@.len(),
                forall|j: int| b <= j < data.books@.len() ==> data.books@[j] == old(data).books@[j],
                forall|j: int|
                    0 <= j < b ==> {
                        &&& same_book(old(data).books@[j], #[trigger] data.books@[j])
                        &&& data.books@[j].content_type == old(data).books@[j].content_type
                        &&& data.books@[j].completions.is_some()
                        &&& entries_match(
                            data.books@[j].completions.unwrap().entries@,
                            completions_of(
                                day_series(
                                    record_views(old(data).records@),
                                    old(data).books@[j].content_hash@,
                                    *time_config,
                                ),
                                old(data).books@[j].pages as nat,
                            ),
                        )
                    },
            decreases data.books.len() - b,
        {
            let days = book_days(&data.records, data.books[b].content_hash.as_str(), time_config);
            let spans = derive_completions(&days, data.books[b].pages);
            let entries = dated(&spans);
            data.books[b].completions = Some(BookCompletions { entries });
            b += 1;
        }
    }

    /// Keeps only what belongs to the library, unless all statistics are
    /// asked for.
    pub fn scope_to_library(
        data: &mut StatisticsData,
        include_all_stats: bool,
        library_md5s: &ContentHashSet,
    )
        ensures
            !include_all_stats ==> final(data).books@ == books_in_library(
                old(data).books@,
                library_md5s@,
            ) && record_views(final(data).records@) == records_in_library(
                record_views(old(data).records@),
                library_md5s@,
            ),
            include_all_stats ==> *final(data) == *old(data),
    {
        if !include_all_stats {
            StatisticsCalculator::filter_to_library(data, library_md5s);
        }
    }
}

impl StatisticsData {
    /// Tags every book as book or comic, by its fingerprint. A book that the
    /// table does not know has no tag.
    pub fn tag_content_types(&mut self, table: &Vec<(String, ContentType)>)
        ensures
            final(self).records == old(self).records,
            final(self).books@.len() == old(self).books@.len(),
            forall|b: int|
                0 <= b < old(self).books@.len() ==> {
                    &&& same_book(old(self).books@[b], #[trigger] final(self).books@[b])
                    &&& final(self).books@[b].completions == old(self).books@[b].completions
                    &&& final(self).books@[b].content_type == type_for(
                        type_views(table@),
                        old(self).books@[b].content_hash@,
                    )
                },
    {
        let mut b: usize = 0;
        while b < self.books.len()
            invariant
                b <= self.books.len(),
                self.records == old(self).records,
                self.books@.len() == old(self).books@.len(),
                forall|j: int| b <= j < self.books@.len() ==> self.books@[j] == old(self).books@[j],
                forall|j: int|
                    0 <= j < b ==> {
                        &&& same_book(old(self).books@[j], #[trigger] self.books@[j])
                        &&& self.books@[j].completions == old(self).books@[j].completions
                        &&& self.books@[j].content_type == type_for(
                            type_views(table@),
                            old(self).books@[j].content_hash@,
                        )
                    },
            decreases self.books.len() - b,
        {
            let kind = content_type_for(table, self.books[b].content_hash.as_str());
            self.books[b].content_type = kind;
            b += 1;
        }
    }
}

/// With the scope on the library, exactly the sessions whose fingerprint the
/// library holds are kept: none of another book, and every one of a book of
/// the library.
pub proof fn lemma_library_scope(part: Seq<RecordView>, library: Set<Seq<char>>)
    ensures
        forall|i: int|
            0 <= i < records_in_library(part, library).len() ==> library.contains(
                (#[trigger] records_in_library(part, library)[i]).content_hash,
            ) && part.contains(records_in_library(part, library)[i]),
        forall|j: int|
            0 <= j < part.len() && library.contains((#[trigger] part[j]).content_hash)
                ==> records_in_library(part, library).contains(part[j]),
    decreases part.len(),
{
    if part.len() > 0 {
        let init = part.drop_last();
        lemma_library_scope(init, library);
        let rest = records_in_library(init, library);
        let out = records_in_library(part, library);
        assert forall|i: int| 0 <= i < out.len() implies library.contains(
            (#[trigger] out[i]).content_hash,
        ) && part.contains(out[i]) by {
            if i < rest.len() {
                assert(out[i] == rest[i]);
                let j = choose|j: int| 0 <= j < init.len() && init[j] == rest[i];
                assert(part[j] == out[i]);
            } else {
                assert(part[part.len() - 1] == out[i]);
            }
        }
        assert forall|j: int|
            0 <= j < part.len() && library.contains((#[trigger] part[j]).content_hash) implies out.contains(
            part[j],
        ) by {
            if j < init.len() {
                assert(init[j] == part[j]);
                let i = choose|i: int| 0 <= i < rest.len() && rest[i] == init[j];
                assert(out[i] == part[j]);
            } else {
                assert(out[out.len() - 1] == part[j]);
            }
        }
    }
}

} // verus!
