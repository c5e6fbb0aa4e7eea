//! Reading statistics: the sessions that the reader recorded, attributed to
//! logical days, filtered by thresholds and by library membership, with the
//! completions of each book derived from them.

use vstd::prelude::*;
use crate::index::ContentHashSet;
use crate::library_item::ContentType;
use crate::paths::text_of;
use crate::text::text_eq;
use crate::time_config::{TimeConfig, logical_day_of};

verus! {

/// One reading session as the store holds it.
#[derive(Debug, Clone)]
pub struct StatisticsRecord {
    /// The fingerprint of the book that was read.
    pub content_hash: String,
    /// When the session began, in seconds since the epoch.
    pub date: i64,
    pub pages_read: u32,
    pub duration_seconds: u32,
}

/// A session as plain data.
pub struct RecordView {
    pub content_hash: Seq<char>,
    pub date: int,
    pub pages_read: nat,
    pub duration_seconds: nat,
}

impl View for StatisticsRecord {
    type V = RecordView;

    open spec fn view(&self) -> RecordView {
        RecordView {
            content_hash: self.content_hash@,
            date: self.date as int,
            pages_read: self.pages_read as nat,
            duration_seconds: self.duration_seconds as nat,
        }
    }
}

/// The sessions as plain data.
pub open spec fn record_views(s: Seq<StatisticsRecord>) -> Seq<RecordView> {
    s.map_values(|r: StatisticsRecord| r@)
}

/// A span of days over which a book was read from start to end.
#[derive(Debug, Clone)]
pub struct ReadCompletion {
    /// The first day of the span, as a number of days since the epoch.
    pub start_day: i64,
    /// The day on which the book was finished.
    pub end_day: i64,
    /// The first day as `YYYY-MM-DD`; empty where the calendar has no such day.
    pub start_date: String,
    /// The last day as `YYYY-MM-DD`; empty where the calendar has no such day.
    pub end_date: String,
}

/// The completions of one book, oldest first.
#[derive(Debug, Clone)]
pub struct BookCompletions {
    pub entries: Vec<ReadCompletion>,
}

/// A book as the statistics store knows it.
#[derive(Debug, Clone)]
pub struct StatBook {
    pub content_hash: String,
    pub title: String,
    /// The number of pages of the book; 0 where the store does not know it.
    pub pages: u32,
    /// Book or comic, once the library has told.
    pub content_type: Option<ContentType>,
    /// The completions, once they have been derived.
    pub completions: Option<BookCompletions>,
}

/// All that the statistics store holds.
#[derive(Debug, Clone)]
pub struct StatisticsData {
    pub books: Vec<StatBook>,
    pub records: Vec<StatisticsRecord>,
}

impl StatisticsData {
    /// The statistics as read from the store: its books and its sessions.
    pub fn new(books: Vec<StatBook>, records: Vec<StatisticsRecord>) -> (r: Self)
        ensures
            r.books == books,
            r.records == records,
    {
        StatisticsData { books, records }
    }
}

/// The logical day of a session.
pub open spec fn record_day(r: RecordView, tc: TimeConfig) -> int {
    logical_day_of(r.date, tc.offset_at(r.date), tc.day_start_minutes as int)
}

/// Whether a session belongs to the bucket of a book and a logical day.
pub open spec fn in_bucket(r: RecordView, hash: Seq<char>, day: int, tc: TimeConfig) -> bool {
    r.content_hash == hash && record_day(r, tc) == day
}

/// The pages read of a book on a logical day: the sum over the sessions of
/// its bucket.
pub open spec fn bucket_pages(records: Seq<RecordView>, hash: Seq<char>, day: int, tc: TimeConfig) -> nat
    decreases records.len(),
{
    if records.len() == 0 {
        0
    } else {
        bucket_pages(records.drop_last(), hash, day, tc) + if in_bucket(
            records.last(),
            hash,
            day,
            tc,
        ) {
            records.last().pages_read
        } else {
            0
        }
    }
}

/// The seconds spent on a book on a logical day.
pub open spec fn bucket_seconds(
    records: Seq<RecordView>,
    hash: Seq<char>,
    day: int,
    tc: TimeConfig,
) -> nat
    decreases records.len(),
{
    if records.len() == 0 {
        0
    } else {
        bucket_seconds(records.drop_last(), hash, day, tc) + if in_bucket(
            records.last(),
            hash,
            day,
            tc,
        ) {
            records.last().duration_seconds
        } else {
            0
        }
    }
}

/// Whether a bucket's totals reach the minimums that are set.
pub open spec fn totals_suffice(
    pages: nat,
    seconds: nat,
    min_pages: Option<u32>,
    min_time: Option<u32>,
) -> bool {
    &&& (min_pages matches Some(m) ==> pages >= m)
    &&& (min_time matches Some(t) ==> seconds >= t)
}

/// Whether the bucket of a session survives the thresholds, among `all`
/// sessions.
pub open spec fn bucket_survives(
    all: Seq<RecordView>,
    r: RecordView,
    tc: TimeConfig,
    min_pages: Option<u32>,
    min_time: Option<u32>,
) -> bool {
    totals_suffice(
        bucket_pages(all, r.content_hash, record_day(r, tc), tc),
        bucket_seconds(all, r.content_hash, record_day(r, tc), tc),
        min_pages,
        min_time,
    )
}

/// The sessions of `part` whose buckets survive the thresholds among `all`
/// sessions, in order.
pub open spec fn surviving(
    part: Seq<RecordView>,
    all: Seq<RecordView>,
    tc: TimeConfig,
    min_pages: Option<u32>,
    min_time: Option<u32>,
) -> Seq<RecordView>
    decreases part.len(),
{
    if part.len() == 0 {
        Seq::empty()
    } else {
        let rest = surviving(part.drop_last(), all, tc, min_pages, min_time);
        if bucket_survives(all, part.last(), tc, min_pages, min_time) {
            rest.push(part.last())
        } else {
            rest
        }
    }
}

/// The sessions of `part` whose book is in the library, in order.
pub open spec fn records_in_library(part: Seq<RecordView>, library: Set<Seq<char>>) -> Seq<
    RecordView,
>
    decreases part.len(),
{
    if part.len() == 0 {
        Seq::empty()
    } else {
        let rest = records_in_library(part.drop_last(), library);
        if library.contains(part.last().content_hash) {
            rest.push(part.last())
        } else {
            rest
        }
    }
}

/// The books of `part` that are in the library, in order.
pub open spec fn books_in_library(part: Seq<StatBook>, library: Set<Seq<char>>) -> Seq<StatBook>
    decreases part.len(),
{
    if part.len() == 0 {
        Seq::empty()
    } else {
        let rest = books_in_library(part.drop_last(), library);
        if library.contains(part.last().content_hash@) {
            rest.push(part.last())
        } else {
            rest
        }
    }
}

/// A bucket's totals are bounded by the number of sessions.
proof fn lemma_bucket_bound(records: Seq<StatisticsRecord>, hash: Seq<char>, day: int, tc: TimeConfig)
    ensures
        bucket_pages(record_views(records), hash, day, tc) <= records.len() * 0x1_0000_0000,
        bucket_seconds(record_views(records), hash, day, tc) <= records.len() * 0x1_0000_0000,
    decreases records.len(),
{
    if records.len() > 0 {
        lemma_bucket_bound(records.drop_last(), hash, day, tc);
        assert(record_views(records).drop_last() =~= record_views(records.drop_last()));
    }
}

/// Every surviving session is one of the sessions, and its bucket survives.
pub proof fn lemma_surviving_sound(
    part: Seq<RecordView>,
    all: Seq<RecordView>,
    tc: TimeConfig,
    min_pages: Option<u32>,
    min_time: Option<u32>,
    i: int,
)
    requires
        0 <= i < surviving(part, all, tc, min_pages, min_time).len(),
    ensures
        part.contains(surviving(part, all, tc, min_pages, min_time)[i]),
        bucket_survives(
            all,
            surviving(part, all, tc, min_pages, min_time)[i],
            tc,
            min_pages,
            min_time,
        ),
    decreases part.len(),
{
    let s = surviving(part, all, tc, min_pages, min_time);
    let init = part.drop_last();
    let rest = surviving(init, all, tc, min_pages, min_time);
    if i < rest.len() {
        lemma_surviving_sound(init, all, tc, min_pages, min_time, i);
        let j = choose|j: int| 0 <= j < init.len() && init[j] == rest[i];
        assert(part[j] == s[i]);
    } else {
        assert(part[part.len() - 1] == s[i]);
    }
}

/// The totals of one bucket.
struct Bucket {
    hash: String,
    day: i64,
    pages: u128,
    seconds: u128,
}

/// Whether the table has a bucket for the book and day.
spec fn table_has(table: Seq<Bucket>, hash: Seq<char>, day: int) -> bool {
    exists|k: int| 0 <= k < table.len() && (#[trigger] table[k]).hash@ == hash && table[k].day == day
}

/// Whether each bucket of the table holds the totals of its sessions, and no
/// two buckets are for the same book and day.
spec fn table_exact(table: Seq<Bucket>, records: Seq<RecordView>, tc: TimeConfig) -> bool {
    &&& forall|k: int|
        0 <= k < table.len() ==> (#[trigger] table[k]).pages == bucket_pages(
            records,
            table[k].hash@,
            table[k].day as int,
            tc,
        ) && table[k].seconds == bucket_seconds(records, table[k].hash@, table[k].day as int, tc)
    &&& forall|k: int, l: int|
        0 <= k < l < table.len() ==> !((#[trigger] table[k]).hash@ == (#[trigger] table[l]).hash@
            && table[k].day == table[l].day)
}

/// The position of the bucket for the book and day.
fn find_bucket(table: &Vec<Bucket>, hash: &str, day: i64) -> (r: Option<usize>)
    ensures
        match r {
            Some(k) => k < table.len() && table@[k as int].hash@ == hash@ && table@[k as int].day
                == day,
            None => !table_has(table@, hash@, day as int),
        },
{
    let mut k: usize = 0;
    while k < table.len()
        invariant
            k <= table.len(),
            forall|j: int|
                0 <= j < k ==> !((#[trigger] table@[j]).hash@ == hash@ && table@[j].day == day),
        decreases table.len() - k,
    {
        if table[k].day == day && text_eq(table[k].hash.as_str(), hash) {
            return Some(k);
        }
        k += 1;
    }
    None
}

/// The totals of every bucket of the sessions.
fn bucket_table(records: &Vec<StatisticsRecord>, tc: &TimeConfig) -> (table: Vec<Bucket>)
    ensures
        table_exact(table@, record_views(records@), *tc),
        forall|j: int|
            0 <= j < records.len() ==> table_has(
                table@,
                (#[trigger] record_views(records@)[j]).content_hash,
                record_day(record_views(records@)[j], *tc),
            ),
{
    let ghost rv = record_views(records@);
    let mut table: Vec<Bucket> = Vec::new();
    let mut i: usize = 0;
    while i < records.len()
        invariant
            i <= records.len(),
            rv == record_views(records@),
            table_exact(table@, rv.take(i as int), *tc),
            forall|j: int|
                0 <= j < i ==> table_has(table@, (#[trigger] rv[j]).content_hash, record_day(rv[j], *tc)),
        decreases records.len() - i,
    {
        let day = tc.logical_day(records[i].date);
        let ghost before = table@;
        let ghost prefix = rv.take(i as int);
        let ghost next = rv.take(i + 1);
        let ghost rec = rv[i as int];
        proof {
            assert(next.drop_last() =~= prefix);
            assert(next.last() == rec);
            assert(rec == records@[i as int]@);
        }
        match find_bucket(&table, records[i].content_hash.as_str(), day) {
            Some(k) => {
                proof {
                    lemma_bucket_bound(records@.take(i as int), table@[k as int].hash@, day as int, *tc);
                    assert(record_views(records@.take(i as int)) =~= prefix);
                }
                let updated = Bucket {
                    hash: table[k].hash.clone(),
                    day,
                    pages: table[k].pages + records[i].pages_read as u128,
                    seconds: table[k].seconds + records[i].duration_seconds as u128,
                };
                table.set(k, updated);
                proof {
                    assert forall|j: int| 0 <= j < i + 1 implies table_has(
                        table@,
                        (#[trigger] rv[j]).content_hash,
                        record_day(rv[j], *tc),
                    ) by {
                        if j < i {
                            let l = choose|l: int|
                                0 <= l < before.len() && (#[trigger] before[l]).hash@
                                    == rv[j].content_hash && before[l].day == record_day(rv[j], *tc);
                            assert(table@[l].hash@ == rv[j].content_hash && table@[l].day
                                == record_day(rv[j], *tc));
                        } else {
                            assert(table@[k as int].hash@ == rec.content_hash && table@[k as int].day
                                == record_day(rec, *tc));
                        }
                    }
                    assert forall|l: int| 0 <= l < table@.len() implies (#[trigger] table@[l]).pages
                        == bucket_pages(next, table@[l].hash@, table@[l].day as int, *tc)
                        && table@[l].seconds == bucket_seconds(
                        next,
                        table@[l].hash@,
                        table@[l].day as int,
                        *tc,
                    ) by {
                        if l != k {
                            assert(table@[l] == before[l]);
                            assert(!(before[l].hash@ == before[k as int].hash@ && before[l].day
                                == before[k as int].day));
                        }
                    }
                    assert forall|a: int, b: int| 0 <= a < b < table@.len() implies !((
                    #[trigger] table@[a]).hash@ == (#[trigger] table@[b]).hash@ && table@[a].day
                        == table@[b].day) by {
                        assert(table@[a].hash@ == before[a].hash@ && table@[a].day == before[a].day);
                        assert(table@[b].hash@ == before[b].hash@ && table@[b].day == before[b].day);
                    }
                }
            },
            None => {
                let fresh = Bucket {
                    hash: records[i].content_hash.clone(),
                    day,
                    pages: records[i].pages_read as u128,
                    seconds: records[i].duration_seconds as u128,
                };
                table.push(fresh);
                proof {
                    lemma_absent_bucket_empty(before, prefix, rec.content_hash, day as int, *tc, i as int, rv);
                    assert forall|j: int| 0 <= j < i + 1 implies table_has(
                        table@,
                        (#[trigger] rv[j]).content_hash,
                        record_day(rv[j], *tc),
                    ) by {
                        if j < i {
                            let l = choose|l: int|
                                0 <= l < before.len() && (#[trigger] before[l]).hash@
                                    == rv[j].content_hash && before[l].day == record_day(rv[j], *tc);
                            assert(table@[l].hash@ == rv[j].content_hash && table@[l].day
                                == record_day(rv[j], *tc));
                        } else {
                            assert(table@[before.len() as int].hash@ == rec.content_hash
                                && table@[before.len() as int].day == record_day(rec, *tc));
                        }
                    }
                    assert forall|l: int| 0 <= l < table@.len() implies (#[trigger] table@[l]).pages
                        == bucket_pages(next, table@[l].hash@, table@[l].day as int, *tc)
                        && table@[l].seconds == bucket_seconds(
                        next,
                        table@[l].hash@,
                        table@[l].day as int,
                        *tc,
                    ) by {
                        if l < before.len() {
                            assert(table@[l] == before[l]);
                            assert(!(before[l].hash@ == rec.content_hash && before[l].day == day));
                        }
                    }
                    assert forall|a: int, b: int| 0 <= a < b < table@.len() implies !((
                    #[trigger] table@[a]).hash@ == (#[trigger] table@[b]).hash@ && table@[a].day
                        == table@[b].day) by {
                        assert(table@[a] == before[a]);
                        if b < before.len() {
                            assert(table@[b] == before[b]);
                        }
                    }
                }
            },
        }
        i += 1;
    }
    assert(rv.take(records.len() as int) =~= rv);
    table
}

/// A bucket that the table lacks, though the table has a bucket for every
/// session so far, has had no session yet.
proof fn lemma_absent_bucket_empty(
    table: Seq<Bucket>,
    prefix: Seq<RecordView>,
    hash: Seq<char>,
    day: int,
    tc: TimeConfig,
    i: int,
    rv: Seq<RecordView>,
)
    requires
        0 <= i <= rv.len(),
        prefix == rv.take(i),
        !table_has(table, hash, day),
        forall|j: int|
            0 <= j < i ==> table_has(table, (#[trigger] rv[j]).content_hash, record_day(rv[j], tc)),
    ensures
        bucket_pages(prefix, hash, day, tc) == 0,
        bucket_seconds(prefix, hash, day, tc) == 0,
    decreases i,
{
    if i > 0 {
        assert(prefix.drop_last() =~= rv.take(i - 1));
        lemma_absent_bucket_empty(table, rv.take(i - 1), hash, day, tc, i - 1, rv);
        assert(prefix.last() == rv[i - 1]);
        assert(table_has(table, rv[i - 1].content_hash, record_day(rv[i - 1], tc)));
    }
}

/// The rules by which raw statistics become the statistics that are shown.
pub struct StatisticsCalculator {}

impl StatisticsCalculator {
    /// Drops every session of a bucket (a book on a logical day) whose pages
    /// or seconds fall below a minimum that is set. Buckets are formed of all
    /// sessions, by the given time configuration. The books stay.
    pub fn filter_stats(
        data: &mut StatisticsData,
        time_config: &TimeConfig,
        min_pages_per_day: Option<u32>,
        min_time_per_day: Option<u32>,
    )
        ensures
            final(data).books == old(data).books,
            record_views(final(data).records@) == surviving(
                record_views(old(data).records@),
                record_views(old(data).records@),
                *time_config,
                min_pages_per_day,
                min_time_per_day,
            ),
    {
        let table = bucket_table(&data.records, time_config);
        let ghost rv = record_views(data.records@);
        let mut kept: Vec<StatisticsRecord> = Vec::new();
        let mut i: usize = 0;
        assert(record_views(kept@) =~= surviving(
            rv.take(0),
            rv,
            *time_config,
            min_pages_per_day,
            min_time_per_day,
        ));
        while i < data.records.len()
            invariant
                i <= data.records.len(),
                *data == *old(data),
                rv == record_views(data.records@),
                table_exact(table@, rv, *time_config),
                forall|j: int|
                    0 <= j < rv.len() ==> table_has(
                        table@,
                        (#[trigger] rv[j]).content_hash,
                        record_day(rv[j], *time_config),
                    ),
                record_views(kept@) == surviving(
                    rv.take(i as int),
                    rv,
                    *time_config,
                    min_pages_per_day,
                    min_time_per_day,
                ),
            decreases data.records.len() - i,
        {
            let day = time_config.logical_day(data.records[i].date);
            proof {
                assert(rv.take(i + 1).drop_last() =~= rv.take(i as int));
                assert(rv.take(i + 1).last() == rv[i as int]);
                assert(rv[i as int] == data.records@[i as int]@);
                assert(table_has(table@, rv[i as int].content_hash, record_day(rv[i as int], *time_config)));
            }
            let found = find_bucket(&table, data.records[i].content_hash.as_str(), day);
            let keep = match found {
                Some(k) => {
                    let pages_ok = match min_pages_per_day {
                        Some(m) => table[k].pages >= m as u128,
                        None => true,
                    };
                    let time_ok = match min_time_per_day {
                        Some(t) => table[k].seconds >= t as u128,
                        None => true,
                    };
                    pages_ok && time_ok
                },
                None => false,
            };
            if keep {
                let ghost before = record_views(kept@);
                let r = StatisticsRecord {
                    content_hash: data.records[i].content_hash.clone(),
                    date: data.records[i].date,
                    pages_read: data.records[i].pages_read,
                    duration_seconds: data.records[i].duration_seconds,
                };
                kept.push(r);
                assert(record_views(kept@) =~= before.push(rv[i as int]));
            }
            i += 1;
        }
        assert(rv.take(data.records.len() as int) =~= rv);
        data.records = kept;
    }

    /// Keeps only the books and sessions whose fingerprint the library holds.
    pub fn filter_to_library(data: &mut StatisticsData, library_md5s: &ContentHashSet)
        ensures
            final(data).books@ == books_in_library(old(data).books@, library_md5s@),
            record_views(final(data).records@) == records_in_library(
                record_views(old(data).records@),
                library_md5s@,
            ),
    {
        let ghost rv = record_views(data.records@);
        let mut kept: Vec<StatisticsRecord> = Vec::new();
        let mut i: usize = 0;
        assert(record_views(kept@) =~= records_in_library(rv.take(0), library_md5s@));
        while i < data.records.len()
            invariant
                i <= data.records.len(),
                *data == *old(data),
                rv == record_views(data.records@),
                record_views(kept@) == records_in_library(rv.take(i as int), library_md5s@),
            decreases data.records.len() - i,
        {
            proof {
                assert(rv.take(i + 1).drop_last() =~= rv.take(i as int));
                assert(rv.take(i + 1).last() == rv[i as int]);
                assert(rv[i as int] == data.records@[i as int]@);
            }
            if library_md5s.contains(data.records[i].content_hash.as_str()) {
                let ghost before = record_views(kept@);
                let r = StatisticsRecord {
                    content_hash: data.records[i].content_hash.clone(),
                    date: data.records[i].date,
                    pages_read: data.records[i].pages_read,
                    duration_seconds: data.records[i].duration_seconds,
                };
                kept.push(r);
                assert(record_views(kept@) =~= before.push(rv[i as int]));
            }
            i += 1;
        }
        assert(rv.take(data.records.len() as int) =~= rv);
        let mut all: Vec<StatBook> = Vec::new();
        std::mem::swap(&mut all, &mut data.books);
        let mut books: Vec<StatBook> = Vec::new();
        assert(books@ =~= books_in_library(all@.take(0), library_md5s@));
        for book in it: all.into_iter()
            invariant
                it.seq() == all@,
                all@ == old(data).books@,
                books@ == books_in_library(all@.take(it.index() as int), library_md5s@),
        {
            proof {
                let n = it.index() as int;
                assert(all@.take(n + 1).drop_last() =~= all@.take(n));
            }
            if library_md5s.contains(book.content_hash.as_str()) {
                books.push(book);
            }
        }
        assert(all@.take(all@.len() as int) =~= all@);
        data.records = kept;
        data.books = books;
    }
}

/// Every book that is kept for the library is one of the books, and the
/// library holds its fingerprint.
pub proof fn lemma_books_in_library(part: Seq<StatBook>, library: Set<Seq<char>>)
    ensures
        forall|i: int|
            0 <= i < books_in_library(part, library).len() ==> library.contains(
                (#[trigger] books_in_library(part, library)[i]).content_hash@,
            ) && part.contains(books_in_library(part, library)[i]),
    decreases part.len(),
{
    if part.len() > 0 {
        let init = part.drop_last();
        lemma_books_in_library(init, library);
        let rest = books_in_library(init, library);
        let out = books_in_library(part, library);
        assert forall|i: int| 0 <= i < out.len() implies library.contains(
            (#[trigger] out[i]).content_hash@,
        ) && part.contains(out[i]) by {
            if i < rest.len() {
                assert(out[i] == rest[i]);
                let j = choose|j: int| 0 <= j < init.len() && init[j] == rest[i];
                assert(part[j] == out[i]);
            } else {
                assert(part[part.len() - 1] == out[i]);
            }
        }
    }
}

} // verus!
