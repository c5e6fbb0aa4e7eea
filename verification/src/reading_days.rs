//! The days on which a book was read, in order, each with the totals of its
//! sessions.

use vstd::prelude::*;
use crate::statistics::{RecordView, StatisticsRecord, bucket_pages, bucket_seconds, in_bucket, record_day, record_views};
use crate::text::text_eq;
use crate::time_config::TimeConfig;

verus! {

/// What was read of one book on one logical day.
#[derive(Debug, Clone, Copy, PartialEq, Eq, Structural)]
pub struct DayBucket {
    /// The logical day, as a number of days since the epoch.
    pub day: i64,
    pub pages_read: u128,
    pub duration_seconds: u128,
}

/// A day's totals as plain data.
pub struct DayView {
    pub day: int,
    pub pages: nat,
    pub seconds: nat,
}

impl View for DayBucket {
    type V = DayView;

    open spec fn view(&self) -> DayView {
        DayView {
            day: self.day as int,
            pages: self.pages_read as nat,
            seconds: self.duration_seconds as nat,
        }
    }
}

/// The days as plain data.
pub open spec fn day_views(s: Seq<DayBucket>) -> Seq<DayView> {
    s.map_values(|d: DayBucket| d@)
}

/// Whether the days come in strictly ascending order.
pub open spec fn ascending(series: Seq<DayView>) -> bool {
    forall|i: int, j: int| 0 <= i < j < series.len() ==> series[i].day < series[j].day
}

/// The series with a session added: to the totals of its day where the series
/// has that day, else as a new day in its place in the order.
pub open spec fn add_day(series: Seq<DayView>, day: int, pages: nat, seconds: nat) -> Seq<DayView>
    decreases series.len(),
{
    if series.len() == 0 || series.last().day < day {
        series.push(DayView { day, pages, seconds })
    } else if series.last().day == day {
        series.drop_last().push(
            DayView { day, pages: series.last().pages + pages, seconds: series.last().seconds + seconds },
        )
    } else {
        add_day(series.drop_last(), day, pages, seconds).push(series.last())
    }
}

/// The days on which a book was read, in ascending order, each with the
/// totals of its sessions.
pub open spec fn day_series(records: Seq<RecordView>, hash: Seq<char>, tc: TimeConfig) -> Seq<DayView>
    decreases records.len(),
{
    if records.len() == 0 {
        Seq::empty()
    } else {
        let rest = day_series(records.drop_last(), hash, tc);
        if records.last().content_hash == hash {
            add_day(
                rest,
                record_day(records.last(), tc),
                records.last().pages_read,
                records.last().duration_seconds,
            )
        } else {
            rest
        }
    }
}

/// The pages that a series holds for a day; 0 where it lacks the day.
pub open spec fn pages_on(series: Seq<DayView>, day: int) -> nat
    decreases series.len(),
{
    if series.len() == 0 {
        0
    } else {
        pages_on(series.drop_last(), day) + if series.last().day == day {
            series.last().pages
        } else {
            0
        }
    }
}

/// The seconds that a series holds for a day; 0 where it lacks the day.
pub open spec fn seconds_on(series: Seq<DayView>, day: int) -> nat
    decreases series.len(),
{
    if series.len() == 0 {
        0
    } else {
        seconds_on(series.drop_last(), day) + if series.last().day == day {
            series.last().seconds
        } else {
            0
        }
    }
}

/// Whether the series has the day.
pub open spec fn has_day(series: Seq<DayView>, day: int) -> bool {
    exists|i: int| 0 <= i < series.len() && (#[trigger] series[i]).day == day
}

/// Adding a session keeps the order, adds its totals to its day and to no
/// other, and adds no day but its own.
pub proof fn lemma_add_day(series: Seq<DayView>, day: int, pages: nat, seconds: nat)
    requires
        ascending(series),
    ensures
        ascending(add_day(series, day, pages, seconds)),
        forall|d: int|
            #![trigger pages_on(add_day(series, day, pages, seconds), d)]
            #![trigger pages_on(series, d)]
            pages_on(add_day(series, day, pages, seconds), d) == pages_on(series, d) + if d == day {
                pages
            } else {
                0
            },
        forall|d: int|
            #![trigger seconds_on(add_day(series, day, pages, seconds), d)]
            #![trigger seconds_on(series, d)]
            seconds_on(add_day(series, day, pages, seconds), d) == seconds_on(series, d) + if d
                == day {
                seconds
            } else {
                0
            },
        forall|d: int|
            #![trigger has_day(add_day(series, day, pages, seconds), d)]
            #![trigger has_day(series, d)]
            has_day(add_day(series, day, pages, seconds), d) == (has_day(series, d) || d == day),
        add_day(series, day, pages, seconds).len() > 0,
        series.len() > 0 ==> add_day(series, day, pages, seconds).last().day >= series.last().day,
        add_day(series, day, pages, seconds).last().day >= day,
    decreases series.len(),
{
    let out = add_day(series, day, pages, seconds);
    if series.len() == 0 || series.last().day < day {
        assert(out.drop_last() =~= series);
        assert forall|d: int| #[trigger] pages_on(out, d) == pages_on(series, d) + if d == day {
            pages
        } else {
            0
        } by {
            assert(out.last().day == day && out.last().pages == pages);
        }
        assert forall|d: int| #[trigger] seconds_on(out, d) == seconds_on(series, d) + if d == day {
            seconds
        } else {
            0
        } by {
            assert(out.last().day == day && out.last().seconds == seconds);
        }
        assert forall|d: int| #[trigger] has_day(out, d) == (has_day(series, d) || d == day) by {
            if has_day(series, d) {
                let i = choose|i: int| 0 <= i < series.len() && (#[trigger] series[i]).day == d;
                assert(out[i].day == d);
            }
            if d == day {
                assert(out[out.len() - 1].day == d);
            }
            if has_day(out, d) {
                let i = choose|i: int| 0 <= i < out.len() && (#[trigger] out[i]).day == d;
                if i < series.len() {
                    assert(series[i].day == d);
                }
            }
        }
    } else if series.last().day == day {
        let init = series.drop_last();
        assert(out.drop_last() =~= init);
        assert forall|d: int| #[trigger] pages_on(out, d) == pages_on(series, d) + if d == day {
            pages
        } else {
            0
        } by {
            assert(out.last().day == day && out.last().pages == series.last().pages + pages);
        }
        assert forall|d: int| #[trigger] seconds_on(out, d) == seconds_on(series, d) + if d == day {
            seconds
        } else {
            0
        } by {
            assert(out.last().day == day && out.last().seconds == series.last().seconds + seconds);
        }
        assert forall|d: int| #[trigger] has_day(out, d) == (has_day(series, d) || d == day) by {
            if has_day(series, d) {
                let i = choose|i: int| 0 <= i < series.len() && (#[trigger] series[i]).day == d;
                assert(out[i].day == d);
            }
            if d == day {
                assert(out[out.len() - 1].day == d);
            }
            if has_day(out, d) {
                let i = choose|i: int| 0 <= i < out.len() && (#[trigger] out[i]).day == d;
                assert(series[i].day == d);
            }
        }
    } else {
        let init = series.drop_last();
        let last = series.last();
        assert(ascending(init)) by {
            assert forall|i: int, j: int| 0 <= i < j < init.len() implies init[i].day
                < init[j].day by {
                assert(series[i].day < series[j].day);
            }
        }
        lemma_add_day(init, day, pages, seconds);
        let inner = add_day(init, day, pages, seconds);
        assert(out.drop_last() =~= inner);
        assert(out.last() == last);
        assert forall|d: int| #[trigger] pages_on(out, d) == pages_on(series, d) + if d == day {
            pages
        } else {
            0
        } by {
            assert(pages_on(inner, d) == pages_on(init, d) + if d == day {
                pages
            } else {
                0
            });
        }
        assert forall|d: int| #[trigger] seconds_on(out, d) == seconds_on(series, d) + if d == day {
            seconds
        } else {
            0
        } by {
            assert(seconds_on(inner, d) == seconds_on(init, d) + if d == day {
                seconds
            } else {
                0
            });
        }
        assert(forall|i: int| 0 <= i < init.len() ==> init[i].day < last.day) by {
            assert forall|i: int| 0 <= i < init.len() implies init[i].day < last.day by {
                assert(series[i].day < series[series.len() - 1].day);
            }
        }
        assert forall|i: int| 0 <= i < inner.len() implies inner[i].day < last.day by {
            assert(has_day(inner, inner[i].day));
            if has_day(init, inner[i].day) {
                let k = choose|k: int| 0 <= k < init.len() && (#[trigger] init[k]).day == inner[i].day;
            }
        }
        assert forall|i: int, j: int| 0 <= i < j < out.len() implies out[i].day < out[j].day by {
            if j < inner.len() {
                assert(inner[i].day < inner[j].day);
            }
        }
        assert forall|d: int| #[trigger] has_day(out, d) == (has_day(series, d) || d == day) by {
            if has_day(series, d) {
                let i = choose|i: int| 0 <= i < series.len() && (#[trigger] series[i]).day == d;
                if i < init.len() {
                    assert(init[i].day == d);
                    assert(has_day(init, d));
                    assert(has_day(inner, d));
                    let k = choose|k: int| 0 <= k < inner.len() && (#[trigger] inner[k]).day == d;
                    assert(out[k].day == d);
                } else {
                    assert(out[out.len() - 1].day == d);
                }
            }
            if d == day {
                assert(has_day(inner, d));
                let k = choose|k: int| 0 <= k < inner.len() && (#[trigger] inner[k]).day == d;
                assert(out[k].day == d);
            }
            if has_day(out, d) {
                let i = choose|i: int| 0 <= i < out.len() && (#[trigger] out[i]).day == d;
                if i < inner.len() {
                    assert(inner[i].day == d);
                    assert(has_day(inner, d));
                    if has_day(init, d) {
                        let k = choose|k: int| 0 <= k < init.len() && (#[trigger] init[k]).day == d;
                        assert(series[k].day == d);
                    }
                } else {
                    assert(series[series.len() - 1].day == d);
                }
            }
        }
    }
}

/// In an ascending series each day's entry holds all that the series has for
/// that day.
pub proof fn lemma_entry_totals(series: Seq<DayView>, i: int)
    requires
        ascending(series),
        0 <= i < series.len(),
    ensures
        pages_on(series, series[i].day) == series[i].pages,
        seconds_on(series, series[i].day) == series[i].seconds,
    decreases series.len(),
{
    let init = series.drop_last();
    assert(ascending(init)) by {
        assert forall|a: int, b: int| 0 <= a < b < init.len() implies init[a].day < init[b].day by {
            assert(series[a].day < series[b].day);
        }
    }
    if i < series.len() - 1 {
        lemma_entry_totals(init, i);
        assert(series[i].day < series[series.len() - 1].day);
    } else {
        lemma_day_absent(init, series[i].day);
        assert forall|k: int| 0 <= k < init.len() implies (#[trigger] init[k]).day
            != series[i].day by {
            assert(series[k].day < series[series.len() - 1].day);
        }
    }
}

/// A series holds nothing for a day that it lacks.
pub proof fn lemma_day_absent(series: Seq<DayView>, day: int)
    ensures
        !has_day(series, day) ==> pages_on(series, day) == 0 && seconds_on(series, day) == 0,
    decreases series.len(),
{
    if series.len() > 0 {
        lemma_day_absent(series.drop_last(), day);
        if !has_day(series, day) {
            assert(series[series.len() - 1].day != day);
            if has_day(series.drop_last(), day) {
                let k = choose|k: int|
                    0 <= k < series.drop_last().len() && (#[trigger] series.drop_last()[k]).day
                        == day;
                assert(series[k].day == day);
            }
        }
    }
}

/// The day series of a book is ascending; it holds for each day the totals
/// of the book's bucket of that day; and it has a day exactly where some
/// session of the book falls on it.
pub proof fn lemma_day_series(records: Seq<RecordView>, hash: Seq<char>, tc: TimeConfig)
    ensures
        ascending(day_series(records, hash, tc)),
        forall|d: int|
            #![trigger pages_on(day_series(records, hash, tc), d)]
            #![trigger bucket_pages(records, hash, d, tc)]
            pages_on(day_series(records, hash, tc), d) == bucket_pages(records, hash, d, tc),
        forall|d: int|
            #![trigger seconds_on(day_series(records, hash, tc), d)]
            #![trigger bucket_seconds(records, hash, d, tc)]
            seconds_on(day_series(records, hash, tc), d) == bucket_seconds(records, hash, d, tc),
        forall|d: int|
            #[trigger] has_day(day_series(records, hash, tc), d) == exists|j: int|
                0 <= j < records.len() && in_bucket(#[trigger] records[j], hash, d, tc),
    decreases records.len(),
{
    if records.len() > 0 {
        let init = records.drop_last();
        let last = records.last();
        lemma_day_series(init, hash, tc);
        let rest = day_series(init, hash, tc);
        if last.content_hash == hash {
            lemma_add_day(rest, record_day(last, tc), last.pages_read, last.duration_seconds);
        }
        let out = day_series(records, hash, tc);
        assert forall|d: int| #[trigger] has_day(out, d) == exists|j: int|
            0 <= j < records.len() && in_bucket(#[trigger] records[j], hash, d, tc) by {
            let before = exists|j: int| 0 <= j < init.len() && in_bucket(#[trigger] init[j], hash, d, tc);
            assert(has_day(rest, d) == before);
            if before {
                let j = choose|j: int| 0 <= j < init.len() && in_bucket(#[trigger] init[j], hash, d, tc);
                assert(in_bucket(records[j], hash, d, tc));
            }
            if in_bucket(last, hash, d, tc) {
                assert(in_bucket(records[records.len() - 1], hash, d, tc));
            }
            if exists|j: int| 0 <= j < records.len() && in_bucket(#[trigger] records[j], hash, d, tc) {
                let j = choose|j: int|
                    0 <= j < records.len() && in_bucket(#[trigger] records[j], hash, d, tc);
                if j < init.len() {
                    assert(in_bucket(init[j], hash, d, tc));
                }
            }
        }
    } else {
        assert forall|d: int| #[trigger] has_day(day_series(records, hash, tc), d) == exists|j: int|
            0 <= j < records.len() && in_bucket(#[trigger] records[j], hash, d, tc) by {}
    }
}

/// Adds a session's totals to the series.
fn add_to_series(series: &mut Vec<DayBucket>, day: i64, pages: u32, seconds: u32)
    requires
        forall|i: int|
            0 <= i < old(series).len() ==> (#[trigger] old(series)@[i]).pages_read + pages
                <= u128::MAX && old(series)@[i].duration_seconds + seconds <= u128::MAX,
    ensures
        day_views(final(series)@) == add_day(
            day_views(old(series)@),
            day as int,
            pages as nat,
            seconds as nat,
        ),
{
    let ghost sv = day_views(series@);
    let mut k: usize = series.len();
    while k > 0 && series[k - 1].day > day
        invariant
            k <= series.len(),
            *series == *old(series),
            sv == day_views(series@),
            forall|j: int| k <= j < series.len() ==> sv[j].day > day,
        decreases k,
    {
        k -= 1;
    }
    if k > 0 && series[k - 1].day == day {
        let merged = DayBucket {
            day,
            pages_read: series[k - 1].pages_read + pages as u128,
            duration_seconds: series[k - 1].duration_seconds + seconds as u128,
        };
        series.set(k - 1, merged);
        proof {
            lemma_add_day_merge(sv, k as int, day as int, pages as nat, seconds as nat);
            assert(day_views(series@) =~= sv.update(
                k - 1,
                DayView {
                    day: day as int,
                    pages: sv[k - 1].pages + pages as nat,
                    seconds: sv[k - 1].seconds + seconds as nat,
                },
            ));
        }
    } else {
        let fresh = DayBucket { day, pages_read: pages as u128, duration_seconds: seconds as u128 };
        series.insert(k, fresh);
        proof {
            lemma_add_day_insert(sv, k as int, day as int, pages as nat, seconds as nat);
            assert(day_views(series@) =~= sv.insert(k as int, fresh@));
        }
    }
}

/// Adding a session whose day the series has at `k - 1`, all later days being
/// greater, changes that entry alone.
proof fn lemma_add_day_merge(series: Seq<DayView>, k: int, day: int, pages: nat, seconds: nat)
    requires
        0 < k <= series.len(),
        series[k - 1].day == day,
        forall|j: int| k <= j < series.len() ==> series[j].day > day,
    ensures
        add_day(series, day, pages, seconds) == series.update(
            k - 1,
            DayView {
                day,
                pages: series[k - 1].pages + pages,
                seconds: series[k - 1].seconds + seconds,
            },
        ),
    decreases series.len(),
{
    let target = series.update(
        k - 1,
        DayView { day, pages: series[k - 1].pages + pages, seconds: series[k - 1].seconds + seconds },
    );
    if k == series.len() {
        assert(add_day(series, day, pages, seconds) =~= target);
    } else {
        let init = series.drop_last();
        lemma_add_day_merge(init, k, day, pages, seconds);
        assert(series[series.len() - 1].day > day);
        assert(add_day(series, day, pages, seconds) =~= target);
    }
}

/// Adding a session whose day the series lacks, the days before `k` being
/// smaller and those from `k` on greater, inserts it at `k`.
proof fn lemma_add_day_insert(series: Seq<DayView>, k: int, day: int, pages: nat, seconds: nat)
    requires
        0 <= k <= series.len(),
        k > 0 ==> series[k - 1].day < day,
        forall|j: int| k <= j < series.len() ==> series[j].day > day,
    ensures
        add_day(series, day, pages, seconds) == series.insert(k, DayView { day, pages, seconds }),
    decreases series.len(),
{
    let target = series.insert(k, DayView { day, pages, seconds });
    if k == series.len() {
        assert(add_day(series, day, pages, seconds) =~= target);
    } else {
        let init = series.drop_last();
        lemma_add_day_insert(init, k, day, pages, seconds);
        assert(series[series.len() - 1].day > day);
        assert(add_day(series, day, pages, seconds) =~= target);
    }
}

/// A bucket's totals are bounded by the number of sessions.
proof fn lemma_totals_bound(records: Seq<RecordView>, hash: Seq<char>, day: int, tc: TimeConfig)
    requires
        forall|j: int|
            0 <= j < records.len() ==> (#[trigger] records[j]).pages_read < 0x1_0000_0000
                && records[j].duration_seconds < 0x1_0000_0000,
    ensures
        bucket_pages(records, hash, day, tc) <= records.len() * 0x1_0000_0000,
        bucket_seconds(records, hash, day, tc) <= records.len() * 0x1_0000_0000,
    decreases records.len(),
{
    if records.len() > 0 {
        assert forall|j: int| 0 <= j < records.drop_last().len() implies (
        #[trigger] records.drop_last()[j]).pages_read < 0x1_0000_0000
            && records.drop_last()[j].duration_seconds < 0x1_0000_0000 by {
            assert(records.drop_last()[j] == records[j]);
        }
        lemma_totals_bound(records.drop_last(), hash, day, tc);
    }
}

/// The days on which the book with the given fingerprint was read, in
/// ascending order, with the totals of each day.
pub fn book_days(records: &Vec<StatisticsRecord>, hash: &str, tc: &TimeConfig) -> (r: Vec<DayBucket>)
    ensures
        day_views(r@) == day_series(record_views(records@), hash@, *tc),
{
    let ghost rv = record_views(records@);
    let mut series: Vec<DayBucket> = Vec::new();
    let mut i: usize = 0;
    assert(day_views(series@) =~= day_series(rv.take(0), hash@, *tc));
    while i < records.len()
        invariant
            i <= records.len(),
            rv == record_views(records@),
            day_views(series@) == day_series(rv.take(i as int), hash@, *tc),
        decreases records.len() - i,
    {
        proof {
            assert(rv.take(i + 1).drop_last() =~= rv.take(i as int));
            assert(rv.take(i + 1).last() == rv[i as int]);
            assert(rv[i as int] == records@[i as int]@);
        }
        if text_eq(records[i].content_hash.as_str(), hash) {
            let day = tc.logical_day(records[i].date);
            proof {
                let prefix = rv.take(i as int);
                lemma_day_series(prefix, hash@, *tc);
                assert forall|k: int| 0 <= k < series.len() implies (#[trigger] series@[k]).pages_read
                    + records@[i as int].pages_read <= u128::MAX && series@[k].duration_seconds
                    + records@[i as int].duration_seconds <= u128::MAX by {
                    let sv = day_views(series@);
                    assert(sv[k] == series@[k]@);
                    lemma_entry_totals(sv, k);
                    assert forall|j: int| 0 <= j < prefix.len() implies (
                    #[trigger] prefix[j]).pages_read < 0x1_0000_0000 && prefix[j].duration_seconds
                        < 0x1_0000_0000 by {
                        assert(prefix[j] == records@[j]@);
                    }
                    lemma_totals_bound(prefix, hash@, sv[k].day, *tc);
                    assert(pages_on(sv, sv[k].day) == bucket_pages(prefix, hash@, sv[k].day, *tc));
                    assert(seconds_on(sv, sv[k].day) == bucket_seconds(prefix, hash@, sv[k].day, *tc));
                }
            }
            add_to_series(&mut series, day, records[i].pages_read, records[i].duration_seconds);
        }
        i += 1;
    }
    assert(rv.take(records.len() as int) =~= rv);
    series
}

} // verus!
