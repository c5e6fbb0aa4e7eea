//! What the web server decides: which page the root shows, what a folder
//! listing offers, whether a set-up can be saved, and how the library counts
//! up.

use vstd::prelude::*;
use crate::cli::PathFact;
use crate::config::AppSettings;
use crate::library_item::{BookStatus, LibraryItem};
use crate::text::{chars_of, ends_with, lemma_text_lt_irreflexive, lemma_text_lt_total, lemma_text_lt_transitive, owned, text_eq, text_less, text_lt};

verus! {

/// What the root of the site shows.
#[derive(Debug, Clone, Copy, PartialEq, Eq, Structural)]
pub enum IndexPage {
    /// The generated site.
    Application,
    /// An error: the generated site is there and cannot be read.
    ReadFailure,
    /// A notice that the site is being generated.
    Loading,
    /// The set-up page.
    Setup,
}

/// What the root shows: the set-up page until settings are saved; from then
/// on the site, or a notice while it is not generated yet.
pub fn index_page(is_configured: bool, index_exists: bool, index_readable: bool) -> (r: IndexPage)
    ensures
        r == if !is_configured {
            IndexPage::Setup
        } else if !index_exists {
            IndexPage::Loading
        } else if index_readable {
            IndexPage::Application
        } else {
            IndexPage::ReadFailure
        },
{
    if !is_configured {
        IndexPage::Setup
    } else if !index_exists {
        IndexPage::Loading
    } else if index_readable {
        IndexPage::Application
    } else {
        IndexPage::ReadFailure
    }
}

/// An entry of a folder as the file system lists it.
#[derive(Debug, Clone)]
pub struct ListedEntry {
    pub name: String,
    pub path: String,
    pub is_dir: bool,
}

/// A listed entry as plain data.
pub struct EntryView {
    pub name: Seq<char>,
    pub path: Seq<char>,
    pub is_dir: bool,
}

impl View for ListedEntry {
    type V = EntryView;

    open spec fn view(&self) -> EntryView {
        EntryView { name: self.name@, path: self.path@, is_dir: self.is_dir }
    }
}

/// The entries as plain data.
pub open spec fn listed_views(s: Seq<ListedEntry>) -> Seq<EntryView> {
    s.map_values(|e: ListedEntry| e@)
}

/// Whether an entry is offered: it is not hidden, and it is a folder or a
/// statistics store.
pub open spec fn is_offered(e: EntryView) -> bool {
    !(e.name.len() > 0 && e.name[0] == '.') && (e.is_dir || ".sqlite3"@.is_suffix_of(e.name))
}

/// Whether `a` is listed before `b`: folders before files, and by name
/// among each.
pub open spec fn listed_before(a: EntryView, b: EntryView) -> bool {
    if a.is_dir != b.is_dir {
        a.is_dir
    } else {
        text_lt(a.name, b.name)
    }
}

/// The ordered entries with one more, placed behind all that are not listed
/// after it.
pub open spec fn insert_listed(sorted: Seq<EntryView>, x: EntryView) -> Seq<EntryView>
    decreases sorted.len(),
{
    if sorted.len() == 0 || !listed_before(x, sorted.last()) {
        sorted.push(x)
    } else {
        insert_listed(sorted.drop_last(), x).push(sorted.last())
    }
}

/// The offered entries among the first of a listing, in the order of the
/// listing: folders first, then files, each by name.
pub open spec fn offered(listed: Seq<EntryView>) -> Seq<EntryView>
    decreases listed.len(),
{
    if listed.len() == 0 {
        Seq::empty()
    } else {
        let rest = offered(listed.drop_last());
        if is_offered(listed.last()) {
            insert_listed(rest, listed.last())
        } else {
            rest
        }
    }
}

/// Whether no entry comes before one that is listed before it.
pub open spec fn listing_ordered(items: Seq<EntryView>) -> bool {
    forall|i: int, j: int| 0 <= i < j < items.len() ==> !listed_before(items[j], items[i])
}

/// Where neither `a` is listed before `b` nor `b` before `c`, `a` is not
/// listed before `c`.
proof fn lemma_not_before_chain(a: EntryView, b: EntryView, c: EntryView)
    requires
        !listed_before(a, b),
        !listed_before(b, c),
    ensures
        !listed_before(a, c),
{
    if listed_before(a, c) {
        lemma_text_lt_total(a.name, b.name);
        lemma_text_lt_total(b.name, c.name);
        if a.is_dir == b.is_dir && b.is_dir == c.is_dir {
            if text_lt(c.name, b.name) {
                lemma_text_lt_transitive(a.name, c.name, b.name);
            } else if text_lt(b.name, a.name) {
                lemma_text_lt_transitive(b.name, a.name, c.name);
            }
        }
    }
}

/// Of two entries at most one is listed before the other.
proof fn lemma_before_one_way(a: EntryView, b: EntryView)
    requires
        listed_before(a, b),
    ensures
        !listed_before(b, a),
{
    if a.is_dir == b.is_dir && text_lt(b.name, a.name) {
        lemma_text_lt_transitive(a.name, b.name, a.name);
        lemma_text_lt_irreflexive(a.name);
    }
}

/// Placing an entry keeps the listing ordered.
proof fn lemma_insert_listed(sorted: Seq<EntryView>, x: EntryView)
    requires
        listing_ordered(sorted),
    ensures
        listing_ordered(insert_listed(sorted, x)),
        forall|i: int|
            0 <= i < insert_listed(sorted, x).len() ==> insert_listed(sorted, x)[i] == x
                || sorted.contains(#[trigger] insert_listed(sorted, x)[i]),
    decreases sorted.len(),
{
    let out = insert_listed(sorted, x);
    if sorted.len() == 0 || !listed_before(x, sorted.last()) {
        assert forall|i: int, j: int| 0 <= i < j < out.len() implies !listed_before(
            out[j],
            out[i],
        ) by {
            if j == sorted.len() {
                if i < sorted.len() - 1 {
                    assert(!listed_before(sorted[sorted.len() - 1], sorted[i]));
                    lemma_not_before_chain(x, sorted[sorted.len() - 1], sorted[i]);
                }
            } else {
                assert(!listed_before(sorted[j], sorted[i]));
            }
        }
        assert forall|i: int| 0 <= i < out.len() implies out[i] == x || sorted.contains(
            #[trigger] out[i],
        ) by {
            if i < sorted.len() {
                assert(sorted[i] == out[i]);
            }
        }
    } else {
        let init = sorted.drop_last();
        let last = sorted.last();
        assert(listing_ordered(init)) by {
            assert forall|i: int, j: int| 0 <= i < j < init.len() implies !listed_before(
                init[j],
                init[i],
            ) by {
                assert(!listed_before(sorted[j], sorted[i]));
            }
        }
        lemma_insert_listed(init, x);
        let inner = insert_listed(init, x);
        assert forall|i: int, j: int| 0 <= i < j < out.len() implies !listed_before(
            out[j],
            out[i],
        ) by {
            if j < inner.len() {
                assert(!listed_before(inner[j], inner[i]));
            } else if inner[i] == x {
                lemma_before_one_way(x, last);
            } else {
                let k = choose|k: int| 0 <= k < init.len() && init[k] == inner[i];
                assert(!listed_before(sorted[sorted.len() - 1], sorted[k]));
            }
        }
        assert forall|i: int| 0 <= i < out.len() implies out[i] == x || sorted.contains(
            #[trigger] out[i],
        ) by {
            if i < inner.len() {
                if inner[i] != x {
                    let k = choose|k: int| 0 <= k < init.len() && init[k] == inner[i];
                    assert(sorted[k] == out[i]);
                }
            } else {
                assert(sorted[sorted.len() - 1] == out[i]);
            }
        }
    }
}

/// What is offered of a listing is ordered, and holds offered entries of the
/// listing only.
pub proof fn lemma_offered(listed: Seq<EntryView>)
    ensures
        listing_ordered(offered(listed)),
        forall|i: int|
            0 <= i < offered(listed).len() ==> is_offered(#[trigger] offered(listed)[i])
                && listed.contains(offered(listed)[i]),
    decreases listed.len(),
{
    if listed.len() > 0 {
        let init = listed.drop_last();
        lemma_offered(init);
        let rest = offered(init);
        let out = offered(listed);
        if is_offered(listed.last()) {
            lemma_insert_listed(rest, listed.last());
        }
        assert forall|i: int| 0 <= i < out.len() implies is_offered(#[trigger] out[i])
            && listed.contains(out[i]) by {
            if out[i] == listed.last() && is_offered(listed.last()) {
                assert(listed[listed.len() - 1] == out[i]);
            } else {
                assert(rest.contains(out[i]));
                let k = choose|k: int| 0 <= k < rest.len() && rest[k] == out[i];
                let m = choose|m: int| 0 <= m < init.len() && init[m] == rest[k];
                assert(listed[m] == out[i]);
            }
        }
    }
}

/// Placing an entry at `k`, before which nothing is listed after it and from
/// which on everything is, is inserting it in order.
proof fn lemma_insert_listed_at(sorted: Seq<EntryView>, x: EntryView, k: int)
    requires
        0 <= k <= sorted.len(),
        k > 0 ==> !listed_before(x, sorted[k - 1]),
        forall|j: int| k <= j < sorted.len() ==> listed_before(x, sorted[j]),
    ensures
        insert_listed(sorted, x) == sorted.insert(k, x),
    decreases sorted.len(),
{
    if k == sorted.len() {
        assert(insert_listed(sorted, x) =~= sorted.insert(k, x));
    } else {
        assert(listed_before(x, sorted[sorted.len() - 1]));
        lemma_insert_listed_at(sorted.drop_last(), x, k);
        assert(insert_listed(sorted, x) =~= sorted.insert(k, x));
    }
}

/// Whether `a` is listed before `b`.
fn is_listed_before(a: &ListedEntry, b: &ListedEntry) -> (r: bool)
    ensures
        r == listed_before(a@, b@),
{
    if a.is_dir != b.is_dir {
        a.is_dir
    } else {
        text_less(a.name.as_str(), b.name.as_str())
    }
}

/// Whether an entry is offered.
fn offers(e: &ListedEntry) -> (r: bool)
    ensures
        r == is_offered(e@),
{
    let name = chars_of(e.name.as_str());
    if name.len() > 0 && name[0] == '.' {
        return false;
    }
    e.is_dir || ends_with(e.name.as_str(), ".sqlite3")
}

/// What a folder listing offers for browsing: its folders and statistics
/// stores that are not hidden, folders first, each kind by name.
pub fn browse_entries(listed: Vec<ListedEntry>) -> (r: Vec<ListedEntry>)
    ensures
        listed_views(r@) == offered(listed_views(listed@)),
        listing_ordered(listed_views(r@)),
{
    let ghost lv = listed_views(listed@);
    let mut out: Vec<ListedEntry> = Vec::new();
    assert(listed_views(out@) =~= offered(lv.take(0)));
    for entry in it: listed.into_iter()
        invariant
            lv == listed_views(listed@),
            it.seq() == listed@,
            listed_views(out@) == offered(lv.take(it.index() as int)),
    {
        proof {
            let i = it.index() as int;
            assert(lv.take(i + 1).drop_last() =~= lv.take(i));
            assert(lv.take(i + 1).last() == entry@);
        }
        if offers(&entry) {
            let ghost sv = listed_views(out@);
            let mut k: usize = out.len();
            while k > 0 && is_listed_before(&entry, &out[k - 1])
                invariant
                    k <= out.len(),
                    sv == listed_views(out@),
                    forall|j: int| k <= j < sv.len() ==> listed_before(entry@, sv[j]),
                decreases k,
            {
                k -= 1;
                assert(sv[k as int] == out@[k as int]@);
            }
            proof {
                if k > 0 {
                    assert(sv[k - 1] == out@[k - 1]@);
                }
                lemma_insert_listed_at(sv, entry@, k as int);
            }
            out.insert(k, entry);
            assert(listed_views(out@) =~= sv.insert(k as int, entry@));
        }
    }
    proof {
        assert(lv.take(listed@.len() as int) =~= lv);
        lemma_offered(lv);
    }
    out
}

/// Why a set-up cannot be saved.
#[derive(Debug, Clone, Copy, PartialEq, Eq, Structural)]
pub enum SetupError {
    /// The library path at this position is missing or no directory.
    InvalidLibraryPath(usize),
    /// The statistics store is missing.
    InvalidStatisticsPath,
}

/// The position of the first library path that is missing or no directory,
/// among the first `n`.
pub open spec fn first_invalid(library: Seq<PathFact>, n: int) -> Option<int>
    decreases n,
{
    if n <= 0 {
        None
    } else {
        match first_invalid(library, n - 1) {
            Some(i) => Some(i),
            None => if 0 <= n - 1 < library.len() && (!library[n - 1].exists || !library[n
                - 1].is_dir) {
                Some(n - 1)
            } else {
                None
            },
        }
    }
}

/// Checks the paths of a set-up: every library path must be a directory that
/// exists, and the statistics store, where one is named, must exist.
pub fn validate_setup(library: &Vec<PathFact>, statistics: &Option<PathFact>) -> (r: Result<
    (),
    SetupError,
>)
    ensures
        match first_invalid(library@, library@.len() as int) {
            Some(i) => r == Err::<(), SetupError>(SetupError::InvalidLibraryPath(i as usize)),
            None => match *statistics {
                Some(f) => if f.exists {
                    r.is_ok()
                } else {
                    r == Err::<(), SetupError>(SetupError::InvalidStatisticsPath)
                },
                None => r.is_ok(),
            },
        },
{
    let mut i: usize = 0;
    while i < library.len()
        invariant
            i <= library.len(),
            first_invalid(library@, i as int).is_none(),
        decreases library.len() - i,
    {
        if !library[i].exists || !library[i].is_dir {
            proof {
                lemma_first_invalid_stays(library@, i + 1, library@.len() as int);
            }
            return Err(SetupError::InvalidLibraryPath(i));
        }
        i += 1;
    }
    match statistics {
        Some(f) => if f.exists {
            Ok(())
        } else {
            Err(SetupError::InvalidStatisticsPath)
        },
        None => Ok(()),
    }
}

/// An invalid path among the first stays the first invalid one.
proof fn lemma_first_invalid_stays(library: Seq<PathFact>, k: int, n: int)
    requires
        0 <= k <= n,
        first_invalid(library, k).is_some(),
    ensures
        first_invalid(library, n) == first_invalid(library, k),
    decreases n - k,
{
    if k < n {
        lemma_first_invalid_stays(library, k, n - 1);
    }
}

/// The settings after a change of language: the saved ones, or the defaults,
/// with the new language, and with the statistics store that is served where
/// they name none.
pub fn apply_language(
    saved: Option<AppSettings>,
    language: String,
    served_statistics: &Option<String>,
) -> (r: AppSettings)
    ensures
        r.language == language,
        match saved {
            Some(s) => r.library_paths == s.library_paths && r.statistics_db_path == if s.statistics_db_path.is_some() {
                s.statistics_db_path
            } else {
                *served_statistics
            },
            None => r.library_paths@.len() == 0 && r.statistics_db_path == *served_statistics,
        },
{
    let (library_paths, statistics) = match saved {
        Some(s) => (s.library_paths, s.statistics_db_path),
        None => (Vec::new(), None),
    };
    let statistics_db_path = match statistics {
        Some(p) => Some(p),
        None => match served_statistics {
            Some(p) => Some(p.clone()),
            None => None,
        },
    };
    AppSettings { library_paths, statistics_db_path, language }
}

/// Where an item stands with its reader.
#[derive(Debug, Clone, Copy, PartialEq, Eq, Structural)]
pub enum Shelf {
    /// Given up.
    Paused,
    /// Read to the end.
    Read,
    /// Begun.
    Reading,
    /// Not begun.
    Unread,
}

/// Where an item stands: given up where the reader says so; else read where
/// its progress is the whole book, reading where it is more than nothing,
/// unread otherwise.
pub open spec fn shelf_of(item: LibraryItem) -> Shelf {
    let progress: int = match item.koreader_metadata {
        Some(m) => match m.percent_finished {
            Some(p) => p as int,
            None => 0,
        },
        None => 0,
    };
    let status = match item.summary_of() {
        Some(s) => s.status,
        None => BookStatus::Unknown,
    };
    if status == BookStatus::Abandoned {
        Shelf::Paused
    } else if progress >= 1_000_000 {
        Shelf::Read
    } else if progress > 0 {
        Shelf::Reading
    } else {
        Shelf::Unread
    }
}

/// How many of the items stand on a shelf.
pub open spec fn count_on(items: Seq<LibraryItem>, shelf: Shelf) -> nat
    decreases items.len(),
{
    if items.len() == 0 {
        0
    } else {
        count_on(items.drop_last(), shelf) + if shelf_of(items.last()) == shelf {
            1nat
        } else {
            0nat
        }
    }
}

/// The library counted by shelf.
#[derive(Debug, Clone, Copy, PartialEq, Eq, Structural)]
pub struct LibraryCounts {
    pub total: usize,
    pub read: usize,
    pub reading: usize,
    pub unread: usize,
    pub paused: usize,
}

/// Where an item stands with its reader.
pub fn shelf(item: &LibraryItem) -> (r: Shelf)
    ensures
        r == shelf_of(*item),
{
    let progress: u32 = match item.progress_millionths() {
        Some(p) => p,
        None => 0,
    };
    if item.status() == BookStatus::Abandoned {
        Shelf::Paused
    } else if progress >= 1_000_000 {
        Shelf::Read
    } else if progress > 0 {
        Shelf::Reading
    } else {
        Shelf::Unread
    }
}

/// Counts the library by shelf. Every item stands on exactly one shelf.
pub fn library_counts(items: &Vec<LibraryItem>) -> (r: LibraryCounts)
    ensures
        r.total == items@.len(),
        r.read == count_on(items@, Shelf::Read),
        r.reading == count_on(items@, Shelf::Reading),
        r.unread == count_on(items@, Shelf::Unread),
        r.paused == count_on(items@, Shelf::Paused),
        r.read + r.reading + r.unread + r.paused == r.total,
{
    let mut c = LibraryCounts { total: items.len(), read: 0, reading: 0, unread: 0, paused: 0 };
    let mut i: usize = 0;
    while i < items.len()
        invariant
            i <= items.len(),
            c.total == items@.len(),
            c.read == count_on(items@.take(i as int), Shelf::Read),
            c.reading == count_on(items@.take(i as int), Shelf::Reading),
            c.unread == count_on(items@.take(i as int), Shelf::Unread),
            c.paused == count_on(items@.take(i as int), Shelf::Paused),
            c.read + c.reading + c.unread + c.paused == i,
        decreases items.len() - i,
    {
        proof {
            assert(items@.take(i + 1).drop_last() =~= items@.take(i as int));
        }
        match shelf(&items[i]) {
            Shelf::Paused => {
                c.paused = c.paused + 1;
            },
            Shelf::Read => {
                c.read = c.read + 1;
            },
            Shelf::Reading => {
                c.reading = c.reading + 1;
            },
            Shelf::Unread => {
                c.unread = c.unread + 1;
            },
        }
        i += 1;
    }
    assert(items@.take(items.len() as int) =~= items@);
    c
}

} // verus!
