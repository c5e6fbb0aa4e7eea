//! Languages: which translations there are, what they are called, and in
//! which order the resources of a language are consulted.

use vstd::prelude::*;
use crate::paths::{extension, extension_of, file_name, file_name_of, stem, stem_of, text_of};
use crate::text::{chars_of, concat2, concat3, ends_with, find_char, first_index_of, join_texts, joined_with, lemma_first_index_of, lemma_text_lt_irreflexive, lemma_text_lt_total, lemma_text_lt_transitive, lines, lines_of, owned, replace_char, replaced, split_once, split_once_of, starts_with, string_of_range, text_eq, text_less, text_lt, texts, to_uppercase, trim, trim_end_matches, trim_end_matches_of, trimmed, uppercase_of};

verus! {

/// A translation file: its path and what it holds.
#[derive(Debug, Clone)]
pub struct LocaleFile {
    pub path: String,
    pub contents: String,
}

/// A translation file as plain data.
pub struct FileView {
    pub path: Seq<char>,
    pub contents: Seq<char>,
}

impl View for LocaleFile {
    type V = FileView;

    open spec fn view(&self) -> FileView {
        FileView { path: self.path@, contents: self.contents@ }
    }
}

/// The translation files as plain data.
pub open spec fn file_views(s: Seq<LocaleFile>) -> Seq<FileView> {
    s.map_values(|f: LocaleFile| f@)
}

/// A language that the site can be shown in.
#[derive(Debug, Clone)]
pub struct LanguageInfo {
    /// The code of the language, such as `pt` or `en`.
    pub code: String,
    /// The language's name for itself, such as `Português (Brasil)`.
    pub name: String,
}

impl View for LanguageInfo {
    type V = (Seq<char>, Seq<char>);

    open spec fn view(&self) -> (Seq<char>, Seq<char>) {
        (self.code@, self.name@)
    }
}

/// The languages as pairs of code and name.
pub open spec fn info_views(s: Seq<LanguageInfo>) -> Seq<(Seq<char>, Seq<char>)> {
    s.map_values(|i: LanguageInfo| i@)
}

/// The name that a line gives to the language: the line, trimmed, begins
/// with `-lang-name` and holds a `=`; the name is what follows it, trimmed.
pub open spec fn lang_name_line(line: Seq<char>) -> Option<Seq<char>> {
    let t = trimmed(line);
    if "-lang-name"@.is_prefix_of(t) {
        match split_once_of(t, '=') {
            Some(p) => Some(trimmed(p.1)),
            None => None,
        }
    } else {
        None
    }
}

/// The name that the first naming line gives.
pub open spec fn first_lang_name(lines: Seq<Seq<char>>) -> Option<Seq<char>>
    decreases lines.len(),
{
    if lines.len() == 0 {
        None
    } else {
        match lang_name_line(lines[0]) {
            Some(n) => Some(n),
            None => first_lang_name(lines.drop_first()),
        }
    }
}

/// The language that a file offers: a file with the extension `ftl` offers
/// the language whose code is the file's stem, under the name that the file
/// gives it, or under the code in capitals.
pub open spec fn locale_of(file: FileView) -> Option<(Seq<char>, Seq<char>)> {
    match file_name_of(file.path) {
        Some(name) => if extension_of(name) == Some("ftl"@) {
            Some(
                (
                    stem_of(name),
                    match first_lang_name(lines_of(file.contents)) {
                        Some(n) => n,
                        None => uppercase_of(stem_of(name)),
                    },
                ),
            )
        } else {
            None
        },
        None => None,
    }
}

/// The languages that the files offer, in the order of the files.
pub open spec fn locales_of(files: Seq<FileView>) -> Seq<(Seq<char>, Seq<char>)>
    decreases files.len(),
{
    if files.len() == 0 {
        Seq::empty()
    } else {
        let rest = locales_of(files.drop_last());
        match locale_of(files.last()) {
            Some(l) => rest.push(l),
            None => rest,
        }
    }
}

/// The ordered languages with one more, placed behind all whose names do not
/// come after its own.
pub open spec fn insert_by_name(sorted: Seq<(Seq<char>, Seq<char>)>, x: (Seq<char>, Seq<char>)) -> Seq<
    (Seq<char>, Seq<char>),
>
    decreases sorted.len(),
{
    if sorted.len() == 0 || !text_lt(x.1, sorted.last().1) {
        sorted.push(x)
    } else {
        insert_by_name(sorted.drop_last(), x).push(sorted.last())
    }
}

/// The languages in the order of their names; languages of one name keep
/// their order.
pub open spec fn sorted_by_name(items: Seq<(Seq<char>, Seq<char>)>) -> Seq<(Seq<char>, Seq<char>)>
    decreases items.len(),
{
    if items.len() == 0 {
        Seq::empty()
    } else {
        insert_by_name(sorted_by_name(items.drop_last()), items.last())
    }
}

/// Whether no language comes before one whose name precedes its own.
pub open spec fn ordered_by_name(items: Seq<(Seq<char>, Seq<char>)>) -> bool {
    forall|i: int, j: int| 0 <= i < j < items.len() ==> !text_lt(items[j].1, items[i].1)
}

/// Placing a language at `k`, before which no name comes after its own and
/// from which on every name does, is inserting it by name.
proof fn lemma_insert_by_name(sorted: Seq<(Seq<char>, Seq<char>)>, x: (Seq<char>, Seq<char>), k: int)
    requires
        0 <= k <= sorted.len(),
        k > 0 ==> !text_lt(x.1, sorted[k - 1].1),
        forall|j: int| k <= j < sorted.len() ==> text_lt(x.1, sorted[j].1),
    ensures
        insert_by_name(sorted, x) == sorted.insert(k, x),
    decreases sorted.len(),
{
    if k == sorted.len() {
        assert(insert_by_name(sorted, x) =~= sorted.insert(k, x));
    } else {
        assert(text_lt(x.1, sorted[sorted.len() - 1].1));
        lemma_insert_by_name(sorted.drop_last(), x, k);
        assert(insert_by_name(sorted, x) =~= sorted.insert(k, x));
    }
}

/// Inserting by name keeps the order.
proof fn lemma_insert_keeps_order(sorted: Seq<(Seq<char>, Seq<char>)>, x: (Seq<char>, Seq<char>))
    requires
        ordered_by_name(sorted),
    ensures
        ordered_by_name(insert_by_name(sorted, x)),
        insert_by_name(sorted, x).len() == sorted.len() + 1,
        forall|i: int|
            0 <= i < insert_by_name(sorted, x).len() ==> insert_by_name(sorted, x)[i] == x
                || sorted.contains(#[trigger] insert_by_name(sorted, x)[i]),
    decreases sorted.len(),
{
    let out = insert_by_name(sorted, x);
    if sorted.len() == 0 || !text_lt(x.1, sorted.last().1) {
        assert forall|i: int, j: int| 0 <= i < j < out.len() implies !text_lt(out[j].1, out[i].1) by {
            if j == sorted.len() {
                // out[i] comes no later than the last, which comes no later than x
                if i < sorted.len() - 1 {
                    assert(!text_lt(sorted[sorted.len() - 1].1, sorted[i].1));
                }
                if text_lt(x.1, sorted[i].1) {
                    lemma_text_lt_total(sorted[sorted.len() - 1].1, sorted[i].1);
                    lemma_text_lt_total(x.1, sorted[sorted.len() - 1].1);
                    if text_lt(sorted[i].1, sorted[sorted.len() - 1].1) {
                        lemma_text_lt_transitive(x.1, sorted[i].1, sorted[sorted.len() - 1].1);
                    }
                }
            } else {
                assert(!text_lt(sorted[j].1, sorted[i].1));
            }
        }
        assert forall|i: int| 0 <= i < out.len() implies out[i] == x || sorted.contains(
            #[trigger] out[i],
        ) by {
            if i < sorted.len() {
                assert(sorted[i] == out[i]);
            }
        }
    } else {
        let init = sorted.drop_last();
        let last = sorted.last();
        assert(ordered_by_name(init)) by {
            assert forall|i: int, j: int| 0 <= i < j < init.len() implies !text_lt(
                init[j].1,
                init[i].1,
            ) by {
                assert(!text_lt(sorted[j].1, sorted[i].1));
            }
        }
        lemma_insert_keeps_order(init, x);
        let inner = insert_by_name(init, x);
        assert forall|i: int, j: int| 0 <= i < j < out.len() implies !text_lt(out[j].1, out[i].1) by {
            if j < inner.len() {
                assert(!text_lt(inner[j].1, inner[i].1));
            } else {
                // out[j] is the last of `sorted`, after x and after all of `init`
                if inner[i] == x {
                    lemma_text_lt_irreflexive(x.1);
                    if text_lt(last.1, x.1) {
                        lemma_text_lt_transitive(last.1, x.1, last.1);
                        lemma_text_lt_irreflexive(last.1);
                    }
                } else {
                    assert(init.contains(inner[i]));
                    let k = choose|k: int| 0 <= k < init.len() && init[k] == inner[i];
                    assert(!text_lt(sorted[sorted.len() - 1].1, sorted[k].1));
                }
            }
        }
        assert forall|i: int| 0 <= i < out.len() implies out[i] == x || sorted.contains(
            #[trigger] out[i],
        ) by {
            if i < inner.len() {
                if inner[i] != x {
                    let k = choose|k: int| 0 <= k < init.len() && init[k] == inner[i];
                    assert(sorted[k] == out[i]);
                }
            } else {
                assert(sorted[sorted.len() - 1] == out[i]);
            }
        }
    }
}

/// Sorting by name gives as many languages as there were, in the order of
/// their names.
pub proof fn lemma_sorted_by_name(items: Seq<(Seq<char>, Seq<char>)>)
    ensures
        ordered_by_name(sorted_by_name(items)),
        sorted_by_name(items).len() == items.len(),
    decreases items.len(),
{
    if items.len() > 0 {
        lemma_sorted_by_name(items.drop_last());
        lemma_insert_keeps_order(sorted_by_name(items.drop_last()), items.last());
    }
}

/// The name that a file gives to its language.
fn find_lang_name(contents: &str) -> (r: Option<String>)
    ensures
        text_of(r) == first_lang_name(lines_of(contents@)),
{
    let all = lines(contents);
    let ghost lv = texts(all@);
    let mut i: usize = 0;
    assert(lv.skip(0) =~= lv);
    while i < all.len()
        invariant
            i <= all.len(),
            lv == texts(all@),
            lv == lines_of(contents@),
            first_lang_name(lv) == first_lang_name(lv.skip(i as int)),
        decreases all.len() - i,
    {
        proof {
            assert(lv.skip(i as int).drop_first() =~= lv.skip(i + 1));
            assert(lv.skip(i as int)[0] == all@[i as int]@);
        }
        let t = trim(all[i].as_str());
        if starts_with(t.as_str(), "-lang-name") {
            if let Some(p) = split_once(t.as_str(), '=') {
                return Some(trim(p.1.as_str()));
            }
        }
        i += 1;
    }
    None
}

/// The language that a file offers.
fn locale_in(file: &LocaleFile) -> (r: Option<LanguageInfo>)
    ensures
        match r {
            Some(l) => locale_of(file@) == Some(l@),
            None => locale_of(file@).is_none(),
        },
{
    match file_name(file.path.as_str()) {
        Some(name) => {
            let is_ftl = match extension(name.as_str()) {
                Some(e) => text_eq(e.as_str(), "ftl"),
                None => false,
            };
            if is_ftl {
                let code = stem(name.as_str());
                let shown = match find_lang_name(file.contents.as_str()) {
                    Some(n) => n,
                    None => to_uppercase(code.as_str()),
                };
                Some(LanguageInfo { code, name: shown })
            } else {
                None
            }
        },
        None => None,
    }
}

/// The languages that the translation files offer, in the order of their
/// names.
pub fn get_available_locales(files: &Vec<LocaleFile>) -> (r: Vec<LanguageInfo>)
    ensures
        info_views(r@) == sorted_by_name(locales_of(file_views(files@))),
        ordered_by_name(info_views(r@)),
{
    let ghost fv = file_views(files@);
    let mut out: Vec<LanguageInfo> = Vec::new();
    let ghost mut found: Seq<(Seq<char>, Seq<char>)> = Seq::empty();
    let mut i: usize = 0;
    assert(info_views(out@) =~= sorted_by_name(found));
    while i < files.len()
        invariant
            i <= files.len(),
            fv == file_views(files@),
            found == locales_of(fv.take(i as int)),
            info_views(out@) == sorted_by_name(found),
        decreases files.len() - i,
    {
        proof {
            assert(fv.take(i + 1).drop_last() =~= fv.take(i as int));
            assert(fv.take(i + 1).last() == files@[i as int]@);
        }
        if let Some(info) = locale_in(&files[i]) {
            let ghost sv = info_views(out@);
            let mut k: usize = out.len();
            while k > 0 && text_less(info.name.as_str(), out[k - 1].name.as_str())
                invariant
                    k <= out.len(),
                    sv == info_views(out@),
                    forall|j: int| k <= j < sv.len() ==> text_lt(info@.1, sv[j].1),
                decreases k,
            {
                k -= 1;
                assert(sv[k as int] == out@[k as int]@);
            }
            proof {
                if k > 0 {
                    assert(sv[k - 1] == out@[k - 1]@);
                }
                lemma_insert_by_name(sv, info@, k as int);
                assert(found.push(info@).drop_last() =~= found);
                found = found.push(info@);
            }
            out.insert(k, info);
            assert(info_views(out@) =~= sv.insert(k as int, info@));
        }
        i += 1;
    }
    proof {
        assert(fv.take(files.len() as int) =~= fv);
        lemma_sorted_by_name(found);
    }
    out
}

/// What a line declares for a key: the line, trimmed, begins with `-` and
/// holds a `=`; what precedes it, trimmed, is the key; what follows it,
/// trimmed, is declared.
pub open spec fn line_declares(line: Seq<char>, key: Seq<char>) -> Option<Seq<char>> {
    let t = trimmed(line);
    if "-"@.is_prefix_of(t) {
        match split_once_of(t, '=') {
            Some(p) => if trimmed(p.0) == key {
                Some(trimmed(p.1))
            } else {
                None
            },
            None => None,
        }
    } else {
        None
    }
}

/// What the lines declare for a key: what the last declaring line does, or
/// nothing.
pub open spec fn declared(lines: Seq<Seq<char>>, key: Seq<char>) -> Seq<char>
    decreases lines.len(),
{
    if lines.len() == 0 {
        Seq::empty()
    } else {
        match line_declares(lines.last(), key) {
            Some(v) => v,
            None => declared(lines.drop_last(), key),
        }
    }
}

/// The entries with `value` under `key`: in place of what the key had, or
/// else in the key's place in the order of the keys.
pub open spec fn put(entries: Seq<(Seq<char>, Seq<char>)>, key: Seq<char>, value: Seq<char>) -> Seq<
    (Seq<char>, Seq<char>),
>
    decreases entries.len(),
{
    if entries.len() == 0 {
        seq![(key, value)]
    } else if text_lt(key, entries.last().0) {
        put(entries.drop_last(), key, value).push(entries.last())
    } else if entries.last().0 == key {
        entries.drop_last().push((key, value))
    } else {
        entries.push((key, value))
    }
}

/// Whether the entries have the key.
pub open spec fn has_entry(entries: Seq<(Seq<char>, Seq<char>)>, key: Seq<char>) -> bool {
    exists|i: int| 0 <= i < entries.len() && (#[trigger] entries[i]).0 == key
}

/// The file name of a translation file; empty where its path has none.
pub open spec fn locale_file_name(file: FileView) -> Seq<char> {
    match file_name_of(file.path) {
        Some(n) => n,
        None => Seq::empty(),
    }
}

/// The table of languages after one more file: a file that declares both a
/// dialect and a name enters under its dialect; any other under its file
/// name without `.ftl`, as unknown, unless that code is taken.
pub open spec fn with_file(entries: Seq<(Seq<char>, Seq<char>)>, file: FileView) -> Seq<
    (Seq<char>, Seq<char>),
> {
    let fname = locale_file_name(file);
    if !".ftl"@.is_suffix_of(fname) {
        entries
    } else {
        let name = declared(lines_of(file.contents), "-lang-name"@);
        let dialect = declared(lines_of(file.contents), "-lang-dialect"@);
        if dialect.len() > 0 && name.len() > 0 {
            put(entries, dialect, name)
        } else {
            let code = trim_end_matches_of(fname, ".ftl"@);
            if has_entry(entries, code) {
                entries
            } else {
                put(entries, code, "Unknown ("@ + code + ")"@)
            }
        }
    }
}

/// The table of the languages that the files support, by code.
pub open spec fn language_table(files: Seq<FileView>) -> Seq<(Seq<char>, Seq<char>)>
    decreases files.len(),
{
    if files.len() == 0 {
        Seq::empty()
    } else {
        with_file(language_table(files.drop_last()), files.last())
    }
}

/// One line for each language: `- code: name`.
pub open spec fn language_lines(entries: Seq<(Seq<char>, Seq<char>)>) -> Seq<char>
    decreases entries.len(),
{
    if entries.len() == 0 {
        Seq::empty()
    } else {
        language_lines(entries.drop_last()) + "- "@ + entries.last().0 + ": "@ + entries.last().1
            + "\n"@
    }
}

/// The list of supported languages as it is printed.
pub open spec fn language_listing(entries: Seq<(Seq<char>, Seq<char>)>) -> Seq<char> {
    "Supported Languages:\n\n"@ + language_lines(entries)
        + "\nUsage:\n  --language <locale>    (e.g., --language de_DE)\n\n"@
}

/// The entries as plain data.
pub open spec fn entry_views(s: Seq<(String, String)>) -> Seq<(Seq<char>, Seq<char>)> {
    s.map_values(|p: (String, String)| (p.0@, p.1@))
}

/// Replacing the entry at `k - 1`, which has the key, all later keys coming
/// after it, is putting the value under the key.
proof fn lemma_put_replace(entries: Seq<(Seq<char>, Seq<char>)>, key: Seq<char>, value: Seq<char>, k: int)
    requires
        0 < k <= entries.len(),
        entries[k - 1].0 == key,
        forall|j: int| k <= j < entries.len() ==> text_lt(key, entries[j].0),
    ensures
        put(entries, key, value) == entries.update(k - 1, (key, value)),
    decreases entries.len(),
{
    if k == entries.len() {
        lemma_text_lt_irreflexive(key);
        assert(put(entries, key, value) =~= entries.update(k - 1, (key, value)));
    } else {
        assert(text_lt(key, entries[entries.len() - 1].0));
        lemma_put_replace(entries.drop_last(), key, value, k);
        assert(put(entries, key, value) =~= entries.update(k - 1, (key, value)));
    }
}

/// Inserting at `k`, before which the key does not come and is not found,
/// all later keys coming after it, is putting the value under the key.
proof fn lemma_put_insert(entries: Seq<(Seq<char>, Seq<char>)>, key: Seq<char>, value: Seq<char>, k: int)
    requires
        0 <= k <= entries.len(),
        k > 0 ==> !text_lt(key, entries[k - 1].0) && entries[k - 1].0 != key,
        forall|j: int| k <= j < entries.len() ==> text_lt(key, entries[j].0),
    ensures
        put(entries, key, value) == entries.insert(k, (key, value)),
    decreases entries.len(),
{
    if k == entries.len() {
        assert(put(entries, key, value) =~= entries.insert(k, (key, value)));
    } else {
        assert(text_lt(key, entries[entries.len() - 1].0));
        lemma_put_insert(entries.drop_last(), key, value, k);
        assert(put(entries, key, value) =~= entries.insert(k, (key, value)));
    }
}

/// Puts the value under the key.
fn put_entry(entries: &mut Vec<(String, String)>, key: String, value: String)
    ensures
        entry_views(final(entries)@) == put(entry_views(old(entries)@), key@, value@),
{
    let ghost ev = entry_views(entries@);
    let mut k: usize = entries.len();
    while k > 0 && text_less(key.as_str(), entries[k - 1].0.as_str())
        invariant
            k <= entries.len(),
            *entries == *old(entries),
            ev == entry_views(entries@),
            forall|j: int| k <= j < ev.len() ==> text_lt(key@, ev[j].0),
        decreases k,
    {
        k -= 1;
        assert(ev[k as int] == (entries@[k as int].0@, entries@[k as int].1@));
    }
    proof {
        if k > 0 {
            assert(ev[k - 1] == (entries@[k - 1].0@, entries@[k - 1].1@));
        }
    }
    if k > 0 && text_eq(entries[k - 1].0.as_str(), key.as_str()) {
        proof {
            lemma_put_replace(ev, key@, value@, k as int);
        }
        entries.set(k - 1, (key, value));
        assert(entry_views(entries@) =~= ev.update(k - 1, (key@, value@)));
    } else {
        proof {
            lemma_put_insert(ev, key@, value@, k as int);
        }
        entries.insert(k, (key, value));
        assert(entry_views(entries@) =~= ev.insert(k as int, (key@, value@)));
    }
}

/// Whether the entries have the key.
fn contains_entry(entries: &Vec<(String, String)>, key: &str) -> (r: bool)
    ensures
        r == has_entry(entry_views(entries@), key@),
{
    let mut i: usize = 0;
    while i < entries.len()
        invariant
            i <= entries.len(),
            forall|j: int| 0 <= j < i ==> (#[trigger] entry_views(entries@)[j]).0 != key@,
        decreases entries.len() - i,
    {
        if text_eq(entries[i].0.as_str(), key) {
            assert(entry_views(entries@)[i as int].0 == key@);
            return true;
        }
        i += 1;
    }
    false
}

/// What the lines declare for a key.
fn find_declared(all: &Vec<String>, key: &str) -> (r: String)
    ensures
        r@ == declared(texts(all@), key@),
{
    let ghost lv = texts(all@);
    let mut value = String::new();
    let mut i: usize = 0;
    while i < all.len()
        invariant
            i <= all.len(),
            lv == texts(all@),
            value@ == declared(lv.take(i as int), key@),
        decreases all.len() - i,
    {
        proof {
            assert(lv.take(i + 1).drop_last() =~= lv.take(i as int));
            assert(lv.take(i + 1).last() == all@[i as int]@);
        }
        let t = trim(all[i].as_str());
        if starts_with(t.as_str(), "-") {
            if let Some(p) = split_once(t.as_str(), '=') {
                let k = trim(p.0.as_str());
                if text_eq(k.as_str(), key) {
                    value = trim(p.1.as_str());
                }
            }
        }
        i += 1;
    }
    assert(lv.take(all.len() as int) =~= lv);
    value
}

/// Enters a file into the table of languages.
fn add_file(entries: &mut Vec<(String, String)>, file: &LocaleFile)
    ensures
        entry_views(final(entries)@) == with_file(entry_views(old(entries)@), file@),
{
    let fname = match file_name(file.path.as_str()) {
        Some(n) => n,
        None => String::new(),
    };
    if !ends_with(fname.as_str(), ".ftl") {
        return ;
    }
    let all = lines(file.contents.as_str());
    let name = find_declared(&all, "-lang-name");
    let dialect = find_declared(&all, "-lang-dialect");
    if !dialect.as_str().is_empty() && !name.as_str().is_empty() {
        put_entry(entries, dialect, name);
    } else {
        let code = trim_end_matches(fname.as_str(), ".ftl");
        if !contains_entry(entries, code.as_str()) {
            let label = concat3("Unknown (", code.as_str(), ")");
            put_entry(entries, code, label);
        }
    }
}

/// The table of the languages that the files support, by code, in the order
/// of the codes.
pub fn supported_languages(files: &Vec<LocaleFile>) -> (r: Vec<(String, String)>)
    ensures
        entry_views(r@) == language_table(file_views(files@)),
{
    let ghost fv = file_views(files@);
    let mut entries: Vec<(String, String)> = Vec::new();
    let mut i: usize = 0;
    assert(entry_views(entries@) =~= language_table(fv.take(0)));
    while i < files.len()
        invariant
            i <= files.len(),
            fv == file_views(files@),
            entry_views(entries@) == language_table(fv.take(i as int)),
        decreases files.len() - i,
    {
        proof {
            assert(fv.take(i + 1).drop_last() =~= fv.take(i as int));
            assert(fv.take(i + 1).last() == files@[i as int]@);
        }
        add_file(&mut entries, &files[i]);
        i += 1;
    }
    assert(fv.take(files.len() as int) =~= fv);
    entries
}

/// The list of supported languages as it is printed for the user: a heading,
/// one line for each language in the order of the codes, and a hint at the
/// option.
pub fn list_supported_languages(files: &Vec<LocaleFile>) -> (r: String)
    ensures
        r@ == language_listing(language_table(file_views(files@))),
{
    let entries = supported_languages(files);
    let ghost ev = entry_views(entries@);
    let mut out = owned("Supported Languages:\n\n");
    let mut i: usize = 0;
    assert(out@ =~= "Supported Languages:\n\n"@ + language_lines(ev.take(0)));
    while i < entries.len()
        invariant
            i <= entries.len(),
            ev == entry_views(entries@),
            out@ == "Supported Languages:\n\n"@ + language_lines(ev.take(i as int)),
        decreases entries.len() - i,
    {
        proof {
            assert(ev.take(i + 1).drop_last() =~= ev.take(i as int));
            assert(ev.take(i + 1).last() == (entries@[i as int].0@, entries@[i as int].1@));
        }
        out.append("- ");
        out.append(entries[i].0.as_str());
        out.append(": ");
        out.append(entries[i].1.as_str());
        out.append("\n");
        i += 1;
        assert(out@ =~= "Supported Languages:\n\n"@ + language_lines(ev.take(i as int)));
    }
    assert(ev.take(entries.len() as int) =~= ev);
    out.append("\nUsage:\n  --language <locale>    (e.g., --language de_DE)\n\n");
    out
}

/// What `unic_langid::LanguageIdentifier` makes of a language tag: the tag in
/// its canonical form, as the identifier displays itself, or `None` where the
/// text is no language tag.
pub uninterp spec fn canonical_tag_of(tag: Seq<char>) -> Option<Seq<char>>;

/// Parses the tag as a `unic_langid::LanguageIdentifier` and displays it.
/// The contract names the result.
#[verifier::external_body]
fn canonical_tag(tag: &str) -> (r: Option<String>)
    ensures
        text_of(r) == canonical_tag_of(tag@),
{
    tag.parse::<unic_langid::LanguageIdentifier>().ok().map(|l| l.to_string())
}

/// The language of a run in normal form, from what its tag parses to: the
/// canonical tag with `_` for `-`; English where the text is no language tag.
pub open spec fn normal_language(canonical: Option<Seq<char>>) -> Seq<char> {
    replaced(
        match canonical {
            Some(t) => t,
            None => "en"@,
        },
        '-',
        '_',
    )
}

/// The language in normal form, from what its tag parses to.
pub fn normalize_language(canonical: &Option<String>) -> (r: String)
    ensures
        r@ == normal_language(text_of(*canonical)),
{
    match canonical {
        Some(t) => replace_char(t.as_str(), '-', '_'),
        None => replace_char("en", '-', '_'),
    }
}

/// The language of a run in normal form: `pt_BR` for `pt-br`.
pub fn normalized_language(language: &str) -> (r: String)
    ensures
        r@ == normal_language(canonical_tag_of(language@)),
{
    let canonical = canonical_tag(language);
    normalize_language(&canonical)
}

/// The language code of a language in normal form: what precedes the first
/// `_`.
pub open spec fn language_code_of(normalized: Seq<char>) -> Seq<char> {
    match split_once_of(normalized, '_') {
        Some(p) => p.0,
        None => normalized,
    }
}

/// The resource files of a language in the order in which they are
/// consulted: the regional variant, the base language, and English as the
/// last resort.
pub open spec fn resource_candidates(normalized: Seq<char>) -> Seq<Seq<char>> {
    let code = language_code_of(normalized);
    let regional: Seq<Seq<char>> = match split_once_of(normalized, '_') {
        Some(p) => if p.1.len() > 0 {
            seq![p.0 + "_"@ + p.1 + ".ftl"@]
        } else {
            Seq::empty()
        },
        None => Seq::empty(),
    };
    let fallback: Seq<Seq<char>> = if code == "en"@ {
        Seq::empty()
    } else {
        seq!["en.ftl"@]
    };
    regional + seq![code + ".ftl"@] + fallback
}

/// The resource files of a language in the order in which they are
/// consulted.
pub fn resource_names(normalized: &str) -> (r: Vec<String>)
    ensures
        texts(r@) == resource_candidates(normalized@),
{
    let mut out: Vec<String> = Vec::new();
    let code = match split_once(normalized, '_') {
        Some(p) => {
            if !p.1.as_str().is_empty() {
                let mut regional = concat3(p.0.as_str(), "_", p.1.as_str());
                regional.append(".ftl");
                out.push(regional);
            }
            p.0
        },
        None => normalized.to_owned(),
    };
    out.push(concat2(code.as_str(), ".ftl"));
    if !text_eq(code.as_str(), "en") {
        out.push(owned("en.ftl"));
    }
    assert(texts(out@) =~= resource_candidates(normalized@));
    out
}

/// The candidates that are available, in order.
pub open spec fn available_among(candidates: Seq<Seq<char>>, available: Seq<Seq<char>>) -> Seq<
    Seq<char>,
>
    decreases candidates.len(),
{
    if candidates.len() == 0 {
        Seq::empty()
    } else {
        let rest = available_among(candidates.drop_last(), available);
        if available.contains(candidates.last()) {
            rest.push(candidates.last())
        } else {
            rest
        }
    }
}

/// The resource files to load for a language, most specific first: those of
/// its candidates that exist.
pub fn resource_chain(normalized: &str, available: &Vec<String>) -> (r: Vec<String>)
    ensures
        texts(r@) == available_among(resource_candidates(normalized@), texts(available@)),
{
    let names = resource_names(normalized);
    let ghost nv = texts(names@);
    let mut out: Vec<String> = Vec::new();
    let mut i: usize = 0;
    assert(texts(out@) =~= available_among(nv.take(0), texts(available@)));
    while i < names.len()
        invariant
            i <= names.len(),
            nv == texts(names@),
            texts(out@) == available_among(nv.take(i as int), texts(available@)),
        decreases names.len() - i,
    {
        proof {
            assert(nv.take(i + 1).drop_last() =~= nv.take(i as int));
            assert(nv.take(i + 1).last() == names@[i as int]@);
        }
        let mut present = false;
        let mut j: usize = 0;
        while j < available.len()
            invariant
                j <= available.len(),
                i < names.len(),
                present == exists|k: int|
                    0 <= k < j && texts(available@)[k] == names@[i as int]@,
            decreases available.len() - j,
        {
            if text_eq(available[j].as_str(), names[i].as_str()) {
                assert(texts(available@)[j as int] == names@[i as int]@);
                present = true;
            }
            j += 1;
        }
        if present {
            let ghost before = texts(out@);
            let n = names[i].clone();
            out.push(n);
            assert(texts(out@) =~= before.push(n@));
        }
        i += 1;
    }
    assert(nv.take(names.len() as int) =~= nv);
    out
}

/// Whether a line of a resource counts: it is not blank and no comment.
pub open spec fn line_counts(line: Seq<char>) -> bool {
    trimmed(line).len() > 0 && trimmed(line)[0] != '#'
}

/// The lines that count, in order.
pub open spec fn counting_lines(lines: Seq<Seq<char>>) -> Seq<Seq<char>>
    decreases lines.len(),
{
    if lines.len() == 0 {
        Seq::empty()
    } else {
        let rest = counting_lines(lines.drop_last());
        if line_counts(lines.last()) {
            rest.push(lines.last())
        } else {
            rest
        }
    }
}

/// A resource without its blank lines and comments.
pub fn strip_resource(content: &str) -> (r: String)
    ensures
        r@ == joined_with(counting_lines(lines_of(content@)), "\n"@),
{
    let all = lines(content);
    let ghost lv = texts(all@);
    let mut kept: Vec<String> = Vec::new();
    let mut i: usize = 0;
    assert(texts(kept@) =~= counting_lines(lv.take(0)));
    while i < all.len()
        invariant
            i <= all.len(),
            lv == texts(all@),
            texts(kept@) == counting_lines(lv.take(i as int)),
        decreases all.len() - i,
    {
        proof {
            assert(lv.take(i + 1).drop_last() =~= lv.take(i as int));
            assert(lv.take(i + 1).last() == all@[i as int]@);
        }
        let t = chars_of(trim(all[i].as_str()).as_str());
        if t.len() > 0 && t[0] != '#' {
            let ghost before = texts(kept@);
            let l = all[i].clone();
            kept.push(l);
            assert(texts(kept@) =~= before.push(l@));
        }
        i += 1;
    }
    assert(lv.take(all.len() as int) =~= lv);
    join_texts(&kept, "\n")
}

/// A language in normal form as a BCP 47 tag: `-` for `_`.
pub fn bcp47_language(normalized: &str) -> (r: String)
    ensures
        r@ == replaced(normalized@, '_', '-'),
{
    replace_char(normalized, '_', '-')
}

/// The message and the attribute that a key names: a key `message.attribute`
/// names both, any other key a message alone.
pub fn split_message_key(key: &str) -> (r: (String, Option<String>))
    ensures
        match split_once_of(key@, '.') {
            Some(p) => r.0@ == p.0 && text_of(r.1) == Some(p.1),
            None => r.0@ == key@ && r.1.is_none(),
        },
{
    match split_once(key, '.') {
        Some(p) => (p.0, Some(p.1)),
        None => (key.to_owned(), None),
    }
}

/// The name under which a language is shown: the name that was looked up, or
/// else its code in capitals.
pub fn language_display_name(looked_up: Option<String>, lang_code: &str) -> (r: String)
    ensures
        r@ == match looked_up {
            Some(n) => n@,
            None => uppercase_of(lang_code@),
        },
{
    match looked_up {
        Some(n) => n,
        None => to_uppercase(lang_code),
    }
}

} // verus!
