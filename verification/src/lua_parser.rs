//! Reading a metadata sidecar: a Lua table literal, of which the parts that
//! are known are kept and everything else is passed over.

use vstd::prelude::*;
use crate::koreader_metadata::{Annotation, AnnotationView, DocumentStats, KoReaderMetadata, MetadataView, Summary, SummaryView, annotation_views};
use crate::library_item::BookStatus;
use crate::lua_text::{LuaNumber, Scalar, ScalarView, blank_end, is_word, lemma_ends_within, read_scalar, scalar_at, skip_blank, skip_word, word_char, word_end};
use crate::paths::text_of;
use crate::text::{chars_of, is_digit, string_of_range, text_eq};

verus! {

/// How deep tables may lie in one another.
pub const MAX_DEPTH: usize = 32;

/// The name or the place of an entry of a table.
#[derive(Debug, Clone)]
pub enum Key {
    Name(String),
    /// An entry that is found by its place, not by a name.
    Position,
}

/// A key as plain data.
pub enum KeyView {
    Name(Seq<char>),
    Position,
}

impl View for Key {
    type V = KeyView;

    open spec fn view(&self) -> KeyView {
        match *self {
            Key::Name(n) => KeyView::Name(n@),
            Key::Position => KeyView::Position,
        }
    }
}

/// The key that a value in brackets makes.
pub open spec fn key_of(scalar: ScalarView) -> KeyView {
    match scalar {
        ScalarView::Text(t) => KeyView::Name(t),
        _ => KeyView::Position,
    }
}

/// The key of the entry that begins at `pos`, and where its value begins: a
/// key in brackets and a `=`, or a name and a `=`; an entry without either is
/// a value found by its place.
pub open spec fn entry_key(s: Seq<char>, pos: int) -> Option<(KeyView, int)> {
    if pos < 0 || pos >= s.len() {
        None
    } else if s[pos] == '[' {
        match scalar_at(s, blank_end(s, pos + 1)) {
            Some(k) => {
                let close = blank_end(s, k.1);
                if 0 <= close < s.len() && s[close] == ']' {
                    let eq = blank_end(s, close + 1);
                    if 0 <= eq < s.len() && s[eq] == '=' {
                        Some((key_of(k.0), blank_end(s, eq + 1)))
                    } else {
                        None
                    }
                } else {
                    None
                }
            },
            None => None,
        }
    } else if is_word(s[pos]) && !is_digit(s[pos]) {
        let eq = blank_end(s, word_end(s, pos));
        if 0 <= eq < s.len() && s[eq] == '=' && !(eq + 1 < s.len() && s[eq + 1] == '=') {
            Some((KeyView::Name(s.subrange(pos, word_end(s, pos))), blank_end(s, eq + 1)))
        } else {
            Some((KeyView::Position, pos))
        }
    } else {
        Some((KeyView::Position, pos))
    }
}

/// The key of the entry that begins at `pos`.
fn read_key(v: &Vec<char>, pos: usize) -> (r: Option<(Key, usize)>)
    requires
        pos <= v.len(),
    ensures
        match r {
            Some(k) => entry_key(v@, pos as int) == Some((k.0@, k.1 as int)) && pos <= k.1
                <= v.len(),
            None => entry_key(v@, pos as int).is_none(),
        },
{
    if pos >= v.len() {
        return None;
    }
    let c = v[pos];
    if c == '[' {
        let inner = skip_blank(v, pos + 1);
        match read_scalar(v, inner) {
            Some(k) => {
                let close = skip_blank(v, k.1);
                if close < v.len() && v[close] == ']' {
                    let eq = skip_blank(v, close + 1);
                    if eq < v.len() && v[eq] == '=' {
                        let key = match k.0 {
                            Scalar::Text(t) => Key::Name(t),
                            _ => Key::Position,
                        };
                        Some((key, skip_blank(v, eq + 1)))
                    } else {
                        None
                    }
                } else {
                    None
                }
            },
            None => None,
        }
    } else if word_char(c) && !('0' <= c && c <= '9') {
        let end = skip_word(v, pos);
        let eq = skip_blank(v, end);
        if eq < v.len() && v[eq] == '=' && !(eq + 1 < v.len() && v[eq + 1] == '=') {
            Some((Key::Name(string_of_range(v, pos, end)), skip_blank(v, eq + 1)))
        } else {
            Some((Key::Position, pos))
        }
    } else {
        Some((Key::Position, pos))
    }
}

/// What a table holds, by where it stands.
#[derive(Debug, Clone, Copy, PartialEq, Eq, Structural)]
pub enum TableKind {
    /// The document itself.
    Top,
    /// The list of annotations.
    Annotations,
    /// One annotation.
    Annotation,
    /// The reader's summary.
    Summary,
    /// The reader's counters.
    Stats,
    /// Anything else: it is passed over.
    Unknown,
}

/// The kind of the table that stands under a key in a table of a kind.
pub open spec fn child_kind(kind: TableKind, key: KeyView) -> TableKind {
    match kind {
        TableKind::Top => match key {
            KeyView::Name(n) => if n == "annotations"@ {
                TableKind::Annotations
            } else if n == "summary"@ {
                TableKind::Summary
            } else if n == "stats"@ {
                TableKind::Stats
            } else {
                TableKind::Unknown
            },
            KeyView::Position => TableKind::Unknown,
        },
        TableKind::Annotations => TableKind::Annotation,
        _ => TableKind::Unknown,
    }
}

/// The kind of the table that stands under a key.
fn kind_of_child(kind: TableKind, key: &Key) -> (r: TableKind)
    ensures
        r == child_kind(kind, key@),
{
    match kind {
        TableKind::Top => match key {
            Key::Name(n) => if text_eq(n.as_str(), "annotations") {
                TableKind::Annotations
            } else if text_eq(n.as_str(), "summary") {
                TableKind::Summary
            } else if text_eq(n.as_str(), "stats") {
                TableKind::Stats
            } else {
                TableKind::Unknown
            },
            Key::Position => TableKind::Unknown,
        },
        TableKind::Annotations => TableKind::Annotation,
        _ => TableKind::Unknown,
    }
}

/// Metadata in the making: what has been read, and the annotation that is
/// being read.
#[derive(Debug, Clone)]
pub struct Draft {
    pub metadata: KoReaderMetadata,
    pub current: Annotation,
}

/// A draft as plain data.
pub struct DraftView {
    pub metadata: MetadataView,
    pub current: AnnotationView,
}

impl View for Draft {
    type V = DraftView;

    open spec fn view(&self) -> DraftView {
        DraftView { metadata: self.metadata@, current: self.current@ }
    }
}

/// An annotation that says nothing.
pub open spec fn blank_annotation() -> AnnotationView {
    AnnotationView {
        chapter: None,
        datetime: None,
        pageno: None,
        text: None,
        note: None,
        pos0: None,
        pos1: None,
    }
}

/// Metadata that says nothing.
pub open spec fn blank_metadata() -> MetadataView {
    MetadataView {
        annotations: Seq::empty(),
        summary: None,
        percent_finished: None,
        doc_pages: None,
        stats: None,
        text_lang: None,
        partial_md5_checksum: None,
    }
}

/// The whole part of a number that is not negative and fits 32 bits.
pub open spec fn count_of(n: LuaNumber) -> Option<u32> {
    if !n.negative && n.whole <= u32::MAX {
        Some(n.whole as u32)
    } else {
        None
    }
}

/// A number as millionths: nothing for a negative number, and no more than
/// fits 32 bits.
pub open spec fn millionths_of(n: LuaNumber) -> u32 {
    if n.negative {
        0
    } else if n.whole * 1000000 + n.millionths > u32::MAX {
        u32::MAX
    } else {
        (n.whole * 1000000 + n.millionths) as u32
    }
}

/// The draft when a table opens under a key: a new annotation begins, a
/// summary or the counters come into being, and a place given as a table
/// counts as given.
pub open spec fn opened(draft: DraftView, kind: TableKind, key: KeyView, child: TableKind) -> DraftView {
    match child {
        TableKind::Annotation => DraftView { current: blank_annotation(), ..draft },
        TableKind::Summary => DraftView {
            metadata: MetadataView {
                summary: Some(
                    SummaryView {
                        status: BookStatus::Unknown,
                        rating: None,
                        note: None,
                        modified: None,
                    },
                ),
                ..draft.metadata
            },
            ..draft
        },
        TableKind::Stats => DraftView {
            metadata: MetadataView {
                stats: Some(DocumentStats { notes: None, highlights: None, pages: None }),
                ..draft.metadata
            },
            ..draft
        },
        _ => if kind == TableKind::Annotation && key == KeyView::Name("pos0"@) {
            DraftView { current: AnnotationView { pos0: Some(Seq::empty()), ..draft.current }, ..draft }
        } else if kind == TableKind::Annotation && key == KeyView::Name("pos1"@) {
            DraftView { current: AnnotationView { pos1: Some(Seq::empty()), ..draft.current }, ..draft }
        } else {
            draft
        },
    }
}

/// The draft when a table closes: a finished annotation joins the others.
pub open spec fn closed(draft: DraftView, child: TableKind) -> DraftView {
    if child == TableKind::Annotation {
        DraftView {
            metadata: MetadataView {
                annotations: draft.metadata.annotations.push(draft.current),
                ..draft.metadata
            },
            current: blank_annotation(),
        }
    } else {
        draft
    }
}

/// The text of a value that is a text.
pub open spec fn text_in(value: ScalarView) -> Option<Seq<char>> {
    match value {
        ScalarView::Text(t) => Some(t),
        _ => None,
    }
}

/// The count in a value that is a number.
pub open spec fn count_in(value: ScalarView) -> Option<u32> {
    match value {
        ScalarView::Number(n) => count_of(n),
        _ => None,
    }
}

/// The place that a value gives: a text as it is; a number or a truth value
/// as an empty place; nothing else.
pub open spec fn place_in(value: ScalarView, before: Option<Seq<char>>) -> Option<Seq<char>> {
    match value {
        ScalarView::Text(t) => Some(t),
        ScalarView::Number(_) => Some(Seq::empty()),
        ScalarView::Truth(_) => Some(Seq::empty()),
        ScalarView::Other => before,
    }
}

/// A new value for a part where the entry gives one, else the old one.
pub open spec fn or_old<A>(new: Option<A>, old: Option<A>) -> Option<A> {
    if new.is_some() {
        new
    } else {
        old
    }
}

/// The annotation with what an entry says of it.
pub open spec fn annotation_with(a: AnnotationView, name: Seq<char>, value: ScalarView) -> AnnotationView {
    if name == "chapter"@ {
        AnnotationView { chapter: or_old(text_in(value), a.chapter), ..a }
    } else if name == "datetime"@ {
        AnnotationView { datetime: or_old(text_in(value), a.datetime), ..a }
    } else if name == "pageno"@ {
        AnnotationView { pageno: or_old(count_in(value), a.pageno), ..a }
    } else if name == "text"@ {
        AnnotationView { text: or_old(text_in(value), a.text), ..a }
    } else if name == "note"@ {
        AnnotationView { note: or_old(text_in(value), a.note), ..a }
    } else if name == "pos0"@ {
        AnnotationView { pos0: place_in(value, a.pos0), ..a }
    } else if name == "pos1"@ {
        AnnotationView { pos1: place_in(value, a.pos1), ..a }
    } else {
        a
    }
}

/// The summary with what an entry says of it.
pub open spec fn summary_with(s: SummaryView, name: Seq<char>, value: ScalarView) -> SummaryView {
    if name == "status"@ {
        match value {
            ScalarView::Text(t) => SummaryView { status: BookStatus::of_label(t), ..s },
            _ => s,
        }
    } else if name == "rating"@ {
        SummaryView { rating: or_old(count_in(value), s.rating), ..s }
    } else if name == "note"@ {
        SummaryView { note: or_old(text_in(value), s.note), ..s }
    } else if name == "modified"@ {
        SummaryView { modified: or_old(text_in(value), s.modified), ..s }
    } else {
        s
    }
}

/// The counters with what an entry says of them.
pub open spec fn stats_with(s: DocumentStats, name: Seq<char>, value: ScalarView) -> DocumentStats {
    if name == "notes"@ {
        DocumentStats { notes: or_old(count_in(value), s.notes), ..s }
    } else if name == "highlights"@ {
        DocumentStats { highlights: or_old(count_in(value), s.highlights), ..s }
    } else if name == "pages"@ {
        DocumentStats { pages: or_old(count_in(value), s.pages), ..s }
    } else {
        s
    }
}

/// The document's own parts with what an entry says of them.
pub open spec fn top_with(m: MetadataView, name: Seq<char>, value: ScalarView) -> MetadataView {
    if name == "doc_pages"@ {
        MetadataView { doc_pages: or_old(count_in(value), m.doc_pages), ..m }
    } else if name == "percent_finished"@ {
        match value {
            ScalarView::Number(n) => MetadataView { percent_finished: Some(millionths_of(n)), ..m },
            _ => m,
        }
    } else if name == "partial_md5_checksum"@ {
        MetadataView { partial_md5_checksum: or_old(text_in(value), m.partial_md5_checksum), ..m }
    } else if name == "text_lang"@ {
        MetadataView { text_lang: or_old(text_in(value), m.text_lang), ..m }
    } else {
        m
    }
}

/// The draft with what an entry of a table of a kind says. An entry without
/// a name, an unknown name, or a value of another sort than the part holds
/// changes nothing.
pub open spec fn stored(draft: DraftView, kind: TableKind, key: KeyView, value: ScalarView) -> DraftView {
    match key {
        KeyView::Position => draft,
        KeyView::Name(name) => match kind {
            TableKind::Top => DraftView { metadata: top_with(draft.metadata, name, value), ..draft },
            TableKind::Annotation => DraftView {
                current: annotation_with(draft.current, name, value),
                ..draft
            },
            TableKind::Summary => match draft.metadata.summary {
                Some(s) => DraftView {
                    metadata: MetadataView {
                        summary: Some(summary_with(s, name, value)),
                        ..draft.metadata
                    },
                    ..draft
                },
                None => draft,
            },
            TableKind::Stats => match draft.metadata.stats {
                Some(s) => DraftView {
                    metadata: MetadataView {
                        stats: Some(stats_with(s, name, value)),
                        ..draft.metadata
                    },
                    ..draft
                },
                None => draft,
            },
            _ => draft,
        },
    }
}

/// The entries of a table from `pos` up to its closing brace, read into the
/// draft, and where the text goes on behind the brace. Entries are separated
/// by `,` or `;`. A value is a table in braces, or a string, or a word.
/// `depth` says how many tables may still open within this one.
pub open spec fn fields(
    s: Seq<char>,
    pos: int,
    kind: TableKind,
    depth: nat,
    draft: DraftView,
) -> Option<(DraftView, int)>
    decreases s.len() - pos,
{
    let p = blank_end(s, pos);
    if pos < 0 || p < pos || p >= s.len() {
        None
    } else if s[p] == '}' {
        Some((draft, p + 1))
    } else {
        match entry_key(s, p) {
            None => None,
            Some(k) => {
                let at = k.1;
                if at < p || at >= s.len() {
                    None
                } else {
                    let child = child_kind(kind, k.0);
                    let step: Option<(DraftView, int)> = if s[at] == '{' {
                        if depth == 0 {
                            None
                        } else {
                            match fields(
                                s,
                                at + 1,
                                child,
                                (depth - 1) as nat,
                                opened(draft, kind, k.0, child),
                            ) {
                                Some(inner) => Some((closed(inner.0, child), inner.1)),
                                None => None,
                            }
                        }
                    } else {
                        match scalar_at(s, at) {
                            Some(v) => Some((stored(draft, kind, k.0, v.0), v.1)),
                            None => None,
                        }
                    };
                    match step {
                        None => None,
                        Some(st) => {
                            let q = blank_end(s, st.1);
                            let next = if 0 <= q < s.len() && (s[q] == ',' || s[q] == ';') {
                                q + 1
                            } else {
                                q
                            };
                            if pos < next <= s.len() {
                                fields(s, next, kind, depth, st.0)
                            } else {
                                None
                            }
                        },
                    }
                }
            },
        }
    }
}

/// What a sidecar says: the table that the document holds, after an optional
/// `return`, read as metadata. `None` where the document is no such table.
pub open spec fn sidecar_of(s: Seq<char>) -> Option<MetadataView> {
    let start = blank_end(s, 0);
    let word = word_end(s, start);
    let table = if 0 <= start <= word <= s.len() && s.subrange(start, word) == "return"@ {
        blank_end(s, word)
    } else {
        start
    };
    if 0 <= table < s.len() && s[table] == '{' {
        match fields(
            s,
            table + 1,
            TableKind::Top,
            32,
            DraftView { metadata: blank_metadata(), current: blank_annotation() },
        ) {
            Some(d) => Some(d.0.metadata),
            None => None,
        }
    } else {
        None
    }
}

/// The whole part of a number that is not negative and fits 32 bits.
fn count_from(n: LuaNumber) -> (r: Option<u32>)
    ensures
        r == count_of(n),
{
    if !n.negative && n.whole <= 4294967295u64 {
        Some(n.whole as u32)
    } else {
        None
    }
}

/// A number as millionths.
fn millionths_from(n: LuaNumber) -> (r: u32)
    ensures
        r == millionths_of(n),
{
    if n.negative {
        0
    } else if n.whole > 4294 {
        4294967295u32
    } else {
        let wide: u64 = n.whole * 1000000 + n.millionths as u64;
        if wide > 4294967295u64 {
            4294967295u32
        } else {
            wide as u32
        }
    }
}

/// The text of a value that is a text.
fn text_from(value: &Scalar) -> (r: Option<String>)
    ensures
        text_of(r) == text_in(value@),
{
    match value {
        Scalar::Text(t) => Some(t.clone()),
        _ => None,
    }
}

/// The count in a value that is a number.
fn count_in_value(value: &Scalar) -> (r: Option<u32>)
    ensures
        r == count_in(value@),
{
    match value {
        Scalar::Number(n) => count_from(*n),
        _ => None,
    }
}

/// A new text for a part where the entry gives one, else the old one.
fn text_or_old(value: &Scalar, old: Option<String>) -> (r: Option<String>)
    ensures
        text_of(r) == or_old(text_in(value@), text_of(old)),
{
    match text_from(value) {
        Some(t) => Some(t),
        None => old,
    }
}

/// A new count for a part where the entry gives one, else the old one.
fn count_or_old(value: &Scalar, old: Option<u32>) -> (r: Option<u32>)
    ensures
        r == or_old(count_in(value@), old),
{
    match count_in_value(value) {
        Some(c) => Some(c),
        None => old,
    }
}

/// The place that a value gives.
fn place_from(value: &Scalar, before: Option<String>) -> (r: Option<String>)
    ensures
        text_of(r) == place_in(value@, text_of(before)),
{
    match value {
        Scalar::Text(t) => Some(t.clone()),
        Scalar::Number(_) => Some(String::new()),
        Scalar::Truth(_) => Some(String::new()),
        Scalar::Other => before,
    }
}

/// Takes what an entry says of an annotation.
fn store_annotation(a: Annotation, name: &str, value: &Scalar) -> (r: Annotation)
    ensures
        r@ == annotation_with(a@, name@, value@),
{
    let mut a = a;
    if text_eq(name, "chapter") {
        a.chapter = text_or_old(value, a.chapter);
    } else if text_eq(name, "datetime") {
        a.datetime = text_or_old(value, a.datetime);
    } else if text_eq(name, "pageno") {
        a.pageno = count_or_old(value, a.pageno);
    } else if text_eq(name, "text") {
        a.text = text_or_old(value, a.text);
    } else if text_eq(name, "note") {
        a.note = text_or_old(value, a.note);
    } else if text_eq(name, "pos0") {
        a.pos0 = place_from(value, a.pos0);
    } else if text_eq(name, "pos1") {
        a.pos1 = place_from(value, a.pos1);
    }
    a
}

/// Takes what an entry says of a summary.
fn store_summary(s: Summary, name: &str, value: &Scalar) -> (r: Summary)
    ensures
        r@ == summary_with(s@, name@, value@),
{
    let mut s = s;
    if text_eq(name, "status") {
        if let Scalar::Text(t) = value {
            s.status = BookStatus::from_label(t.as_str());
        }
    } else if text_eq(name, "rating") {
        s.rating = count_or_old(value, s.rating);
    } else if text_eq(name, "note") {
        s.note = text_or_old(value, s.note);
    } else if text_eq(name, "modified") {
        s.modified = text_or_old(value, s.modified);
    }
    s
}

/// Takes what an entry says of the counters.
fn store_stats(s: DocumentStats, name: &str, value: &Scalar) -> (r: DocumentStats)
    ensures
        r == stats_with(s, name@, value@),
{
    let mut s = s;
    if text_eq(name, "notes") {
        s.notes = count_or_old(value, s.notes);
    } else if text_eq(name, "highlights") {
        s.highlights = count_or_old(value, s.highlights);
    } else if text_eq(name, "pages") {
        s.pages = count_or_old(value, s.pages);
    }
    s
}

/// Takes what an entry says of the document's own parts.
fn store_top(m: KoReaderMetadata, name: &str, value: &Scalar) -> (r: KoReaderMetadata)
    ensures
        r@ == top_with(m@, name@, value@),
{
    let mut m = m;
    if text_eq(name, "doc_pages") {
        m.doc_pages = count_or_old(value, m.doc_pages);
    } else if text_eq(name, "percent_finished") {
        if let Scalar::Number(n) = value {
            m.percent_finished = Some(millionths_from(*n));
        }
    } else if text_eq(name, "partial_md5_checksum") {
        m.partial_md5_checksum = text_or_old(value, m.partial_md5_checksum);
    } else if text_eq(name, "text_lang") {
        m.text_lang = text_or_old(value, m.text_lang);
    }
    m
}

/// Takes what an entry of a table says.
fn store(draft: Draft, kind: TableKind, key: &Key, value: &Scalar) -> (r: Draft)
    ensures
        r@ == stored(draft@, kind, key@, value@),
{
    let Draft { metadata, current } = draft;
    match key {
        Key::Position => Draft { metadata, current },
        Key::Name(name) => match kind {
            TableKind::Top => Draft {
                metadata: store_top(metadata, name.as_str(), value),
                current,
            },
            TableKind::Annotation => Draft {
                metadata,
                current: store_annotation(current, name.as_str(), value),
            },
            TableKind::Summary => {
                let mut metadata = metadata;
                match metadata.summary.take() {
                    Some(s) => {
                        metadata.summary = Some(store_summary(s, name.as_str(), value));
                    },
                    None => {},
                }
                Draft { metadata, current }
            },
            TableKind::Stats => {
                let mut metadata = metadata;
                match metadata.stats {
                    Some(s) => {
                        metadata.stats = Some(store_stats(s, name.as_str(), value));
                    },
                    None => {},
                }
                Draft { metadata, current }
            },
            _ => Draft { metadata, current },
        },
    }
}

/// An annotation that says nothing.
fn new_annotation() -> (r: Annotation)
    ensures
        r@ == blank_annotation(),
{
    Annotation {
        chapter: None,
        datetime: None,
        pageno: None,
        text: None,
        note: None,
        pos0: None,
        pos1: None,
    }
}

/// The draft when a table opens under a key.
fn open(draft: Draft, kind: TableKind, key: &Key, child: TableKind) -> (r: Draft)
    ensures
        r@ == opened(draft@, kind, key@, child),
{
    let mut draft = draft;
    match child {
        TableKind::Annotation => {
            draft.current = new_annotation();
        },
        TableKind::Summary => {
            draft.metadata.summary = Some(
                Summary { status: BookStatus::Unknown, rating: None, note: None, modified: None },
            );
        },
        TableKind::Stats => {
            draft.metadata.stats = Some(
                DocumentStats { notes: None, highlights: None, pages: None },
            );
        },
        _ => {
            if kind == TableKind::Annotation {
                if let Key::Name(name) = key {
                    if text_eq(name.as_str(), "pos0") {
                        draft.current.pos0 = Some(String::new());
                    } else if text_eq(name.as_str(), "pos1") {
                        draft.current.pos1 = Some(String::new());
                    }
                }
            }
        },
    }
    draft
}

/// The draft when a table closes.
fn close(draft: Draft, child: TableKind) -> (r: Draft)
    ensures
        r@ == closed(draft@, child),
{
    if child == TableKind::Annotation {
        let Draft { metadata, current } = draft;
        let mut metadata = metadata;
        let ghost before = annotation_views(metadata.annotations@);
        let ghost added = current@;
        metadata.annotations.push(current);
        assert(annotation_views(metadata.annotations@) =~= before.push(added));
        Draft { metadata, current: new_annotation() }
    } else {
        draft
    }
}

/// Reads the entries of a table into the draft.
fn read_fields(v: &Vec<char>, pos: usize, kind: TableKind, depth: usize, initial: Draft) -> (r:
    Option<(Draft, usize)>)
    requires
        pos <= v.len(),
    ensures
        match r {
            Some(t) => fields(v@, pos as int, kind, depth as nat, initial@) == Some(
                (t.0@, t.1 as int),
            ) && pos < t.1 <= v.len(),
            None => fields(v@, pos as int, kind, depth as nat, initial@).is_none(),
        },
    decreases v.len() - pos,
{
    let ghost first = initial@;
    let mut draft = initial;
    let mut cur: usize = pos;
    loop
        invariant
            pos <= cur <= v.len(),
            first == initial@,
            fields(v@, pos as int, kind, depth as nat, first) == fields(
                v@,
                cur as int,
                kind,
                depth as nat,
                draft@,
            ),
        decreases v.len() - cur,
    {
        let p = skip_blank(v, cur);
        if p >= v.len() {
            return None;
        }
        if v[p] == '}' {
            return Some((draft, p + 1));
        }
        let (key, at) = match read_key(v, p) {
            Some(k) => k,
            None => {
                return None;
            },
        };
        if at >= v.len() {
            return None;
        }
        let child = kind_of_child(kind, &key);
        let (after_value, end) = if v[at] == '{' {
            if depth == 0 {
                return None;
            }
            let inner = open(draft, kind, &key, child);
            match read_fields(v, at + 1, child, depth - 1, inner) {
                Some(t) => (close(t.0, child), t.1),
                None => {
                    return None;
                },
            }
        } else {
            match read_scalar(v, at) {
                Some(t) => (store(draft, kind, &key, &t.0), t.1),
                None => {
                    return None;
                },
            }
        };
        let q = skip_blank(v, end);
        let next = if q < v.len() && (v[q] == ',' || v[q] == ';') {
            q + 1
        } else {
            q
        };
        if next <= cur {
            return None;
        }
        draft = after_value;
        cur = next;
    }
}

/// Reads metadata sidecars.
#[derive(Debug, Clone, Copy, PartialEq, Eq, Structural)]
pub struct LuaParser {}

impl LuaParser {
    pub fn new() -> (r: Self) {
        LuaParser {  }
    }

    /// Reads the text of a sidecar. Unknown parts are passed over, and every
    /// known part may be missing on its own. `None` where the text is no
    /// table: such a book counts as one without metadata.
    pub fn parse(&self, text: &str) -> (r: Option<KoReaderMetadata>)
        ensures
            match r {
                Some(m) => sidecar_of(text@) == Some(m@),
                None => sidecar_of(text@).is_none(),
            },
    {
        let v = chars_of(text);
        let start = skip_blank(&v, 0);
        let word = skip_word(&v, start);
        let table = if crate::lua_text::is_literal_word(&v, start, word, "return") {
            skip_blank(&v, word)
        } else {
            start
        };
        if table < v.len() && v[table] == '{' {
            let draft = Draft { metadata: KoReaderMetadata::empty(), current: new_annotation() };
            assert(draft@.metadata =~= blank_metadata()) by {
                assert(annotation_views(draft.metadata.annotations@) =~= Seq::<
                    AnnotationView,
                >::empty());
            }
            match read_fields(&v, table + 1, TableKind::Top, MAX_DEPTH, draft) {
                Some(t) => Some(t.0.metadata),
                None => None,
            }
        } else {
            None
        }
    }
}

} // verus!
