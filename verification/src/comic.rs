//! Comic archives: their pages, their cover, and what a `ComicInfo.xml`
//! within them says.

use vstd::prelude::*;
use crate::archive::{zip_entry, zip_entry_of, zip_names, zip_names_of};
use crate::epub::{document_of, read_document};
use crate::library_item::{BookInfo, BookInfoView};
use crate::markup::{NodeView, XmlNode, first_text, first_text_at, node_views};
use crate::paths::text_of;
use crate::text::{ascii_lower, ends_with, lemma_sorted_texts, owned, sort_texts, sorted_texts, split_once, split_once_of, text_eq, texts, to_ascii_lower, trim, trimmed};

verus! {

/// The kind of image that a name in lowercase stands for, by its ending.
pub open spec fn image_kind(lowered: Seq<char>) -> Option<Seq<char>> {
    if ".jpg"@.is_suffix_of(lowered) || ".jpeg"@.is_suffix_of(lowered) {
        Some("image/jpeg"@)
    } else if ".png"@.is_suffix_of(lowered) {
        Some("image/png"@)
    } else if ".gif"@.is_suffix_of(lowered) {
        Some("image/gif"@)
    } else if ".webp"@.is_suffix_of(lowered) {
        Some("image/webp"@)
    } else if ".bmp"@.is_suffix_of(lowered) {
        Some("image/bmp"@)
    } else {
        None
    }
}

/// The kind of image that a name stands for.
pub fn image_kind_of(name: &str) -> (r: Option<String>)
    ensures
        text_of(r) == image_kind(ascii_lower(name@)),
{
    let lowered = to_ascii_lower(name);
    let l = lowered.as_str();
    if ends_with(l, ".jpg") || ends_with(l, ".jpeg") {
        Some(owned("image/jpeg"))
    } else if ends_with(l, ".png") {
        Some(owned("image/png"))
    } else if ends_with(l, ".gif") {
        Some(owned("image/gif"))
    } else if ends_with(l, ".webp") {
        Some(owned("image/webp"))
    } else if ends_with(l, ".bmp") {
        Some(owned("image/bmp"))
    } else {
        None
    }
}

/// The names that stand for images, in order.
pub open spec fn images_among(names: Seq<Seq<char>>) -> Seq<Seq<char>>
    decreases names.len(),
{
    if names.len() == 0 {
        Seq::empty()
    } else {
        let rest = images_among(names.drop_last());
        if image_kind(ascii_lower(names.last())).is_some() {
            rest.push(names.last())
        } else {
            rest
        }
    }
}

/// The pages of a comic: the images of its archive, in the order of their
/// names.
pub open spec fn pages_of(names: Seq<Seq<char>>) -> Seq<Seq<char>> {
    sorted_texts(images_among(names))
}

/// The pages of a comic.
pub fn pages(names: &Vec<String>) -> (r: Vec<String>)
    ensures
        texts(r@) == pages_of(texts(names@)),
{
    let ghost nv = texts(names@);
    let mut images: Vec<String> = Vec::new();
    let mut i: usize = 0;
    assert(texts(images@) =~= images_among(nv.take(0)));
    while i < names.len()
        invariant
            i <= names.len(),
            nv == texts(names@),
            texts(images@) == images_among(nv.take(i as int)),
        decreases names.len() - i,
    {
        proof {
            assert(nv.take(i + 1).drop_last() =~= nv.take(i as int));
            assert(nv.take(i + 1).last() == names@[i as int]@);
        }
        if image_kind_of(names[i].as_str()).is_some() {
            let ghost before = texts(images@);
            let n = names[i].clone();
            images.push(n);
            assert(texts(images@) =~= before.push(n@));
        }
        i += 1;
    }
    assert(nv.take(names.len() as int) =~= nv);
    sort_texts(images)
}

/// The place of the first name from `pos` on that is `ComicInfo.xml` in any
/// case, or `-1`.
pub open spec fn info_entry(names: Seq<Seq<char>>, pos: int) -> int
    decreases names.len() - pos,
{
    if pos < 0 || pos >= names.len() {
        -1
    } else if ascii_lower(names[pos]) == "comicinfo.xml"@ {
        pos
    } else {
        info_entry(names, pos + 1)
    }
}

/// The items of a list written with commas: its parts, trimmed, the empty
/// ones left out.
pub open spec fn listed(s: Seq<char>, held: Seq<Seq<char>>) -> Seq<Seq<char>>
    decreases s.len(),
{
    match split_once_of(s, ',') {
        Some(p) => if p.1.len() < s.len() {
            listed(
                p.1,
                if trimmed(p.0).len() > 0 {
                    held.push(trimmed(p.0))
                } else {
                    held
                },
            )
        } else {
            held
        },
        None => if trimmed(s).len() > 0 {
            held.push(trimmed(s))
        } else {
            held
        },
    }
}

/// The items of an optional list written with commas.
pub open spec fn listed_in(s: Option<Seq<char>>) -> Seq<Seq<char>> {
    match s {
        Some(t) => listed(t, Seq::empty()),
        None => Seq::empty(),
    }
}

/// The items of a list written with commas.
pub fn list_items(text: &str) -> (r: Vec<String>)
    ensures
        texts(r@) == listed(text@, Seq::empty()),
{
    let mut held: Vec<String> = Vec::new();
    let mut rest: String = owned(text);
    assert(texts(held@) =~= Seq::<Seq<char>>::empty());
    loop
        invariant
            listed(text@, Seq::empty()) == listed(rest@, texts(held@)),
        decreases rest@.len(),
    {
        match split_once(rest.as_str(), ',') {
            Some(p) => {
                proof {
                    crate::text::lemma_first_index_of(rest@, ',');
                }
                let item = trim(p.0.as_str());
                if !item.as_str().is_empty() {
                    let ghost before = texts(held@);
                    held.push(item);
                    assert(texts(held@) =~= before.push(item@));
                }
                rest = p.1;
            },
            None => {
                let item = trim(rest.as_str());
                if !item.as_str().is_empty() {
                    let ghost before = texts(held@);
                    held.push(item);
                    assert(texts(held@) =~= before.push(item@));
                }
                return held;
            },
        }
    }
}

/// The number of pages as a count of 32 bits, capped.
pub open spec fn page_count(pages: nat) -> u32 {
    if pages > u32::MAX {
        u32::MAX
    } else {
        pages as u32
    }
}

/// What a comic says of itself, from its pages, the elements of its
/// `ComicInfo.xml` where it has one, and the data of its first page. Without
/// a title of its own it goes by `fallback_title`.
pub open spec fn comic_info(
    pages: Seq<Seq<char>>,
    info: Option<Seq<NodeView>>,
    cover: Option<Seq<u8>>,
    fallback_title: Seq<char>,
) -> BookInfoView {
    let nodes: Seq<NodeView> = match info {
        Some(n) => n,
        None => Seq::empty(),
    };
    let n = nodes.len() as int;
    BookInfoView {
        title: match first_text(nodes, 0, n, "ComicInfo/Title"@) {
            Some(t) => t,
            None => fallback_title,
        },
        authors: listed_in(first_text(nodes, 0, n, "ComicInfo/Writer"@)),
        description: first_text(nodes, 0, n, "ComicInfo/Summary"@),
        language: first_text(nodes, 0, n, "ComicInfo/LanguageISO"@),
        publisher: first_text(nodes, 0, n, "ComicInfo/Publisher"@),
        identifiers: Seq::empty(),
        subjects: listed_in(first_text(nodes, 0, n, "ComicInfo/Genre"@)),
        series: first_text(nodes, 0, n, "ComicInfo/Series"@),
        series_number: first_text(nodes, 0, n, "ComicInfo/Number"@),
        pages: Some(page_count(pages.len())),
        cover_data: cover,
        cover_mime_type: if cover.is_some() && pages.len() > 0 {
            image_kind(ascii_lower(pages[0]))
        } else {
            None
        },
    }
}

/// What a comic archive says of the comic. `None` where the bytes are no
/// archive or the archive holds no image.
pub open spec fn comic_of(archive: Seq<u8>, fallback_title: Seq<char>) -> Option<BookInfoView> {
    match zip_names_of(archive) {
        None => None,
        Some(names) => {
            let pages = pages_of(names);
            if pages.len() == 0 {
                None
            } else {
                let i = info_entry(names, 0);
                let info: Option<Seq<NodeView>> = if 0 <= i < names.len() {
                    match zip_entry_of(archive, names[i]) {
                        Some(content) => document_of(content),
                        None => None,
                    }
                } else {
                    None
                };
                Some(comic_info(pages, info, zip_entry_of(archive, pages[0]), fallback_title))
            }
        },
    }
}

/// The items of an optional list written with commas.
fn list_of(text: Option<String>) -> (r: Vec<String>)
    ensures
        texts(r@) == listed_in(text_of(text)),
{
    match text {
        Some(t) => list_items(t.as_str()),
        None => {
            let r: Vec<String> = Vec::new();
            assert(texts(r@) =~= Seq::<Seq<char>>::empty());
            r
        },
    }
}

/// Reads comics.
#[derive(Debug, Clone, Copy, PartialEq, Eq, Structural)]
pub struct ComicParser {}

impl ComicParser {
    pub fn new() -> (r: Self) {
        ComicParser {  }
    }

    /// The place of `ComicInfo.xml` among the names of an archive.
    pub fn info_position(names: &Vec<String>) -> (r: Option<usize>)
        ensures
            match r {
                Some(i) => i as int == info_entry(texts(names@), 0) && i < names.len(),
                None => info_entry(texts(names@), 0) == -1,
            },
    {
        let ghost nv = texts(names@);
        let mut i: usize = 0;
        while i < names.len()
            invariant
                i <= names.len(),
                nv == texts(names@),
                info_entry(nv, 0) == info_entry(nv, i as int),
            decreases names.len() - i,
        {
            assert(nv[i as int] == names@[i as int]@);
            let lowered = to_ascii_lower(names[i].as_str());
            if text_eq(lowered.as_str(), "comicinfo.xml") {
                return Some(i);
            }
            i += 1;
        }
        None
    }

    /// What a comic says of itself, from its pages, the elements of its
    /// `ComicInfo.xml` and the data of its first page.
    pub fn describe(
        pages: &Vec<String>,
        info: &Option<Vec<XmlNode>>,
        cover: Option<Vec<u8>>,
        fallback_title: &str,
    ) -> (r: BookInfo)
        ensures
            r@ == comic_info(
                texts(pages@),
                match *info {
                    Some(n) => Some(node_views(n@)),
                    None => None,
                },
                match cover {
                    Some(c) => Some(c@),
                    None => None,
                },
                fallback_title@,
            ),
    {
        let none: Vec<XmlNode> = Vec::new();
        assert(node_views(none@) =~= Seq::<NodeView>::empty());
        let nodes: &Vec<XmlNode> = match info {
            Some(n) => n,
            None => &none,
        };
        let n = nodes.len();
        let count: u32 = if pages.len() > 4294967295 {
            4294967295u32
        } else {
            pages.len() as u32
        };
        let cover_mime_type = if cover.is_some() && pages.len() > 0 {
            assert(texts(pages@)[0] == pages@[0]@);
            image_kind_of(pages[0].as_str())
        } else {
            None
        };
        let identifiers: Vec<crate::library_item::Identifier> = Vec::new();
        let info = BookInfo {
            title: match first_text_at(nodes, 0, n, "ComicInfo/Title") {
                Some(t) => t,
                None => owned(fallback_title),
            },
            authors: list_of(first_text_at(nodes, 0, n, "ComicInfo/Writer")),
            description: first_text_at(nodes, 0, n, "ComicInfo/Summary"),
            language: first_text_at(nodes, 0, n, "ComicInfo/LanguageISO"),
            publisher: first_text_at(nodes, 0, n, "ComicInfo/Publisher"),
            identifiers,
            subjects: list_of(first_text_at(nodes, 0, n, "ComicInfo/Genre")),
            series: first_text_at(nodes, 0, n, "ComicInfo/Series"),
            series_number: first_text_at(nodes, 0, n, "ComicInfo/Number"),
            pages: Some(count),
            cover_data: cover,
            cover_mime_type,
        };
        assert(info@.identifiers =~= Seq::<(Seq<char>, Seq<char>)>::empty());
        info
    }

    /// What a comic archive says of the comic.
    pub fn parse(&self, archive: &Vec<u8>, fallback_title: &str) -> (r: Option<BookInfo>)
        ensures
            match r {
                Some(info) => comic_of(archive@, fallback_title@) == Some(info@),
                None => comic_of(archive@, fallback_title@).is_none(),
            },
    {
        let names = match zip_names(archive) {
            Some(n) => n,
            None => {
                return None;
            },
        };
        let all = pages(&names);
        if all.len() == 0 {
            return None;
        }
        let info = match ComicParser::info_position(&names) {
            Some(i) => {
                assert(texts(names@)[i as int] == names@[i as int]@);
                match zip_entry(archive, names[i].as_str()) {
                    Some(content) => read_document(&content),
                    None => None,
                }
            },
            None => None,
        };
        assert(texts(all@)[0] == all@[0]@);
        let cover = zip_entry(archive, all[0].as_str());
        Some(ComicParser::describe(&all, &info, cover, fallback_title))
    }
}

} // verus!
