//! FictionBook: the descriptive facts that a book in this format holds in
//! its `description`, and its cover.

use vstd::prelude::*;
use crate::archive::{zip_entry, zip_entry_of, zip_names, zip_names_of};
use crate::base64::{base64_of, decode_base64};
use crate::library_item::{BookInfo, BookInfoView, Identifier};
use crate::markup::{NodeView, XmlNode, all_texts, all_texts_at, attribute, attribute_in, build_nodes, find_path, first_text, first_text_at, node_views, nodes_of, path_at, subtree_end, text_of_subtree, text_within, within_end};
use crate::paths::text_of;
use crate::text::{chars_of, ends_with, lossy_text_of, owned, string_of_range, text_eq, texts, to_ascii_lower, ascii_lower, utf8_lossy};
use crate::xml::{read_xml, xml_events};

verus! {

/// The name of a person from its parts: the parts that are given, joined by
/// spaces; the nickname where no part is given.
pub open spec fn person_name(
    first: Option<Seq<char>>,
    middle: Option<Seq<char>>,
    last: Option<Seq<char>>,
    nickname: Option<Seq<char>>,
) -> Option<Seq<char>> {
    let a: Seq<char> = match first {
        Some(f) => f,
        None => Seq::empty(),
    };
    let b: Seq<char> = match middle {
        Some(m) => if a.len() > 0 {
            a + seq![' '] + m
        } else {
            m
        },
        None => a,
    };
    let c: Seq<char> = match last {
        Some(l) => if b.len() > 0 {
            b + seq![' '] + l
        } else {
            l
        },
        None => b,
    };
    if c.len() > 0 {
        Some(c)
    } else {
        nickname
    }
}

/// The name of the author whose element stands at `i`.
pub open spec fn author_at(nodes: Seq<NodeView>, i: int) -> Option<Seq<char>> {
    let end = within_end(nodes, i, i + 1);
    person_name(
        first_text(nodes, i, end, "FictionBook/description/title-info/author/first-name"@),
        first_text(nodes, i, end, "FictionBook/description/title-info/author/middle-name"@),
        first_text(nodes, i, end, "FictionBook/description/title-info/author/last-name"@),
        first_text(nodes, i, end, "FictionBook/description/title-info/author/nickname"@),
    )
}

/// The names of the authors among the elements from `pos` on, added to
/// `held`.
pub open spec fn authors_from(nodes: Seq<NodeView>, pos: int, held: Seq<Seq<char>>) -> Seq<Seq<char>>
    decreases nodes.len() - pos,
{
    if pos < 0 || pos >= nodes.len() {
        held
    } else if nodes[pos].path == "FictionBook/description/title-info/author"@ {
        match author_at(nodes, pos) {
            Some(name) => authors_from(nodes, pos + 1, held.push(name)),
            None => authors_from(nodes, pos + 1, held),
        }
    } else {
        authors_from(nodes, pos + 1, held)
    }
}

/// The place of the first `binary` element with the identifier, or `-1`.
pub open spec fn binary_at(nodes: Seq<NodeView>, pos: int, id: Seq<char>) -> int
    decreases nodes.len() - pos,
{
    if pos < 0 || pos >= nodes.len() {
        -1
    } else if nodes[pos].path == "FictionBook/binary"@ && attribute_in(
        nodes[pos].attributes,
        0,
        "id"@,
    ) == Some(id) {
        pos
    } else {
        binary_at(nodes, pos + 1, id)
    }
}

/// An address within the document without the `#` in front of it.
pub open spec fn fragment_of(href: Seq<char>) -> Seq<char> {
    if href.len() > 0 && href[0] == '#' {
        href.subrange(1, href.len() as int)
    } else {
        href
    }
}

/// The cover of a book: the data of the `binary` element that the cover page
/// points to, and its kind. `None` where the book names no cover, the cover
/// is missing, or its data cannot be decoded.
pub open spec fn fb2_cover(nodes: Seq<NodeView>) -> Option<(Seq<u8>, Option<Seq<char>>)> {
    let image = path_at(
        nodes,
        0,
        nodes.len() as int,
        "FictionBook/description/title-info/coverpage/image"@,
    );
    if 0 <= image < nodes.len() {
        match attribute_in(nodes[image].attributes, 0, "href"@) {
            Some(href) => {
                let b = binary_at(nodes, 0, fragment_of(href));
                if 0 <= b < nodes.len() {
                    match base64_of(nodes[b].text) {
                        Some(data) => Some(
                            (data, attribute_in(nodes[b].attributes, 0, "content-type"@)),
                        ),
                        None => None,
                    }
                } else {
                    None
                }
            },
            None => None,
        }
    } else {
        None
    }
}

/// The ISBN of the publication as the book's only identifier, or none.
pub open spec fn fb2_identifiers(nodes: Seq<NodeView>) -> Seq<(Seq<char>, Seq<char>)> {
    match first_text(nodes, 0, nodes.len() as int, "FictionBook/description/publish-info/isbn"@) {
        Some(isbn) => seq![("isbn"@, isbn)],
        None => Seq::empty(),
    }
}

/// What a FictionBook says of itself. A document without a title is no book.
pub open spec fn fb2_info(nodes: Seq<NodeView>) -> Option<BookInfoView> {
    let n = nodes.len() as int;
    match first_text(nodes, 0, n, "FictionBook/description/title-info/book-title"@) {
        None => None,
        Some(title) => {
            let sequence = path_at(nodes, 0, n, "FictionBook/description/title-info/sequence"@);
            let cover = fb2_cover(nodes);
            Some(
                BookInfoView {
                    title,
                    authors: authors_from(nodes, 0, Seq::empty()),
                    description: first_text(
                        nodes,
                        0,
                        n,
                        "FictionBook/description/title-info/annotation"@,
                    ),
                    language: first_text(nodes, 0, n, "FictionBook/description/title-info/lang"@),
                    publisher: first_text(
                        nodes,
                        0,
                        n,
                        "FictionBook/description/publish-info/publisher"@,
                    ),
                    identifiers: fb2_identifiers(nodes),
                    subjects: all_texts(
                        nodes,
                        0,
                        n,
                        "FictionBook/description/title-info/genre"@,
                        Seq::empty(),
                    ),
                    series: if 0 <= sequence < n {
                        attribute_in(nodes[sequence].attributes, 0, "name"@)
                    } else {
                        None
                    },
                    series_number: if 0 <= sequence < n {
                        attribute_in(nodes[sequence].attributes, 0, "number"@)
                    } else {
                        None
                    },
                    pages: None,
                    cover_data: match cover {
                        Some(c) => Some(c.0),
                        None => None,
                    },
                    cover_mime_type: match cover {
                        Some(c) => c.1,
                        None => None,
                    },
                },
            )
        },
    }
}

/// What the text of a FictionBook says of the book; `None` where the text is
/// no well-formed markup or holds no title.
pub open spec fn fb2_of(text: Seq<char>) -> Option<BookInfoView> {
    match xml_events(text) {
        Some(events) => fb2_info(nodes_of(events)),
        None => None,
    }
}

/// The name of a person from its parts.
fn name_person(
    first: Option<String>,
    middle: Option<String>,
    last: Option<String>,
    nickname: Option<String>,
) -> (r: Option<String>)
    ensures
        text_of(r) == person_name(text_of(first), text_of(middle), text_of(last), text_of(nickname)),
{
    proof {
        reveal_strlit(" ");
        assert(" "@ =~= seq![' ']);
    }
    let a = match first {
        Some(f) => f,
        None => String::new(),
    };
    let b = match middle {
        Some(m) => if !a.as_str().is_empty() {
            let mut j = a;
            j.append(" ");
            j.append(m.as_str());
            j
        } else {
            m
        },
        None => a,
    };
    let c = match last {
        Some(l) => if !b.as_str().is_empty() {
            let mut j = b;
            j.append(" ");
            j.append(l.as_str());
            j
        } else {
            l
        },
        None => b,
    };
    if !c.as_str().is_empty() {
        Some(c)
    } else {
        nickname
    }
}

/// The names of the authors of a FictionBook.
fn fb2_authors(nodes: &Vec<XmlNode>) -> (r: Vec<String>)
    ensures
        texts(r@) == authors_from(node_views(nodes@), 0, Seq::empty()),
{
    let ghost nv = node_views(nodes@);
    let mut held: Vec<String> = Vec::new();
    let mut i: usize = 0;
    assert(texts(held@) =~= Seq::<Seq<char>>::empty());
    while i < nodes.len()
        invariant
            i <= nodes.len(),
            nv == node_views(nodes@),
            authors_from(nv, 0, Seq::empty()) == authors_from(nv, i as int, texts(held@)),
        decreases nodes.len() - i,
    {
        assert(nv[i as int] == nodes@[i as int]@);
        if text_eq(nodes[i].path.as_str(), "FictionBook/description/title-info/author") {
            let end = subtree_end(nodes, i);
            let name = name_person(
                first_text_at(nodes, i, end, "FictionBook/description/title-info/author/first-name"),
                first_text_at(nodes, i, end, "FictionBook/description/title-info/author/middle-name"),
                first_text_at(nodes, i, end, "FictionBook/description/title-info/author/last-name"),
                first_text_at(nodes, i, end, "FictionBook/description/title-info/author/nickname"),
            );
            if let Some(n) = name {
                let ghost before = texts(held@);
                held.push(n);
                assert(texts(held@) =~= before.push(n@));
            }
        }
        i += 1;
    }
    held
}

/// The place of the first `binary` element with the identifier.
fn find_binary(nodes: &Vec<XmlNode>, id: &str) -> (r: Option<usize>)
    ensures
        match r {
            Some(i) => i as int == binary_at(node_views(nodes@), 0, id@) && i < nodes.len(),
            None => binary_at(node_views(nodes@), 0, id@) == -1,
        },
{
    let ghost nv = node_views(nodes@);
    let mut i: usize = 0;
    while i < nodes.len()
        invariant
            i <= nodes.len(),
            nv == node_views(nodes@),
            binary_at(nv, 0, id@) == binary_at(nv, i as int, id@),
        decreases nodes.len() - i,
    {
        assert(nv[i as int] == nodes@[i as int]@);
        if text_eq(nodes[i].path.as_str(), "FictionBook/binary") {
            let found = match attribute(&nodes[i], "id") {
                Some(v) => text_eq(v.as_str(), id),
                None => false,
            };
            if found {
                return Some(i);
            }
        }
        i += 1;
    }
    None
}

/// An address within the document without the `#` in front of it.
fn fragment(href: &str) -> (r: String)
    ensures
        r@ == fragment_of(href@),
{
    let v = chars_of(href);
    if v.len() > 0 && v[0] == '#' {
        string_of_range(&v, 1, v.len())
    } else {
        owned(href)
    }
}

/// The cover of a FictionBook.
fn cover_of(nodes: &Vec<XmlNode>) -> (r: Option<(Vec<u8>, Option<String>)>)
    ensures
        match r {
            Some(c) => fb2_cover(node_views(nodes@)) == Some((c.0@, text_of(c.1))),
            None => fb2_cover(node_views(nodes@)).is_none(),
        },
{
    let ghost nv = node_views(nodes@);
    match find_path(nodes, 0, nodes.len(), "FictionBook/description/title-info/coverpage/image") {
        Some(image) => {
            assert(nv[image as int] == nodes@[image as int]@);
            match attribute(&nodes[image], "href") {
                Some(href) => {
                    let id = fragment(href.as_str());
                    match find_binary(nodes, id.as_str()) {
                        Some(b) => {
                            assert(nv[b as int] == nodes@[b as int]@);
                            match decode_base64(nodes[b].text.as_str()) {
                                Some(data) => Some((data, attribute(&nodes[b], "content-type"))),
                                None => None,
                            }
                        },
                        None => None,
                    }
                },
                None => None,
            }
        },
        None => None,
    }
}

/// Reads books in FictionBook format.
#[derive(Debug, Clone, Copy, PartialEq, Eq, Structural)]
pub struct Fb2Parser {}

impl Fb2Parser {
    pub fn new() -> (r: Self) {
        Fb2Parser {  }
    }

    /// What the elements of a FictionBook say of the book.
    pub fn from_nodes(nodes: &Vec<XmlNode>) -> (r: Option<BookInfo>)
        ensures
            match r {
                Some(info) => fb2_info(node_views(nodes@)) == Some(info@),
                None => fb2_info(node_views(nodes@)).is_none(),
            },
    {
        let ghost nv = node_views(nodes@);
        let n = nodes.len();
        let title = match first_text_at(
            nodes,
            0,
            n,
            "FictionBook/description/title-info/book-title",
        ) {
            Some(t) => t,
            None => {
                return None;
            },
        };
        let (series, series_number) = match find_path(
            nodes,
            0,
            n,
            "FictionBook/description/title-info/sequence",
        ) {
            Some(s) => {
                assert(nv[s as int] == nodes@[s as int]@);
                (attribute(&nodes[s], "name"), attribute(&nodes[s], "number"))
            },
            None => (None, None),
        };
        let (cover_data, cover_mime_type) = match cover_of(nodes) {
            Some(c) => (Some(c.0), c.1),
            None => (None, None),
        };
        let mut identifiers: Vec<Identifier> = Vec::new();
        if let Some(isbn) = first_text_at(nodes, 0, n, "FictionBook/description/publish-info/isbn") {
            identifiers.push(Identifier { scheme: owned("isbn"), value: isbn });
        }
        let info = BookInfo {
            title,
            authors: fb2_authors(nodes),
            description: first_text_at(nodes, 0, n, "FictionBook/description/title-info/annotation"),
            language: first_text_at(nodes, 0, n, "FictionBook/description/title-info/lang"),
            publisher: first_text_at(nodes, 0, n, "FictionBook/description/publish-info/publisher"),
            identifiers,
            subjects: all_texts_at(nodes, 0, n, "FictionBook/description/title-info/genre"),
            series,
            series_number,
            pages: None,
            cover_data,
            cover_mime_type,
        };
        assert(info@.identifiers =~= fb2_identifiers(nv));
        Some(info)
    }

    /// What the text of a FictionBook says of the book.
    pub fn parse_text(&self, text: &str) -> (r: Option<BookInfo>)
        ensures
            match r {
                Some(info) => fb2_of(text@) == Some(info@),
                None => fb2_of(text@).is_none(),
            },
    {
        match read_xml(text) {
            Some(events) => {
                let nodes = build_nodes(&events);
                Fb2Parser::from_nodes(&nodes)
            },
            None => None,
        }
    }

    /// What a FictionBook file says of the book. The file is read as UTF-8.
    pub fn parse(&self, content: &Vec<u8>) -> (r: Option<BookInfo>)
        ensures
            match r {
                Some(info) => fb2_of(lossy_text_of(content@)) == Some(info@),
                None => fb2_of(lossy_text_of(content@)).is_none(),
            },
    {
        let text = utf8_lossy(content);
        self.parse_text(text.as_str())
    }

    /// The name of the first entry of an archive that is a FictionBook: one
    /// whose name ends in `.fb2`, in any case.
    pub fn book_entry(names: &Vec<String>) -> (r: Option<usize>)
        ensures
            match r {
                Some(i) => i as int == fb2_entry(texts(names@), 0) && i < names.len(),
                None => fb2_entry(texts(names@), 0) == -1,
            },
    {
        let ghost nv = texts(names@);
        let mut i: usize = 0;
        while i < names.len()
            invariant
                i <= names.len(),
                nv == texts(names@),
                fb2_entry(nv, 0) == fb2_entry(nv, i as int),
            decreases names.len() - i,
        {
            assert(nv[i as int] == names@[i as int]@);
            let lowered = to_ascii_lower(names[i].as_str());
            if ends_with(lowered.as_str(), ".fb2") {
                return Some(i);
            }
            i += 1;
        }
        None
    }

    /// What a zipped FictionBook says of the book: what the first entry of
    /// the archive says whose name ends in `.fb2`.
    pub fn parse_zipped(&self, archive: &Vec<u8>) -> (r: Option<BookInfo>)
        ensures
            match r {
                Some(info) => zipped_fb2_of(archive@) == Some(info@),
                None => zipped_fb2_of(archive@).is_none(),
            },
    {
        match zip_names(archive) {
            Some(names) => match Fb2Parser::book_entry(&names) {
                Some(i) => match zip_entry(archive, names[i].as_str()) {
                    Some(content) => self.parse(&content),
                    None => None,
                },
                None => None,
            },
            None => None,
        }
    }
}

/// The place of the first name from `pos` on that ends in `.fb2`, in any
/// case, or `-1`.
pub open spec fn fb2_entry(names: Seq<Seq<char>>, pos: int) -> int
    decreases names.len() - pos,
{
    if pos < 0 || pos >= names.len() {
        -1
    } else if ".fb2"@.is_suffix_of(ascii_lower(names[pos])) {
        pos
    } else {
        fb2_entry(names, pos + 1)
    }
}

/// What a zipped FictionBook says of the book.
pub open spec fn zipped_fb2_of(archive: Seq<u8>) -> Option<BookInfoView> {
    match zip_names_of(archive) {
        Some(names) => {
            let i = fb2_entry(names, 0);
            if 0 <= i < names.len() {
                match zip_entry_of(archive, names[i]) {
                    Some(content) => fb2_of(lossy_text_of(content)),
                    None => None,
                }
            } else {
                None
            }
        },
        None => None,
    }
}

} // verus!
