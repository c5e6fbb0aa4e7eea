//! EPUB: the descriptive facts that a book in this format holds in its
//! package document, and its cover.

use vstd::prelude::*;
use crate::archive::{zip_entry, zip_entry_of};
use crate::library_item::{BookInfo, BookInfoView, Identifier};
use crate::markup::{NodeView, XmlNode, all_texts, all_texts_at, attribute, attribute_in, build_nodes, find_path, first_text, first_text_at, node_views, nodes_of, path_at, text_of_subtree, text_within};
use crate::paths::text_of;
use crate::text::{chars_of, concat2, first_index_of, last_index_of, lemma_first_index_of, lemma_last_index_of, lossy_text_of, owned, rfind_char, split_once, split_once_of, starts_with, string_of_range, text_eq, texts, utf8_lossy};
use crate::xml::{read_xml, xml_events};

verus! {

/// The elements of the document that the bytes hold, read as UTF-8; `None`
/// where they hold no well-formed markup.
pub open spec fn document_of(content: Seq<u8>) -> Option<Seq<NodeView>> {
    match xml_events(lossy_text_of(content)) {
        Some(events) => Some(nodes_of(events)),
        None => None,
    }
}

/// The elements of the document that the bytes hold.
pub fn read_document(content: &Vec<u8>) -> (r: Option<Vec<XmlNode>>)
    ensures
        match r {
            Some(nodes) => document_of(content@) == Some(node_views(nodes@)),
            None => document_of(content@).is_none(),
        },
{
    let text = utf8_lossy(content);
    match read_xml(text.as_str()) {
        Some(events) => Some(build_nodes(&events)),
        None => None,
    }
}

/// Where the package document lies, as the container says.
pub open spec fn rootfile_of(nodes: Seq<NodeView>) -> Option<Seq<char>> {
    let i = path_at(nodes, 0, nodes.len() as int, "container/rootfiles/rootfile"@);
    if 0 <= i < nodes.len() {
        attribute_in(nodes[i].attributes, 0, "full-path"@)
    } else {
        None
    }
}

/// Where the package document lies, as the container says.
pub fn rootfile_path(nodes: &Vec<XmlNode>) -> (r: Option<String>)
    ensures
        text_of(r) == rootfile_of(node_views(nodes@)),
{
    match find_path(nodes, 0, nodes.len(), "container/rootfiles/rootfile") {
        Some(i) => {
            assert(node_views(nodes@)[i as int] == nodes@[i as int]@);
            attribute(&nodes[i], "full-path")
        },
        None => None,
    }
}

/// The scheme and the value of an identifier: the scheme that the element
/// names; else the one that a value of the form `urn:scheme:value` names;
/// else none in particular.
pub open spec fn identifier_of(scheme: Option<Seq<char>>, value: Seq<char>) -> (Seq<char>, Seq<char>) {
    match scheme {
        Some(s) => (s, value),
        None => if "urn:"@.is_prefix_of(value) {
            match split_once_of(value.subrange(4, value.len() as int), ':') {
                Some(p) => p,
                None => ("identifier"@, value),
            }
        } else {
            ("identifier"@, value)
        },
    }
}

/// The identifiers among the elements from `pos` on, added to `held`.
pub open spec fn identifiers_from(
    nodes: Seq<NodeView>,
    pos: int,
    held: Seq<(Seq<char>, Seq<char>)>,
) -> Seq<(Seq<char>, Seq<char>)>
    decreases nodes.len() - pos,
{
    if pos < 0 || pos >= nodes.len() {
        held
    } else if nodes[pos].path == "package/metadata/identifier"@ && text_within(nodes, pos).len()
        > 0 {
        identifiers_from(
            nodes,
            pos + 1,
            held.push(
                identifier_of(
                    attribute_in(nodes[pos].attributes, 0, "scheme"@),
                    text_within(nodes, pos),
                ),
            ),
        )
    } else {
        identifiers_from(nodes, pos + 1, held)
    }
}

/// What the first `meta` element with the name holds as content.
pub open spec fn meta_content(nodes: Seq<NodeView>, pos: int, name: Seq<char>) -> Option<Seq<char>>
    decreases nodes.len() - pos,
{
    if pos < 0 || pos >= nodes.len() {
        None
    } else if nodes[pos].path == "package/metadata/meta"@ && attribute_in(
        nodes[pos].attributes,
        0,
        "name"@,
    ) == Some(name) {
        attribute_in(nodes[pos].attributes, 0, "content"@)
    } else {
        meta_content(nodes, pos + 1, name)
    }
}

/// The place of the first item of the manifest for which an attribute has a
/// value, or `-1`.
pub open spec fn item_at(nodes: Seq<NodeView>, pos: int, attr: Seq<char>, value: Seq<char>) -> int
    decreases nodes.len() - pos,
{
    if pos < 0 || pos >= nodes.len() {
        -1
    } else if nodes[pos].path == "package/manifest/item"@ && attribute_in(
        nodes[pos].attributes,
        0,
        attr,
    ) == Some(value) {
        pos
    } else {
        item_at(nodes, pos + 1, attr, value)
    }
}

/// The item of the manifest that is the cover: the one that the metadata
/// names as cover, or else the one marked as cover image.
pub open spec fn cover_item(nodes: Seq<NodeView>) -> int {
    match meta_content(nodes, 0, "cover"@) {
        Some(id) => item_at(nodes, 0, "id"@, id),
        None => item_at(nodes, 0, "properties"@, "cover-image"@),
    }
}

/// Where the cover lies, relative to the package document, and its kind.
pub open spec fn cover_ref(nodes: Seq<NodeView>) -> Option<(Seq<char>, Option<Seq<char>>)> {
    let i = cover_item(nodes);
    if 0 <= i < nodes.len() {
        match attribute_in(nodes[i].attributes, 0, "href"@) {
            Some(href) => Some((href, attribute_in(nodes[i].attributes, 0, "media-type"@))),
            None => None,
        }
    } else {
        None
    }
}

/// What a package document says of the book, the cover left aside. A package
/// without a title is no book.
pub open spec fn package_info(nodes: Seq<NodeView>) -> Option<BookInfoView> {
    let n = nodes.len() as int;
    match first_text(nodes, 0, n, "package/metadata/title"@) {
        None => None,
        Some(title) => Some(
            BookInfoView {
                title,
                authors: all_texts(nodes, 0, n, "package/metadata/creator"@, Seq::empty()),
                description: first_text(nodes, 0, n, "package/metadata/description"@),
                language: first_text(nodes, 0, n, "package/metadata/language"@),
                publisher: first_text(nodes, 0, n, "package/metadata/publisher"@),
                identifiers: identifiers_from(nodes, 0, Seq::empty()),
                subjects: all_texts(nodes, 0, n, "package/metadata/subject"@, Seq::empty()),
                series: meta_content(nodes, 0, "calibre:series"@),
                series_number: meta_content(nodes, 0, "calibre:series_index"@),
                pages: None,
                cover_data: None,
                cover_mime_type: None,
            },
        ),
    }
}

/// The folder of a path within an archive: the path up to its last `/`, the
/// `/` included; nothing for a path without one.
pub open spec fn folder_of(path: Seq<char>) -> Seq<char> {
    let i = last_index_of(path, '/');
    if 0 <= i < path.len() {
        path.subrange(0, i + 1)
    } else {
        Seq::empty()
    }
}

/// The book with its cover, where the archive holds the cover that the
/// package names.
pub open spec fn with_cover(
    info: BookInfoView,
    archive: Seq<u8>,
    rootfile: Seq<char>,
    cover: Option<(Seq<char>, Option<Seq<char>>)>,
) -> BookInfoView {
    match cover {
        Some(c) => match zip_entry_of(archive, folder_of(rootfile) + c.0) {
            Some(data) => BookInfoView { cover_data: Some(data), cover_mime_type: c.1, ..info },
            None => info,
        },
        None => info,
    }
}

/// What an EPUB says of the book: what the package document says that the
/// container points to. `None` where the archive, the container or the
/// package cannot be read, or the package holds no title.
pub open spec fn epub_of(archive: Seq<u8>) -> Option<BookInfoView> {
    match zip_entry_of(archive, "META-INF/container.xml"@) {
        None => None,
        Some(container) => match document_of(container) {
            None => None,
            Some(container_nodes) => match rootfile_of(container_nodes) {
                None => None,
                Some(rootfile) => match zip_entry_of(archive, rootfile) {
                    None => None,
                    Some(package) => match document_of(package) {
                        None => None,
                        Some(nodes) => match package_info(nodes) {
                            None => None,
                            Some(info) => Some(
                                with_cover(info, archive, rootfile, cover_ref(nodes)),
                            ),
                        },
                    },
                },
            },
        },
    }
}

/// The scheme and the value of an identifier.
fn identify(scheme: Option<String>, value: String) -> (r: Identifier)
    ensures
        r@ == identifier_of(text_of(scheme), value@),
{
    match scheme {
        Some(s) => Identifier { scheme: s, value },
        None => {
            if starts_with(value.as_str(), "urn:") {
                let v = chars_of(value.as_str());
                proof {
                    reveal_strlit("urn:");
                }
                let rest = string_of_range(&v, 4, v.len());
                match split_once(rest.as_str(), ':') {
                    Some(p) => Identifier { scheme: p.0, value: p.1 },
                    None => Identifier { scheme: owned("identifier"), value },
                }
            } else {
                Identifier { scheme: owned("identifier"), value }
            }
        },
    }
}

/// The identifiers that a package names.
fn package_identifiers(nodes: &Vec<XmlNode>) -> (r: Vec<Identifier>)
    ensures
        r@.map_values(|i: Identifier| i@) == identifiers_from(
            node_views(nodes@),
            0,
            Seq::empty(),
        ),
{
    let ghost nv = node_views(nodes@);
    let mut held: Vec<Identifier> = Vec::new();
    let mut i: usize = 0;
    assert(held@.map_values(|i: Identifier| i@) =~= Seq::<(Seq<char>, Seq<char>)>::empty());
    while i < nodes.len()
        invariant
            i <= nodes.len(),
            nv == node_views(nodes@),
            identifiers_from(nv, 0, Seq::empty()) == identifiers_from(
                nv,
                i as int,
                held@.map_values(|i: Identifier| i@),
            ),
        decreases nodes.len() - i,
    {
        assert(nv[i as int] == nodes@[i as int]@);
        if text_eq(nodes[i].path.as_str(), "package/metadata/identifier") {
            let value = text_of_subtree(nodes, i);
            if !value.as_str().is_empty() {
                let ghost before = held@.map_values(|i: Identifier| i@);
                let id = identify(attribute(&nodes[i], "scheme"), value);
                held.push(id);
                assert(held@.map_values(|i: Identifier| i@) =~= before.push(id@));
            }
        }
        i += 1;
    }
    held
}

/// What the first `meta` element with the name holds as content.
fn find_meta(nodes: &Vec<XmlNode>, name: &str) -> (r: Option<String>)
    ensures
        text_of(r) == meta_content(node_views(nodes@), 0, name@),
{
    let ghost nv = node_views(nodes@);
    let mut i: usize = 0;
    while i < nodes.len()
        invariant
            i <= nodes.len(),
            nv == node_views(nodes@),
            meta_content(nv, 0, name@) == meta_content(nv, i as int, name@),
        decreases nodes.len() - i,
    {
        assert(nv[i as int] == nodes@[i as int]@);
        if text_eq(nodes[i].path.as_str(), "package/metadata/meta") {
            let named = match attribute(&nodes[i], "name") {
                Some(n) => text_eq(n.as_str(), name),
                None => false,
            };
            if named {
                return attribute(&nodes[i], "content");
            }
        }
        i += 1;
    }
    None
}

/// The place of the first item of the manifest for which an attribute has a
/// value.
fn find_item(nodes: &Vec<XmlNode>, attr: &str, value: &str) -> (r: Option<usize>)
    ensures
        match r {
            Some(i) => i as int == item_at(node_views(nodes@), 0, attr@, value@) && i
                < nodes.len(),
            None => item_at(node_views(nodes@), 0, attr@, value@) == -1,
        },
{
    let ghost nv = node_views(nodes@);
    let mut i: usize = 0;
    while i < nodes.len()
        invariant
            i <= nodes.len(),
            nv == node_views(nodes@),
            item_at(nv, 0, attr@, value@) == item_at(nv, i as int, attr@, value@),
        decreases nodes.len() - i,
    {
        assert(nv[i as int] == nodes@[i as int]@);
        if text_eq(nodes[i].path.as_str(), "package/manifest/item") {
            let matches = match attribute(&nodes[i], attr) {
                Some(v) => text_eq(v.as_str(), value),
                None => false,
            };
            if matches {
                return Some(i);
            }
        }
        i += 1;
    }
    None
}

/// Where the cover lies, relative to the package document, and its kind.
pub fn cover_reference(nodes: &Vec<XmlNode>) -> (r: Option<(String, Option<String>)>)
    ensures
        match r {
            Some(c) => cover_ref(node_views(nodes@)) == Some((c.0@, text_of(c.1))),
            None => cover_ref(node_views(nodes@)).is_none(),
        },
{
    let item = match find_meta(nodes, "cover") {
        Some(id) => find_item(nodes, "id", id.as_str()),
        None => find_item(nodes, "properties", "cover-image"),
    };
    match item {
        Some(i) => {
            assert(node_views(nodes@)[i as int] == nodes@[i as int]@);
            match attribute(&nodes[i], "href") {
                Some(href) => Some((href, attribute(&nodes[i], "media-type"))),
                None => None,
            }
        },
        None => None,
    }
}

/// What a package document says of the book, the cover left aside.
pub fn package_facts(nodes: &Vec<XmlNode>) -> (r: Option<BookInfo>)
    ensures
        match r {
            Some(info) => package_info(node_views(nodes@)) == Some(info@),
            None => package_info(node_views(nodes@)).is_none(),
        },
{
    let n = nodes.len();
    let title = match first_text_at(nodes, 0, n, "package/metadata/title") {
        Some(t) => t,
        None => {
            return None;
        },
    };
    Some(
        BookInfo {
            title,
            authors: all_texts_at(nodes, 0, n, "package/metadata/creator"),
            description: first_text_at(nodes, 0, n, "package/metadata/description"),
            language: first_text_at(nodes, 0, n, "package/metadata/language"),
            publisher: first_text_at(nodes, 0, n, "package/metadata/publisher"),
            identifiers: package_identifiers(nodes),
            subjects: all_texts_at(nodes, 0, n, "package/metadata/subject"),
            series: find_meta(nodes, "calibre:series"),
            series_number: find_meta(nodes, "calibre:series_index"),
            pages: None,
            cover_data: None,
            cover_mime_type: None,
        },
    )
}

/// The folder of a path within an archive.
pub fn folder(path: &str) -> (r: String)
    ensures
        r@ == folder_of(path@),
{
    let v = chars_of(path);
    proof {
        lemma_last_index_of(v@, '/');
    }
    match rfind_char(&v, '/') {
        Some(i) => string_of_range(&v, 0, i + 1),
        None => String::new(),
    }
}

/// Reads books in EPUB format.
#[derive(Debug, Clone, Copy, PartialEq, Eq, Structural)]
pub struct EpubParser {}

impl EpubParser {
    pub fn new() -> (r: Self) {
        EpubParser {  }
    }

    /// What an EPUB file says of the book.
    pub fn parse(&self, archive: &Vec<u8>) -> (r: Option<BookInfo>)
        ensures
            match r {
                Some(info) => epub_of(archive@) == Some(info@),
                None => epub_of(archive@).is_none(),
            },
    {
        let container = match zip_entry(archive, "META-INF/container.xml") {
            Some(c) => c,
            None => {
                return None;
            },
        };
        let container_nodes = match read_document(&container) {
            Some(n) => n,
            None => {
                return None;
            },
        };
        let rootfile = match rootfile_path(&container_nodes) {
            Some(r) => r,
            None => {
                return None;
            },
        };
        let package = match zip_entry(archive, rootfile.as_str()) {
            Some(p) => p,
            None => {
                return None;
            },
        };
        let nodes = match read_document(&package) {
            Some(n) => n,
            None => {
                return None;
            },
        };
        let mut info = match package_facts(&nodes) {
            Some(i) => i,
            None => {
                return None;
            },
        };
        if let Some(c) = cover_reference(&nodes) {
            let path = concat2(folder(rootfile.as_str()).as_str(), c.0.as_str());
            if let Some(data) = zip_entry(archive, path.as_str()) {
                info.cover_data = Some(data);
                info.cover_mime_type = c.1;
            }
        }
        Some(info)
    }
}

} // verus!
