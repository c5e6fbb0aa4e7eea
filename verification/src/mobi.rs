//! Mobipocket: the descriptive facts that a book in this format holds in its
//! header records, and its cover.

use vstd::prelude::*;
use crate::library_item::{BookInfo, BookInfoView, Identifier};
use crate::paths::text_of;
use crate::text::{lossy_text_of, owned, push_char, texts, utf8_lossy};

verus! {

/// The number that two bytes hold, the greater byte first.
pub open spec fn be16(s: Seq<u8>, at: int) -> Option<int> {
    if 0 <= at && at + 2 <= s.len() {
        Some(s[at] as int * 256 + s[at + 1] as int)
    } else {
        None
    }
}

/// The number that four bytes hold, the greatest byte first.
pub open spec fn be32(s: Seq<u8>, at: int) -> Option<int> {
    if 0 <= at && at + 4 <= s.len() {
        Some(
            ((s[at] as int * 256 + s[at + 1] as int) * 256 + s[at + 2] as int) * 256 + s[at
                + 3] as int,
        )
    } else {
        None
    }
}

/// The number that two bytes hold.
pub fn read_be16(v: &Vec<u8>, at: usize) -> (r: Option<u32>)
    ensures
        match r {
            Some(n) => be16(v@, at as int) == Some(n as int) && n < 65536,
            None => be16(v@, at as int).is_none(),
        },
{
    if at <= v.len() && v.len() - at >= 2 {
        Some(v[at] as u32 * 256 + v[at + 1] as u32)
    } else {
        None
    }
}

/// The number that four bytes hold.
pub fn read_be32(v: &Vec<u8>, at: usize) -> (r: Option<u32>)
    ensures
        match r {
            Some(n) => be32(v@, at as int) == Some(n as int),
            None => be32(v@, at as int).is_none(),
        },
{
    if at <= v.len() && v.len() - at >= 4 {
        Some(
            ((v[at] as u32 * 256 + v[at + 1] as u32) * 256 + v[at + 2] as u32) * 256 + v[at
                + 3] as u32,
        )
    } else {
        None
    }
}

/// Where the record with the number lies within the file: from its own
/// beginning to that of the next record, or to the end of the file.
pub open spec fn record_range(s: Seq<u8>, i: int) -> Option<(int, int)> {
    match be16(s, 76) {
        Some(count) => if 0 <= i < count {
            match be32(s, 78 + 8 * i) {
                Some(start) => {
                    let end: Option<int> = if i + 1 < count {
                        be32(s, 78 + 8 * (i + 1))
                    } else {
                        Some(s.len() as int)
                    };
                    match end {
                        Some(e) => if start <= e <= s.len() {
                            Some((start, e))
                        } else {
                            None
                        },
                        None => None,
                    }
                },
                None => None,
            }
        } else {
            None
        },
        None => None,
    }
}

/// Where the record with the number lies within the file.
pub fn record_at(v: &Vec<u8>, i: u64) -> (r: Option<(usize, usize)>)
    ensures
        match r {
            Some(p) => record_range(v@, i as int) == Some((p.0 as int, p.1 as int)) && p.0 <= p.1
                <= v.len(),
            None => record_range(v@, i as int).is_none(),
        },
{
    let count = match read_be16(v, 76) {
        Some(c) => c,
        None => {
            return None;
        },
    };
    if i >= count as u64 {
        return None;
    }
    let entry: usize = 78 + 8 * (i as usize);
    let start = match read_be32(v, entry) {
        Some(s) => s as usize,
        None => {
            return None;
        },
    };
    let end: usize = if i + 1 < count as u64 {
        match read_be32(v, entry + 8) {
            Some(e) => e as usize,
            None => {
                return None;
            },
        }
    } else {
        v.len()
    };
    if start <= end && end <= v.len() {
        Some((start, end))
    } else {
        None
    }
}

/// Where the parts of a Mobipocket file lie.
#[derive(Debug, Clone, Copy)]
pub struct MobiLayout {
    /// The end of the first record.
    pub header_end: usize,
    /// Whether texts are written in UTF-8; in Latin-1 otherwise.
    pub utf8: bool,
    /// Where the full name of the book lies.
    pub name_from: usize,
    pub name_to: usize,
    /// The number of the record that holds the first image.
    pub first_image: u32,
    /// Where the records of the extended header begin, and how many there
    /// are; `None` without an extended header.
    pub extended: Option<(usize, u32)>,
}

/// Whether the four bytes at `at` are the given ones.
pub open spec fn magic_at(s: Seq<u8>, at: int, a: u8, b: u8, c: u8, d: u8) -> bool {
    0 <= at && at + 4 <= s.len() && s[at] == a && s[at + 1] == b && s[at + 2] == c && s[at + 3]
        == d
}

/// The layout of a Mobipocket file: its first record must hold a header
/// marked `MOBI` of at least 116 bytes. Texts are in UTF-8 where the header
/// says 65001. The extended header, marked `EXTH`, follows the header where
/// the header's flags announce it.
pub open spec fn layout_of(s: Seq<u8>) -> Option<MobiLayout> {
    match record_range(s, 0) {
        None => None,
        Some(r) => if r.0 + 132 <= r.1 && magic_at(s, r.0 + 16, 77, 79, 66, 73) {
            let length = be32(s, r.0 + 20).unwrap();
            let encoding = be32(s, r.0 + 28).unwrap();
            let name_offset = be32(s, r.0 + 84).unwrap();
            let name_length = be32(s, r.0 + 88).unwrap();
            let first_image = be32(s, r.0 + 108).unwrap();
            let flags = be32(s, r.0 + 128).unwrap();
            let named = r.0 + name_offset + name_length <= r.1;
            let e = r.0 + 16 + length;
            Some(
                MobiLayout {
                    header_end: r.1 as usize,
                    utf8: encoding == 65001,
                    name_from: if named {
                        (r.0 + name_offset) as usize
                    } else {
                        r.0 as usize
                    },
                    name_to: if named {
                        (r.0 + name_offset + name_length) as usize
                    } else {
                        r.0 as usize
                    },
                    first_image: first_image as u32,
                    extended: if (flags / 64) % 2 == 1 && e + 12 <= r.1 && magic_at(
                        s,
                        e,
                        69,
                        88,
                        84,
                        72,
                    ) {
                        Some(((e + 12) as usize, be32(s, e + 8).unwrap() as u32))
                    } else {
                        None
                    },
                },
            )
        } else {
            None
        },
    }
}

/// Whether the four bytes at `at` are the given ones.
fn has_magic(v: &Vec<u8>, at: usize, a: u8, b: u8, c: u8, d: u8) -> (r: bool)
    ensures
        r == magic_at(v@, at as int, a, b, c, d),
{
    at <= v.len() && v.len() - at >= 4 && v[at] == a && v[at + 1] == b && v[at + 2] == c && v[at
        + 3] == d
}

/// The layout of a Mobipocket file.
pub fn read_layout(v: &Vec<u8>) -> (r: Option<MobiLayout>)
    ensures
        r == layout_of(v@),
        r matches Some(l) ==> l.name_from <= l.name_to <= l.header_end <= v.len()
            && (l.extended matches Some(e) ==> e.0 <= l.header_end),
{
    let (start, end) = match record_at(v, 0) {
        Some(r) => r,
        None => {
            return None;
        },
    };
    if end - start < 132 || !has_magic(v, start + 16, 77, 79, 66, 73) {
        return None;
    }
    let length = read_be32(v, start + 20).unwrap() as usize;
    let encoding = read_be32(v, start + 28).unwrap();
    let name_offset = read_be32(v, start + 84).unwrap() as usize;
    let name_length = read_be32(v, start + 88).unwrap() as usize;
    let first_image = read_be32(v, start + 108).unwrap();
    let flags = read_be32(v, start + 128).unwrap();
    let room = end - start;
    let named = name_offset <= room && name_length <= room - name_offset;
    let (name_from, name_to) = if named {
        (start + name_offset, start + name_offset + name_length)
    } else {
        (start, start)
    };
    let extended = if (flags / 64) % 2 == 1 && length <= room && room - length >= 28 && has_magic(
        v,
        start + 16 + length,
        69,
        88,
        84,
        72,
    ) {
        Some((start + 16 + length + 12, read_be32(v, start + 16 + length + 8).unwrap()))
    } else {
        None
    };
    Some(
        MobiLayout {
            header_end: end,
            utf8: encoding == 65001,
            name_from,
            name_to,
            first_image,
            extended,
        },
    )
}

/// The data of the records of a kind among the next `remaining` records of
/// the extended header from `pos` on, added to `held`. A record that does
/// not fit before `end` ends the reading.
pub open spec fn extended_values(
    s: Seq<u8>,
    pos: int,
    remaining: nat,
    end: int,
    kind: int,
    held: Seq<Seq<u8>>,
) -> Seq<Seq<u8>>
    decreases remaining,
{
    if remaining == 0 || end > s.len() {
        held
    } else {
        match (be32(s, pos), be32(s, pos + 4)) {
            (Some(k), Some(length)) => if length >= 8 && pos + length <= end {
                extended_values(
                    s,
                    pos + length,
                    (remaining - 1) as nat,
                    end,
                    kind,
                    if k == kind {
                        held.push(s.subrange(pos + 8, pos + length))
                    } else {
                        held
                    },
                )
            } else {
                held
            },
            _ => held,
        }
    }
}

/// The data of the records of a kind in the extended header.
pub open spec fn values_of(s: Seq<u8>, layout: MobiLayout, kind: int) -> Seq<Seq<u8>> {
    match layout.extended {
        Some(e) => extended_values(
            s,
            e.0 as int,
            e.1 as nat,
            layout.header_end as int,
            kind,
            Seq::empty(),
        ),
        None => Seq::empty(),
    }
}

/// The byte sequences as plain data.
pub open spec fn chunk_views(s: Seq<Vec<u8>>) -> Seq<Seq<u8>> {
    s.map_values(|c: Vec<u8>| c@)
}

/// A copy of `v[from..to]`.
fn copy_range(v: &Vec<u8>, from: usize, to: usize) -> (r: Vec<u8>)
    requires
        from <= to <= v.len(),
    ensures
        r@ == v@.subrange(from as int, to as int),
{
    let mut r: Vec<u8> = Vec::new();
    let mut i: usize = from;
    while i < to
        invariant
            from <= i <= to <= v.len(),
            r@ == v@.subrange(from as int, i as int),
        decreases to - i,
    {
        r.push(v[i]);
        i += 1;
        assert(r@ =~= v@.subrange(from as int, i as int));
    }
    r
}

/// The data of the records of a kind in the extended header.
pub fn read_values(v: &Vec<u8>, layout: &MobiLayout, kind: u32) -> (r: Vec<Vec<u8>>)
    ensures
        chunk_views(r@) == values_of(v@, *layout, kind as int),
{
    let mut held: Vec<Vec<u8>> = Vec::new();
    assert(chunk_views(held@) =~= Seq::<Seq<u8>>::empty());
    let (start, count) = match layout.extended {
        Some(e) => e,
        None => {
            return held;
        },
    };
    let end = layout.header_end;
    if end > v.len() {
        return held;
    }
    let mut pos: usize = start;
    let mut remaining: u32 = count;
    while remaining > 0
        invariant
            end <= v.len(),
            values_of(v@, *layout, kind as int) == extended_values(
                v@,
                pos as int,
                remaining as nat,
                end as int,
                kind as int,
                chunk_views(held@),
            ),
        decreases remaining,
    {
        let found = match (read_be32(v, pos), if pos <= v.len() && v.len() - pos >= 4 {
            read_be32(v, pos + 4)
        } else {
            None
        }) {
            (Some(k), Some(length)) => Some((k, length as usize)),
            _ => None,
        };
        match found {
            Some((k, length)) => {
                if length >= 8 && pos <= end && length <= end - pos {
                    if k == kind {
                        let ghost before = chunk_views(held@);
                        let data = copy_range(v, pos + 8, pos + length);
                        held.push(data);
                        assert(chunk_views(held@) =~= before.push(data@));
                    }
                    pos = pos + length;
                    remaining = remaining - 1;
                } else {
                    return held;
                }
            },
            None => {
                return held;
            },
        }
    }
    held
}

/// Bytes read as Latin-1: every byte is the character with its number.
pub open spec fn latin1(bytes: Seq<u8>) -> Seq<char> {
    Seq::new(bytes.len(), |i: int| bytes[i] as char)
}

/// The text that bytes stand for, in UTF-8 or in Latin-1.
pub open spec fn text_in(bytes: Seq<u8>, utf8: bool) -> Seq<char> {
    if utf8 {
        lossy_text_of(bytes)
    } else {
        latin1(bytes)
    }
}

/// The text that bytes stand for.
pub fn read_text(bytes: &Vec<u8>, utf8: bool) -> (r: String)
    ensures
        r@ == text_in(bytes@, utf8),
{
    if utf8 {
        utf8_lossy(bytes)
    } else {
        let mut s = String::new();
        let mut i: usize = 0;
        while i < bytes.len()
            invariant
                i <= bytes.len(),
                s@ == latin1(bytes@).take(i as int),
            decreases bytes.len() - i,
        {
            push_char(&mut s, bytes[i] as char);
            i += 1;
            assert(s@ =~= latin1(bytes@).take(i as int));
        }
        assert(latin1(bytes@).take(bytes.len() as int) =~= latin1(bytes@));
        s
    }
}

/// The texts that the byte sequences stand for, the empty ones left out.
pub open spec fn texts_in(chunks: Seq<Seq<u8>>, utf8: bool) -> Seq<Seq<char>>
    decreases chunks.len(),
{
    if chunks.len() == 0 {
        Seq::empty()
    } else {
        let rest = texts_in(chunks.drop_last(), utf8);
        if text_in(chunks.last(), utf8).len() > 0 {
            rest.push(text_in(chunks.last(), utf8))
        } else {
            rest
        }
    }
}

/// The first of the texts, if there is any.
pub open spec fn first_of(items: Seq<Seq<char>>) -> Option<Seq<char>> {
    if items.len() > 0 {
        Some(items[0])
    } else {
        None
    }
}

/// The texts that the byte sequences stand for, the empty ones left out.
fn read_texts(chunks: &Vec<Vec<u8>>, utf8: bool) -> (r: Vec<String>)
    ensures
        texts(r@) == texts_in(chunk_views(chunks@), utf8),
{
    let ghost cv = chunk_views(chunks@);
    let mut held: Vec<String> = Vec::new();
    let mut i: usize = 0;
    assert(texts(held@) =~= texts_in(cv.take(0), utf8));
    while i < chunks.len()
        invariant
            i <= chunks.len(),
            cv == chunk_views(chunks@),
            texts(held@) == texts_in(cv.take(i as int), utf8),
        decreases chunks.len() - i,
    {
        proof {
            assert(cv.take(i + 1).drop_last() =~= cv.take(i as int));
            assert(cv.take(i + 1).last() == chunks@[i as int]@);
        }
        let t = read_text(&chunks[i], utf8);
        if !t.as_str().is_empty() {
            let ghost before = texts(held@);
            held.push(t);
            assert(texts(held@) =~= before.push(t@));
        }
        i += 1;
    }
    assert(cv.take(chunks.len() as int) =~= cv);
    held
}

/// The kind of image that data is, by its first bytes.
pub open spec fn image_magic(data: Seq<u8>) -> Option<Seq<char>> {
    if data.len() >= 2 && data[0] == 0xFF && data[1] == 0xD8 {
        Some("image/jpeg"@)
    } else if magic_at(data, 0, 0x89, 80, 78, 71) {
        Some("image/png"@)
    } else if data.len() >= 3 && data[0] == 71 && data[1] == 73 && data[2] == 70 {
        Some("image/gif"@)
    } else {
        None
    }
}

/// The kind of image that data is.
pub fn image_type(data: &Vec<u8>) -> (r: Option<String>)
    ensures
        text_of(r) == image_magic(data@),
{
    if data.len() >= 2 && data[0] == 0xFF && data[1] == 0xD8 {
        Some(owned("image/jpeg"))
    } else if has_magic(data, 0, 0x89, 80, 78, 71) {
        Some(owned("image/png"))
    } else if data.len() >= 3 && data[0] == 71 && data[1] == 73 && data[2] == 70 {
        Some(owned("image/gif"))
    } else {
        None
    }
}

/// The cover of a book: the record that lies as many records behind the
/// first image as the extended header says, where that record is an image.
pub open spec fn mobi_cover(s: Seq<u8>, layout: MobiLayout) -> Option<(Seq<u8>, Seq<char>)> {
    let offsets = values_of(s, layout, 201);
    if offsets.len() > 0 && offsets[0].len() == 4 {
        match record_range(s, layout.first_image + be32(offsets[0], 0).unwrap()) {
            Some(r) => match image_magic(s.subrange(r.0, r.1)) {
                Some(kind) => Some((s.subrange(r.0, r.1), kind)),
                None => None,
            },
            None => None,
        }
    } else {
        None
    }
}

/// The identifiers of a book: its ISBN and its ASIN, where the extended
/// header names them.
pub open spec fn mobi_identifiers(s: Seq<u8>, layout: MobiLayout) -> Seq<(Seq<char>, Seq<char>)> {
    let isbn = texts_in(values_of(s, layout, 104), layout.utf8);
    let asin = texts_in(values_of(s, layout, 113), layout.utf8);
    let a: Seq<(Seq<char>, Seq<char>)> = if isbn.len() > 0 {
        seq![("isbn"@, isbn[0])]
    } else {
        Seq::empty()
    };
    if asin.len() > 0 {
        a.push(("asin"@, asin[0]))
    } else {
        a
    }
}

/// What a Mobipocket file says of the book. The title is the one of the
/// extended header, or else the full name of the header. `None` where the
/// file has no such header or no title.
pub open spec fn mobi_of(s: Seq<u8>) -> Option<BookInfoView> {
    match layout_of(s) {
        None => None,
        Some(layout) => {
            let titles = texts_in(values_of(s, layout, 503), layout.utf8);
            let title = if titles.len() > 0 {
                titles[0]
            } else {
                text_in(s.subrange(layout.name_from as int, layout.name_to as int), layout.utf8)
            };
            if title.len() == 0 {
                None
            } else {
                let cover = mobi_cover(s, layout);
                Some(
                    BookInfoView {
                        title,
                        authors: texts_in(values_of(s, layout, 100), layout.utf8),
                        description: first_of(texts_in(values_of(s, layout, 103), layout.utf8)),
                        language: first_of(texts_in(values_of(s, layout, 524), layout.utf8)),
                        publisher: first_of(texts_in(values_of(s, layout, 101), layout.utf8)),
                        identifiers: mobi_identifiers(s, layout),
                        subjects: texts_in(values_of(s, layout, 105), layout.utf8),
                        series: None,
                        series_number: None,
                        pages: None,
                        cover_data: match cover {
                            Some(c) => Some(c.0),
                            None => None,
                        },
                        cover_mime_type: match cover {
                            Some(c) => Some(c.1),
                            None => None,
                        },
                    },
                )
            }
        },
    }
}

/// The texts of the records of a kind.
fn texts_of_kind(v: &Vec<u8>, layout: &MobiLayout, kind: u32) -> (r: Vec<String>)
    ensures
        texts(r@) == texts_in(values_of(v@, *layout, kind as int), layout.utf8),
{
    let chunks = read_values(v, layout, kind);
    read_texts(&chunks, layout.utf8)
}

/// The first of the texts.
fn first(items: Vec<String>) -> (r: Option<String>)
    ensures
        text_of(r) == first_of(texts(items@)),
{
    let mut items = items;
    if items.len() > 0 {
        assert(texts(items@)[0] == items@[0]@);
        Some(items.swap_remove(0))
    } else {
        None
    }
}

/// The cover of a book.
fn read_cover(v: &Vec<u8>, layout: &MobiLayout) -> (r: Option<(Vec<u8>, String)>)
    ensures
        match r {
            Some(c) => mobi_cover(v@, *layout) == Some((c.0@, c.1@)),
            None => mobi_cover(v@, *layout).is_none(),
        },
{
    let offsets = read_values(v, layout, 201);
    if offsets.len() > 0 && offsets[0].len() == 4 {
        assert(chunk_views(offsets@)[0] == offsets@[0]@);
        let offset = read_be32(&offsets[0], 0).unwrap();
        let index: u64 = layout.first_image as u64 + offset as u64;
        match record_at(v, index) {
            Some(r) => {
                let data = copy_range(v, r.0, r.1);
                match image_type(&data) {
                    Some(kind) => Some((data, kind)),
                    None => None,
                }
            },
            None => None,
        }
    } else {
        None
    }
}

/// Reads books in Mobipocket format.
#[derive(Debug, Clone, Copy, PartialEq, Eq, Structural)]
pub struct MobiParser {}

impl MobiParser {
    pub fn new() -> (r: Self) {
        MobiParser {  }
    }

    /// What a Mobipocket file says of the book.
    pub fn parse(&self, content: &Vec<u8>) -> (r: Option<BookInfo>)
        ensures
            match r {
                Some(info) => mobi_of(content@) == Some(info@),
                None => mobi_of(content@).is_none(),
            },
    {
        let layout = match read_layout(content) {
            Some(l) => l,
            None => {
                return None;
            },
        };
        let titles = texts_of_kind(content, &layout, 503);
        let title = if titles.len() > 0 {
            assert(texts(titles@)[0] == titles@[0]@);
            titles[0].clone()
        } else {
            let name = copy_range(content, layout.name_from, layout.name_to);
            read_text(&name, layout.utf8)
        };
        if title.as_str().is_empty() {
            return None;
        }
        let mut identifiers: Vec<Identifier> = Vec::new();
        if let Some(isbn) = first(texts_of_kind(content, &layout, 104)) {
            identifiers.push(Identifier { scheme: owned("isbn"), value: isbn });
        }
        if let Some(asin) = first(texts_of_kind(content, &layout, 113)) {
            identifiers.push(Identifier { scheme: owned("asin"), value: asin });
        }
        let (cover_data, cover_mime_type) = match read_cover(content, &layout) {
            Some(c) => (Some(c.0), Some(c.1)),
            None => (None, None),
        };
        let info = BookInfo {
            title,
            authors: texts_of_kind(content, &layout, 100),
            description: first(texts_of_kind(content, &layout, 103)),
            language: first(texts_of_kind(content, &layout, 524)),
            publisher: first(texts_of_kind(content, &layout, 101)),
            identifiers,
            subjects: texts_of_kind(content, &layout, 105),
            series: None,
            series_number: None,
            pages: None,
            cover_data,
            cover_mime_type,
        };
        assert(info@.identifiers =~= mobi_identifiers(content@, layout));
        Some(info)
    }
}

} // verus!
