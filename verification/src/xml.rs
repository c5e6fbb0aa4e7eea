//! Reading XML as a flat list of events: elements opening and closing, and
//! the text between them.

use vstd::prelude::*;
use crate::text::{chars_of, is_digit, string_of, string_of_range};

verus! {

/// The code point of a character.
pub open spec fn code_of(c: char) -> int {
    c as int
}

/// The character with a code point: what `char::from_u32` returns. Codes
/// above U+10FFFF and the surrogates U+D800 to U+DFFF stand for no character.
pub open spec fn scalar_of(code: int) -> Option<char> {
    if 0 <= code <= 0x10FFFF && !(0xD800 <= code <= 0xDFFF) {
        Some(choose|c: char| #[trigger] code_of(c) == code)
    } else {
        None
    }
}

/// Calls `char::from_u32`, which gives the character with the given code
/// point where there is one.
#[verifier::external_body]
pub(crate) fn char_of_code(code: u32) -> (r: Option<char>)
    ensures
        r == scalar_of(code as int),
        r matches Some(c) ==> c as int == code,
{
    char::from_u32(code)
}

/// An element opens or closes, or text stands between elements.
#[derive(Debug, Clone)]
pub enum XmlEvent {
    Open { name: String, attributes: Vec<(String, String)> },
    Close { name: String },
    Text(String),
}

/// An event as plain data.
pub enum XmlEventView {
    Open { name: Seq<char>, attributes: Seq<(Seq<char>, Seq<char>)> },
    Close { name: Seq<char> },
    Text(Seq<char>),
}

/// The attributes as plain data.
pub open spec fn attribute_views(s: Seq<(String, String)>) -> Seq<(Seq<char>, Seq<char>)> {
    s.map_values(|p: (String, String)| (p.0@, p.1@))
}

impl View for XmlEvent {
    type V = XmlEventView;

    open spec fn view(&self) -> XmlEventView {
        match *self {
            XmlEvent::Open { name, attributes } => XmlEventView::Open {
                name: name@,
                attributes: attribute_views(attributes@),
            },
            XmlEvent::Close { name } => XmlEventView::Close { name: name@ },
            XmlEvent::Text(t) => XmlEventView::Text(t@),
        }
    }
}

/// The events as plain data.
pub open spec fn event_views(s: Seq<XmlEvent>) -> Seq<XmlEventView> {
    s.map_values(|e: XmlEvent| e@)
}

/// Whether a character is white space in markup.
pub open spec fn is_space(c: char) -> bool {
    c == ' ' || c == '\t' || c == '\n' || c == '\r'
}

/// Whether a character can stand in a name of an element or attribute.
pub open spec fn is_name_char(c: char) -> bool {
    !is_space(c) && c != '>' && c != '/' && c != '=' && c != '<' && c != '"' && c != '\''
}

/// Where the white space that begins at `pos` ends.
pub open spec fn space_end(s: Seq<char>, pos: int) -> int
    decreases s.len() - pos,
{
    if pos < 0 || pos >= s.len() || !is_space(s[pos]) {
        pos
    } else {
        space_end(s, pos + 1)
    }
}

/// Where the name that begins at `pos` ends.
pub open spec fn name_end(s: Seq<char>, pos: int) -> int
    decreases s.len() - pos,
{
    if pos < 0 || pos >= s.len() || !is_name_char(s[pos]) {
        pos
    } else {
        name_end(s, pos + 1)
    }
}

/// Whether `pattern` stands at `pos`.
pub open spec fn stands_at(s: Seq<char>, pos: int, pattern: Seq<char>) -> bool {
    0 <= pos && pos + pattern.len() <= s.len() && s.subrange(pos, pos + pattern.len()) == pattern
}

/// The first place at or after `pos` at which `pattern` stands, or `-1`.
pub open spec fn find_from(s: Seq<char>, pos: int, pattern: Seq<char>) -> int
    decreases s.len() - pos,
{
    if pos < 0 || pos + pattern.len() > s.len() {
        -1
    } else if stands_at(s, pos, pattern) {
        pos
    } else if pos >= s.len() {
        -1
    } else {
        find_from(s, pos + 1, pattern)
    }
}

/// Whether a character can stand in a name.
fn name_char(c: char) -> (r: bool)
    ensures
        r == is_name_char(c),
{
    !(c == ' ' || c == '\t' || c == '\n' || c == '\r') && c != '>' && c != '/' && c != '=' && c
        != '<' && c != '"' && c != '\''
}

/// Where the white space that begins at `pos` ends.
fn skip_space(v: &Vec<char>, pos: usize) -> (r: usize)
    requires
        pos <= v.len(),
    ensures
        r as int == space_end(v@, pos as int),
        pos <= r <= v.len(),
{
    let mut i: usize = pos;
    while i < v.len() && (v[i] == ' ' || v[i] == '\t' || v[i] == '\n' || v[i] == '\r')
        invariant
            pos <= i <= v.len(),
            space_end(v@, pos as int) == space_end(v@, i as int),
        decreases v.len() - i,
    {
        i += 1;
    }
    i
}

/// Where the name that begins at `pos` ends.
fn skip_name(v: &Vec<char>, pos: usize) -> (r: usize)
    requires
        pos <= v.len(),
    ensures
        r as int == name_end(v@, pos as int),
        pos <= r <= v.len(),
{
    let mut i: usize = pos;
    while i < v.len() && name_char(v[i])
        invariant
            pos <= i <= v.len(),
            name_end(v@, pos as int) == name_end(v@, i as int),
        decreases v.len() - i,
    {
        i += 1;
    }
    i
}

/// Whether `pattern` stands at `pos`.
fn at(v: &Vec<char>, pos: usize, pattern: &Vec<char>) -> (r: bool)
    requires
        pos <= v.len(),
    ensures
        r == stands_at(v@, pos as int, pattern@),
{
    if pattern.len() > v.len() - pos {
        return false;
    }
    let mut i: usize = 0;
    while i < pattern.len()
        invariant
            i <= pattern.len(),
            pos + pattern.len() <= v.len(),
            forall|j: int| 0 <= j < i ==> v@[pos + j] == pattern@[j],
        decreases pattern.len() - i,
    {
        if v[pos + i] != pattern[i] {
            assert(v@.subrange(pos as int, pos + pattern.len())[i as int] != pattern@[i as int]);
            return false;
        }
        i += 1;
    }
    assert(v@.subrange(pos as int, pos + pattern.len()) =~= pattern@);
    true
}

/// The first place at or after `pos` at which `pattern` stands.
fn find(v: &Vec<char>, pos: usize, pattern: &Vec<char>) -> (r: Option<usize>)
    requires
        pos <= v.len(),
    ensures
        match r {
            Some(i) => i as int == find_from(v@, pos as int, pattern@) && pos <= i && i
                + pattern.len() <= v.len() && stands_at(v@, i as int, pattern@),
            None => find_from(v@, pos as int, pattern@) == -1,
        },
{
    let mut i: usize = pos;
    while i < v.len() && pattern.len() <= v.len() - i
        invariant
            pos <= i <= v.len(),
            find_from(v@, pos as int, pattern@) == find_from(v@, i as int, pattern@),
        decreases v.len() - i,
    {
        if at(v, i, pattern) {
            return Some(i);
        }
        i += 1;
    }
    if i == v.len() && at(v, i, pattern) {
        return Some(i);
    }
    None
}

/// The value of a hexadecimal digit.
pub open spec fn hex_value(c: char) -> Option<int> {
    if '0' <= c <= '9' {
        Some(c as int - 48)
    } else if 'a' <= c <= 'f' {
        Some(c as int - 87)
    } else if 'A' <= c <= 'F' {
        Some(c as int - 55)
    } else {
        None
    }
}

/// The number that digits of a base denote, continuing from `so_far`; `None`
/// where a character is no digit of the base or the number passes U+10FFFF.
pub open spec fn code_value(digits: Seq<char>, pos: int, hex: bool, so_far: int) -> Option<int>
    decreases digits.len() - pos,
{
    if pos < 0 || pos >= digits.len() {
        Some(so_far)
    } else {
        let d: Option<int> = if hex {
            hex_value(digits[pos])
        } else if is_digit(digits[pos]) {
            Some(digits[pos] as int - 48)
        } else {
            None
        };
        match d {
            Some(v) => {
                let next = so_far * (if hex {
                    16int
                } else {
                    10int
                }) + v;
                if next > 0x10FFFF {
                    None
                } else {
                    code_value(digits, pos + 1, hex, next)
                }
            },
            None => None,
        }
    }
}

/// The character that an entity stands for, by its name without `&` and `;`.
pub open spec fn entity_char(name: Seq<char>) -> Option<char> {
    if name == "lt"@ {
        Some('<')
    } else if name == "gt"@ {
        Some('>')
    } else if name == "amp"@ {
        Some('&')
    } else if name == "quot"@ {
        Some('"')
    } else if name == "apos"@ {
        Some('\'')
    } else if name.len() >= 3 && name[0] == '#' && (name[1] == 'x' || name[1] == 'X') {
        match code_value(name, 2, true, 0) {
            Some(code) => scalar_of(code),
            None => None,
        }
    } else if name.len() >= 2 && name[0] == '#' {
        match code_value(name, 1, false, 0) {
            Some(code) => scalar_of(code),
            None => None,
        }
    } else {
        None
    }
}

/// Where the entity that begins behind the `&` at `pos - 1` ends: the place
/// of the `;`, which must come within ten characters, or `-1`.
pub open spec fn entity_end(s: Seq<char>, pos: int, from: int) -> int
    decreases s.len() - pos,
{
    if pos < from || pos >= s.len() || pos - from > 10 {
        -1
    } else if s[pos] == ';' {
        pos
    } else {
        entity_end(s, pos + 1, from)
    }
}

/// The text `s[pos..to]` with its entities replaced, added to `held`. An `&`
/// that begins no known entity stands for itself.
pub open spec fn decoded(s: Seq<char>, pos: int, to: int, held: Seq<char>) -> Seq<char>
    decreases to - pos,
{
    if pos < 0 || pos >= to || to > s.len() {
        held
    } else if s[pos] == '&' {
        let e = entity_end(s, pos + 1, pos + 1);
        if pos < e < to {
            match entity_char(s.subrange(pos + 1, e)) {
                Some(c) => decoded(s, e + 1, to, held.push(c)),
                None => decoded(s, pos + 1, to, held.push('&')),
            }
        } else {
            decoded(s, pos + 1, to, held.push('&'))
        }
    } else {
        decoded(s, pos + 1, to, held.push(s[pos]))
    }
}

/// The number that the digits `v[from..to]` denote in a base.
fn read_code(v: &Vec<char>, from: usize, to: usize, hex: bool) -> (r: Option<u32>)
    requires
        from <= to <= v.len(),
    ensures
        match r {
            Some(c) => code_value(v@.subrange(0, to as int), from as int, hex, 0) == Some(c as int),
            None => code_value(v@.subrange(0, to as int), from as int, hex, 0).is_none(),
        },
{
    let ghost s = v@.subrange(0, to as int);
    let mut code: u32 = 0;
    let mut i: usize = from;
    while i < to
        invariant
            from <= i <= to <= v.len(),
            s == v@.subrange(0, to as int),
            code <= 0x10FFFF,
            code_value(s, from as int, hex, 0) == code_value(s, i as int, hex, code as int),
        decreases to - i,
    {
        let c = v[i];
        assert(s[i as int] == c);
        let d: Option<u32> = if hex {
            if '0' <= c && c <= '9' {
                Some((c as u32) - 48)
            } else if 'a' <= c && c <= 'f' {
                Some((c as u32) - 87)
            } else if 'A' <= c && c <= 'F' {
                Some((c as u32) - 55)
            } else {
                None
            }
        } else if '0' <= c && c <= '9' {
            Some((c as u32) - 48)
        } else {
            None
        };
        match d {
            Some(value) => {
                let next: u32 = code * (if hex {
                    16u32
                } else {
                    10u32
                }) + value;
                if next > 0x10FFFF {
                    return None;
                }
                code = next;
            },
            None => {
                return None;
            },
        }
        i += 1;
    }
    Some(code)
}

/// Whether `v[from..to]` is the given word.
fn is_word(v: &Vec<char>, from: usize, to: usize, word: &str) -> (r: bool)
    requires
        from <= to <= v.len(),
    ensures
        r == (v@.subrange(from as int, to as int) == word@),
{
    crate::lua_text::is_literal_word(v, from, to, word)
}

/// The character that the entity named `v[from..to]` stands for.
fn read_entity(v: &Vec<char>, from: usize, to: usize) -> (r: Option<char>)
    requires
        from <= to <= v.len(),
    ensures
        r == entity_char(v@.subrange(from as int, to as int)),
{
    let ghost name = v@.subrange(from as int, to as int);
    if is_word(v, from, to, "lt") {
        Some('<')
    } else if is_word(v, from, to, "gt") {
        Some('>')
    } else if is_word(v, from, to, "amp") {
        Some('&')
    } else if is_word(v, from, to, "quot") {
        Some('"')
    } else if is_word(v, from, to, "apos") {
        Some('\'')
    } else if to - from >= 3 && v[from] == '#' && (v[from + 1] == 'x' || v[from + 1] == 'X') {
        assert(name[0] == v@[from as int] && name[1] == v@[from + 1]);
        proof {
            lemma_code_value_shift(v@, from as int, to as int, from + 2, true, 0);
        }
        match read_code(v, from + 2, to, true) {
            Some(code) => char_of_code(code),
            None => None,
        }
    } else if to - from >= 2 && v[from] == '#' {
        assert(name[0] == v@[from as int] && name[1] == v@[from + 1]);
        proof {
            lemma_code_value_shift(v@, from as int, to as int, from + 1, false, 0);
        }
        match read_code(v, from + 1, to, false) {
            Some(code) => char_of_code(code),
            None => None,
        }
    } else {
        proof {
            if to - from >= 1 {
                assert(name[0] == v@[from as int]);
            }
            if to - from >= 2 {
                assert(name[1] == v@[from + 1]);
            }
        }
        None
    }
}

/// The digits of a name denote the same number wherever the name is cut
/// from.
proof fn lemma_code_value_shift(s: Seq<char>, from: int, to: int, pos: int, hex: bool, so_far: int)
    requires
        0 <= from <= pos <= to <= s.len(),
    ensures
        code_value(s.subrange(from, to), pos - from, hex, so_far) == code_value(
            s.subrange(0, to),
            pos,
            hex,
            so_far,
        ),
    decreases to - pos,
{
    if pos < to {
        let a = s.subrange(from, to);
        let b = s.subrange(0, to);
        assert(a[pos - from] == b[pos]);
        let d: Option<int> = if hex {
            hex_value(b[pos])
        } else if is_digit(b[pos]) {
            Some(b[pos] as int - 48)
        } else {
            None
        };
        if d.is_some() {
            let next = so_far * (if hex {
                16int
            } else {
                10int
            }) + d.unwrap();
            if next <= 0x10FFFF {
                lemma_code_value_shift(s, from, to, pos + 1, hex, next);
            }
        }
    }
}

/// The text `v[from..to]` with its entities replaced.
pub fn decode(v: &Vec<char>, from: usize, to: usize) -> (r: String)
    requires
        from <= to <= v.len(),
    ensures
        r@ == decoded(v@, from as int, to as int, Seq::empty()),
{
    let mut held: Vec<char> = Vec::new();
    let mut i: usize = from;
    while i < to
        invariant
            from <= i <= to <= v.len(),
            decoded(v@, from as int, to as int, Seq::empty()) == decoded(
                v@,
                i as int,
                to as int,
                held@,
            ),
        decreases to - i,
    {
        let c = v[i];
        if c == '&' {
            let start = i + 1;
            let mut e: usize = start;
            let mut found = false;
            while e < v.len() && e - start <= 10
                invariant_except_break
                    !found,
                    entity_end(v@, start as int, start as int) == entity_end(
                        v@,
                        e as int,
                        start as int,
                    ),
                invariant
                    start <= e <= v.len(),
                ensures
                    start <= e <= v.len(),
                    found ==> e < v.len() && e as int == entity_end(
                        v@,
                        start as int,
                        start as int,
                    ),
                    !found ==> entity_end(v@, start as int, start as int) == -1,
                decreases v.len() - e,
            {
                if v[e] == ';' {
                    found = true;
                    break ;
                }
                e += 1;
            }
            if found && e < to {
                match read_entity(v, start, e) {
                    Some(ch) => {
                        held.push(ch);
                        i = e + 1;
                    },
                    None => {
                        held.push('&');
                        i += 1;
                    },
                }
            } else {
                held.push('&');
                i += 1;
            }
        } else {
            held.push(c);
            i += 1;
        }
    }
    string_of(&held)
}

/// The attributes of a tag from `pos` on, added to `held`; where the tag
/// ends; and whether it closes itself. `None` where the tag is malformed.
pub open spec fn attributes_from(
    s: Seq<char>,
    pos: int,
    held: Seq<(Seq<char>, Seq<char>)>,
) -> Option<(Seq<(Seq<char>, Seq<char>)>, int, bool)>
    decreases s.len() - pos,
{
    let p = space_end(s, pos);
    if pos < 0 || p < pos || p >= s.len() {
        None
    } else if s[p] == '>' {
        Some((held, p + 1, false))
    } else if s[p] == '/' {
        if p + 1 < s.len() && s[p + 1] == '>' {
            Some((held, p + 2, true))
        } else {
            None
        }
    } else {
        let n = name_end(s, p);
        let eq = space_end(s, n);
        if n <= p || eq < n || eq >= s.len() || s[eq] != '=' {
            None
        } else {
            let q = space_end(s, eq + 1);
            if q <= eq || q >= s.len() || (s[q] != '"' && s[q] != '\'') {
                None
            } else {
                let close = find_from(s, q + 1, seq![s[q]]);
                if close <= q || close >= s.len() {
                    None
                } else {
                    attributes_from(
                        s,
                        close + 1,
                        held.push((s.subrange(p, n), decoded(s, q + 1, close, Seq::empty()))),
                    )
                }
            }
        }
    }
}

/// The events of a document from `pos` on, added to `held`. Comments,
/// processing instructions and declarations are passed over. `None` where
/// the markup is malformed.
pub open spec fn events_from(s: Seq<char>, pos: int, held: Seq<XmlEventView>) -> Option<
    Seq<XmlEventView>,
>
    decreases s.len() - pos,
{
    if pos < 0 || pos >= s.len() {
        Some(held)
    } else if s[pos] != '<' {
        let e = find_from(s, pos, seq!['<']);
        let end = if pos < e <= s.len() {
            e
        } else {
            s.len() as int
        };
        events_from(s, end, held.push(XmlEventView::Text(decoded(s, pos, end, Seq::empty()))))
    } else if stands_at(s, pos, "<!--"@) {
        let e = find_from(s, pos + 4, "-->"@);
        if pos < e && e + 3 <= s.len() {
            events_from(s, e + 3, held)
        } else {
            None
        }
    } else if stands_at(s, pos, "<![CDATA["@) {
        let e = find_from(s, pos + 9, "]]>"@);
        if pos < e && e + 3 <= s.len() {
            events_from(s, e + 3, held.push(XmlEventView::Text(s.subrange(pos + 9, e))))
        } else {
            None
        }
    } else if stands_at(s, pos, "<?"@) {
        let e = find_from(s, pos + 2, "?>"@);
        if pos < e && e + 2 <= s.len() {
            events_from(s, e + 2, held)
        } else {
            None
        }
    } else if stands_at(s, pos, "<!"@) {
        let e = find_from(s, pos + 2, ">"@);
        if pos < e && e + 1 <= s.len() {
            events_from(s, e + 1, held)
        } else {
            None
        }
    } else if stands_at(s, pos, "</"@) {
        let n = name_end(s, pos + 2);
        let e = space_end(s, n);
        if pos + 2 < n && n <= e && e < s.len() && s[e] == '>' {
            events_from(s, e + 1, held.push(XmlEventView::Close { name: s.subrange(pos + 2, n) }))
        } else {
            None
        }
    } else {
        let n = name_end(s, pos + 1);
        if n <= pos + 1 {
            None
        } else {
            match attributes_from(s, n, Seq::empty()) {
                Some(a) => if pos < a.1 <= s.len() {
                    let name = s.subrange(pos + 1, n);
                    let opened = held.push(XmlEventView::Open { name, attributes: a.0 });
                    events_from(
                        s,
                        a.1,
                        if a.2 {
                            opened.push(XmlEventView::Close { name })
                        } else {
                            opened
                        },
                    )
                } else {
                    None
                },
                None => None,
            }
        }
    }
}

/// The events of a document.
pub open spec fn xml_events(s: Seq<char>) -> Option<Seq<XmlEventView>> {
    events_from(s, 0, Seq::empty())
}

/// Reads the attributes of a tag.
fn read_attributes(v: &Vec<char>, pos: usize) -> (r: Option<(Vec<(String, String)>, usize, bool)>)
    requires
        pos <= v.len(),
    ensures
        match r {
            Some(a) => attributes_from(v@, pos as int, Seq::empty()) == Some(
                (attribute_views(a.0@), a.1 as int, a.2),
            ) && pos < a.1 <= v.len(),
            None => attributes_from(v@, pos as int, Seq::empty()).is_none(),
        },
{
    let mut held: Vec<(String, String)> = Vec::new();
    let mut cur: usize = pos;
    assert(attribute_views(held@) =~= Seq::<(Seq<char>, Seq<char>)>::empty());
    loop
        invariant
            pos <= cur <= v.len(),
            attributes_from(v@, pos as int, Seq::empty()) == attributes_from(
                v@,
                cur as int,
                attribute_views(held@),
            ),
        decreases v.len() - cur,
    {
        let p = skip_space(v, cur);
        if p >= v.len() {
            return None;
        }
        if v[p] == '>' {
            return Some((held, p + 1, false));
        }
        if v[p] == '/' {
            if p + 1 < v.len() && v[p + 1] == '>' {
                return Some((held, p + 2, true));
            }
            return None;
        }
        let n = skip_name(v, p);
        let eq = skip_space(v, n);
        if n <= p || eq >= v.len() || v[eq] != '=' {
            return None;
        }
        let q = skip_space(v, eq + 1);
        if q >= v.len() || (v[q] != '"' && v[q] != '\'') {
            return None;
        }
        let mut quote: Vec<char> = Vec::new();
        quote.push(v[q]);
        assert(quote@ =~= seq![v@[q as int]]);
        let close = match find(v, q + 1, &quote) {
            Some(c) => c,
            None => {
                return None;
            },
        };
        let ghost before = attribute_views(held@);
        let name = string_of_range(v, p, n);
        let value = decode(v, q + 1, close);
        held.push((name, value));
        assert(attribute_views(held@) =~= before.push((name@, value@)));
        cur = close + 1;
    }
}

/// Reads a document as a list of events. `None` where the markup is
/// malformed: a tag, comment or declaration that does not end, or a tag
/// without a name.
pub fn read_xml(text: &str) -> (r: Option<Vec<XmlEvent>>)
    ensures
        match r {
            Some(events) => xml_events(text@) == Some(event_views(events@)),
            None => xml_events(text@).is_none(),
        },
{
    let v = chars_of(text);
    let lt = chars_of("<");
    let comment_open = chars_of("<!--");
    let comment_close = chars_of("-->");
    let cdata_open = chars_of("<![CDATA[");
    let cdata_close = chars_of("]]>");
    let pi_open = chars_of("<?");
    let pi_close = chars_of("?>");
    let decl_open = chars_of("<!");
    let gt = chars_of(">");
    let close_open = chars_of("</");
    proof {
        reveal_strlit("<");
        reveal_strlit("<!--");
        reveal_strlit("-->");
        reveal_strlit("<![CDATA[");
        reveal_strlit("]]>");
        reveal_strlit("<?");
        reveal_strlit("?>");
        reveal_strlit("<!");
        reveal_strlit(">");
        reveal_strlit("</");
        assert(lt@ =~= seq!['<']);
    }
    let mut held: Vec<XmlEvent> = Vec::new();
    let mut pos: usize = 0;
    assert(event_views(held@) =~= Seq::<XmlEventView>::empty());
    loop
        invariant
            pos <= v.len(),
            v@ == text@,
            lt@ == seq!['<'],
            comment_open@ == "<!--"@,
            comment_close@ == "-->"@,
            cdata_open@ == "<![CDATA["@,
            cdata_close@ == "]]>"@,
            pi_open@ == "<?"@,
            pi_close@ == "?>"@,
            decl_open@ == "<!"@,
            gt@ == ">"@,
            close_open@ == "</"@,
            comment_open@.len() == 4,
            comment_close@.len() == 3,
            cdata_open@.len() == 9,
            cdata_close@.len() == 3,
            pi_open@.len() == 2,
            pi_close@.len() == 2,
            decl_open@.len() == 2,
            gt@.len() == 1,
            close_open@.len() == 2,
            xml_events(v@) == events_from(v@, pos as int, event_views(held@)),
        decreases v.len() - pos,
    {
        if pos >= v.len() {
            return Some(held);
        }
        let ghost before = event_views(held@);
        if v[pos] != '<' {
            let end = match find(&v, pos, &lt) {
                Some(e) => e,
                None => v.len(),
            };
            assert(end > pos) by {
                if end == pos {
                    assert(stands_at(v@, pos as int, lt@));
                    assert(v@.subrange(pos as int, pos + 1)[0] == v@[pos as int]);
                }
            }
            let t = XmlEvent::Text(decode(&v, pos, end));
            held.push(t);
            assert(event_views(held@) =~= before.push(t@));
            pos = end;
        } else if at(&v, pos, &comment_open) {
            match find(&v, pos + 4, &comment_close) {
                Some(e) => {
                    pos = e + 3;
                },
                None => {
                    return None;
                },
            }
        } else if at(&v, pos, &cdata_open) {
            match find(&v, pos + 9, &cdata_close) {
                Some(e) => {
                    let t = XmlEvent::Text(string_of_range(&v, pos + 9, e));
                    held.push(t);
                    assert(event_views(held@) =~= before.push(t@));
                    pos = e + 3;
                },
                None => {
                    return None;
                },
            }
        } else if at(&v, pos, &pi_open) {
            match find(&v, pos + 2, &pi_close) {
                Some(e) => {
                    pos = e + 2;
                },
                None => {
                    return None;
                },
            }
        } else if at(&v, pos, &decl_open) {
            match find(&v, pos + 2, &gt) {
                Some(e) => {
                    pos = e + 1;
                },
                None => {
                    return None;
                },
            }
        } else if at(&v, pos, &close_open) {
            let n = skip_name(&v, pos + 2);
            let e = skip_space(&v, n);
            if pos + 2 < n && e < v.len() && v[e] == '>' {
                let c = XmlEvent::Close { name: string_of_range(&v, pos + 2, n) };
                held.push(c);
                assert(event_views(held@) =~= before.push(c@));
                pos = e + 1;
            } else {
                return None;
            }
        } else {
            let n = skip_name(&v, pos + 1);
            if n <= pos + 1 {
                return None;
            }
            match read_attributes(&v, n) {
                Some(a) => {
                    let (attributes, end, closes) = a;
                    let o = XmlEvent::Open { name: string_of_range(&v, pos + 1, n), attributes };
                    held.push(o);
                    assert(event_views(held@) =~= before.push(o@));
                    if closes {
                        let ghost opened = event_views(held@);
                        let c = XmlEvent::Close { name: string_of_range(&v, pos + 1, n) };
                        held.push(c);
                        assert(event_views(held@) =~= opened.push(c@));
                    }
                    pos = end;
                },
                None => {
                    return None;
                },
            }
        }
    }
}

} // verus!
