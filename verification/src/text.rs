//! Text primitives shared by the whole library.
//!
//! Strings are modelled by their sequence of characters (`Seq<char>`). Every
//! function here states its result over that model.

use vstd::prelude::*;
use vstd::string::StringSliceAdditionalSpecFns;

verus! {

/// What `str::to_lowercase` returns for a text: its Unicode lowercase form.
pub uninterp spec fn lowercase_of(s: Seq<char>) -> Seq<char>;

/// What `str::to_uppercase` returns for a text: its Unicode uppercase form.
pub uninterp spec fn uppercase_of(s: Seq<char>) -> Seq<char>;

/// Calls `str::to_lowercase`. The contract only names the result: the Unicode
/// case tables are not restated here.
#[verifier::external_body]
pub(crate) fn to_lowercase(s: &str) -> (r: String)
    ensures
        r@ == lowercase_of(s@),
{
    s.to_lowercase()
}

/// Calls `str::to_uppercase`. The contract only names the result.
#[verifier::external_body]
pub(crate) fn to_uppercase(s: &str) -> (r: String)
    ensures
        r@ == uppercase_of(s@),
{
    s.to_uppercase()
}

/// Calls `String::push`, which appends the character to the end of the string.
#[verifier::external_body]
pub(crate) fn push_char(s: &mut String, c: char)
    ensures
        final(s)@ == old(s)@.push(c),
{
    s.push(c)
}

/// The characters of a string slice, in order.
pub fn chars_of(s: &str) -> (v: Vec<char>)
    ensures
        v@ == s@,
{
    let mut v: Vec<char> = Vec::new();
    for c in it: s.chars()
        invariant
            v@ == it.seq().take(it.index() as int),
    {
        v.push(c);
    }
    v
}

/// The string made of `v[from..to]`.
pub fn string_of_range(v: &Vec<char>, from: usize, to: usize) -> (s: String)
    requires
        from <= to <= v.len(),
    ensures
        s@ == v@.subrange(from as int, to as int),
{
    let mut s = String::new();
    let mut i: usize = from;
    while i < to
        invariant
            from <= i <= to <= v.len(),
            s@ == v@.subrange(from as int, i as int),
        decreases to - i,
    {
        push_char(&mut s, v[i]);
        i += 1;
    }
    s
}

/// The string made of the given characters.
pub fn string_of(v: &Vec<char>) -> (s: String)
    ensures
        s@ == v@,
{
    let s = string_of_range(v, 0, v.len());
    assert(v@.subrange(0, v.len() as int) == v@);
    s
}

/// An owned copy of a string slice.
pub fn owned(s: &str) -> (r: String)
    ensures
        r@ == s@,
{
    s.to_owned()
}

/// `a` followed by `b`.
pub fn concat2(a: &str, b: &str) -> (r: String)
    ensures
        r@ == a@ + b@,
{
    let mut r = a.to_owned();
    r.append(b);
    r
}

/// `a`, `b` and `c` in a row.
pub fn concat3(a: &str, b: &str, c: &str) -> (r: String)
    ensures
        r@ == a@ + b@ + c@,
{
    let mut r = a.to_owned();
    r.append(b);
    r.append(c);
    r
}

/// Whether `hay[at..at + needle.len()]` equals `needle`.
fn matches_at(hay: &Vec<char>, at: usize, needle: &Vec<char>) -> (r: bool)
    requires
        at + needle.len() <= hay.len(),
    ensures
        r == (hay@.subrange(at as int, at + needle.len()) == needle@),
{
    let mut i: usize = 0;
    while i < needle.len()
        invariant
            i <= needle.len(),
            at + needle.len() <= hay.len(),
            forall|j: int| 0 <= j < i ==> hay@[at + j] == needle@[j],
        decreases needle.len() - i,
    {
        if hay[at + i] != needle[i] {
            assert(hay@.subrange(at as int, at + needle.len())[i as int] != needle@[i as int]);
            return false;
        }
        i += 1;
    }
    assert(hay@.subrange(at as int, at + needle.len()) =~= needle@);
    true
}

/// Whether two texts hold the same characters.
pub fn text_eq(a: &str, b: &str) -> (r: bool)
    ensures
        r == (a@ == b@),
{
    let x = a.as_bytes();
    let y = b.as_bytes();
    if x.len() != y.len() {
        return false;
    }
    let mut i: usize = 0;
    while i < x.len()
        invariant
            i <= x.len(),
            x.len() == y.len(),
            x@ == a.spec_bytes(),
            y@ == b.spec_bytes(),
            forall|j: int| 0 <= j < i ==> x@[j] == y@[j],
        decreases x.len() - i,
    {
        if x[i] != y[i] {
            return false;
        }
        i += 1;
    }
    proof {
        // texts with the same bytes are the same text
        assert(x@ =~= y@);
        vstd::utf8::encode_utf8_decode_utf8(a@);
        vstd::utf8::encode_utf8_decode_utf8(b@);
    }
    true
}

/// Whether `s` begins with `prefix`.
pub fn starts_with(s: &str, prefix: &str) -> (r: bool)
    ensures
        r == prefix@.is_prefix_of(s@),
{
    let sv = chars_of(s);
    let pv = chars_of(prefix);
    if pv.len() > sv.len() {
        return false;
    }
    matches_at(&sv, 0, &pv)
}

/// Whether `s` ends with `suffix`.
pub fn ends_with(s: &str, suffix: &str) -> (r: bool)
    ensures
        r == suffix@.is_suffix_of(s@),
{
    let sv = chars_of(s);
    let xv = chars_of(suffix);
    if xv.len() > sv.len() {
        return false;
    }
    matches_at(&sv, sv.len() - xv.len(), &xv)
}

/// `s` without `suffix` at its end, where it ends with it.
pub open spec fn without_suffix(s: Seq<char>, suffix: Seq<char>) -> Option<Seq<char>> {
    if suffix.is_suffix_of(s) {
        Some(s.subrange(0, s.len() - suffix.len()))
    } else {
        None
    }
}

/// `s` without `suffix` at its end, or `None` where `s` does not end with it.
pub fn strip_suffix(s: &str, suffix: &str) -> (r: Option<String>)
    ensures
        r.is_some() == without_suffix(s@, suffix@).is_some(),
        r matches Some(t) ==> Some(t@) == without_suffix(s@, suffix@),
{
    let sv = chars_of(s);
    let xv = chars_of(suffix);
    if xv.len() > sv.len() {
        return None;
    }
    if matches_at(&sv, sv.len() - xv.len(), &xv) {
        Some(string_of_range(&sv, 0, sv.len() - xv.len()))
    } else {
        None
    }
}

/// The position of the first `c` in `s`, or `-1`.
pub open spec fn first_index_of(s: Seq<char>, c: char) -> int
    decreases s.len(),
{
    if s.len() == 0 {
        -1
    } else if s[0] == c {
        0
    } else {
        let rest = first_index_of(s.drop_first(), c);
        if rest < 0 {
            -1
        } else {
            rest + 1
        }
    }
}

/// The position of the last `c` in `s`, or `-1`.
pub open spec fn last_index_of(s: Seq<char>, c: char) -> int
    decreases s.len(),
{
    if s.len() == 0 {
        -1
    } else if s.last() == c {
        s.len() - 1
    } else {
        last_index_of(s.drop_last(), c)
    }
}

/// `first_index_of` is the least position that holds `c`.
pub proof fn lemma_first_index_of(s: Seq<char>, c: char)
    ensures
        -1 <= first_index_of(s, c) < s.len(),
        first_index_of(s, c) >= 0 ==> s[first_index_of(s, c)] == c,
        forall|j: int| 0 <= j < s.len() && s[j] == c ==> 0 <= first_index_of(s, c) <= j,
    decreases s.len(),
{
    if s.len() > 0 && s[0] != c {
        lemma_first_index_of(s.drop_first(), c);
        assert forall|j: int| 0 <= j < s.len() && s[j] == c implies 0 <= first_index_of(s, c)
            <= j by {
            assert(s.drop_first()[j - 1] == c);
        }
    }
}

/// `last_index_of` is the greatest position that holds `c`.
pub proof fn lemma_last_index_of(s: Seq<char>, c: char)
    ensures
        -1 <= last_index_of(s, c) < s.len(),
        last_index_of(s, c) >= 0 ==> s[last_index_of(s, c)] == c,
        forall|j: int| 0 <= j < s.len() && s[j] == c ==> j <= last_index_of(s, c),
    decreases s.len(),
{
    if s.len() > 0 && s.last() != c {
        lemma_last_index_of(s.drop_last(), c);
        assert forall|j: int| 0 <= j < s.len() && s[j] == c implies j <= last_index_of(s, c) by {
            assert(s.drop_last()[j] == c);
        }
    }
}

/// The position of the first `c` in `v`.
pub fn find_char(v: &Vec<char>, c: char) -> (r: Option<usize>)
    ensures
        match r {
            Some(i) => i as int == first_index_of(v@, c),
            None => first_index_of(v@, c) == -1,
        },
{
    let mut i: usize = 0;
    while i < v.len()
        invariant
            i <= v.len(),
            forall|j: int| 0 <= j < i ==> v@[j] != c,
        decreases v.len() - i,
    {
        if v[i] == c {
            proof {
                lemma_first_index_of(v@, c);
            }
            return Some(i);
        }
        i += 1;
    }
    proof {
        lemma_first_index_of(v@, c);
    }
    None
}

/// The position of the last `c` in `v`.
pub fn rfind_char(v: &Vec<char>, c: char) -> (r: Option<usize>)
    ensures
        match r {
            Some(i) => i as int == last_index_of(v@, c),
            None => last_index_of(v@, c) == -1,
        },
{
    let mut i: usize = v.len();
    while i > 0
        invariant
            i <= v.len(),
            forall|j: int| i <= j < v.len() ==> v@[j] != c,
        decreases i,
    {
        i -= 1;
        if v[i] == c {
            proof {
                lemma_last_index_of(v@, c);
            }
            return Some(i);
        }
    }
    proof {
        lemma_last_index_of(v@, c);
    }
    None
}

/// `s` with every `from` replaced by `to`.
pub open spec fn replaced(s: Seq<char>, from: char, to: char) -> Seq<char> {
    Seq::new(
        s.len(),
        |i: int|
            if s[i] == from {
                to
            } else {
                s[i]
            },
    )
}

/// A copy of `s` in which every `from` is replaced by `to`.
pub fn replace_char(s: &str, from: char, to: char) -> (r: String)
    ensures
        r@ == replaced(s@, from, to),
{
    let sv = chars_of(s);
    let mut out: Vec<char> = Vec::new();
    let mut i: usize = 0;
    while i < sv.len()
        invariant
            i <= sv.len(),
            out@ == replaced(sv@, from, to).take(i as int),
        decreases sv.len() - i,
    {
        let c = sv[i];
        out.push(
            if c == from {
                to
            } else {
                c
            },
        );
        i += 1;
        assert(out@ =~= replaced(sv@, from, to).take(i as int));
    }
    assert(replaced(sv@, from, to).take(sv.len() as int) =~= replaced(sv@, from, to));
    string_of(&out)
}

/// The ASCII lowercase form of a character: `A`..`Z` become `a`..`z`.
pub open spec fn ascii_lower_char(c: char) -> char {
    if 'A' <= c <= 'Z' {
        ((c as u8) + 32u8) as char
    } else {
        c
    }
}

/// The ASCII lowercase form of a text.
pub open spec fn ascii_lower(s: Seq<char>) -> Seq<char> {
    Seq::new(s.len(), |i: int| ascii_lower_char(s[i]))
}

/// The ASCII lowercase form of one character.
pub fn lower_ascii_char(c: char) -> (r: char)
    ensures
        r == ascii_lower_char(c),
{
    if 'A' <= c && c <= 'Z' {
        ((c as u8) + 32u8) as char
    } else {
        c
    }
}

/// The ASCII lowercase form of a text: only `A`..`Z` change.
pub fn to_ascii_lower(s: &str) -> (r: String)
    ensures
        r@ == ascii_lower(s@),
{
    let sv = chars_of(s);
    let mut out: Vec<char> = Vec::new();
    let mut i: usize = 0;
    while i < sv.len()
        invariant
            i <= sv.len(),
            out@ == ascii_lower(sv@).take(i as int),
        decreases sv.len() - i,
    {
        out.push(lower_ascii_char(sv[i]));
        i += 1;
        assert(out@ =~= ascii_lower(sv@).take(i as int));
    }
    assert(ascii_lower(sv@).take(sv.len() as int) =~= ascii_lower(sv@));
    string_of(&out)
}

/// Whether two texts are equal once `A`..`Z` are folded to `a`..`z`.
pub fn eq_ignore_ascii_case(a: &str, b: &str) -> (r: bool)
    ensures
        r == (ascii_lower(a@) == ascii_lower(b@)),
{
    let la = to_ascii_lower(a);
    let lb = to_ascii_lower(b);
    text_eq(la.as_str(), lb.as_str())
}

/// Whether `c` is one of `0`..`9`.
pub open spec fn is_digit(c: char) -> bool {
    '0' <= c <= '9'
}

/// Whether `c` is a hexadecimal digit, in either case.
pub open spec fn is_hex_digit(c: char) -> bool {
    ('0' <= c <= '9') || ('a' <= c <= 'f') || ('A' <= c <= 'F')
}

/// Whether every character of `s` is a hexadecimal digit.
pub open spec fn all_hex(s: Seq<char>) -> bool {
    forall|i: int| 0 <= i < s.len() ==> is_hex_digit(#[trigger] s[i])
}

/// The character for a decimal digit.
pub open spec fn digit_char(d: int) -> char {
    ((48 + d) as u8) as char
}

/// The decimal notation of a natural number, without leading zeros.
pub open spec fn decimal_text(n: nat) -> Seq<char>
    decreases n,
{
    if n < 10 {
        seq![digit_char(n as int)]
    } else {
        decimal_text(n / 10).push(digit_char((n % 10) as int))
    }
}

/// The decimal notation of an integer: a `-` in front of a negative one.
pub open spec fn signed_decimal_text(n: int) -> Seq<char> {
    if n < 0 {
        seq!['-'] + decimal_text((-n) as nat)
    } else {
        decimal_text(n as nat)
    }
}

/// Appends the decimal notation of `n` to `s`.
pub fn push_decimal(s: &mut String, n: u64)
    ensures
        final(s)@ == old(s)@ + decimal_text(n as nat),
    decreases n,
{
    if n >= 10 {
        push_decimal(s, n / 10);
    }
    let d: u8 = (n % 10) as u8;
    push_char(s, (48u8 + d) as char);
    proof {
        if n >= 10 {
            assert(final(s)@ =~= old(s)@ + decimal_text(n as nat));
        } else {
            assert(final(s)@ =~= old(s)@ + decimal_text(n as nat));
        }
    }
}

/// The decimal notation of `n`.
pub fn decimal_string(n: u64) -> (r: String)
    ensures
        r@ == decimal_text(n as nat),
{
    let mut s = String::new();
    push_decimal(&mut s, n);
    assert(Seq::<char>::empty() + decimal_text(n as nat) =~= decimal_text(n as nat));
    s
}

/// The decimal notation of a signed number.
pub fn signed_decimal_string(n: i64) -> (r: String)
    ensures
        r@ == signed_decimal_text(n as int),
{
    let mut s = String::new();
    if n < 0 {
        push_char(&mut s, '-');
        let m: u64 = if n == i64::MIN {
            9223372036854775808u64
        } else {
            (-n) as u64
        };
        push_decimal(&mut s, m);
        assert(s@ =~= seq!['-'] + decimal_text((-n) as nat));
    } else {
        push_decimal(&mut s, n as u64);
        assert(s@ =~= decimal_text(n as nat));
    }
    s
}

/// The number that a text of decimal digits denotes, read from the left.
pub open spec fn decimal_value(s: Seq<char>) -> nat
    decreases s.len(),
{
    if s.len() == 0 {
        0
    } else {
        (decimal_value(s.drop_last()) * 10 + (s.last() as int - 48)) as nat
    }
}

/// Whether `s` is a non-empty run of the digits `0`..`9`.
pub open spec fn is_decimal(s: Seq<char>) -> bool {
    s.len() > 0 && forall|i: int| 0 <= i < s.len() ==> is_digit(#[trigger] s[i])
}

/// Longer digit runs denote larger or equal numbers than their prefixes.
pub proof fn lemma_decimal_value_grows(s: Seq<char>, k: int)
    requires
        0 <= k <= s.len(),
        forall|i: int| 0 <= i < s.len() ==> is_digit(#[trigger] s[i]),
    ensures
        decimal_value(s.take(k)) <= decimal_value(s),
    decreases s.len() - k,
{
    if k == s.len() {
        assert(s.take(k) =~= s);
    } else {
        lemma_decimal_value_grows(s, k + 1);
        assert(s.take(k + 1).drop_last() =~= s.take(k));
        assert(is_digit(s[k]));
    }
}

/// Reads a text of decimal digits as a `u32`. `None` where the text is empty,
/// holds anything but `0`..`9`, or denotes a number above `u32::MAX`.
pub fn parse_u32(s: &str) -> (r: Option<u32>)
    ensures
        r.is_some() == (is_decimal(s@) && decimal_value(s@) <= u32::MAX),
        r matches Some(n) ==> n as nat == decimal_value(s@),
{
    let sv = chars_of(s);
    if sv.len() == 0 {
        return None;
    }
    let mut acc: u64 = 0;
    let mut i: usize = 0;
    while i < sv.len()
        invariant
            i <= sv.len(),
            sv@ == s@,
            forall|j: int| 0 <= j < i ==> is_digit(#[trigger] sv@[j]),
            acc as nat == decimal_value(sv@.take(i as int)),
            acc <= u32::MAX,
        decreases sv.len() - i,
    {
        let c = sv[i];
        if !('0' <= c && c <= '9') {
            return None;
        }
        let d: u64 = ((c as u8) - 48u8) as u64;
        let next: u64 = acc * 10 + d;
        proof {
            assert(sv@.take(i + 1).drop_last() =~= sv@.take(i as int));
            assert(sv@.take(i + 1).last() == c);
        }
        if next > 4294967295u64 {
            proof {
                // every longer prefix denotes at least this much
                if is_decimal(s@) {
                    lemma_decimal_value_grows(sv@, i + 1);
                }
            }
            return None;
        }
        acc = next;
        i += 1;
    }
    assert(sv@.take(sv.len() as int) =~= sv@);
    Some(acc as u32)
}

/// Whether `a` comes before `b` in the order of `str`: character by
/// character, by code point, a proper prefix coming first.
pub open spec fn text_lt(a: Seq<char>, b: Seq<char>) -> bool
    decreases a.len(),
{
    if b.len() == 0 {
        false
    } else if a.len() == 0 {
        true
    } else if a[0] != b[0] {
        a[0] < b[0]
    } else {
        text_lt(a.drop_first(), b.drop_first())
    }
}

/// The order depends only on what follows a common prefix.
proof fn lemma_text_lt_skip(a: Seq<char>, b: Seq<char>, k: int)
    requires
        0 <= k <= a.len(),
        k <= b.len(),
        a.take(k) == b.take(k),
    ensures
        text_lt(a, b) == text_lt(a.skip(k), b.skip(k)),
    decreases k,
{
    if k == 0 {
        assert(a.skip(0) =~= a);
        assert(b.skip(0) =~= b);
    } else {
        assert(a[0] == a.take(k)[0]);
        assert(b[0] == b.take(k)[0]);
        assert(a.drop_first().take(k - 1) =~= a.take(k).drop_first());
        assert(b.drop_first().take(k - 1) =~= b.take(k).drop_first());
        lemma_text_lt_skip(a.drop_first(), b.drop_first(), k - 1);
        assert(a.drop_first().skip(k - 1) =~= a.skip(k));
        assert(b.drop_first().skip(k - 1) =~= b.skip(k));
    }
}

/// Whether `a` comes strictly before `b` in the order of `str`.
pub fn text_less(a: &str, b: &str) -> (r: bool)
    ensures
        r == text_lt(a@, b@),
{
    let av = chars_of(a);
    let bv = chars_of(b);
    let mut i: usize = 0;
    while i < av.len() && i < bv.len()
        invariant
            i <= av.len(),
            i <= bv.len(),
            av@ == a@,
            bv@ == b@,
            av@.take(i as int) == bv@.take(i as int),
        decreases av.len() - i,
    {
        if av[i] != bv[i] {
            proof {
                lemma_text_lt_skip(av@, bv@, i as int);
                assert(av@.skip(i as int)[0] == av@[i as int]);
                assert(bv@.skip(i as int)[0] == bv@[i as int]);
            }
            return av[i] < bv[i];
        }
        i += 1;
        assert(av@.take(i as int) =~= av@.take(i - 1).push(av@[i - 1]));
        assert(bv@.take(i as int) =~= bv@.take(i - 1).push(bv@[i - 1]));
    }
    proof {
        lemma_text_lt_skip(av@, bv@, i as int);
    }
    i < bv.len()
}

/// The texts of a sequence of strings.
pub open spec fn texts(s: Seq<String>) -> Seq<Seq<char>> {
    s.map_values(|x: String| x@)
}

/// The parts in a row, with `sep` between each two.
pub open spec fn joined_with(parts: Seq<Seq<char>>, sep: Seq<char>) -> Seq<char>
    decreases parts.len(),
{
    if parts.len() == 0 {
        Seq::empty()
    } else if parts.len() == 1 {
        parts[0]
    } else {
        joined_with(parts.drop_last(), sep) + sep + parts.last()
    }
}

/// The parts in a row, with `sep` between each two.
pub fn join_texts(parts: &Vec<String>, sep: &str) -> (r: String)
    ensures
        r@ == joined_with(texts(parts@), sep@),
{
    let mut r = String::new();
    let mut i: usize = 0;
    while i < parts.len()
        invariant
            i <= parts.len(),
            r@ == joined_with(texts(parts@).take(i as int), sep@),
        decreases parts.len() - i,
    {
        proof {
            assert(texts(parts@).take(i + 1).drop_last() =~= texts(parts@).take(i as int));
            assert(texts(parts@).take(i + 1).last() == parts@[i as int]@);
        }
        if i > 0 {
            r.append(sep);
        }
        r.append(parts[i].as_str());
        i += 1;
        proof {
            if i == 1 {
                assert(r@ =~= parts@[0]@);
            }
        }
    }
    assert(texts(parts@).take(parts.len() as int) =~= texts(parts@));
    r
}

/// What `char::is_alphanumeric` returns: whether Unicode counts the character
/// as a letter or a number.
pub uninterp spec fn alphanumeric(c: char) -> bool;

/// Calls `char::is_alphanumeric`. The contract names the result.
#[verifier::external_body]
pub(crate) fn is_alphanumeric(c: char) -> (r: bool)
    ensures
        r == alphanumeric(c),
{
    c.is_alphanumeric()
}

/// Whether a character is white space: one of the code points to which
/// Unicode gives the property `White_Space`, which are those for which
/// `char::is_whitespace` holds.
pub open spec fn whitespace(c: char) -> bool {
    ('\u{9}' <= c <= '\u{d}') || c == ' ' || c == '\u{85}' || c == '\u{a0}' || c == '\u{1680}' || (
    '\u{2000}' <= c <= '\u{200a}') || c == '\u{2028}' || c == '\u{2029}' || c == '\u{202f}' || c
        == '\u{205f}' || c == '\u{3000}'
}

/// Whether a character is white space.
pub fn is_whitespace(c: char) -> (r: bool)
    ensures
        r == whitespace(c),
{
    ('\u{9}' <= c && c <= '\u{d}') || c == ' ' || c == '\u{85}' || c == '\u{a0}' || c == '\u{1680}'
        || ('\u{2000}' <= c && c <= '\u{200a}') || c == '\u{2028}' || c == '\u{2029}' || c
        == '\u{202f}' || c == '\u{205f}' || c == '\u{3000}'
}

/// The text without the white space at its beginning.
pub open spec fn trim_start_of(s: Seq<char>) -> Seq<char>
    decreases s.len(),
{
    if s.len() > 0 && whitespace(s[0]) {
        trim_start_of(s.drop_first())
    } else {
        s
    }
}

/// The text without the white space at its end.
pub open spec fn trim_end_of(s: Seq<char>) -> Seq<char>
    decreases s.len(),
{
    if s.len() > 0 && whitespace(s.last()) {
        trim_end_of(s.drop_last())
    } else {
        s
    }
}

/// The text without the white space at its beginning and at its end.
pub open spec fn trimmed(s: Seq<char>) -> Seq<char> {
    trim_end_of(trim_start_of(s))
}

/// Trimming at the beginning skips the leading white space.
proof fn lemma_trim_start(s: Seq<char>, k: int)
    requires
        0 <= k <= s.len(),
        forall|j: int| 0 <= j < k ==> whitespace(#[trigger] s[j]),
        k < s.len() ==> !whitespace(s[k]),
    ensures
        trim_start_of(s) == s.skip(k),
    decreases k,
{
    if k == 0 {
        assert(s.skip(0) =~= s);
    } else {
        assert(whitespace(s[0]));
        assert forall|j: int| 0 <= j < k - 1 implies whitespace(#[trigger] s.drop_first()[j]) by {
            assert(s.drop_first()[j] == s[j + 1]);
        }
        lemma_trim_start(s.drop_first(), k - 1);
        assert(s.drop_first().skip(k - 1) =~= s.skip(k));
    }
}

/// Trimming at the end drops the trailing white space.
proof fn lemma_trim_end(s: Seq<char>, k: int)
    requires
        0 <= k <= s.len(),
        forall|j: int| k <= j < s.len() ==> whitespace(#[trigger] s[j]),
        k > 0 ==> !whitespace(s[k - 1]),
    ensures
        trim_end_of(s) == s.take(k),
    decreases s.len() - k,
{
    if k == s.len() {
        assert(s.take(k) =~= s);
    } else {
        assert(whitespace(s[s.len() - 1]));
        assert forall|j: int| k <= j < s.drop_last().len() implies whitespace(
            #[trigger] s.drop_last()[j],
        ) by {
            assert(s.drop_last()[j] == s[j]);
        }
        lemma_trim_end(s.drop_last(), k);
        assert(s.drop_last().take(k) =~= s.take(k));
    }
}

/// The characters `v[from..to]` without white space at either end.
pub fn trim_range(v: &Vec<char>, from: usize, to: usize) -> (r: String)
    requires
        from <= to <= v.len(),
    ensures
        r@ == trimmed(v@.subrange(from as int, to as int)),
{
    let ghost s = v@.subrange(from as int, to as int);
    let mut a: usize = from;
    while a < to && is_whitespace(v[a])
        invariant
            from <= a <= to <= v.len(),
            s == v@.subrange(from as int, to as int),
            forall|j: int| 0 <= j < a - from ==> whitespace(#[trigger] s[j]),
        decreases to - a,
    {
        a += 1;
    }
    proof {
        lemma_trim_start(s, a - from);
    }
    let ghost t = s.skip(a - from);
    let mut b: usize = to;
    while b > a && is_whitespace(v[b - 1])
        invariant
            a <= b <= to <= v.len(),
            from <= a,
            s == v@.subrange(from as int, to as int),
            t == s.skip(a - from),
            forall|j: int| b - a <= j < t.len() ==> whitespace(#[trigger] t[j]),
        decreases b,
    {
        b -= 1;
    }
    proof {
        lemma_trim_end(t, b - a);
        assert(t.take(b - a) =~= v@.subrange(a as int, b as int));
    }
    string_of_range(v, a, b)
}

/// The text without white space at either end.
pub fn trim(s: &str) -> (r: String)
    ensures
        r@ == trimmed(s@),
{
    let v = chars_of(s);
    assert(v@.subrange(0, v.len() as int) =~= v@);
    trim_range(&v, 0, v.len())
}

/// A line without the carriage return that may end it.
pub open spec fn without_cr(line: Seq<char>) -> Seq<char> {
    if line.len() > 0 && line.last() == '\r' {
        line.drop_last()
    } else {
        line
    }
}

/// The lines of a text: what lies between line feeds, without the carriage
/// return before a line feed. A line feed at the very end begins no line.
pub open spec fn lines_of(s: Seq<char>) -> Seq<Seq<char>>
    decreases s.len(),
{
    if s.len() == 0 {
        Seq::empty()
    } else {
        let i = first_index_of(s, '\n');
        if i < 0 || i >= s.len() {
            seq![s]
        } else {
            seq![without_cr(s.subrange(0, i))] + lines_of(s.subrange(i + 1, s.len() as int))
        }
    }
}

/// The position of the first `c` in `v[from..]`.
fn find_char_from(v: &Vec<char>, from: usize, c: char) -> (r: Option<usize>)
    requires
        from <= v.len(),
    ensures
        match r {
            Some(i) => from <= i < v.len() && i - from == first_index_of(
                v@.subrange(from as int, v.len() as int),
                c,
            ),
            None => first_index_of(v@.subrange(from as int, v.len() as int), c) == -1,
        },
{
    let ghost s = v@.subrange(from as int, v.len() as int);
    let mut i: usize = from;
    while i < v.len()
        invariant
            from <= i <= v.len(),
            s == v@.subrange(from as int, v.len() as int),
            forall|j: int| 0 <= j < i - from ==> s[j] != c,
        decreases v.len() - i,
    {
        if v[i] == c {
            proof {
                lemma_first_index_of(s, c);
                assert(s[i - from] == c);
            }
            return Some(i);
        }
        i += 1;
    }
    proof {
        lemma_first_index_of(s, c);
    }
    None
}

/// The lines of a text.
pub fn lines(s: &str) -> (r: Vec<String>)
    ensures
        texts(r@) == lines_of(s@),
{
    let v = chars_of(s);
    let mut out: Vec<String> = Vec::new();
    let mut pos: usize = 0;
    assert(v@.subrange(0, v.len() as int) =~= v@);
    assert(texts(out@) =~= Seq::<Seq<char>>::empty());
    while pos < v.len()
        invariant
            pos <= v.len(),
            v@ == s@,
            texts(out@) + lines_of(v@.subrange(pos as int, v.len() as int)) == lines_of(v@),
        decreases v.len() - pos,
    {
        let ghost rest = v@.subrange(pos as int, v.len() as int);
        let ghost before = texts(out@);
        match find_char_from(&v, pos, '\n') {
            Some(i) => {
                let end = if i > pos && v[i - 1] == '\r' {
                    i - 1
                } else {
                    i
                };
                let line = string_of_range(&v, pos, end);
                proof {
                    assert(rest.subrange(0, i - pos) =~= v@.subrange(pos as int, i as int));
                    assert(line@ =~= without_cr(rest.subrange(0, i - pos)));
                    assert(rest.subrange(i - pos + 1, rest.len() as int) =~= v@.subrange(
                        i + 1,
                        v.len() as int,
                    ));
                }
                out.push(line);
                assert(texts(out@) =~= before.push(line@));
                pos = i + 1;
                assert(texts(out@) + lines_of(v@.subrange(pos as int, v.len() as int)) =~= before
                    + lines_of(rest));
            },
            None => {
                let line = string_of_range(&v, pos, v.len());
                out.push(line);
                assert(texts(out@) =~= before.push(line@));
                pos = v.len();
                assert(v@.subrange(pos as int, v.len() as int) =~= Seq::<char>::empty());
                assert(texts(out@) + lines_of(v@.subrange(pos as int, v.len() as int)) =~= before
                    + lines_of(rest));
            },
        }
    }
    assert(v@.subrange(pos as int, v.len() as int) =~= Seq::<char>::empty());
    assert(texts(out@) + Seq::<Seq<char>>::empty() =~= texts(out@));
    out
}

/// The two parts of a text around its first `c`, or `None` where it has none.
pub open spec fn split_once_of(s: Seq<char>, c: char) -> Option<(Seq<char>, Seq<char>)> {
    let i = first_index_of(s, c);
    if 0 <= i < s.len() {
        Some((s.subrange(0, i), s.subrange(i + 1, s.len() as int)))
    } else {
        None
    }
}

/// The two parts of a text around its first `c`.
pub fn split_once(s: &str, c: char) -> (r: Option<(String, String)>)
    ensures
        match r {
            Some(p) => split_once_of(s@, c) == Some((p.0@, p.1@)),
            None => split_once_of(s@, c).is_none(),
        },
{
    let v = chars_of(s);
    proof {
        lemma_first_index_of(v@, c);
    }
    match find_char(&v, c) {
        Some(i) => Some((string_of_range(&v, 0, i), string_of_range(&v, i + 1, v.len()))),
        None => None,
    }
}

/// The text without any repetition of `pattern` at its end.
pub open spec fn trim_end_matches_of(s: Seq<char>, pattern: Seq<char>) -> Seq<char>
    decreases s.len(),
{
    if pattern.len() > 0 && pattern.is_suffix_of(s) {
        trim_end_matches_of(s.subrange(0, s.len() - pattern.len()), pattern)
    } else {
        s
    }
}

/// The text without any repetition of `pattern` at its end.
pub fn trim_end_matches(s: &str, pattern: &str) -> (r: String)
    ensures
        r@ == trim_end_matches_of(s@, pattern@),
{
    let v = chars_of(s);
    let p = chars_of(pattern);
    let mut end: usize = v.len();
    assert(v@.subrange(0, end as int) =~= v@);
    if p.len() == 0 {
        return string_of_range(&v, 0, end);
    }
    while end >= p.len() && matches_at(&v, end - p.len(), &p)
        invariant
            end <= v.len(),
            p.len() > 0,
            p@ == pattern@,
            trim_end_matches_of(v@, p@) == trim_end_matches_of(v@.subrange(0, end as int), p@),
        decreases end,
    {
        proof {
            let cur = v@.subrange(0, end as int);
            assert(cur.subrange(cur.len() - p@.len(), cur.len() as int) =~= v@.subrange(
                end - p.len(),
                end as int,
            ));
            assert(cur.subrange(0, cur.len() - p@.len()) =~= v@.subrange(0, end - p.len()));
        }
        end = end - p.len();
    }
    proof {
        let cur = v@.subrange(0, end as int);
        if end >= p.len() {
            assert(cur.subrange(cur.len() - p@.len(), cur.len() as int) =~= v@.subrange(
                end - p.len(),
                end as int,
            ));
        }
    }
    string_of_range(&v, 0, end)
}

/// The order of texts is irreflexive.
pub proof fn lemma_text_lt_irreflexive(a: Seq<char>)
    ensures
        !text_lt(a, a),
    decreases a.len(),
{
    if a.len() > 0 {
        lemma_text_lt_irreflexive(a.drop_first());
    }
}

/// The order of texts is transitive.
pub proof fn lemma_text_lt_transitive(a: Seq<char>, b: Seq<char>, c: Seq<char>)
    requires
        text_lt(a, b),
        text_lt(b, c),
    ensures
        text_lt(a, c),
    decreases a.len(),
{
    if a.len() > 0 && b.len() > 0 && c.len() > 0 {
        if a[0] == b[0] && b[0] == c[0] {
            lemma_text_lt_transitive(a.drop_first(), b.drop_first(), c.drop_first());
        }
    }
}

/// Of two different texts one comes before the other.
pub proof fn lemma_text_lt_total(a: Seq<char>, b: Seq<char>)
    ensures
        a == b || text_lt(a, b) || text_lt(b, a),
    decreases a.len(),
{
    if a.len() > 0 && b.len() > 0 {
        if a[0] == b[0] {
            lemma_text_lt_total(a.drop_first(), b.drop_first());
            if a.drop_first() == b.drop_first() {
                assert(a =~= seq![a[0]] + a.drop_first());
                assert(b =~= seq![b[0]] + b.drop_first());
            }
        }
    } else if a.len() == 0 && b.len() == 0 {
        assert(a =~= b);
    }
}

/// What `String::from_utf8_lossy` makes of bytes: their text as UTF-8, with
/// U+FFFD in place of what is no UTF-8.
pub uninterp spec fn lossy_text_of(bytes: Seq<u8>) -> Seq<char>;

/// Calls `String::from_utf8_lossy`. The contract names the result.
#[verifier::external_body]
pub(crate) fn utf8_lossy(bytes: &Vec<u8>) -> (r: String)
    ensures
        r@ == lossy_text_of(bytes@),
{
    String::from_utf8_lossy(bytes).into_owned()
}

/// The ordered texts with one more, placed behind all that do not come after
/// it.
pub open spec fn insert_text(sorted: Seq<Seq<char>>, x: Seq<char>) -> Seq<Seq<char>>
    decreases sorted.len(),
{
    if sorted.len() == 0 || !text_lt(x, sorted.last()) {
        sorted.push(x)
    } else {
        insert_text(sorted.drop_last(), x).push(sorted.last())
    }
}

/// The texts in their order.
pub open spec fn sorted_texts(items: Seq<Seq<char>>) -> Seq<Seq<char>>
    decreases items.len(),
{
    if items.len() == 0 {
        Seq::empty()
    } else {
        insert_text(sorted_texts(items.drop_last()), items.last())
    }
}

/// Whether no text comes before one that precedes it.
pub open spec fn texts_ordered(items: Seq<Seq<char>>) -> bool {
    forall|i: int, j: int| 0 <= i < j < items.len() ==> !text_lt(items[j], items[i])
}

/// Placing a text at `k`, before which none comes after it and from which on
/// all do, is inserting it in order.
proof fn lemma_insert_text_at(sorted: Seq<Seq<char>>, x: Seq<char>, k: int)
    requires
        0 <= k <= sorted.len(),
        k > 0 ==> !text_lt(x, sorted[k - 1]),
        forall|j: int| k <= j < sorted.len() ==> text_lt(x, sorted[j]),
    ensures
        insert_text(sorted, x) == sorted.insert(k, x),
    decreases sorted.len(),
{
    if k == sorted.len() {
        assert(insert_text(sorted, x) =~= sorted.insert(k, x));
    } else {
        assert(text_lt(x, sorted[sorted.len() - 1]));
        lemma_insert_text_at(sorted.drop_last(), x, k);
        assert(insert_text(sorted, x) =~= sorted.insert(k, x));
    }
}

/// Inserting in order keeps the order.
proof fn lemma_insert_text_ordered(sorted: Seq<Seq<char>>, x: Seq<char>)
    requires
        texts_ordered(sorted),
    ensures
        texts_ordered(insert_text(sorted, x)),
        insert_text(sorted, x).len() == sorted.len() + 1,
        forall|i: int|
            0 <= i < insert_text(sorted, x).len() ==> insert_text(sorted, x)[i] == x
                || sorted.contains(#[trigger] insert_text(sorted, x)[i]),
    decreases sorted.len(),
{
    let out = insert_text(sorted, x);
    if sorted.len() == 0 || !text_lt(x, sorted.last()) {
        assert forall|i: int, j: int| 0 <= i < j < out.len() implies !text_lt(out[j], out[i]) by {
            if j == sorted.len() {
                let last = sorted[sorted.len() - 1];
                if i < sorted.len() - 1 {
                    assert(!text_lt(last, sorted[i]));
                }
                if text_lt(x, sorted[i]) {
                    lemma_text_lt_total(last, sorted[i]);
                    if text_lt(sorted[i], last) {
                        lemma_text_lt_transitive(x, sorted[i], last);
                    }
                }
            } else {
                assert(!text_lt(sorted[j], sorted[i]));
            }
        }
        assert forall|i: int| 0 <= i < out.len() implies out[i] == x || sorted.contains(
            #[trigger] out[i],
        ) by {
            if i < sorted.len() {
                assert(sorted[i] == out[i]);
            }
        }
    } else {
        let init = sorted.drop_last();
        let last = sorted.last();
        assert(texts_ordered(init)) by {
            assert forall|i: int, j: int| 0 <= i < j < init.len() implies !text_lt(
                init[j],
                init[i],
            ) by {
                assert(!text_lt(sorted[j], sorted[i]));
            }
        }
        lemma_insert_text_ordered(init, x);
        let inner = insert_text(init, x);
        assert forall|i: int, j: int| 0 <= i < j < out.len() implies !text_lt(out[j], out[i]) by {
            if j < inner.len() {
                assert(!text_lt(inner[j], inner[i]));
            } else if inner[i] == x {
                if text_lt(last, x) {
                    lemma_text_lt_transitive(last, x, last);
                    lemma_text_lt_irreflexive(last);
                }
            } else {
                let k = choose|k: int| 0 <= k < init.len() && init[k] == inner[i];
                assert(!text_lt(sorted[sorted.len() - 1], sorted[k]));
            }
        }
        assert forall|i: int| 0 <= i < out.len() implies out[i] == x || sorted.contains(
            #[trigger] out[i],
        ) by {
            if i < inner.len() {
                if inner[i] != x {
                    let k = choose|k: int| 0 <= k < init.len() && init[k] == inner[i];
                    assert(sorted[k] == out[i]);
                }
            } else {
                assert(sorted[sorted.len() - 1] == out[i]);
            }
        }
    }
}

/// Sorting gives as many texts as there were, in order.
pub proof fn lemma_sorted_texts(items: Seq<Seq<char>>)
    ensures
        texts_ordered(sorted_texts(items)),
        sorted_texts(items).len() == items.len(),
    decreases items.len(),
{
    if items.len() > 0 {
        lemma_sorted_texts(items.drop_last());
        lemma_insert_text_ordered(sorted_texts(items.drop_last()), items.last());
    }
}

/// The texts in the order of `str`; equal texts keep their order.
pub fn sort_texts(items: Vec<String>) -> (r: Vec<String>)
    ensures
        texts(r@) == sorted_texts(texts(items@)),
        texts_ordered(texts(r@)),
        r@.len() == items@.len(),
{
    let ghost all = texts(items@);
    let mut out: Vec<String> = Vec::new();
    assert(texts(out@) =~= sorted_texts(all.take(0)));
    for item in it: items.into_iter()
        invariant
            all == texts(items@),
            it.seq() == items@,
            texts(out@) == sorted_texts(all.take(it.index() as int)),
    {
        proof {
            let i = it.index() as int;
            assert(all.take(i + 1).drop_last() =~= all.take(i));
            assert(all.take(i + 1).last() == item@);
        }
        let ghost sv = texts(out@);
        let mut k: usize = out.len();
        while k > 0 && text_less(item.as_str(), out[k - 1].as_str())
            invariant
                k <= out.len(),
                sv == texts(out@),
                forall|j: int| k <= j < sv.len() ==> text_lt(item@, sv[j]),
            decreases k,
        {
            k -= 1;
            assert(sv[k as int] == out@[k as int]@);
        }
        proof {
            if k > 0 {
                assert(sv[k - 1] == out@[k - 1]@);
            }
            lemma_insert_text_at(sv, item@, k as int);
        }
        out.insert(k, item);
        assert(texts(out@) =~= sv.insert(k as int, item@));
    }
    proof {
        assert(all.take(items@.len() as int) =~= all);
        lemma_sorted_texts(all);
    }
    out
}

} // verus!
