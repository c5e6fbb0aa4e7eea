//! The small part of Lua's notation that the reader writes its metadata in:
//! blanks and comments, words, numbers and strings.

use vstd::prelude::*;
use crate::text::{decimal_value, is_digit};

verus! {

/// Whether a character separates without meaning anything.
pub open spec fn is_blank(c: char) -> bool {
    c == ' ' || c == '\t' || c == '\n' || c == '\r'
}

/// Whether a character can stand in a name.
pub open spec fn is_word(c: char) -> bool {
    ('a' <= c <= 'z') || ('A' <= c <= 'Z') || ('0' <= c <= '9') || c == '_'
}

/// Whether a character can stand in a name or a number.
pub open spec fn is_token(c: char) -> bool {
    is_word(c) || c == '.' || c == '+' || c == '-'
}

/// Where the line that holds `pos` ends: at its line feed, or at the end of
/// the text.
pub open spec fn line_end(s: Seq<char>, pos: int) -> int
    decreases s.len() - pos,
{
    if pos < 0 || pos >= s.len() || s[pos] == '\n' {
        pos
    } else {
        line_end(s, pos + 1)
    }
}

/// Where the blanks and comments that begin at `pos` end. A comment runs
/// from `--` to the end of its line.
pub open spec fn blank_end(s: Seq<char>, pos: int) -> int
    decreases s.len() - pos,
{
    if pos < 0 || pos >= s.len() {
        pos
    } else if is_blank(s[pos]) {
        blank_end(s, pos + 1)
    } else if s[pos] == '-' && pos + 1 < s.len() && s[pos + 1] == '-' {
        let e = line_end(s, pos + 2);
        if pos < e <= s.len() {
            blank_end(s, e)
        } else {
            pos
        }
    } else {
        pos
    }
}

/// Where the run of name characters that begins at `pos` ends.
pub open spec fn word_end(s: Seq<char>, pos: int) -> int
    decreases s.len() - pos,
{
    if pos < 0 || pos >= s.len() || !is_word(s[pos]) {
        pos
    } else {
        word_end(s, pos + 1)
    }
}

/// Where the run of name and number characters that begins at `pos` ends.
pub open spec fn token_end(s: Seq<char>, pos: int) -> int
    decreases s.len() - pos,
{
    if pos < 0 || pos >= s.len() || !is_token(s[pos]) {
        pos
    } else {
        token_end(s, pos + 1)
    }
}

/// Where the run of digits that begins at `pos` ends.
pub open spec fn digits_end(s: Seq<char>, pos: int) -> int
    decreases s.len() - pos,
{
    if pos < 0 || pos >= s.len() || !is_digit(s[pos]) {
        pos
    } else {
        digits_end(s, pos + 1)
    }
}

/// The runs end within the text, at or after their beginning.
pub proof fn lemma_ends_within(s: Seq<char>, pos: int)
    requires
        0 <= pos <= s.len(),
    ensures
        pos <= line_end(s, pos) <= s.len(),
        pos <= blank_end(s, pos) <= s.len(),
        pos <= word_end(s, pos) <= s.len(),
        pos <= token_end(s, pos) <= s.len(),
        pos <= digits_end(s, pos) <= s.len(),
    decreases s.len() - pos,
{
    if pos < s.len() {
        lemma_ends_within(s, pos + 1);
        if s[pos] == '-' && pos + 1 < s.len() && s[pos + 1] == '-' {
            lemma_ends_within(s, pos + 2);
            let e = line_end(s, pos + 2);
            if pos < e <= s.len() {
                lemma_ends_within(s, e);
            }
        }
    }
}

/// Where the blanks and comments that begin at `pos` end.
pub fn skip_blank(v: &Vec<char>, pos: usize) -> (r: usize)
    requires
        pos <= v.len(),
    ensures
        r as int == blank_end(v@, pos as int),
        pos <= r <= v.len(),
{
    let mut i: usize = pos;
    loop
        invariant
            pos <= i <= v.len(),
            blank_end(v@, pos as int) == blank_end(v@, i as int),
        ensures
            pos <= i <= v.len(),
            i as int == blank_end(v@, pos as int),
        decreases v.len() - i,
    {
        if i >= v.len() {
            break ;
        }
        let c = v[i];
        if c == ' ' || c == '\t' || c == '\n' || c == '\r' {
            i += 1;
        } else if c == '-' && i + 1 < v.len() && v[i + 1] == '-' {
            let mut j: usize = i + 2;
            while j < v.len() && v[j] != '\n'
                invariant
                    i + 2 <= j <= v.len(),
                    line_end(v@, i + 2) == line_end(v@, j as int),
                decreases v.len() - j,
            {
                j += 1;
            }
            i = j;
        } else {
            break ;
        }
    }
    i
}

/// Whether a character can stand in a name.
pub fn word_char(c: char) -> (r: bool)
    ensures
        r == is_word(c),
{
    ('a' <= c && c <= 'z') || ('A' <= c && c <= 'Z') || ('0' <= c && c <= '9') || c == '_'
}

/// Whether a character can stand in a name or a number.
pub fn token_char(c: char) -> (r: bool)
    ensures
        r == is_token(c),
{
    word_char(c) || c == '.' || c == '+' || c == '-'
}

/// Where the run of name characters that begins at `pos` ends.
pub fn skip_word(v: &Vec<char>, pos: usize) -> (r: usize)
    requires
        pos <= v.len(),
    ensures
        r as int == word_end(v@, pos as int),
        pos <= r <= v.len(),
{
    let mut i: usize = pos;
    while i < v.len() && word_char(v[i])
        invariant
            pos <= i <= v.len(),
            word_end(v@, pos as int) == word_end(v@, i as int),
        decreases v.len() - i,
    {
        i += 1;
    }
    i
}

/// Where the run of name and number characters that begins at `pos` ends.
pub fn skip_token(v: &Vec<char>, pos: usize) -> (r: usize)
    requires
        pos <= v.len(),
    ensures
        r as int == token_end(v@, pos as int),
        pos <= r <= v.len(),
{
    let mut i: usize = pos;
    while i < v.len() && token_char(v[i])
        invariant
            pos <= i <= v.len(),
            token_end(v@, pos as int) == token_end(v@, i as int),
        decreases v.len() - i,
    {
        i += 1;
    }
    i
}

/// Where the run of digits that begins at `pos` ends.
pub fn skip_digits(v: &Vec<char>, pos: usize) -> (r: usize)
    requires
        pos <= v.len(),
    ensures
        r as int == digits_end(v@, pos as int),
        pos <= r <= v.len(),
        forall|j: int| pos <= j < r ==> is_digit(#[trigger] v@[j]),
{
    let mut i: usize = pos;
    while i < v.len() && '0' <= v[i] && v[i] <= '9'
        invariant
            pos <= i <= v.len(),
            digits_end(v@, pos as int) == digits_end(v@, i as int),
            forall|j: int| pos <= j < i ==> is_digit(#[trigger] v@[j]),
        decreases v.len() - i,
    {
        i += 1;
    }
    i
}

/// The character with the given code below 256.
pub open spec fn low_char(code: int) -> char {
    (code as u8) as char
}

/// What an escape stands for, and where the text goes on after it. `pos` is
/// the place behind the backslash.
pub open spec fn escape_at(s: Seq<char>, pos: int) -> Option<(char, int)> {
    if pos < 0 || pos >= s.len() {
        None
    } else {
        let c = s[pos];
        if c == 'n' || c == '\n' {
            Some(('\n', pos + 1))
        } else if c == 't' {
            Some(('\t', pos + 1))
        } else if c == 'r' {
            Some(('\r', pos + 1))
        } else if c == 'a' {
            Some((low_char(7), pos + 1))
        } else if c == 'b' {
            Some((low_char(8), pos + 1))
        } else if c == 'f' {
            Some((low_char(12), pos + 1))
        } else if c == 'v' {
            Some((low_char(11), pos + 1))
        } else if c == '\\' || c == '"' || c == '\'' {
            Some((c, pos + 1))
        } else if is_digit(c) {
            let d1 = c as int - 48;
            if pos + 1 < s.len() && is_digit(s[pos + 1]) {
                let d2 = s[pos + 1] as int - 48;
                if pos + 2 < s.len() && is_digit(s[pos + 2]) {
                    let d3 = s[pos + 2] as int - 48;
                    if d1 * 100 + d2 * 10 + d3 <= 255 {
                        Some((low_char(d1 * 100 + d2 * 10 + d3), pos + 3))
                    } else {
                        None
                    }
                } else {
                    Some((low_char(d1 * 10 + d2), pos + 2))
                }
            } else {
                Some((low_char(d1), pos + 1))
            }
        } else {
            None
        }
    }
}

/// What a string holds from `pos` up to its closing quote, added to what it
/// held before, and where the text goes on behind the quote.
pub open spec fn string_body(s: Seq<char>, pos: int, quote: char, held: Seq<char>) -> Option<
    (Seq<char>, int),
>
    decreases s.len() - pos,
{
    if pos < 0 || pos >= s.len() {
        None
    } else if s[pos] == quote {
        Some((held, pos + 1))
    } else if s[pos] == '\\' {
        match escape_at(s, pos + 1) {
            Some(e) => if pos < e.1 <= s.len() {
                string_body(s, e.1, quote, held.push(e.0))
            } else {
                None
            },
            None => None,
        }
    } else {
        string_body(s, pos + 1, quote, held.push(s[pos]))
    }
}

/// The value of a digit.
fn digit_of(c: char) -> (r: u8)
    requires
        is_digit(c),
    ensures
        r as int == c as int - 48,
        r <= 9,
{
    (c as u8) - 48u8
}

/// Whether a character is a digit.
fn digit_char(c: char) -> (r: bool)
    ensures
        r == is_digit(c),
{
    '0' <= c && c <= '9'
}

/// What an escape stands for.
pub fn read_escape(v: &Vec<char>, pos: usize) -> (r: Option<(char, usize)>)
    requires
        pos <= v.len(),
    ensures
        match r {
            Some(e) => escape_at(v@, pos as int) == Some((e.0, e.1 as int)) && pos < e.1
                <= v.len(),
            None => escape_at(v@, pos as int).is_none(),
        },
{
    if pos >= v.len() {
        return None;
    }
    let c = v[pos];
    if c == 'n' || c == '\n' {
        Some(('\n', pos + 1))
    } else if c == 't' {
        Some(('\t', pos + 1))
    } else if c == 'r' {
        Some(('\r', pos + 1))
    } else if c == 'a' {
        Some((7u8 as char, pos + 1))
    } else if c == 'b' {
        Some((8u8 as char, pos + 1))
    } else if c == 'f' {
        Some((12u8 as char, pos + 1))
    } else if c == 'v' {
        Some((11u8 as char, pos + 1))
    } else if c == '\\' || c == '"' || c == '\'' {
        Some((c, pos + 1))
    } else if digit_char(c) {
        let d1: u16 = digit_of(c) as u16;
        if pos + 1 < v.len() && digit_char(v[pos + 1]) {
            let d2: u16 = digit_of(v[pos + 1]) as u16;
            if pos + 2 < v.len() && digit_char(v[pos + 2]) {
                let d3: u16 = digit_of(v[pos + 2]) as u16;
                let code: u16 = d1 * 100 + d2 * 10 + d3;
                if code <= 255 {
                    Some(((code as u8) as char, pos + 3))
                } else {
                    None
                }
            } else {
                Some((((d1 * 10 + d2) as u8) as char, pos + 2))
            }
        } else {
            Some(((d1 as u8) as char, pos + 1))
        }
    } else {
        None
    }
}

/// What the string holds whose opening quote stands before `pos`.
pub fn read_string(v: &Vec<char>, pos: usize, quote: char) -> (r: Option<(Vec<char>, usize)>)
    requires
        pos <= v.len(),
    ensures
        match r {
            Some(t) => string_body(v@, pos as int, quote, Seq::empty()) == Some(
                (t.0@, t.1 as int),
            ) && pos < t.1 <= v.len(),
            None => string_body(v@, pos as int, quote, Seq::empty()).is_none(),
        },
{
    let mut held: Vec<char> = Vec::new();
    let mut i: usize = pos;
    loop
        invariant
            pos <= i <= v.len(),
            string_body(v@, pos as int, quote, Seq::empty()) == string_body(
                v@,
                i as int,
                quote,
                held@,
            ),
        decreases v.len() - i,
    {
        if i >= v.len() {
            return None;
        }
        let c = v[i];
        if c == quote {
            return Some((held, i + 1));
        } else if c == '\\' {
            match read_escape(v, i + 1) {
                Some(e) => {
                    held.push(e.0);
                    i = e.1;
                },
                None => {
                    return None;
                },
            }
        } else {
            held.push(c);
            i += 1;
        }
    }
}

/// A number: its sign, its whole part (no more than the greatest 64-bit
/// number), and its fraction in millionths, further digits cut off.
#[derive(Debug, Clone, Copy, PartialEq, Eq, Structural)]
pub struct LuaNumber {
    pub negative: bool,
    pub whole: u64,
    pub millionths: u32,
}

/// The number that a run of digits denotes, or the greatest 64-bit number
/// where it denotes more.
pub open spec fn capped_value(digits: Seq<char>) -> int {
    if decimal_value(digits) > u64::MAX {
        u64::MAX as int
    } else {
        decimal_value(digits) as int
    }
}

/// The digit at a position of a fraction; 0 behind its end.
pub open spec fn fraction_digit(fraction: Seq<char>, k: int) -> int {
    if 0 <= k < fraction.len() {
        fraction[k] as int - 48
    } else {
        0
    }
}

/// The first six digits of a fraction as millionths.
pub open spec fn fraction_millionths(fraction: Seq<char>) -> int {
    fraction_digit(fraction, 0) * 100000 + fraction_digit(fraction, 1) * 10000 + fraction_digit(
        fraction,
        2,
    ) * 1000 + fraction_digit(fraction, 3) * 100 + fraction_digit(fraction, 4) * 10
        + fraction_digit(fraction, 5)
}

/// The number that a word denotes: an optional `-`, digits, and optionally a
/// point with more digits. Any other word denotes no number.
pub open spec fn number_of(word: Seq<char>) -> Option<LuaNumber> {
    let negative = word.len() > 0 && word[0] == '-';
    let from: int = if negative {
        1
    } else {
        0
    };
    let whole_end = digits_end(word, from);
    if whole_end <= from {
        None
    } else if whole_end == word.len() {
        Some(
            LuaNumber {
                negative,
                whole: capped_value(word.subrange(from, whole_end)) as u64,
                millionths: 0,
            },
        )
    } else if word[whole_end] == '.' && digits_end(word, whole_end + 1) == word.len() {
        Some(
            LuaNumber {
                negative,
                whole: capped_value(word.subrange(from, whole_end)) as u64,
                millionths: fraction_millionths(
                    word.subrange(whole_end + 1, word.len() as int),
                ) as u32,
            },
        )
    } else {
        None
    }
}

/// The number that the digits `v[from..to]` denote, capped.
fn read_whole(v: &Vec<char>, from: usize, to: usize) -> (r: u64)
    requires
        from <= to <= v.len(),
        forall|j: int| from <= j < to ==> is_digit(#[trigger] v@[j]),
    ensures
        r as int == capped_value(v@.subrange(from as int, to as int)),
{
    let ghost s = v@.subrange(from as int, to as int);
    let mut value: u64 = 0;
    let mut i: usize = from;
    assert(s.take(0) =~= Seq::<char>::empty());
    while i < to
        invariant
            from <= i <= to <= v.len(),
            s == v@.subrange(from as int, to as int),
            forall|j: int| from <= j < to ==> is_digit(#[trigger] v@[j]),
            value as int == capped_value(s.take(i - from)),
        decreases to - i,
    {
        let d: u64 = digit_of(v[i]) as u64;
        proof {
            assert(s.take(i - from + 1).drop_last() =~= s.take(i - from));
            assert(s.take(i - from + 1).last() == v@[i as int]);
        }
        if value > (u64::MAX - d) / 10 {
            value = u64::MAX;
        } else {
            value = value * 10 + d;
        }
        i += 1;
    }
    assert(s.take(to - from) =~= s);
    value
}

/// The digit at a position of the fraction `v[from..to]`.
fn read_fraction_digit(v: &Vec<char>, from: usize, to: usize, k: usize) -> (r: u32)
    requires
        from <= to <= v.len(),
        k <= 5,
        forall|j: int| from <= j < to ==> is_digit(#[trigger] v@[j]),
    ensures
        r as int == fraction_digit(v@.subrange(from as int, to as int), k as int),
        r <= 9,
{
    if k < to - from {
        digit_of(v[from + k]) as u32
    } else {
        0
    }
}

/// The number that the word `v[from..to]` denotes.
pub fn read_number(v: &Vec<char>, from: usize, to: usize) -> (r: Option<LuaNumber>)
    requires
        from <= to <= v.len(),
    ensures
        r == number_of(v@.subrange(from as int, to as int)),
{
    let ghost word = v@.subrange(from as int, to as int);
    let negative = from < to && v[from] == '-';
    let start: usize = if negative {
        from + 1
    } else {
        from
    };
    // The digits are sought within the word, not behind it.
    let mut whole_end: usize = start;
    while whole_end < to && digit_char(v[whole_end])
        invariant
            start <= whole_end <= to <= v.len(),
            from <= start,
            word == v@.subrange(from as int, to as int),
            digits_end(word, start - from) == digits_end(word, whole_end - from),
            forall|j: int| start <= j < whole_end ==> is_digit(#[trigger] v@[j]),
        decreases to - whole_end,
    {
        assert(word[whole_end - from] == v@[whole_end as int]);
        whole_end += 1;
    }
    proof {
        if whole_end < to {
            assert(word[whole_end - from] == v@[whole_end as int]);
        }
        assert(word.subrange(start - from, whole_end - from) =~= v@.subrange(
            start as int,
            whole_end as int,
        ));
    }
    if whole_end == start {
        return None;
    }
    let whole = read_whole(v, start, whole_end);
    if whole_end == to {
        return Some(LuaNumber { negative, whole, millionths: 0 });
    }
    if v[whole_end] != '.' {
        return None;
    }
    let mut fraction_end: usize = whole_end + 1;
    while fraction_end < to && digit_char(v[fraction_end])
        invariant
            whole_end + 1 <= fraction_end <= to <= v.len(),
            from <= whole_end,
            word == v@.subrange(from as int, to as int),
            digits_end(word, whole_end + 1 - from) == digits_end(word, fraction_end - from),
            forall|j: int| whole_end + 1 <= j < fraction_end ==> is_digit(#[trigger] v@[j]),
        decreases to - fraction_end,
    {
        assert(word[fraction_end - from] == v@[fraction_end as int]);
        fraction_end += 1;
    }
    proof {
        if fraction_end < to {
            assert(word[fraction_end - from] == v@[fraction_end as int]);
        }
        assert(word.subrange(whole_end + 1 - from, word.len() as int) =~= v@.subrange(
            whole_end + 1,
            to as int,
        ));
    }
    if fraction_end != to {
        return None;
    }
    let f = whole_end + 1;
    let millionths: u32 = read_fraction_digit(v, f, to, 0) * 100000 + read_fraction_digit(
        v,
        f,
        to,
        1,
    ) * 10000 + read_fraction_digit(v, f, to, 2) * 1000 + read_fraction_digit(v, f, to, 3) * 100
        + read_fraction_digit(v, f, to, 4) * 10 + read_fraction_digit(v, f, to, 5);
    Some(LuaNumber { negative, whole, millionths })
}

/// What stands in the place of a value that is no table.
pub enum ScalarView {
    Text(Seq<char>),
    Number(LuaNumber),
    Truth(bool),
    /// `nil`, or a word that is understood no further.
    Other,
}

/// What a word stands for.
pub open spec fn word_value(word: Seq<char>) -> ScalarView {
    if word == "true"@ {
        ScalarView::Truth(true)
    } else if word == "false"@ {
        ScalarView::Truth(false)
    } else {
        match number_of(word) {
            Some(n) => ScalarView::Number(n),
            None => ScalarView::Other,
        }
    }
}

/// The value that is no table and begins at `pos`, and where the text goes
/// on behind it: a string in quotes, or a word.
pub open spec fn scalar_at(s: Seq<char>, pos: int) -> Option<(ScalarView, int)> {
    if pos < 0 || pos >= s.len() {
        None
    } else if s[pos] == '"' || s[pos] == '\'' {
        match string_body(s, pos + 1, s[pos], Seq::empty()) {
            Some(t) => Some((ScalarView::Text(t.0), t.1)),
            None => None,
        }
    } else if is_token(s[pos]) {
        Some((word_value(s.subrange(pos, token_end(s, pos))), token_end(s, pos)))
    } else {
        None
    }
}

/// What stands in the place of a value that is no table.
#[derive(Debug, Clone)]
pub enum Scalar {
    Text(String),
    Number(LuaNumber),
    Truth(bool),
    Other,
}

impl View for Scalar {
    type V = ScalarView;

    open spec fn view(&self) -> ScalarView {
        match *self {
            Scalar::Text(t) => ScalarView::Text(t@),
            Scalar::Number(n) => ScalarView::Number(n),
            Scalar::Truth(b) => ScalarView::Truth(b),
            Scalar::Other => ScalarView::Other,
        }
    }
}

/// Whether `v[from..to]` is the given word.
pub fn is_literal_word(v: &Vec<char>, from: usize, to: usize, word: &str) -> (r: bool)
    requires
        from <= to <= v.len(),
    ensures
        r == (v@.subrange(from as int, to as int) == word@),
{
    is_literal(v, from, to, word)
}

/// Whether `v[from..to]` is the given word.
fn is_literal(v: &Vec<char>, from: usize, to: usize, word: &str) -> (r: bool)
    requires
        from <= to <= v.len(),
    ensures
        r == (v@.subrange(from as int, to as int) == word@),
{
    let w = crate::text::chars_of(word);
    if w.len() != to - from {
        return false;
    }
    let mut i: usize = 0;
    while i < w.len()
        invariant
            i <= w.len(),
            from <= to <= v.len(),
            w.len() == to - from,
            w@ == word@,
            forall|j: int| 0 <= j < i ==> v@[from + j] == w@[j],
        decreases w.len() - i,
    {
        if v[from + i] != w[i] {
            assert(v@.subrange(from as int, to as int)[i as int] != w@[i as int]);
            return false;
        }
        i += 1;
    }
    assert(v@.subrange(from as int, to as int) =~= w@);
    true
}

/// The value that is no table and begins at `pos`.
pub fn read_scalar(v: &Vec<char>, pos: usize) -> (r: Option<(Scalar, usize)>)
    requires
        pos <= v.len(),
    ensures
        match r {
            Some(t) => scalar_at(v@, pos as int) == Some((t.0@, t.1 as int)) && pos < t.1
                <= v.len(),
            None => scalar_at(v@, pos as int).is_none(),
        },
{
    if pos >= v.len() {
        return None;
    }
    let c = v[pos];
    if c == '"' || c == '\'' {
        match read_string(v, pos + 1, c) {
            Some(t) => Some((Scalar::Text(crate::text::string_of(&t.0)), t.1)),
            None => None,
        }
    } else if token_char(c) {
        let end = skip_token(v, pos);
        assert(end > pos) by {
            assert(token_end(v@, pos as int) == token_end(v@, pos + 1));
            lemma_ends_within(v@, pos + 1);
        }
        let value = if is_literal(v, pos, end, "true") {
            Scalar::Truth(true)
        } else if is_literal(v, pos, end, "false") {
            Scalar::Truth(false)
        } else {
            match read_number(v, pos, end) {
                Some(n) => Scalar::Number(n),
                None => Scalar::Other,
            }
        };
        Some((value, end))
    } else {
        None
    }
}

} // verus!
