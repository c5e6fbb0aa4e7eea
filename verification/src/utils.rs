//! Identifiers for library items, derived from their titles.

use vstd::prelude::*;
use crate::text::{alphanumeric, chars_of, is_alphanumeric, is_whitespace, lowercase_of, push_char, to_lowercase, whitespace};

verus! {

/// The part that a character plays in a title.
#[derive(Debug, Clone, Copy, PartialEq, Eq, Structural)]
pub enum CharKind {
    /// Part of a word: a letter or a number.
    Word,
    /// White space: it separates words.
    Space,
    /// Anything else: it is left out, and separates nothing.
    Other,
}

/// The kind of a character. White space separates even where it also counts
/// as a letter or number.
pub open spec fn kind_of(c: char) -> CharKind {
    if whitespace(c) {
        CharKind::Space
    } else if alphanumeric(c) {
        CharKind::Word
    } else {
        CharKind::Other
    }
}

/// The kinds of the characters of a text.
pub open spec fn kinds_of(s: Seq<char>) -> Seq<CharKind> {
    Seq::new(s.len(), |i: int| kind_of(s[i]))
}

/// Whether white space follows the last word character of the text.
pub open spec fn gap_pending(kinds: Seq<CharKind>) -> bool
    decreases kinds.len(),
{
    if kinds.len() == 0 {
        false
    } else {
        match kinds.last() {
            CharKind::Word => false,
            CharKind::Space => true,
            CharKind::Other => gap_pending(kinds.drop_last()),
        }
    }
}

/// The words of a title joined by hyphens: word characters are kept, white
/// space between two words becomes one hyphen, everything else is dropped.
pub open spec fn hyphenated(s: Seq<char>, kinds: Seq<CharKind>) -> Seq<char>
    decreases s.len(),
{
    if s.len() == 0 || kinds.len() != s.len() {
        Seq::empty()
    } else {
        let rest = hyphenated(s.drop_last(), kinds.drop_last());
        if kinds.last() != CharKind::Word {
            rest
        } else if rest.len() > 0 && gap_pending(kinds.drop_last()) {
            rest.push('-').push(s.last())
        } else {
            rest.push(s.last())
        }
    }
}

/// The identifier of the book with the given title.
pub open spec fn book_id_of(title: Seq<char>) -> Seq<char> {
    lowercase_of(hyphenated(title, kinds_of(title)))
}

/// The kind of a character.
pub fn char_kind(c: char) -> (r: CharKind)
    ensures
        r == kind_of(c),
{
    if is_whitespace(c) {
        CharKind::Space
    } else if is_alphanumeric(c) {
        CharKind::Word
    } else {
        CharKind::Other
    }
}

/// The words of a text joined by hyphens, from its characters and their
/// kinds. Nothing where there is not one kind for each character.
pub fn hyphenate(chars: &Vec<char>, kinds: &Vec<CharKind>) -> (r: String)
    ensures
        r@ == hyphenated(chars@, kinds@),
{
    let mut r = String::new();
    if kinds.len() != chars.len() {
        return r;
    }
    let mut pending: bool = false;
    let mut empty: bool = true;
    let mut i: usize = 0;
    while i < chars.len()
        invariant
            i <= chars.len(),
            kinds.len() == chars.len(),
            r@ == hyphenated(chars@.take(i as int), kinds@.take(i as int)),
            pending == gap_pending(kinds@.take(i as int)),
            empty == (r@.len() == 0),
        decreases chars.len() - i,
    {
        proof {
            assert(chars@.take(i + 1).drop_last() =~= chars@.take(i as int));
            assert(kinds@.take(i + 1).drop_last() =~= kinds@.take(i as int));
        }
        match kinds[i] {
            CharKind::Word => {
                if !empty && pending {
                    push_char(&mut r, '-');
                }
                push_char(&mut r, chars[i]);
                pending = false;
                empty = false;
            },
            CharKind::Space => {
                pending = true;
            },
            CharKind::Other => {},
        }
        i += 1;
    }
    assert(chars@.take(chars.len() as int) =~= chars@);
    assert(kinds@.take(chars.len() as int) =~= kinds@);
    r
}

/// The identifier of a library item, derived from its title alone: the
/// title's words in lowercase, joined by hyphens. Two titles may share one.
pub fn generate_book_id(title: &str) -> (r: String)
    ensures
        r@ == book_id_of(title@),
{
    let chars = chars_of(title);
    let mut kinds: Vec<CharKind> = Vec::new();
    let mut i: usize = 0;
    while i < chars.len()
        invariant
            i <= chars.len(),
            kinds@ == kinds_of(chars@).take(i as int),
        decreases chars.len() - i,
    {
        kinds.push(char_kind(chars[i]));
        i += 1;
        assert(kinds@ =~= kinds_of(chars@).take(i as int));
    }
    assert(kinds_of(chars@).take(chars.len() as int) =~= kinds_of(chars@));
    let joined = hyphenate(&chars, &kinds);
    to_lowercase(joined.as_str())
}

} // verus!
