//! File-system paths as text.
//!
//! A path is held as a `String`. Splitting a path into components is left to
//! `std::path`, whose results are named here; what is derived from a file
//! name (its stem and its extension) is computed and proved in this module.

use vstd::prelude::*;
use crate::text::{chars_of, last_index_of, lemma_last_index_of, rfind_char, string_of_range, owned};

verus! {

/// What `Path::file_name` returns for a path: its final component, if it has
/// one, as `std::path` splits paths on the platform the crate is built for.
pub uninterp spec fn file_name_of(path: Seq<char>) -> Option<Seq<char>>;

/// What `Path::parent` returns for a path: the path without its final
/// component, if it has one.
pub uninterp spec fn parent_of(path: Seq<char>) -> Option<Seq<char>>;

/// What `Path::join` returns: `base` extended by `tail`.
pub uninterp spec fn joined(base: Seq<char>, tail: Seq<char>) -> Seq<char>;

/// The text of an optional string.
pub open spec fn text_of(o: Option<String>) -> Option<Seq<char>> {
    match o {
        Some(s) => Some(s@),
        None => None,
    }
}

/// Calls `Path::file_name`. The contract names the result; the path is
/// UTF-8, so its final component is too.
#[verifier::external_body]
pub(crate) fn file_name(path: &str) -> (r: Option<String>)
    ensures
        text_of(r) == file_name_of(path@),
{
    std::path::Path::new(path).file_name().and_then(|n| n.to_str()).map(|n| n.to_string())
}

/// Calls `Path::parent`. The contract names the result.
#[verifier::external_body]
pub(crate) fn parent(path: &str) -> (r: Option<String>)
    ensures
        text_of(r) == parent_of(path@),
{
    std::path::Path::new(path).parent().and_then(|p| p.to_str()).map(|p| p.to_string())
}

/// Calls `Path::join`. The contract names the result.
#[verifier::external_body]
pub(crate) fn join(base: &str, tail: &str) -> (r: String)
    ensures
        r@ == joined(base@, tail@),
{
    std::path::Path::new(base).join(tail).to_string_lossy().into_owned()
}

/// The position of the dot that separates stem and extension in a file name,
/// or `-1`: the last dot, unless it is the name's first character.
pub open spec fn split_dot(name: Seq<char>) -> int {
    let i = last_index_of(name, '.');
    if i <= 0 {
        -1
    } else {
        i
    }
}

/// The extension of a file name: what follows its last dot. A name without a
/// dot, or whose only dot comes first, has none.
pub open spec fn extension_of(name: Seq<char>) -> Option<Seq<char>> {
    let i = split_dot(name);
    if i < 0 {
        None
    } else {
        Some(name.subrange(i + 1, name.len() as int))
    }
}

/// The stem of a file name: what precedes its last dot, or the whole name
/// where it has no extension.
pub open spec fn stem_of(name: Seq<char>) -> Seq<char> {
    let i = split_dot(name);
    if i < 0 {
        name
    } else {
        name.subrange(0, i)
    }
}

/// The extension of a file name.
pub fn extension(name: &str) -> (r: Option<String>)
    ensures
        text_of(r) == extension_of(name@),
{
    let v = chars_of(name);
    proof {
        lemma_last_index_of(v@, '.');
    }
    match rfind_char(&v, '.') {
        Some(i) => {
            if i == 0 {
                None
            } else {
                Some(string_of_range(&v, i + 1, v.len()))
            }
        },
        None => None,
    }
}

/// The stem of a file name.
pub fn stem(name: &str) -> (r: String)
    ensures
        r@ == stem_of(name@),
{
    let v = chars_of(name);
    proof {
        lemma_last_index_of(v@, '.');
    }
    match rfind_char(&v, '.') {
        Some(i) => {
            if i == 0 {
                owned(name)
            } else {
                string_of_range(&v, 0, i)
            }
        },
        None => owned(name),
    }
}

/// A stem and an extension, joined by a dot, split again into the same two,
/// as long as the stem is not empty and the extension holds no dot.
pub proof fn lemma_stem_extension_roundtrip(stem: Seq<char>, ext: Seq<char>)
    requires
        stem.len() > 0,
        forall|i: int| 0 <= i < ext.len() ==> ext[i] != '.',
    ensures
        stem_of(stem + seq!['.'] + ext) == stem,
        extension_of(stem + seq!['.'] + ext) == Some(ext),
{
    let name = stem + seq!['.'] + ext;
    lemma_last_index_of(name, '.');
    assert(name[stem.len() as int] == '.');
    let i = last_index_of(name, '.');
    assert(i >= stem.len());
    if i > stem.len() {
        assert(name[i] == ext[i - stem.len() - 1]);
    }
    assert(name.subrange(0, i) =~= stem);
    assert(name.subrange(i + 1, name.len() as int) =~= ext);
}

} // verus!
