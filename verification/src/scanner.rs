//! Scanning a library: where the reader's metadata lies for each book, and
//! the steps by which one file becomes a library item.

use vstd::prelude::*;
use crate::config::SiteConfig;
use crate::index::{ContentHashSet, SidecarIndex, has_key, map_of, pair_views, repeated_keys};
use crate::koreader_metadata::KoReaderMetadata;
use crate::library_item::{BookInfo, CBR_SUPPORTED, LibraryItem, LibraryItemFormat, format_of_path, metadata_filename_of};
use crate::paths::{file_name, file_name_of, join, joined, parent, parent_of, stem, stem_of, text_of};
use crate::text::{owned, all_hex, ascii_lower, chars_of, concat2, ends_with, starts_with, strip_suffix, text_eq, texts, to_ascii_lower, without_suffix};
use crate::utils::{book_id_of, generate_book_id};

verus! {

/// Where the reader keeps the metadata of the books.
#[derive(Debug, Clone)]
pub enum MetadataLocation {
    /// In a `.sdr` folder next to each book.
    InBookFolder,
    /// In a tree of its own below the given root, one `.sdr` folder per book,
    /// found again by the book's file name.
    DocSettings(String),
    /// Below the given root, one `.sdr` folder per book, named by the book's
    /// content fingerprint.
    HashDocSettings(String),
}

impl Default for MetadataLocation {
    fn default() -> (r: Self)
        ensures
            r == MetadataLocation::InBookFolder,
    {
        MetadataLocation::InBookFolder
    }
}

impl MetadataLocation {
    /// A copy of the location.
    pub fn duplicate(&self) -> (r: Self)
        ensures
            r == *self,
    {
        match self {
            MetadataLocation::InBookFolder => MetadataLocation::InBookFolder,
            MetadataLocation::DocSettings(p) => MetadataLocation::DocSettings(p.clone()),
            MetadataLocation::HashDocSettings(p) => MetadataLocation::HashDocSettings(p.clone()),
        }
    }
}

/// A directory met on a walk below a metadata root.
#[derive(Debug, Clone)]
pub struct WalkedDir {
    /// The path of the directory.
    pub path: String,
    /// How many levels below the root it lies; the root itself is at 0.
    pub depth: usize,
    /// The names of its entries, in the order in which the file system lists
    /// them.
    pub files: Vec<String>,
}

/// A walked directory as plain data.
pub struct WalkedDirView {
    pub path: Seq<char>,
    pub depth: nat,
    pub files: Seq<Seq<char>>,
}

impl View for WalkedDir {
    type V = WalkedDirView;

    open spec fn view(&self) -> WalkedDirView {
        WalkedDirView { path: self.path@, depth: self.depth as nat, files: texts(self.files@) }
    }
}

/// The walked directories as plain data.
pub open spec fn dir_views(s: Seq<WalkedDir>) -> Seq<WalkedDirView> {
    s.map_values(|d: WalkedDir| d@)
}

/// The deepest level at which fingerprint-named folders are looked for.
pub const HASH_WALK_DEPTH: usize = 3;

/// What a `.sdr` folder is named after: its name without that ending.
pub open spec fn sidecar_stem(path: Seq<char>) -> Option<Seq<char>> {
    match file_name_of(path) {
        Some(name) => without_suffix(name, ".sdr"@),
        None => None,
    }
}

/// What a folder of the given name and entries registers in a file-name
/// index: a folder `<stem>.sdr` with EPUB metadata registers `<stem>.epub`,
/// one with FB2 metadata (and no EPUB metadata) `<stem>.fb2`, each with the
/// name of that metadata file.
pub open spec fn docsettings_registration(folder_name: Seq<char>, files: Seq<Seq<char>>) -> Option<
    (Seq<char>, Seq<char>),
> {
    match without_suffix(folder_name, ".sdr"@) {
        Some(stem) => if files.contains("metadata.epub.lua"@) {
            Some((stem + ".epub"@, "metadata.epub.lua"@))
        } else if files.contains("metadata.fb2.lua"@) {
            Some((stem + ".fb2"@, "metadata.fb2.lua"@))
        } else {
            None
        },
        None => None,
    }
}

/// What a walked folder registers in a file-name index: what its name and
/// entries register, with the path of the metadata file.
pub open spec fn docsettings_entry(dir: WalkedDirView) -> Option<(Seq<char>, Seq<char>)> {
    match file_name_of(dir.path) {
        Some(name) => match docsettings_registration(name, dir.files) {
            Some(r) => Some((r.0, joined(dir.path, r.1))),
            None => None,
        },
        None => None,
    }
}

/// Whether a name is that of some metadata file: `metadata.` ... `.lua`.
pub open spec fn is_metadata_name(name: Seq<char>) -> bool {
    "metadata."@.is_prefix_of(name) && ".lua"@.is_suffix_of(name)
}

/// The position of the first metadata file among the names, or `-1`.
pub open spec fn first_metadata(files: Seq<Seq<char>>) -> int
    decreases files.len(),
{
    if files.len() == 0 {
        -1
    } else {
        let before = first_metadata(files.drop_last());
        if before >= 0 {
            before
        } else if is_metadata_name(files.last()) {
            files.len() - 1
        } else {
            -1
        }
    }
}

/// Whether a folder's name stands for a fingerprint: exactly 32 hexadecimal
/// digits.
pub open spec fn is_fingerprint_name(stem: Seq<char>) -> bool {
    stem.len() == 32 && all_hex(stem)
}

/// What a folder of the given name, depth and entries registers in a
/// fingerprint index: a folder `<fingerprint>.sdr` at most three levels below
/// the root registers the fingerprint in lowercase, with the name of its EPUB
/// metadata file where it has one, else with that of the first metadata file
/// that the file system lists.
pub open spec fn hashdocsettings_registration(
    folder_name: Seq<char>,
    depth: nat,
    files: Seq<Seq<char>>,
) -> Option<(Seq<char>, Seq<char>)> {
    match without_suffix(folder_name, ".sdr"@) {
        Some(stem) => if depth > 3 || !is_fingerprint_name(stem) {
            None
        } else if files.contains("metadata.epub.lua"@) {
            Some((ascii_lower(stem), "metadata.epub.lua"@))
        } else {
            let i = first_metadata(files);
            if 0 <= i < files.len() {
                Some((ascii_lower(stem), files[i]))
            } else {
                None
            }
        },
        None => None,
    }
}

/// What a walked folder registers in a fingerprint index: what its name,
/// depth and entries register, with the path of the metadata file.
pub open spec fn hashdocsettings_entry(dir: WalkedDirView) -> Option<(Seq<char>, Seq<char>)> {
    match file_name_of(dir.path) {
        Some(name) => match hashdocsettings_registration(name, dir.depth, dir.files) {
            Some(r) => Some((r.0, joined(dir.path, r.1))),
            None => None,
        },
        None => None,
    }
}

/// What the folders register in a file-name index, in the order of the walk.
pub open spec fn docsettings_entries(dirs: Seq<WalkedDirView>) -> Seq<(Seq<char>, Seq<char>)>
    decreases dirs.len(),
{
    if dirs.len() == 0 {
        Seq::empty()
    } else {
        let rest = docsettings_entries(dirs.drop_last());
        match docsettings_entry(dirs.last()) {
            Some(e) => rest.push(e),
            None => rest,
        }
    }
}

/// What the folders register in a fingerprint index, in the order of the walk.
pub open spec fn hashdocsettings_entries(dirs: Seq<WalkedDirView>) -> Seq<(Seq<char>, Seq<char>)>
    decreases dirs.len(),
{
    if dirs.len() == 0 {
        Seq::empty()
    } else {
        let rest = hashdocsettings_entries(dirs.drop_last());
        match hashdocsettings_entry(dirs.last()) {
            Some(e) => rest.push(e),
            None => rest,
        }
    }
}

/// An index could not be built: some keys were registered more than once.
#[derive(Debug, Clone)]
pub struct IndexBuildFailure {
    /// The keys registered again, once for each repeated registration.
    pub duplicates: Vec<String>,
}

/// Whether `name` is among `files`.
fn contains_name(files: &Vec<String>, name: &str) -> (r: bool)
    ensures
        r == texts(files@).contains(name@),
{
    let mut i: usize = 0;
    while i < files.len()
        invariant
            i <= files.len(),
            forall|j: int| 0 <= j < i ==> texts(files@)[j] != name@,
        decreases files.len() - i,
    {
        if text_eq(files[i].as_str(), name) {
            assert(texts(files@)[i as int] == name@);
            return true;
        }
        i += 1;
    }
    false
}

/// The position of the first metadata file among the names.
fn find_metadata(files: &Vec<String>) -> (r: Option<usize>)
    ensures
        match r {
            Some(i) => i as int == first_metadata(texts(files@)) && i < files.len(),
            None => first_metadata(texts(files@)) == -1,
        },
{
    let ghost names = texts(files@);
    let mut found: Option<usize> = None;
    let mut i: usize = 0;
    while i < files.len()
        invariant
            i <= files.len(),
            names == texts(files@),
            found matches Some(k) ==> k < i,
            match found {
                Some(k) => k as int == first_metadata(names.take(i as int)),
                None => first_metadata(names.take(i as int)) == -1,
            },
        decreases files.len() - i,
    {
        proof {
            assert(names.take(i + 1).drop_last() =~= names.take(i as int));
            assert(names.take(i + 1).last() == files@[i as int]@);
        }
        if found.is_none() && starts_with(files[i].as_str(), "metadata.") && ends_with(
            files[i].as_str(),
            ".lua",
        ) {
            found = Some(i);
        }
        i += 1;
    }
    assert(names.take(files.len() as int) =~= names);
    found
}

/// What a folder of the given name and entries registers in a file-name
/// index: its key and the name of its metadata file.
pub fn docsettings_registration_of(folder_name: &str, files: &Vec<String>) -> (r: Option<
    (String, String),
>)
    ensures
        match r {
            Some(e) => Some((e.0@, e.1@)) == docsettings_registration(folder_name@, texts(files@)),
            None => docsettings_registration(folder_name@, texts(files@)).is_none(),
        },
{
    match strip_suffix(folder_name, ".sdr") {
        Some(stem) => {
            if contains_name(files, "metadata.epub.lua") {
                Some((concat2(stem.as_str(), ".epub"), owned("metadata.epub.lua")))
            } else if contains_name(files, "metadata.fb2.lua") {
                Some((concat2(stem.as_str(), ".fb2"), owned("metadata.fb2.lua")))
            } else {
                None
            }
        },
        None => None,
    }
}

/// What a walked folder registers in a file-name index.
pub fn docsettings_entry_of(dir: &WalkedDir) -> (r: Option<(String, String)>)
    ensures
        match r {
            Some(e) => Some((e.0@, e.1@)) == docsettings_entry(dir@),
            None => docsettings_entry(dir@).is_none(),
        },
{
    match file_name(dir.path.as_str()) {
        Some(name) => match docsettings_registration_of(name.as_str(), &dir.files) {
            Some(e) => Some((e.0, join(dir.path.as_str(), e.1.as_str()))),
            None => None,
        },
        None => None,
    }
}

/// Whether a text is 32 hexadecimal digits.
pub fn is_fingerprint(stem: &str) -> (r: bool)
    ensures
        r == is_fingerprint_name(stem@),
{
    let v = chars_of(stem);
    if v.len() != 32 {
        return false;
    }
    let mut i: usize = 0;
    while i < v.len()
        invariant
            i <= v.len(),
            v@ == stem@,
            v@.len() == 32,
            forall|j: int| 0 <= j < i ==> crate::text::is_hex_digit(#[trigger] v@[j]),
        decreases v.len() - i,
    {
        let c = v[i];
        if !(('0' <= c && c <= '9') || ('a' <= c && c <= 'f') || ('A' <= c && c <= 'F')) {
            assert(!crate::text::is_hex_digit(stem@[i as int]));
            return false;
        }
        i += 1;
    }
    true
}

/// What a folder of the given name, depth and entries registers in a
/// fingerprint index: its key and the name of its metadata file.
pub fn hashdocsettings_registration_of(folder_name: &str, depth: usize, files: &Vec<String>) -> (r:
    Option<(String, String)>)
    ensures
        match r {
            Some(e) => Some((e.0@, e.1@)) == hashdocsettings_registration(
                folder_name@,
                depth as nat,
                texts(files@),
            ),
            None => hashdocsettings_registration(folder_name@, depth as nat, texts(files@)).is_none(),
        },
{
    match strip_suffix(folder_name, ".sdr") {
        Some(stem) => {
            if depth > HASH_WALK_DEPTH || !is_fingerprint(stem.as_str()) {
                None
            } else if contains_name(files, "metadata.epub.lua") {
                Some((to_ascii_lower(stem.as_str()), owned("metadata.epub.lua")))
            } else {
                match find_metadata(files) {
                    Some(i) => {
                        assert(texts(files@)[i as int] == files@[i as int]@);
                        Some((to_ascii_lower(stem.as_str()), files[i].clone()))
                    },
                    None => None,
                }
            }
        },
        None => None,
    }
}

/// What a walked folder registers in a fingerprint index.
pub fn hashdocsettings_entry_of(dir: &WalkedDir) -> (r: Option<(String, String)>)
    ensures
        match r {
            Some(e) => Some((e.0@, e.1@)) == hashdocsettings_entry(dir@),
            None => hashdocsettings_entry(dir@).is_none(),
        },
{
    match file_name(dir.path.as_str()) {
        Some(name) => match hashdocsettings_registration_of(
            name.as_str(),
            dir.depth,
            &dir.files,
        ) {
            Some(e) => Some((e.0, join(dir.path.as_str(), e.1.as_str()))),
            None => None,
        },
        None => None,
    }
}

/// Builds the file-name index from the folders met on a walk below the
/// metadata root. A key that two folders register makes the index ambiguous:
/// the build then fails and names every such key.
pub fn build_docsettings_index(dirs: &Vec<WalkedDir>) -> (r: Result<SidecarIndex, IndexBuildFailure>)
    ensures
        match r {
            Ok(index) => repeated_keys(docsettings_entries(dir_views(dirs@))).len() == 0
                && pair_views(index.entries@) == docsettings_entries(dir_views(dirs@)),
            Err(failure) => failure.duplicates@.len() > 0 && texts(failure.duplicates@)
                == repeated_keys(docsettings_entries(dir_views(dirs@))),
        },
{
    let ghost dv = dir_views(dirs@);
    let mut index = SidecarIndex::new();
    let mut duplicates: Vec<String> = Vec::new();
    let mut i: usize = 0;
    assert(pair_views(index.entries@) =~= docsettings_entries(dv.take(0)));
    assert(texts(duplicates@) =~= repeated_keys(docsettings_entries(dv.take(0))));
    while i < dirs.len()
        invariant
            i <= dirs.len(),
            dv == dir_views(dirs@),
            pair_views(index.entries@) == docsettings_entries(dv.take(i as int)),
            texts(duplicates@) == repeated_keys(docsettings_entries(dv.take(i as int))),
        decreases dirs.len() - i,
    {
        proof {
            assert(dv.take(i + 1).drop_last() =~= dv.take(i as int));
            assert(dv.take(i + 1).last() == dirs@[i as int]@);
        }
        match docsettings_entry_of(&dirs[i]) {
            Some(e) => {
                let ghost before = pair_views(index.entries@);
                proof {
                    crate::index::lemma_map_of_keys(before, e.0@);
                    assert(before.push((e.0@, e.1@)).drop_last() =~= before);
                }
                if index.contains_key(e.0.as_str()) {
                    let ghost dups = texts(duplicates@);
                    let key = e.0.clone();
                    duplicates.push(key);
                    assert(texts(duplicates@) =~= dups.push(e.0@));
                }
                index.insert(e.0, e.1);
            },
            None => {},
        }
        i += 1;
    }
    assert(dv.take(dirs.len() as int) =~= dv);
    if duplicates.len() > 0 {
        Err(IndexBuildFailure { duplicates })
    } else {
        Ok(index)
    }
}

/// Builds the fingerprint index from the folders met on a walk below the
/// metadata root. A fingerprint that two folders register keeps the later
/// folder.
pub fn build_hashdocsettings_index(dirs: &Vec<WalkedDir>) -> (r: SidecarIndex)
    ensures
        pair_views(r.entries@) == hashdocsettings_entries(dir_views(dirs@)),
        r@ == map_of(hashdocsettings_entries(dir_views(dirs@))),
{
    let ghost dv = dir_views(dirs@);
    let mut index = SidecarIndex::new();
    let mut i: usize = 0;
    assert(pair_views(index.entries@) =~= hashdocsettings_entries(dv.take(0)));
    while i < dirs.len()
        invariant
            i <= dirs.len(),
            dv == dir_views(dirs@),
            pair_views(index.entries@) == hashdocsettings_entries(dv.take(i as int)),
        decreases dirs.len() - i,
    {
        proof {
            assert(dv.take(i + 1).drop_last() =~= dv.take(i as int));
            assert(dv.take(i + 1).last() == dirs@[i as int]@);
        }
        match hashdocsettings_entry_of(&dirs[i]) {
            Some(e) => {
                index.insert(e.0, e.1);
            },
            None => {},
        }
        i += 1;
    }
    assert(dv.take(dirs.len() as int) =~= dv);
    index
}

/// A folder's registration is among those of the walk.
proof fn lemma_entry_registered(dirs: Seq<WalkedDirView>, i: int)
    requires
        0 <= i < dirs.len(),
        docsettings_entry(dirs[i]).is_some(),
    ensures
        has_key(docsettings_entries(dirs), docsettings_entry(dirs[i]).unwrap().0),
    decreases dirs.len(),
{
    let init = dirs.drop_last();
    let all = docsettings_entries(dirs);
    if i < dirs.len() - 1 {
        lemma_entry_registered(init, i);
        let key = docsettings_entry(dirs[i]).unwrap().0;
        let j = choose|j: int|
            0 <= j < docsettings_entries(init).len() && (#[trigger] docsettings_entries(
                init,
            )[j]).0 == key;
        assert(all[j].0 == key);
    } else {
        assert(all[all.len() - 1].0 == docsettings_entry(dirs[i]).unwrap().0);
    }
}

/// An ambiguous file-name index cannot be built: where two folders of the
/// walk register the same key, some key is registered twice, so that
/// `build_docsettings_index` fails.
pub proof fn lemma_ambiguous_index_fails(dirs: Seq<WalkedDirView>, i: int, j: int)
    requires
        0 <= i < j < dirs.len(),
        docsettings_entry(dirs[i]).is_some(),
        docsettings_entry(dirs[j]).is_some(),
        docsettings_entry(dirs[i]).unwrap().0 == docsettings_entry(dirs[j]).unwrap().0,
    ensures
        repeated_keys(docsettings_entries(dirs)).len() > 0,
    decreases dirs.len(),
{
    let init = dirs.drop_last();
    if j < dirs.len() - 1 {
        lemma_ambiguous_index_fails(init, i, j);
        match docsettings_entry(dirs.last()) {
            Some(e) => {
                assert(docsettings_entries(init).push(e).drop_last() =~= docsettings_entries(init));
            },
            None => {},
        }
    } else {
        lemma_entry_registered(init, i);
        let e = docsettings_entry(dirs.last()).unwrap();
        assert(docsettings_entries(init).push(e).drop_last() =~= docsettings_entries(init));
    }
}

/// Whether a text is 32 hexadecimal digits with no capital among them.
pub open spec fn is_lower_fingerprint(key: Seq<char>) -> bool {
    key.len() == 32 && forall|i: int|
        0 <= i < key.len() ==> ('0' <= #[trigger] key[i] <= '9' || 'a' <= key[i] <= 'f')
}

/// Only fingerprint-named folders enter a fingerprint index, and each under
/// its fingerprint in lowercase: a folder whose name without `.sdr` is not 32
/// hexadecimal digits registers nothing.
pub proof fn lemma_fingerprint_folders_only(dir: WalkedDirView)
    ensures
        match hashdocsettings_entry(dir) {
            Some(e) => sidecar_stem(dir.path).is_some() && is_fingerprint_name(
                sidecar_stem(dir.path).unwrap(),
            ) && e.0 == ascii_lower(sidecar_stem(dir.path).unwrap()) && is_lower_fingerprint(e.0)
                && dir.depth <= 3,
            None => true,
        },
        sidecar_stem(dir.path).is_some() && !is_fingerprint_name(sidecar_stem(dir.path).unwrap())
            ==> hashdocsettings_entry(dir).is_none(),
{
    match hashdocsettings_entry(dir) {
        Some(e) => {
            let stem = sidecar_stem(dir.path).unwrap();
            assert forall|i: int| 0 <= i < e.0.len() implies ('0' <= #[trigger] e.0[i] <= '9'
                || 'a' <= e.0[i] <= 'f') by {
                assert(crate::text::is_hex_digit(stem[i]));
            }
        },
        None => {},
    }
}

/// A fingerprint-named folder with a metadata file is found again under its
/// fingerprint in lowercase.
pub proof fn lemma_fingerprint_folder_indexed(dirs: Seq<WalkedDirView>, i: int)
    requires
        0 <= i < dirs.len(),
        hashdocsettings_entry(dirs[i]).is_some(),
    ensures
        map_of(hashdocsettings_entries(dirs)).contains_key(
            hashdocsettings_entry(dirs[i]).unwrap().0,
        ),
    decreases dirs.len(),
{
    let init = dirs.drop_last();
    let all = hashdocsettings_entries(dirs);
    let key = hashdocsettings_entry(dirs[i]).unwrap().0;
    crate::index::lemma_map_of_keys(all, key);
    if i < dirs.len() - 1 {
        lemma_fingerprint_folder_indexed(init, i);
        crate::index::lemma_map_of_keys(hashdocsettings_entries(init), key);
        let j = choose|j: int|
            0 <= j < hashdocsettings_entries(init).len() && (#[trigger] hashdocsettings_entries(
                init,
            )[j]).0 == key;
        assert(all[j].0 == key);
    } else {
        assert(all[all.len() - 1].0 == key);
    }
}

/// Every key of a fingerprint index is a fingerprint in lowercase.
pub proof fn lemma_fingerprint_index_keys(dirs: Seq<WalkedDirView>, key: Seq<char>)
    requires
        map_of(hashdocsettings_entries(dirs)).contains_key(key),
    ensures
        is_lower_fingerprint(key),
    decreases dirs.len(),
{
    let all = hashdocsettings_entries(dirs);
    crate::index::lemma_map_of_keys(all, key);
    if dirs.len() > 0 {
        let init = dirs.drop_last();
        crate::index::lemma_map_of_keys(hashdocsettings_entries(init), key);
        let j = choose|j: int| 0 <= j < all.len() && (#[trigger] all[j]).0 == key;
        if j < hashdocsettings_entries(init).len() {
            assert(hashdocsettings_entries(init)[j].0 == key);
            lemma_fingerprint_index_keys(init, key);
        } else {
            lemma_fingerprint_folders_only(dirs.last());
        }
    }
}

/// What a table holds for a key.
pub open spec fn lookup(table: Map<Seq<char>, Seq<char>>, key: Seq<char>) -> Option<Seq<char>> {
    if table.contains_key(key) {
        Some(table[key])
    } else {
        None
    }
}

/// Where the metadata of a book lies when it is kept next to the book: in
/// the folder `<stem>.sdr` beside it, in the metadata file of its format.
pub open spec fn sidecar_candidate_of(path: Seq<char>, format: LibraryItemFormat) -> Option<
    Seq<char>,
> {
    match (file_name_of(path), parent_of(path)) {
        (Some(name), Some(dir)) => Some(
            joined(joined(dir, stem_of(name) + ".sdr"@), metadata_filename_of(format)),
        ),
        _ => None,
    }
}

/// Where the metadata of a book lies when it is kept next to the book.
pub fn sidecar_candidate(path: &str, format: LibraryItemFormat) -> (r: Option<String>)
    ensures
        text_of(r) == sidecar_candidate_of(path@, format),
{
    match (file_name(path), parent(path)) {
        (Some(name), Some(dir)) => {
            let folder = concat2(stem(name.as_str()).as_str(), ".sdr");
            let sdr = join(dir.as_str(), folder.as_str());
            Some(join(sdr.as_str(), format.metadata_filename()))
        },
        _ => None,
    }
}

/// The fingerprint that the reader recorded in a book's metadata.
pub open spec fn recorded_hash(metadata: Option<KoReaderMetadata>) -> Option<Seq<char>> {
    match metadata {
        Some(m) => text_of(m.partial_md5_checksum),
        None => None,
    }
}

/// The fingerprint of an item: the one recorded in its metadata, else the
/// one computed while locating the metadata, else the one computed from the
/// file.
pub open spec fn resolved_hash(
    metadata: Option<KoReaderMetadata>,
    book_md5: Option<Seq<char>>,
    file_md5: Option<Seq<char>>,
) -> Option<Seq<char>> {
    if recorded_hash(metadata).is_some() {
        recorded_hash(metadata)
    } else if book_md5.is_some() {
        book_md5
    } else {
        file_md5
    }
}

/// The items and fingerprints that a scan has gathered so far.
#[derive(Debug, Clone)]
pub struct LibraryScan {
    pub items: Vec<LibraryItem>,
    pub hashes: ContentHashSet,
}

impl LibraryScan {
    /// A scan that has found nothing yet.
    pub fn new() -> (r: Self)
        ensures
            r.items@.len() == 0,
            r.hashes@ == Set::<Seq<char>>::empty(),
            r.hashes.wf(),
    {
        LibraryScan { items: Vec::new(), hashes: ContentHashSet::new() }
    }
}

/// A file whose container has been read, on its way to becoming an item.
#[derive(Debug, Clone)]
pub struct PendingItem {
    pub path: String,
    pub format: LibraryItemFormat,
    pub info: BookInfo,
}

/// A pending item as plain data.
pub struct PendingView {
    pub path: Seq<char>,
    pub format: LibraryItemFormat,
    pub info: BookInfo,
}

impl View for PendingItem {
    type V = PendingView;

    open spec fn view(&self) -> PendingView {
        PendingView { path: self.path@, format: self.format, info: self.info }
    }
}

/// Where the scan of one file stands. Every stage but `Done` asks the caller
/// for one piece of outside work and awaits its result.
#[derive(Debug, Clone)]
pub enum FileScan {
    /// Read the book's container at `path`.
    ParseBook { path: String, format: LibraryItemFormat },
    /// Tell whether a file exists at `candidate`.
    CheckSidecar { item: PendingItem, candidate: String },
    /// Fingerprint the book, to find its metadata by it.
    FingerprintForSidecar { item: PendingItem },
    /// Read the metadata file at `sidecar`.
    ParseSidecar { item: PendingItem, sidecar: String, book_md5: Option<String> },
    /// Fingerprint the book, which no metadata identifies.
    FingerprintForIdentity { item: PendingItem, metadata: Option<KoReaderMetadata> },
    /// Nothing is left to do for the file.
    Done,
}

/// A stage as plain data.
pub enum StageView {
    ParseBook { path: Seq<char>, format: LibraryItemFormat },
    CheckSidecar { item: PendingView, candidate: Seq<char> },
    FingerprintForSidecar { item: PendingView },
    ParseSidecar { item: PendingView, sidecar: Seq<char>, book_md5: Option<Seq<char>> },
    FingerprintForIdentity { item: PendingView, metadata: Option<KoReaderMetadata> },
    Done,
}

impl View for FileScan {
    type V = StageView;

    open spec fn view(&self) -> StageView {
        match *self {
            FileScan::ParseBook { path, format } => StageView::ParseBook { path: path@, format },
            FileScan::CheckSidecar { item, candidate } => StageView::CheckSidecar {
                item: item@,
                candidate: candidate@,
            },
            FileScan::FingerprintForSidecar { item } => StageView::FingerprintForSidecar {
                item: item@,
            },
            FileScan::ParseSidecar { item, sidecar, book_md5 } => StageView::ParseSidecar {
                item: item@,
                sidecar: sidecar@,
                book_md5: text_of(book_md5),
            },
            FileScan::FingerprintForIdentity { item, metadata } => {
                StageView::FingerprintForIdentity { item: item@, metadata }
            },
            FileScan::Done => StageView::Done,
        }
    }
}

/// The result of a piece of outside work.
#[derive(Debug, Clone)]
pub enum ScanEvent {
    /// The container was read, or could not be.
    BookParsed(Option<BookInfo>),
    /// Whether the candidate file exists.
    SidecarChecked(bool),
    /// The book's fingerprint, or `None` where the file could not be read.
    Fingerprinted(Option<String>),
    /// The metadata file was read, or could not be.
    SidecarParsed(Option<KoReaderMetadata>),
}

/// An event as plain data.
pub enum EventView {
    BookParsed(Option<BookInfo>),
    SidecarChecked(bool),
    Fingerprinted(Option<Seq<char>>),
    SidecarParsed(Option<KoReaderMetadata>),
}

impl View for ScanEvent {
    type V = EventView;

    open spec fn view(&self) -> EventView {
        match *self {
            ScanEvent::BookParsed(b) => EventView::BookParsed(b),
            ScanEvent::SidecarChecked(e) => EventView::SidecarChecked(e),
            ScanEvent::Fingerprinted(f) => EventView::Fingerprinted(text_of(f)),
            ScanEvent::SidecarParsed(m) => EventView::SidecarParsed(m),
        }
    }
}

/// What a step of a file's scan leads to.
pub enum Outcome {
    /// More outside work is needed.
    Continue(StageView),
    /// The file becomes an item, with the fingerprint that identifies it, if
    /// any.
    Emit { item: PendingView, metadata: Option<KoReaderMetadata>, hash: Option<Seq<char>> },
    /// The file yields no item.
    Drop,
}

/// Settles the identity of an item whose metadata is known: the recorded
/// fingerprint, else the one computed on the way, else one yet to compute.
pub open spec fn settle(
    item: PendingView,
    metadata: Option<KoReaderMetadata>,
    book_md5: Option<Seq<char>>,
) -> Outcome {
    if recorded_hash(metadata).is_some() {
        Outcome::Emit { item, metadata, hash: recorded_hash(metadata) }
    } else if book_md5.is_some() {
        Outcome::Emit { item, metadata, hash: book_md5 }
    } else {
        Outcome::Continue(StageView::FingerprintForIdentity { item, metadata })
    }
}

/// Whether a library item is the one that a pending item and its metadata
/// make.
pub open spec fn is_item_of(
    li: LibraryItem,
    item: PendingView,
    metadata: Option<KoReaderMetadata>,
) -> bool {
    &&& li.id@ == book_id_of(item.info.title@)
    &&& li.book_info == item.info
    &&& li.koreader_metadata == metadata
    &&& li.file_path@ == item.path
    &&& li.format == item.format
}

/// Scans a library under one metadata location.
#[derive(Debug, Clone)]
pub struct Scanner {
    pub config: SiteConfig,
    pub metadata_location: MetadataLocation,
    pub docsettings_index: Option<SidecarIndex>,
    pub hashdocsettings_index: Option<SidecarIndex>,
}

impl Scanner {
    /// The file-name index; empty where none was built.
    pub open spec fn doc_table(&self) -> Map<Seq<char>, Seq<char>> {
        match self.docsettings_index {
            Some(ix) => ix@,
            None => Map::empty(),
        }
    }

    /// The fingerprint index; empty where none was built.
    pub open spec fn hash_table(&self) -> Map<Seq<char>, Seq<char>> {
        match self.hashdocsettings_index {
            Some(ix) => ix@,
            None => Map::empty(),
        }
    }

    /// The metadata path registered for a book's file name.
    pub open spec fn doc_lookup(&self, path: Seq<char>) -> Option<Seq<char>> {
        match file_name_of(path) {
            Some(name) => lookup(self.doc_table(), name),
            None => None,
        }
    }

    /// The metadata path registered for a fingerprint, compared in lowercase.
    pub open spec fn hash_lookup(&self, fingerprint: Seq<char>) -> Option<Seq<char>> {
        lookup(self.hash_table(), ascii_lower(fingerprint))
    }

    /// The metadata path of a book and the fingerprint computed to find it.
    /// `sidecar_exists` says whether a file exists at the book's candidate
    /// path and is read only where metadata lies next to the books;
    /// `fingerprint` is the book's and is read only where metadata is found
    /// by fingerprint.
    pub open spec fn located(
        &self,
        path: Seq<char>,
        format: LibraryItemFormat,
        sidecar_exists: bool,
        fingerprint: Option<Seq<char>>,
    ) -> (Option<Seq<char>>, Option<Seq<char>>) {
        match self.metadata_location {
            MetadataLocation::InBookFolder => (
                if sidecar_exists {
                    sidecar_candidate_of(path, format)
                } else {
                    None
                },
                None,
            ),
            MetadataLocation::DocSettings(_) => (self.doc_lookup(path), None),
            MetadataLocation::HashDocSettings(_) => match fingerprint {
                Some(h) => (self.hash_lookup(h), Some(h)),
                None => (None, None),
            },
        }
    }

    /// What follows once a book's container has been read.
    pub open spec fn after_book(&self, item: PendingView) -> Outcome {
        match self.metadata_location {
            MetadataLocation::InBookFolder => match sidecar_candidate_of(item.path, item.format) {
                Some(candidate) => Outcome::Continue(StageView::CheckSidecar { item, candidate }),
                None => settle(item, None, None),
            },
            MetadataLocation::DocSettings(_) => match self.doc_lookup(item.path) {
                Some(sidecar) => Outcome::Continue(
                    StageView::ParseSidecar { item, sidecar, book_md5: None },
                ),
                None => settle(item, None, None),
            },
            MetadataLocation::HashDocSettings(_) => Outcome::Continue(
                StageView::FingerprintForSidecar { item },
            ),
        }
    }

    /// What a stage leads to when an event arrives. An event that the stage
    /// does not await ends the file's scan without an item.
    pub open spec fn outcome(&self, stage: StageView, event: EventView) -> Outcome {
        match (stage, event) {
            (StageView::ParseBook { path, format }, EventView::BookParsed(Some(info))) => {
                self.after_book(PendingView { path, format, info })
            },
            (StageView::CheckSidecar { item, candidate }, EventView::SidecarChecked(exists)) => {
                if exists {
                    Outcome::Continue(
                        StageView::ParseSidecar { item, sidecar: candidate, book_md5: None },
                    )
                } else {
                    settle(item, None, None)
                }
            },
            (StageView::FingerprintForSidecar { item }, EventView::Fingerprinted(fingerprint)) => {
                match fingerprint {
                    Some(h) => match self.hash_lookup(h) {
                        Some(sidecar) => Outcome::Continue(
                            StageView::ParseSidecar { item, sidecar, book_md5: Some(h) },
                        ),
                        None => settle(item, None, Some(h)),
                    },
                    None => settle(item, None, None),
                }
            },
            (
                StageView::ParseSidecar { item, sidecar, book_md5 },
                EventView::SidecarParsed(metadata),
            ) => settle(item, metadata, book_md5),
            (
                StageView::FingerprintForIdentity { item, metadata },
                EventView::Fingerprinted(fingerprint),
            ) => Outcome::Emit { item, metadata, hash: fingerprint },
            _ => Outcome::Drop,
        }
    }

    /// A scanner for the configured metadata location. `walked` holds the
    /// folders met on a walk below the location's root; it is not read where
    /// metadata lies next to the books. An ambiguous file-name index ends the
    /// scan before it begins.
    pub fn new(config: SiteConfig, walked: &Vec<WalkedDir>) -> (r: Result<Scanner, IndexBuildFailure>)
        ensures
            match config.metadata_location {
                MetadataLocation::InBookFolder => r.is_ok() && r.unwrap().docsettings_index.is_none()
                    && r.unwrap().hashdocsettings_index.is_none(),
                MetadataLocation::DocSettings(_) => match r {
                    Ok(s) => repeated_keys(docsettings_entries(dir_views(walked@))).len() == 0
                        && s.docsettings_index.is_some() && s.hashdocsettings_index.is_none()
                        && s.doc_table() == map_of(docsettings_entries(dir_views(walked@))),
                    Err(failure) => failure.duplicates@.len() > 0 && texts(failure.duplicates@)
                        == repeated_keys(docsettings_entries(dir_views(walked@))),
                },
                MetadataLocation::HashDocSettings(_) => r.is_ok()
                    && r.unwrap().docsettings_index.is_none()
                    && r.unwrap().hashdocsettings_index.is_some() && r.unwrap().hash_table()
                    == map_of(hashdocsettings_entries(dir_views(walked@))),
            },
            r matches Ok(s) ==> s.config == config && s.metadata_location
                == config.metadata_location,
    {
        let metadata_location = config.metadata_location.duplicate();
        match &metadata_location {
            MetadataLocation::InBookFolder => Ok(
                Scanner {
                    config,
                    metadata_location,
                    docsettings_index: None,
                    hashdocsettings_index: None,
                },
            ),
            MetadataLocation::DocSettings(_) => match build_docsettings_index(walked) {
                Ok(index) => Ok(
                    Scanner {
                        config,
                        metadata_location,
                        docsettings_index: Some(index),
                        hashdocsettings_index: None,
                    },
                ),
                Err(failure) => Err(failure),
            },
            MetadataLocation::HashDocSettings(_) => {
                let index = build_hashdocsettings_index(walked);
                Ok(
                    Scanner {
                        config,
                        metadata_location,
                        docsettings_index: None,
                        hashdocsettings_index: Some(index),
                    },
                )
            },
        }
    }

    /// The metadata path registered for a book's file name.
    fn find_by_name(&self, path: &str) -> (r: Option<String>)
        ensures
            text_of(r) == self.doc_lookup(path@),
    {
        match file_name(path) {
            Some(name) => match &self.docsettings_index {
                Some(ix) => ix.get(name.as_str()),
                None => None,
            },
            None => None,
        }
    }

    /// The metadata path registered for a fingerprint.
    fn find_by_fingerprint(&self, fingerprint: &str) -> (r: Option<String>)
        ensures
            text_of(r) == self.hash_lookup(fingerprint@),
    {
        let key = to_ascii_lower(fingerprint);
        match &self.hashdocsettings_index {
            Some(ix) => ix.get(key.as_str()),
            None => None,
        }
    }

    /// The metadata path of the book at `path`, and the fingerprint that was
    /// needed to find it.
    pub fn locate_metadata_path_and_md5(
        &self,
        path: &str,
        format: LibraryItemFormat,
        sidecar_exists: bool,
        fingerprint: &Option<String>,
    ) -> (r: (Option<String>, Option<String>))
        ensures
            (text_of(r.0), text_of(r.1)) == self.located(
                path@,
                format,
                sidecar_exists,
                text_of(*fingerprint),
            ),
    {
        match &self.metadata_location {
            MetadataLocation::InBookFolder => {
                if sidecar_exists {
                    (sidecar_candidate(path, format), None)
                } else {
                    (None, None)
                }
            },
            MetadataLocation::DocSettings(_) => (self.find_by_name(path), None),
            MetadataLocation::HashDocSettings(_) => match fingerprint {
                Some(h) => (self.find_by_fingerprint(h.as_str()), Some(h.clone())),
                None => (None, None),
            },
        }
    }

    /// Whether the file itself must be fingerprinted to identify an item.
    pub fn needs_file_fingerprint(
        koreader_metadata: &Option<KoReaderMetadata>,
        book_md5: &Option<String>,
    ) -> (r: bool)
        ensures
            r == (recorded_hash(*koreader_metadata).is_none() && book_md5.is_none()),
    {
        let recorded = match koreader_metadata {
            Some(m) => m.partial_md5_checksum.is_some(),
            None => false,
        };
        !recorded && book_md5.is_none()
    }

    /// Adds an item's fingerprint to those of the library: the one recorded
    /// in its metadata, else `book_md5`, else `file_md5`. Nothing is added
    /// where all three are missing.
    pub fn collect_md5_for_item(
        &self,
        library_md5s: &mut ContentHashSet,
        koreader_metadata: &Option<KoReaderMetadata>,
        book_md5: &Option<String>,
        file_md5: &Option<String>,
    )
        requires
            old(library_md5s).wf(),
        ensures
            final(library_md5s).wf(),
            final(library_md5s)@ == match resolved_hash(
                *koreader_metadata,
                text_of(*book_md5),
                text_of(*file_md5),
            ) {
                Some(h) => old(library_md5s)@.insert(h),
                None => old(library_md5s)@,
            },
    {
        if let Some(metadata) = koreader_metadata {
            if let Some(md5) = &metadata.partial_md5_checksum {
                library_md5s.insert(md5.clone());
                return ;
            }
        }
        if let Some(md5) = book_md5 {
            library_md5s.insert(md5.clone());
        } else if let Some(md5) = file_md5 {
            library_md5s.insert(md5.clone());
        }
    }

    /// Begins the scan of one file: a file that is no library item, or of a
    /// format that the library does not read, is done at once; any other has
    /// its container read first.
    pub fn begin(&self, path: String) -> (r: FileScan)
        ensures
            r@ == match format_of_path(path@, CBR_SUPPORTED) {
                Some(format) => StageView::ParseBook { path: path@, format },
                None => StageView::Done,
            },
    {
        match LibraryItemFormat::readable(path.as_str()) {
            Some(format) => FileScan::ParseBook { path, format },
            None => FileScan::Done,
        }
    }

    /// Emits an item and the fingerprint that identifies it.
    fn emit(
        out: &mut LibraryScan,
        item: PendingItem,
        metadata: Option<KoReaderMetadata>,
        hash: Option<String>,
    )
        requires
            old(out).hashes.wf(),
        ensures
            final(out).hashes.wf(),
            final(out).items@.len() == old(out).items@.len() + 1,
            final(out).items@.drop_last() == old(out).items@,
            is_item_of(final(out).items@.last(), item@, metadata),
            final(out).hashes@ == match text_of(hash) {
                Some(h) => old(out).hashes@.insert(h),
                None => old(out).hashes@,
            },
    {
        if let Some(h) = hash {
            out.hashes.insert(h);
        }
        let ghost before = out.items@;
        let li = LibraryItem {
            id: generate_book_id(item.info.title.as_str()),
            book_info: item.info,
            koreader_metadata: metadata,
            file_path: item.path,
            format: item.format,
        };
        out.items.push(li);
        assert(out.items@.drop_last() =~= before);
    }

    /// Settles the identity of an item whose metadata is known.
    fn settle_item(
        out: &mut LibraryScan,
        item: PendingItem,
        metadata: Option<KoReaderMetadata>,
        book_md5: Option<String>,
    ) -> (r: FileScan)
        requires
            old(out).hashes.wf(),
        ensures
            final(out).hashes.wf(),
            step_made(*old(out), *final(out), r@, settle(item@, metadata, text_of(book_md5))),
    {
        let recorded: Option<String> = match &metadata {
            Some(m) => match &m.partial_md5_checksum {
                Some(h) => Some(h.clone()),
                None => None,
            },
            None => None,
        };
        if recorded.is_some() {
            Scanner::emit(out, item, metadata, recorded);
            FileScan::Done
        } else if book_md5.is_some() {
            Scanner::emit(out, item, metadata, book_md5);
            FileScan::Done
        } else {
            FileScan::FingerprintForIdentity { item, metadata }
        }
    }

    /// Takes the result of the outside work that `stage` asked for and says
    /// what comes next. A finished file has its item and fingerprint added to
    /// `out`.
    pub fn advance(&self, stage: FileScan, event: ScanEvent, out: &mut LibraryScan) -> (r: FileScan)
        requires
            old(out).hashes.wf(),
        ensures
            final(out).hashes.wf(),
            step_made(*old(out), *final(out), r@, self.outcome(stage@, event@)),
    {
        match stage {
            FileScan::ParseBook { path, format } => match event {
                ScanEvent::BookParsed(Some(info)) => {
                    let item = PendingItem { path, format, info };
                    match &self.metadata_location {
                        MetadataLocation::InBookFolder => {
                            match sidecar_candidate(item.path.as_str(), item.format) {
                                Some(candidate) => FileScan::CheckSidecar { item, candidate },
                                None => Scanner::settle_item(out, item, None, None),
                            }
                        },
                        MetadataLocation::DocSettings(_) => {
                            match self.find_by_name(item.path.as_str()) {
                                Some(sidecar) => FileScan::ParseSidecar {
                                    item,
                                    sidecar,
                                    book_md5: None,
                                },
                                None => Scanner::settle_item(out, item, None, None),
                            }
                        },
                        MetadataLocation::HashDocSettings(_) => FileScan::FingerprintForSidecar {
                            item,
                        },
                    }
                },
                _ => FileScan::Done,
            },
            FileScan::CheckSidecar { item, candidate } => match event {
                ScanEvent::SidecarChecked(exists) => {
                    if exists {
                        FileScan::ParseSidecar { item, sidecar: candidate, book_md5: None }
                    } else {
                        Scanner::settle_item(out, item, None, None)
                    }
                },
                _ => FileScan::Done,
            },
            FileScan::FingerprintForSidecar { item } => match event {
                ScanEvent::Fingerprinted(Some(h)) => match self.find_by_fingerprint(h.as_str()) {
                    Some(sidecar) => FileScan::ParseSidecar { item, sidecar, book_md5: Some(h) },
                    None => Scanner::settle_item(out, item, None, Some(h)),
                },
                ScanEvent::Fingerprinted(None) => Scanner::settle_item(out, item, None, None),
                _ => FileScan::Done,
            },
            FileScan::ParseSidecar { item, sidecar, book_md5 } => match event {
                ScanEvent::SidecarParsed(metadata) => Scanner::settle_item(
                    out,
                    item,
                    metadata,
                    book_md5,
                ),
                _ => FileScan::Done,
            },
            FileScan::FingerprintForIdentity { item, metadata } => match event {
                ScanEvent::Fingerprinted(fingerprint) => {
                    Scanner::emit(out, item, metadata, fingerprint);
                    FileScan::Done
                },
                _ => FileScan::Done,
            },
            FileScan::Done => FileScan::Done,
        }
    }
}

/// Whether a step from `before` to `after` with the next stage `next` is the
/// one that `outcome` describes: a continuing or dropped file leaves what was
/// gathered as it is; an emitted one adds its item at the end of the items and
/// its fingerprint, if any, to the fingerprints.
pub open spec fn step_made(
    before: LibraryScan,
    after: LibraryScan,
    next: StageView,
    outcome: Outcome,
) -> bool {
    match outcome {
        Outcome::Continue(stage) => next == stage && after.items@ == before.items@
            && after.hashes@ == before.hashes@,
        Outcome::Drop => next == StageView::Done && after.items@ == before.items@ && after.hashes@
            == before.hashes@,
        Outcome::Emit { item, metadata, hash } => {
            &&& next == StageView::Done
            &&& after.items@.len() == before.items@.len() + 1
            &&& after.items@.drop_last() == before.items@
            &&& is_item_of(after.items@.last(), item, metadata)
            &&& after.hashes@ == match hash {
                Some(h) => before.hashes@.insert(h),
                None => before.hashes@,
            }
        },
    }
}

/// What the outside world answers about one file, recorded in advance: each
/// answer is read only where the scan of the file asks for it.
#[derive(Debug, Clone)]
pub struct RecordedFile {
    pub path: String,
    /// What reading the book's container gives.
    pub book: Option<BookInfo>,
    /// Whether a metadata file lies next to the book.
    pub sidecar_exists: bool,
    /// The book's fingerprint, or `None` where the file cannot be read.
    pub fingerprint: Option<String>,
    /// What reading the book's metadata file gives.
    pub sidecar: Option<KoReaderMetadata>,
}

/// The recorded answers as plain data.
pub struct RecordedView {
    pub path: Seq<char>,
    pub book: Option<BookInfo>,
    pub sidecar_exists: bool,
    pub fingerprint: Option<Seq<char>>,
    pub sidecar: Option<KoReaderMetadata>,
}

impl View for RecordedFile {
    type V = RecordedView;

    open spec fn view(&self) -> RecordedView {
        RecordedView {
            path: self.path@,
            book: self.book,
            sidecar_exists: self.sidecar_exists,
            fingerprint: text_of(self.fingerprint),
            sidecar: self.sidecar,
        }
    }
}

/// The recorded files as plain data.
pub open spec fn recorded_views(s: Seq<RecordedFile>) -> Seq<RecordedView> {
    s.map_values(|f: RecordedFile| f@)
}

/// How far the scan of a file has come.
pub open spec fn progress_of(stage: StageView) -> nat {
    match stage {
        StageView::ParseBook { .. } => 0,
        StageView::CheckSidecar { .. } => 1,
        StageView::FingerprintForSidecar { .. } => 1,
        StageView::ParseSidecar { .. } => 2,
        StageView::FingerprintForIdentity { .. } => 3,
        StageView::Done => 4,
    }
}

/// The recorded answer to what a stage asks.
pub open spec fn answer_of(stage: StageView, file: RecordedView) -> EventView {
    match stage {
        StageView::ParseBook { .. } => EventView::BookParsed(file.book),
        StageView::CheckSidecar { .. } => EventView::SidecarChecked(file.sidecar_exists),
        StageView::FingerprintForSidecar { .. } => EventView::Fingerprinted(file.fingerprint),
        StageView::ParseSidecar { .. } => EventView::SidecarParsed(file.sidecar),
        StageView::FingerprintForIdentity { .. } => EventView::Fingerprinted(file.fingerprint),
        StageView::Done => EventView::SidecarChecked(false),
    }
}

impl Scanner {
    /// Every step brings the scan of a file forward.
    pub proof fn lemma_steps_advance(&self, stage: StageView, event: EventView)
        ensures
            self.outcome(stage, event) matches Outcome::Continue(next) ==> progress_of(next)
                > progress_of(stage),
    {
    }

    /// What the scan of a file comes to from a stage on, with the recorded
    /// answers: the file becomes an item, or is dropped.
    pub open spec fn finish(&self, stage: StageView, file: RecordedView) -> Outcome
        decreases 4 - progress_of(stage),
    {
        match self.outcome(stage, answer_of(stage, file)) {
            Outcome::Continue(next) => if progress_of(next) > progress_of(stage) {
                self.finish(next, file)
            } else {
                Outcome::Drop
            },
            other => other,
        }
    }

    /// What the scan of a file comes to.
    pub open spec fn file_outcome(&self, file: RecordedView) -> Outcome {
        match format_of_path(file.path, CBR_SUPPORTED) {
            Some(format) => self.finish(StageView::ParseBook { path: file.path, format }, file),
            None => Outcome::Drop,
        }
    }

    /// The fingerprints that the scan of the files gathers.
    pub open spec fn scanned_hashes(&self, files: Seq<RecordedView>) -> Set<Seq<char>>
        decreases files.len(),
    {
        if files.len() == 0 {
            Set::empty()
        } else {
            let rest = self.scanned_hashes(files.drop_last());
            match self.file_outcome(files.last()) {
                Outcome::Emit { hash: Some(h), .. } => rest.insert(h),
                _ => rest,
            }
        }
    }

    /// Whether the items are those that the scan of the files yields: one
    /// for each file that becomes an item, in the order of the files.
    pub open spec fn items_match(&self, files: Seq<RecordedView>, items: Seq<LibraryItem>) -> bool
        decreases files.len(),
    {
        if files.len() == 0 {
            items.len() == 0
        } else {
            match self.file_outcome(files.last()) {
                Outcome::Emit { item, metadata, hash } => items.len() > 0 && is_item_of(
                    items.last(),
                    item,
                    metadata,
                ) && self.items_match(files.drop_last(), items.drop_last()),
                _ => self.items_match(files.drop_last(), items),
            }
        }
    }

    /// Scans one file with recorded answers.
    pub fn scan_file(&self, file: RecordedFile, out: &mut LibraryScan)
        requires
            old(out).hashes.wf(),
        ensures
            final(out).hashes.wf(),
            match self.file_outcome(file@) {
                Outcome::Emit { item, metadata, hash } => {
                    &&& final(out).items@.len() == old(out).items@.len() + 1
                    &&& final(out).items@.drop_last() == old(out).items@
                    &&& is_item_of(final(out).items@.last(), item, metadata)
                    &&& final(out).hashes@ == match hash {
                        Some(h) => old(out).hashes@.insert(h),
                        None => old(out).hashes@,
                    }
                },
                _ => final(out).items@ == old(out).items@ && final(out).hashes@ == old(
                    out,
                ).hashes@,
            },
    {
        let ghost fv = file@;
        let RecordedFile { path, book, sidecar_exists, fingerprint, sidecar } = file;
        let mut book = book;
        let mut sidecar = sidecar;
        let mut stage = self.begin(path);
        let mut steps: usize = 0;
        while steps < 4
            invariant
                steps <= 4,
                out.hashes.wf(),
                progress_of(stage@) >= steps,
                progress_of(stage@) == 0 ==> book == fv.book,
                progress_of(stage@) <= 2 ==> sidecar == fv.sidecar,
                text_of(fingerprint) == fv.fingerprint,
                sidecar_exists == fv.sidecar_exists,
                !(stage@ is Done) ==> out.items@ == old(out).items@ && out.hashes@ == old(
                    out,
                ).hashes@ && self.finish(stage@, fv) == self.file_outcome(fv),
                stage@ is Done ==> step_made(
                    *old(out),
                    *out,
                    StageView::Done,
                    self.file_outcome(fv),
                ),
            decreases 4 - steps,
        {
            let ghost before = stage@;
            let event = match &stage {
                FileScan::ParseBook { .. } => {
                    ScanEvent::BookParsed(book.take())
                },
                FileScan::CheckSidecar { .. } => ScanEvent::SidecarChecked(sidecar_exists),
                FileScan::FingerprintForSidecar { .. } => ScanEvent::Fingerprinted(
                    match &fingerprint {
                        Some(h) => Some(h.clone()),
                        None => None,
                    },
                ),
                FileScan::ParseSidecar { .. } => {
                    ScanEvent::SidecarParsed(sidecar.take())
                },
                FileScan::FingerprintForIdentity { .. } => ScanEvent::Fingerprinted(
                    match &fingerprint {
                        Some(h) => Some(h.clone()),
                        None => None,
                    },
                ),
                FileScan::Done => {
                    steps = 4;
                    continue ;
                },
            };
            proof {
                assert(event@ == answer_of(before, fv));
                self.lemma_steps_advance(before, event@);
            }
            stage = self.advance(stage, event, out);
            steps += 1;
        }
    }

    /// Scans the files with recorded answers, in order.
    pub fn scan(&self, files: Vec<RecordedFile>) -> (r: LibraryScan)
        ensures
            r.hashes.wf(),
            r.hashes@ == self.scanned_hashes(recorded_views(files@)),
            self.items_match(recorded_views(files@), r.items@),
    {
        let ghost fv = recorded_views(files@);
        let mut out = LibraryScan::new();
        for file in it: files.into_iter()
            invariant
                fv == recorded_views(files@),
                it.seq() == files@,
                out.hashes.wf(),
                out.hashes@ == self.scanned_hashes(fv.take(it.index() as int)),
                self.items_match(fv.take(it.index() as int), out.items@),
        {
            proof {
                let i = it.index() as int;
                assert(fv.take(i + 1).drop_last() =~= fv.take(i));
                assert(fv.take(i + 1).last() == file@);
            }
            self.scan_file(file, &mut out);
        }
        assert(fv.take(files@.len() as int) =~= fv);
        out
    }
}

/// Scans a library: builds the index that the metadata location calls for
/// from the folders walked below its root, then turns every file into an
/// item or drops it. An ambiguous file-name index fails the whole scan
/// before any file is looked at; nothing else does.
pub fn scan_library(
    files: Vec<RecordedFile>,
    config: SiteConfig,
    walked: &Vec<WalkedDir>,
) -> (r: Result<(Scanner, LibraryScan), IndexBuildFailure>)
    ensures
        match r {
            Ok(done) => {
                &&& done.0.config == config
                &&& done.0.metadata_location == config.metadata_location
                &&& done.1.hashes.wf()
                &&& done.1.hashes@ == done.0.scanned_hashes(recorded_views(files@))
                &&& done.0.items_match(recorded_views(files@), done.1.items@)
                &&& config.metadata_location is DocSettings ==> repeated_keys(
                    docsettings_entries(dir_views(walked@)),
                ).len() == 0 && done.0.doc_table() == map_of(
                    docsettings_entries(dir_views(walked@)),
                )
                &&& config.metadata_location is HashDocSettings ==> done.0.hash_table() == map_of(
                    hashdocsettings_entries(dir_views(walked@)),
                )
            },
            Err(failure) => {
                &&& config.metadata_location is DocSettings
                &&& failure.duplicates@.len() > 0
                &&& texts(failure.duplicates@) == repeated_keys(
                    docsettings_entries(dir_views(walked@)),
                )
            },
        },
{
    match Scanner::new(config, walked) {
        Ok(scanner) => {
            let scan = scanner.scan(files);
            Ok((scanner, scan))
        },
        Err(failure) => Err(failure),
    }
}

} // verus!
