//! Lookup tables from a key (a book's file name, or a content fingerprint)
//! to the path of a metadata sidecar, and the set of fingerprints of a scan.

use vstd::prelude::*;
use crate::paths::text_of;
use crate::text::{text_eq, texts};

verus! {

/// The texts of a sequence of pairs of strings.
pub open spec fn pair_views(s: Seq<(String, String)>) -> Seq<(Seq<char>, Seq<char>)> {
    s.map_values(|p: (String, String)| (p.0@, p.1@))
}

/// The table that results from registering the entries in order, a later
/// entry replacing an earlier one with the same key.
pub open spec fn map_of(entries: Seq<(Seq<char>, Seq<char>)>) -> Map<Seq<char>, Seq<char>>
    decreases entries.len(),
{
    if entries.len() == 0 {
        Map::empty()
    } else {
        map_of(entries.drop_last()).insert(entries.last().0, entries.last().1)
    }
}

/// Whether some entry has the key.
pub open spec fn has_key(entries: Seq<(Seq<char>, Seq<char>)>, key: Seq<char>) -> bool {
    exists|j: int| 0 <= j < entries.len() && (#[trigger] entries[j]).0 == key
}

/// The keys that are registered again after an earlier entry had them, once
/// for each such registration, in order.
pub open spec fn repeated_keys(entries: Seq<(Seq<char>, Seq<char>)>) -> Seq<Seq<char>>
    decreases entries.len(),
{
    if entries.len() == 0 {
        Seq::empty()
    } else {
        let rest = repeated_keys(entries.drop_last());
        if has_key(entries.drop_last(), entries.last().0) {
            rest.push(entries.last().0)
        } else {
            rest
        }
    }
}

/// The last entry with a key decides what the table holds for it.
pub proof fn lemma_map_of_last(entries: Seq<(Seq<char>, Seq<char>)>, key: Seq<char>, i: int)
    requires
        0 <= i < entries.len(),
        entries[i].0 == key,
        forall|j: int| i < j < entries.len() ==> (#[trigger] entries[j]).0 != key,
    ensures
        map_of(entries).contains_key(key),
        map_of(entries)[key] == entries[i].1,
    decreases entries.len(),
{
    if i < entries.len() - 1 {
        let init = entries.drop_last();
        assert(entries[entries.len() - 1].0 != key);
        assert forall|j: int| i < j < init.len() implies (#[trigger] init[j]).0 != key by {
            assert(init[j] == entries[j]);
        }
        lemma_map_of_last(init, key, i);
    }
}

/// The table holds exactly the keys of the entries.
pub proof fn lemma_map_of_keys(entries: Seq<(Seq<char>, Seq<char>)>, key: Seq<char>)
    ensures
        map_of(entries).contains_key(key) == has_key(entries, key),
    decreases entries.len(),
{
    if entries.len() > 0 {
        let init = entries.drop_last();
        lemma_map_of_keys(init, key);
        if has_key(init, key) {
            let j = choose|j: int| 0 <= j < init.len() && (#[trigger] init[j]).0 == key;
            assert(entries[j].0 == key);
        }
        if entries.last().0 == key {
            assert(entries[entries.len() - 1].0 == key);
        }
        if has_key(entries, key) {
            let j = choose|j: int| 0 <= j < entries.len() && (#[trigger] entries[j]).0 == key;
            if j < init.len() {
                assert(init[j].0 == key);
            }
        }
    }
}

/// No key is registered twice exactly where no two entries share a key.
pub proof fn lemma_repeated_keys(entries: Seq<(Seq<char>, Seq<char>)>)
    ensures
        (repeated_keys(entries).len() == 0) == (forall|i: int, j: int|
            0 <= i < j < entries.len() ==> (#[trigger] entries[i]).0 != (#[trigger] entries[j]).0),
    decreases entries.len(),
{
    if entries.len() > 0 {
        let init = entries.drop_last();
        let last = entries.last();
        lemma_repeated_keys(init);
        let unique = forall|i: int, j: int|
            0 <= i < j < entries.len() ==> (#[trigger] entries[i]).0 != (#[trigger] entries[j]).0;
        let unique_init = forall|i: int, j: int|
            0 <= i < j < init.len() ==> (#[trigger] init[i]).0 != (#[trigger] init[j]).0;
        if repeated_keys(entries).len() == 0 {
            assert(!has_key(init, last.0));
            assert(unique_init);
            assert forall|i: int, j: int| 0 <= i < j < entries.len() implies (
            #[trigger] entries[i]).0 != (#[trigger] entries[j]).0 by {
                if j < init.len() {
                    assert(init[i].0 != init[j].0);
                } else {
                    assert(init[i] == entries[i]);
                }
            }
        }
        if unique {
            assert forall|i: int, j: int| 0 <= i < j < init.len() implies (#[trigger] init[i]).0
                != (#[trigger] init[j]).0 by {
                assert(entries[i].0 != entries[j].0);
            }
            if has_key(init, last.0) {
                let j = choose|j: int| 0 <= j < init.len() && (#[trigger] init[j]).0 == last.0;
                assert(entries[j].0 != entries[entries.len() - 1].0);
            }
        }
    }
}

/// The position of the last entry with the key.
pub fn last_position(entries: &Vec<(String, String)>, key: &str) -> (r: Option<usize>)
    ensures
        match r {
            Some(i) => i < entries.len() && entries@[i as int].0@ == key@ && forall|j: int|
                i < j < entries.len() ==> (#[trigger] pair_views(entries@)[j]).0 != key@,
            None => !has_key(pair_views(entries@), key@),
        },
{
    let mut i: usize = entries.len();
    while i > 0
        invariant
            i <= entries.len(),
            forall|j: int| i <= j < entries.len() ==> (#[trigger] pair_views(entries@)[j]).0 != key@,
        decreases i,
    {
        i -= 1;
        if text_eq(entries[i].0.as_str(), key) {
            return Some(i);
        }
        assert(pair_views(entries@)[i as int].0 != key@);
    }
    None
}

/// A table from keys to sidecar paths.
#[derive(Debug, Clone)]
pub struct SidecarIndex {
    /// What was registered, in order. A later entry replaces an earlier one
    /// with the same key.
    pub entries: Vec<(String, String)>,
}

impl View for SidecarIndex {
    type V = Map<Seq<char>, Seq<char>>;

    open spec fn view(&self) -> Map<Seq<char>, Seq<char>> {
        map_of(pair_views(self.entries@))
    }
}

impl SidecarIndex {
    /// The empty table.
    pub fn new() -> (r: Self)
        ensures
            r@ == Map::<Seq<char>, Seq<char>>::empty(),
            r.entries@.len() == 0,
    {
        SidecarIndex { entries: Vec::new() }
    }

    /// Registers `path` under `key`, in place of what the key had.
    pub fn insert(&mut self, key: String, path: String)
        ensures
            final(self)@ == old(self)@.insert(key@, path@),
            pair_views(final(self).entries@) == pair_views(old(self).entries@).push((key@, path@)),
    {
        let ghost before = pair_views(self.entries@);
        self.entries.push((key, path));
        proof {
            assert(pair_views(self.entries@) =~= before.push((key@, path@)));
            assert(pair_views(self.entries@).drop_last() =~= before);
        }
    }

    /// Whether the key is registered.
    pub fn contains_key(&self, key: &str) -> (r: bool)
        ensures
            r == self@.contains_key(key@),
    {
        proof {
            lemma_map_of_keys(pair_views(self.entries@), key@);
        }
        match last_position(&self.entries, key) {
            Some(i) => {
                assert(pair_views(self.entries@)[i as int].0 == key@);
                true
            },
            None => false,
        }
    }

    /// The path registered under the key.
    pub fn get(&self, key: &str) -> (r: Option<String>)
        ensures
            text_of(r) == if self@.contains_key(key@) {
                Some(self@[key@])
            } else {
                None
            },
    {
        proof {
            lemma_map_of_keys(pair_views(self.entries@), key@);
        }
        match last_position(&self.entries, key) {
            Some(i) => {
                proof {
                    assert(pair_views(self.entries@)[i as int].0 == key@);
                    lemma_map_of_last(pair_views(self.entries@), key@, i as int);
                }
                Some(self.entries[i].1.clone())
            },
            None => None,
        }
    }

    /// The number of registrations made, replaced ones included.
    pub fn registrations(&self) -> (r: usize)
        ensures
            r == self.entries@.len(),
    {
        self.entries.len()
    }
}

/// The fingerprints of the items that a scan resolved. Nothing occurs twice.
#[derive(Debug, Clone)]
pub struct ContentHashSet {
    hashes: Vec<String>,
}

impl View for ContentHashSet {
    type V = Set<Seq<char>>;

    closed spec fn view(&self) -> Set<Seq<char>> {
        texts(self.hashes@).to_set()
    }
}

impl ContentHashSet {
    /// Nothing occurs twice.
    pub closed spec fn wf(&self) -> bool {
        texts(self.hashes@).no_duplicates()
    }

    /// The empty set.
    pub fn new() -> (r: Self)
        ensures
            r.wf(),
            r@ == Set::<Seq<char>>::empty(),
    {
        let r = ContentHashSet { hashes: Vec::new() };
        assert(texts(r.hashes@) =~= Seq::<Seq<char>>::empty());
        assert(r@ =~= Set::<Seq<char>>::empty());
        r
    }

    /// Whether the fingerprint is in the set.
    pub fn contains(&self, hash: &str) -> (r: bool)
        ensures
            r == self@.contains(hash@),
    {
        let mut i: usize = 0;
        while i < self.hashes.len()
            invariant
                i <= self.hashes.len(),
                forall|j: int| 0 <= j < i ==> texts(self.hashes@)[j] != hash@,
            decreases self.hashes.len() - i,
        {
            if text_eq(self.hashes[i].as_str(), hash) {
                assert(texts(self.hashes@)[i as int] == hash@);
                return true;
            }
            i += 1;
        }
        false
    }

    /// Adds the fingerprint to the set.
    pub fn insert(&mut self, hash: String)
        requires
            old(self).wf(),
        ensures
            final(self).wf(),
            final(self)@ == old(self)@.insert(hash@),
    {
        if !self.contains(hash.as_str()) {
            let ghost before = texts(self.hashes@);
            self.hashes.push(hash);
            proof {
                assert(texts(self.hashes@) =~= before.push(hash@));
                assert(texts(self.hashes@).to_set() =~= before.to_set().insert(hash@)) by {
                    assert forall|x: Seq<char>|
                        texts(self.hashes@).to_set().contains(x) == before.to_set().insert(
                            hash@,
                        ).contains(x) by {
                        if before.contains(x) {
                            let j = choose|j: int| 0 <= j < before.len() && before[j] == x;
                            assert(texts(self.hashes@)[j] == x);
                        }
                        if x == hash@ {
                            assert(texts(self.hashes@)[before.len() as int] == x);
                        }
                    }
                }
            }
        } else {
            assert(self@.insert(hash@) =~= self@);
        }
    }

    /// The number of fingerprints in the set.
    pub fn len(&self) -> (r: usize)
        requires
            self.wf(),
        ensures
            r == self@.len(),
    {
        proof {
            texts(self.hashes@).unique_seq_to_set();
        }
        self.hashes.len()
    }

    /// The fingerprints, each once, in the order in which they came.
    pub fn to_vec(&self) -> (r: Vec<String>)
        ensures
            texts(r@).to_set() == self@,
            self.wf() ==> texts(r@).no_duplicates(),
    {
        let mut r: Vec<String> = Vec::new();
        let mut i: usize = 0;
        while i < self.hashes.len()
            invariant
                i <= self.hashes.len(),
                texts(r@) == texts(self.hashes@).take(i as int),
            decreases self.hashes.len() - i,
        {
            let ghost before = texts(r@);
            let h = self.hashes[i].clone();
            r.push(h);
            i += 1;
            assert(texts(r@) =~= before.push(h@));
            assert(texts(r@) =~= texts(self.hashes@).take(i as int));
        }
        assert(texts(self.hashes@).take(self.hashes.len() as int) =~= texts(self.hashes@));
        r
    }
}

} // verus!
