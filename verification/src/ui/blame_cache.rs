//! In-memory blame cache keyed by file path and revision; paths are compared
//! by their components, as `Path`s compare.
use crate::git::blame::{BlameInfo, BlameLineView};
use crate::path::{components_of, path_component_texts};
use crate::ui::diff_file_header::same_str;
use vstd::prelude::*;

verus! {

/// A cache key: the components of the file path and the revision, as text.
pub type BlameKey = (Seq<Seq<char>>, Seq<char>);

/// The cache key of a path and a revision.
pub open spec fn blame_key(path: Seq<char>, rev: Seq<char>) -> BlameKey {
    (path_component_texts(path), rev)
}

/// The cached lines of every key; each key occurs once.
pub struct BlameCache {
    entries: Vec<(Vec<String>, String, Vec<BlameInfo>)>,
}

/// The per-line views of cached data.
pub open spec fn blame_views(data: Seq<BlameInfo>) -> Seq<BlameLineView> {
    data.map_values(|b: BlameInfo| b@)
}

/// The text of a list of strings.
pub open spec fn texts(v: Seq<String>) -> Seq<Seq<char>> {
    v.map_values(|c: String| c@)
}

/// An entry of the cache as plain values.
pub open spec fn entry_view(e: (Vec<String>, String, Vec<BlameInfo>)) -> (BlameKey, Seq<BlameLineView>) {
    ((texts(e.0@), e.1@), blame_views(e.2@))
}

/// What is cached for `key`, looking from entry `i` on.
pub open spec fn lookup_from(entries: Seq<(Vec<String>, String, Vec<BlameInfo>)>, key: BlameKey, i: int) -> Option<Seq<BlameLineView>>
    decreases entries.len() - i,
{
    if i < 0 || i >= entries.len() {
        None
    } else if entry_view(entries[i]).0 == key {
        Some(entry_view(entries[i]).1)
    } else {
        lookup_from(entries, key, i + 1)
    }
}

/// The contents of a list of entries, as a map.
pub open spec fn entries_map(entries: Seq<(Vec<String>, String, Vec<BlameInfo>)>) -> Map<BlameKey, Seq<BlameLineView>> {
    Map::new(|k: BlameKey| lookup_from(entries, k, 0) is Some, |k: BlameKey| lookup_from(entries, k, 0)->0)
}

fn same_texts(a: &Vec<String>, b: &Vec<String>) -> (r: bool)
    ensures
        r == (texts(a@) == texts(b@)),
{
    if a.len() != b.len() {
        return false;
    }
    let mut i: usize = 0;
    while i < a.len()
        invariant
            a@.len() == b@.len(),
            i <= a@.len(),
            forall|j: int| 0 <= j < i ==> a@[j]@ == b@[j]@,
        decreases a@.len() - i,
    {
        if !same_str(a[i].as_str(), b[i].as_str()) {
            assert(texts(a@)[i as int] != texts(b@)[i as int]);
            return false;
        }
        i = i + 1;
    }
    assert(texts(a@) =~= texts(b@));
    true
}

impl BlameCache {
    /// What the cache holds.
    pub closed spec fn contents(&self) -> Map<BlameKey, Seq<BlameLineView>> {
        entries_map(self.entries@)
    }

    /// An empty cache.
    pub fn new() -> (c: Self)
        ensures
            c.contents() == Map::<BlameKey, Seq<BlameLineView>>::empty(),
    {
        let c = BlameCache { entries: Vec::new() };
        assert(c.contents() =~= Map::<BlameKey, Seq<BlameLineView>>::empty());
        c
    }

    /// The lines cached for `path` at `rev`.
    pub fn get(&self, path: &str, rev: &str) -> (r: Option<&Vec<BlameInfo>>)
        ensures
            match r {
                Some(d) => self.contents().contains_key(blame_key(path@, rev@)) && self.contents()[blame_key(path@, rev@)]
                    == blame_views(d@),
                None => !self.contents().contains_key(blame_key(path@, rev@)),
            },
    {
        let comps = components_of(path);
        let ghost key = blame_key(path@, rev@);
        let mut i: usize = 0;
        while i < self.entries.len()
            invariant
                i <= self.entries@.len(),
                key == blame_key(path@, rev@),
                texts(comps@) == key.0,
                lookup_from(self.entries@, key, 0) == lookup_from(self.entries@, key, i as int),
            decreases self.entries@.len() - i,
        {
            if same_texts(&self.entries[i].0, &comps) && same_str(self.entries[i].1.as_str(), rev) {
                return Some(&self.entries[i].2);
            }
            i = i + 1;
        }
        None
    }

    /// Caches `data` for `path` at `rev`, replacing what was cached for it.
    pub fn insert(&mut self, path: String, rev: String, data: Vec<BlameInfo>)
        ensures
            final(self).contents() == old(self).contents().insert(blame_key(path@, rev@), blame_views(data@)),
    {
        let comps = components_of(path.as_str());
        let ghost key = blame_key(path@, rev@);
        let ghost old_entries = self.entries@;
        let ghost e = (comps, rev, data);
        assert(entry_view(e).0 == key);
        let mut i: usize = 0;
        while i < self.entries.len()
            invariant
                i <= self.entries@.len(),
                self.entries@ == old_entries,
                old_entries == old(self).entries@,
                key == blame_key(path@, rev@),
                e == (comps, rev, data),
                entry_view(e).0 == key,
                forall|j: int| 0 <= j < i ==> entry_view(#[trigger] old_entries[j]).0 != key,
            decreases self.entries@.len() - i,
        {
            if same_texts(&self.entries[i].0, &comps) && same_str(self.entries[i].1.as_str(), rev.as_str()) {
                assert(entry_view(old_entries[i as int]).0 == key);
                self.entries.set(i, (comps, rev, data));
                proof {
                    assert forall|k: BlameKey| #[trigger] lookup_from(self.entries@, k, 0) == (if k == key {
                        Some(entry_view(e).1)
                    } else {
                        lookup_from(old_entries, k, 0)
                    }) by {
                        lemma_lookup_set(old_entries, i as int, e, k, 0);
                    }
                    assert(self.contents() =~= old(self).contents().insert(key, blame_views(data@)));
                }
                return;
            }
            assert(entry_view(old_entries[i as int]).0 != key);
            i = i + 1;
        }
        self.entries.push((comps, rev, data));
        proof {
            assert forall|k: BlameKey| #[trigger] lookup_from(self.entries@, k, 0) == (if k == key {
                Some(entry_view(e).1)
            } else {
                lookup_from(old_entries, k, 0)
            }) by {
                lemma_lookup_push(old_entries, e, k, 0);
            }
            assert(self.contents() =~= old(self).contents().insert(key, blame_views(data@)));
        }
    }

    /// Forgets everything (for instance when HEAD moves).
    pub fn clear(&mut self)
        ensures
            final(self).contents() == Map::<BlameKey, Seq<BlameLineView>>::empty(),
    {
        self.entries = Vec::new();
        assert(self.contents() =~= Map::<BlameKey, Seq<BlameLineView>>::empty());
    }
}

/// One change made to a cache: an insert of lines for a key, or a clear.
pub enum CacheStep {
    Insert(BlameKey, Seq<BlameLineView>),
    Clear,
}

/// The contents of a cache after a series of changes, starting from `m`: what
/// `insert` and `clear` make of it, one after the other.
pub open spec fn replay(m: Map<BlameKey, Seq<BlameLineView>>, steps: Seq<CacheStep>) -> Map<BlameKey, Seq<BlameLineView>>
    decreases steps.len(),
{
    if steps.len() == 0 {
        m
    } else {
        match steps[0] {
            CacheStep::Insert(k, v) => replay(m.insert(k, v), steps.drop_first()),
            CacheStep::Clear => replay(Map::empty(), steps.drop_first()),
        }
    }
}

/// A read gives back the last write: once lines are cached for a key, the
/// cache holds them for that key through any series of changes that neither
/// inserts for that key again nor clears the cache.
pub proof fn lemma_read_after_write(
    m: Map<BlameKey, Seq<BlameLineView>>,
    key: BlameKey,
    lines: Seq<BlameLineView>,
    steps: Seq<CacheStep>,
)
    requires
        forall|i: int|
            0 <= i < steps.len() ==> match #[trigger] steps[i] {
                CacheStep::Insert(k, _) => k != key,
                CacheStep::Clear => false,
            },
    ensures
        replay(m.insert(key, lines), steps).contains_key(key),
        replay(m.insert(key, lines), steps)[key] == lines,
    decreases steps.len(),
{
    if steps.len() > 0 {
        let rest = steps.drop_first();
        assert forall|i: int| 0 <= i < rest.len() implies match #[trigger] rest[i] {
            CacheStep::Insert(k, _) => k != key,
            CacheStep::Clear => false,
        } by {
            assert(rest[i] == steps[i + 1]);
        }
        match steps[0] {
            CacheStep::Insert(k, v) => {
                assert(m.insert(key, lines).insert(k, v) =~= m.insert(k, v).insert(key, lines));
                lemma_read_after_write(m.insert(k, v), key, lines, rest);
            },
            CacheStep::Clear => {},
        }
    }
}

proof fn lemma_lookup_set(s: Seq<(Vec<String>, String, Vec<BlameInfo>)>, i: int, e: (Vec<String>, String, Vec<BlameInfo>), k: BlameKey, from: int)
    requires
        0 <= i < s.len(),
        0 <= from <= i,
        forall|j: int| 0 <= j < i ==> entry_view(#[trigger] s[j]).0 != entry_view(e).0,
        entry_view(s[i]).0 == entry_view(e).0,
    ensures
        lookup_from(s.update(i, e), k, from) == (if k == entry_view(e).0 {
            Some(entry_view(e).1)
        } else {
            lookup_from(s, k, from)
        }),
    decreases s.len() - from,
{
    let t = s.update(i, e);
    if from < i {
        lemma_lookup_set(s, i, e, k, from + 1);
        assert(t[from] == s[from]);
    } else {
        if k != entry_view(e).0 {
            lemma_lookup_same_after(s, t, k, from + 1);
        }
    }
}

proof fn lemma_lookup_same_after(s: Seq<(Vec<String>, String, Vec<BlameInfo>)>, t: Seq<(Vec<String>, String, Vec<BlameInfo>)>, k: BlameKey, from: int)
    requires
        s.len() == t.len(),
        0 <= from,
        forall|j: int| from <= j < s.len() ==> #[trigger] t[j] == s[j],
    ensures
        lookup_from(t, k, from) == lookup_from(s, k, from),
    decreases s.len() - from,
{
    if from < s.len() {
        lemma_lookup_same_after(s, t, k, from + 1);
    }
}

proof fn lemma_lookup_push(s: Seq<(Vec<String>, String, Vec<BlameInfo>)>, e: (Vec<String>, String, Vec<BlameInfo>), k: BlameKey, from: int)
    requires
        0 <= from <= s.len(),
        forall|j: int| from <= j < s.len() ==> entry_view(#[trigger] s[j]).0 != entry_view(e).0,
    ensures
        lookup_from(s.push(e), k, from) == (if k == entry_view(e).0 {
            Some(entry_view(e).1)
        } else {
            lookup_from(s, k, from)
        }),
    decreases s.len() - from,
{
    let t = s.push(e);
    if from < s.len() {
        lemma_lookup_push(s, e, k, from + 1);
        assert(t[from] == s[from]);
        assert(entry_view(s[from]).0 != entry_view(e).0);
    } else {
        assert(t[from] == e);
        assert(lookup_from(t, k, from + 1) is None);
        assert(lookup_from(s, k, from) is None);
    }
}

} // verus!
