//! The worktree side of a native operation: file images, the transitions
//! between recorded states, and the checks made before a transition is
//! applied.
use crate::git::error::GitError;
use crate::git::journal::{image_view, EntryView, Head, IndexImage};
use crate::git::sequencer::{check_transition_paths, head_view, opt_view, paths_overlap, same_head, Kind};
use crate::text::{
    chars_less, chars_lt, chars_of, count_char, count_chars, lemma_chars_lt_irreflexive_asym, lemma_chars_lt_total, lemma_chars_lt_trans, push_all,
};
use crate::ui::diff_file_header::same_str;
use vstd::prelude::*;

verus! {

/// The mode of a directory in a file image.
pub const DIRECTORY_MODE: u32 = 0o040000;

/// The mode of a symbolic link in a file image.
pub const SYMLINK_MODE: u32 = 0o120000;

/// The mode of an executable file.
pub const EXECUTABLE_MODE: u32 = 0o100755;

/// The mode of a regular file.
pub const REGULAR_MODE: u32 = 0o100644;

/// What a path of the worktree holds: the blob id of its contents and its
/// mode.
#[derive(Debug)]
pub struct FileImage {
    pub blob: String,
    pub mode: u32,
}

pub type FileImageView = (Seq<char>, u32);

pub open spec fn image_of(f: Option<FileImage>) -> Option<FileImageView> {
    match f {
        Some(i) => Some((i.blob@, i.mode)),
        None => None,
    }
}

/// A copy of a file image.
pub fn copy_image(f: &Option<FileImage>) -> (r: Option<FileImage>)
    ensures
        image_of(r) == image_of(*f),
{
    match f {
        Some(i) => Some(FileImage { blob: i.blob.clone(), mode: i.mode }),
        None => None,
    }
}

/// Whether two file images agree.
pub fn same_image(a: &Option<FileImage>, b: &Option<FileImage>) -> (r: bool)
    ensures
        r == (image_of(*a) == image_of(*b)),
{
    match (a, b) {
        (Some(x), Some(y)) => same_str(x.blob.as_str(), y.blob.as_str()) && x.mode == y.mode,
        (None, None) => true,
        _ => false,
    }
}

/// The mode recorded for what a path holds: a symbolic link, a directory,
/// or a regular file (executable or not); anything else cannot be recorded.
pub fn file_mode(is_symlink: bool, is_dir: bool, is_file: bool, executable: bool) -> (r: Result<u32, GitError>)
    ensures
        is_symlink ==> r == Ok::<u32, GitError>(SYMLINK_MODE),
        !is_symlink && is_dir ==> r == Ok::<u32, GitError>(DIRECTORY_MODE),
        !is_symlink && !is_dir && !is_file ==> (r matches Err(GitError::RecoveryRequired { reason })
            && reason@ == "a directory or special file occupies an operation path"@),
        !is_symlink && !is_dir && is_file ==> r == Ok::<u32, GitError>(if executable { EXECUTABLE_MODE } else { REGULAR_MODE }),
{
    if is_symlink {
        return Ok(SYMLINK_MODE);
    }
    if is_dir {
        return Ok(DIRECTORY_MODE);
    }
    if !is_file {
        return Err(GitError::RecoveryRequired { reason: String::from_str("a directory or special file occupies an operation path") });
    }
    Ok(if executable { EXECUTABLE_MODE } else { REGULAR_MODE })
}

/// How one path changes in a transition.
#[derive(Debug)]
pub struct FileChange {
    pub path: String,
    pub before: Option<FileImage>,
    pub after: Option<FileImage>,
}

pub open spec fn is_directory(f: Option<FileImageView>) -> bool {
    f matches Some(i) && i.1 == DIRECTORY_MODE
}

/// What a change expects of a path before it is applied: its image before
/// or after the change, or nothing where a directory is replaced.
pub open spec fn change_accepts(actual: Option<FileImageView>, change: FileChange) -> bool {
    ||| actual == image_of(change.before)
    ||| actual == image_of(change.after)
    ||| (actual is None && (is_directory(image_of(change.before)) || is_directory(image_of(change.after))))
}

fn is_directory_image(f: &Option<FileImage>) -> (r: bool)
    ensures
        r == is_directory(image_of(*f)),
{
    match f {
        Some(i) => i.mode == DIRECTORY_MODE,
        None => false,
    }
}

/// Checks what a path holds now against a change about to be applied.
/// The result says whether a directory there is being replaced by
/// something else, so that its contents must be checked too.
pub fn check_change(actual: &Option<FileImage>, change: &FileChange) -> (r: Result<bool, GitError>)
    ensures
        !change_accepts(image_of(*actual), *change) ==> (r matches Err(GitError::RecoveryRequired { reason })
            && reason@ == change.path@ + " changed outside the active operation"@),
        change_accepts(image_of(*actual), *change) ==> r == Ok::<bool, GitError>(
            is_directory(image_of(*actual)) && !is_directory(image_of(change.after)),
        ),
{
    let replacing_directory = is_directory_image(&change.before) || is_directory_image(&change.after);
    if !same_image(actual, &change.before) && !same_image(actual, &change.after) && !(actual.is_none() && replacing_directory) {
        let mut reason = change.path.clone();
        push_all(&mut reason, " changed outside the active operation");
        return Err(GitError::RecoveryRequired { reason });
    }
    Ok(is_directory_image(actual) && !is_directory_image(&change.after))
}

/// Where a transition may start from: HEAD and the index must be at its
/// before or after state.
pub fn check_transition_start(
    current_head: &Head,
    before_head: &Head,
    after_head: &Head,
    index_at_before: bool,
    index_at_after: bool,
) -> (r: Result<(), GitError>)
    ensures
        (head_view(*current_head) != head_view(*before_head) && head_view(*current_head) != head_view(*after_head)) ==> (r matches Err(
            GitError::RecoveryRequired { reason },
        ) && reason@ == "HEAD changed outside the active operation"@),
        !(head_view(*current_head) != head_view(*before_head) && head_view(*current_head) != head_view(*after_head)) && !index_at_before
            && !index_at_after ==> (r matches Err(GitError::RecoveryRequired { reason })
            && reason@ == "the index changed outside the active operation"@),
        !(head_view(*current_head) != head_view(*before_head) && head_view(*current_head) != head_view(*after_head)) && (index_at_before
            || index_at_after) ==> r is Ok,
{
    if !same_head(current_head, before_head) && !same_head(current_head, after_head) {
        return Err(GitError::RecoveryRequired { reason: String::from_str("HEAD changed outside the active operation") });
    }
    if !index_at_before && !index_at_after {
        return Err(GitError::RecoveryRequired { reason: String::from_str("the index changed outside the active operation") });
    }
    Ok(())
}

/// The order key of a change when a transition is applied: removals
/// first, deepest first; then directories, shallowest first; then files,
/// shallowest first.
pub open spec fn install_key(change: FileChange) -> (int, int) {
    let depth = count_char(change.path@, '/') as int;
    match change.after {
        None => (0, usize::MAX - depth),
        Some(i) => if i.mode == DIRECTORY_MODE {
            (1, depth)
        } else {
            (2, depth)
        },
    }
}

pub open spec fn key_lt(a: (int, int), b: (int, int)) -> bool {
    a.0 < b.0 || (a.0 == b.0 && a.1 < b.1)
}

/// The first position of `order` whose change sorts after key `k`.
pub open spec fn first_after(order: Seq<usize>, keys: Seq<(int, int)>, k: (int, int)) -> int
    decreases order.len(),
{
    if order.len() == 0 {
        0
    } else if key_lt(k, keys[order[0] as int]) {
        0
    } else {
        1 + first_after(order.drop_first(), keys, k)
    }
}

/// The positions `0..n` sorted by key, equal keys in their order: a stable
/// sort.
pub open spec fn stable_order(keys: Seq<(int, int)>, n: int) -> Seq<usize>
    decreases n,
{
    if n <= 0 {
        Seq::empty()
    } else {
        let prev = stable_order(keys, n - 1);
        prev.insert(first_after(prev, keys, keys[n - 1]), (n - 1) as usize)
    }
}

proof fn lemma_first_after(order: Seq<usize>, keys: Seq<(int, int)>, k: (int, int), j: int)
    requires
        0 <= j <= order.len(),
        forall|m: int| 0 <= m < j ==> !key_lt(k, keys[#[trigger] order[m] as int]),
        j == order.len() || key_lt(k, keys[order[j] as int]),
    ensures
        first_after(order, keys, k) == j,
    decreases order.len(),
{
    if order.len() > 0 && j > 0 {
        assert forall|m: int| 0 <= m < j - 1 implies !key_lt(k, keys[#[trigger] order.drop_first()[m] as int]) by {
            assert(order.drop_first()[m] == order[m + 1]);
        }
        lemma_first_after(order.drop_first(), keys, k, j - 1);
    }
}

fn install_key_exec(change: &FileChange) -> (k: (u8, usize))
    ensures
        (k.0 as int, k.1 as int) == install_key(*change),
{
    let depth = count_chars(change.path.as_str(), '/');
    match &change.after {
        None => (0, usize::MAX - depth),
        Some(i) => if i.mode == DIRECTORY_MODE {
            (1, depth)
        } else {
            (2, depth)
        },
    }
}

pub open spec fn install_keys(changes: Seq<FileChange>) -> Seq<(int, int)> {
    changes.map_values(|c: FileChange| install_key(c))
}

/// The order in which a transition writes its changes: positions of
/// `changes`, stably sorted by their install keys.
pub fn install_order(changes: &Vec<FileChange>) -> (order: Vec<usize>)
    ensures
        order@ == stable_order(install_keys(changes@), changes@.len() as int),
{
    let ghost keys = install_keys(changes@);
    let mut ks: Vec<(u8, usize)> = Vec::new();
    let mut order: Vec<usize> = Vec::new();
    let mut i: usize = 0;
    while i < changes.len()
        invariant
            keys == install_keys(changes@),
            i <= changes@.len(),
            ks@.len() == i,
            forall|m: int| 0 <= m < i ==> ((#[trigger] ks@[m]).0 as int, ks@[m].1 as int) == keys[m],
            order@ == stable_order(keys, i as int),
            forall|m: int| 0 <= m < order@.len() ==> (#[trigger] order@[m]) < i,
            order@.len() == i,
        decreases changes@.len() - i,
    {
        let k = install_key_exec(&changes[i]);
        assert(keys[i as int] == install_key(changes@[i as int]));
        let mut j: usize = 0;
        while j < order.len() && !(k.0 < ks[order[j]].0 || (k.0 == ks[order[j]].0 && k.1 < ks[order[j]].1))
            invariant
                j <= order@.len(),
                order@.len() == i,
                ks@.len() == i,
                forall|m: int| 0 <= m < order@.len() ==> (#[trigger] order@[m]) < i,
                forall|m: int| 0 <= m < i ==> ((#[trigger] ks@[m]).0 as int, ks@[m].1 as int) == keys[m],
                (k.0 as int, k.1 as int) == keys[i as int],
                forall|m: int| 0 <= m < j ==> !key_lt(keys[i as int], keys[#[trigger] order@[m] as int]),
            decreases order@.len() - j,
        {
            assert(ks@[order@[j as int] as int].0 as int == keys[order@[j as int] as int].0);
            j = j + 1;
        }
        proof {
            if j < order@.len() {
                assert(ks@[order@[j as int] as int].0 as int == keys[order@[j as int] as int].0);
            }
            lemma_first_after(order@, keys, keys[i as int], j as int);
        }
        order.insert(j, i);
        ks.push(k);
        i = i + 1;
    }
    order
}

proof fn lemma_first_after_bounds(order: Seq<usize>, keys: Seq<(int, int)>, k: (int, int))
    ensures
        0 <= first_after(order, keys, k) <= order.len(),
        forall|m: int| 0 <= m < first_after(order, keys, k) ==> !key_lt(k, keys[#[trigger] order[m] as int]),
        first_after(order, keys, k) < order.len() ==> key_lt(k, keys[order[first_after(order, keys, k)] as int]),
    decreases order.len(),
{
    if order.len() > 0 {
        lemma_first_after_bounds(order.drop_first(), keys, k);
        assert forall|m: int| 0 <= m < first_after(order, keys, k) implies !key_lt(k, keys[#[trigger] order[m] as int]) by {
            if m > 0 {
                assert(order[m] == order.drop_first()[m - 1]);
            }
        }
    }
}

/// The changes come in key order, changes with equal keys in their own
/// order, and every change comes exactly once.
pub open spec fn is_stable_order(order: Seq<usize>, keys: Seq<(int, int)>, n: int) -> bool {
    &&& order.len() == n
    &&& forall|a: int, b: int| 0 <= a < b < n ==> !key_lt(keys[#[trigger] order[b] as int], keys[#[trigger] order[a] as int])
    &&& forall|a: int, b: int| 0 <= a < b < n && keys[order[a] as int] == keys[order[b] as int] ==> #[trigger] order[a] < #[trigger] order[b]
    &&& forall|m: int| 0 <= m < n ==> (#[trigger] order[m]) < n
    &&& forall|m: usize| m < n ==> #[trigger] order.contains(m)
}

/// A transition writes each change once, in key order, keeping the order
/// of changes with equal keys.
pub proof fn lemma_install_order_is_stable_sort(keys: Seq<(int, int)>, n: int)
    requires
        0 <= n <= keys.len(),
        n <= usize::MAX,
    ensures
        is_stable_order(stable_order(keys, n), keys, n),
    decreases n,
{
    if n > 0 {
        let prev = stable_order(keys, n - 1);
        lemma_install_order_is_stable_sort(keys, n - 1);
        let k = keys[n - 1];
        let j = first_after(prev, keys, k);
        lemma_first_after_bounds(prev, keys, k);
        let x = (n - 1) as usize;
        let r = prev.insert(j, x);
        assert(r == stable_order(keys, n));
        assert forall|a: int, b: int| 0 <= a < b < n implies !key_lt(keys[#[trigger] r[b] as int], keys[#[trigger] r[a] as int]) by {
            if b < j {
                assert(r[a] == prev[a] && r[b] == prev[b]);
            } else if b == j {
                assert(r[a] == prev[a]);
            } else if a == j {
                assert(r[b] == prev[b - 1]);
                if b - 1 > j {
                    assert(!key_lt(keys[prev[b - 1] as int], keys[prev[j] as int]));
                }
            } else if a < j {
                assert(r[a] == prev[a] && r[b] == prev[b - 1]);
            } else {
                assert(r[a] == prev[a - 1] && r[b] == prev[b - 1]);
            }
        }
        assert forall|a: int, b: int| 0 <= a < b < n && keys[r[a] as int] == keys[r[b] as int] implies #[trigger] r[a] < #[trigger] r[b] by {
            if b < j {
                assert(r[a] == prev[a] && r[b] == prev[b]);
            } else if b == j {
                assert(r[a] == prev[a]);
            } else if a == j {
                assert(r[b] == prev[b - 1]);
                if b - 1 > j {
                    assert(!key_lt(keys[prev[b - 1] as int], keys[prev[j] as int]));
                }
            } else if a < j {
                assert(r[a] == prev[a] && r[b] == prev[b - 1]);
            } else {
                assert(r[a] == prev[a - 1] && r[b] == prev[b - 1]);
            }
        }
        assert forall|m: int| 0 <= m < n implies (#[trigger] r[m]) < n by {
            if m < j {
                assert(r[m] == prev[m]);
            } else if m > j {
                assert(r[m] == prev[m - 1]);
            }
        }
        assert forall|m: usize| m < n implies #[trigger] r.contains(m) by {
            if m < n - 1 {
                assert(prev.contains(m));
                let w = choose|w: int| 0 <= w < prev.len() && prev[w] == m;
                if w < j {
                    assert(r[w] == prev[w]);
                } else {
                    assert(r[w + 1] == prev[w]);
                }
            } else {
                assert(r[j] == x);
            }
        }
    }
}

/// Worktree paths mapped to their images (none for an absent path), kept
/// in path order.
#[derive(Debug)]
pub struct FileMap {
    entries: Vec<(String, Option<FileImage>)>,
}

pub type FileEntry = (String, Option<FileImage>);

pub type FileEntryView = (Seq<char>, Option<FileImageView>);

pub open spec fn file_entry_view(e: FileEntry) -> FileEntryView {
    (e.0@, image_of(e.1))
}

/// Paths in strictly increasing order.
pub open spec fn keys_in_order(s: Seq<FileEntry>) -> bool {
    forall|i: int, j: int| 0 <= i < j < s.len() ==> chars_lt(#[trigger] s[i].0@, #[trigger] s[j].0@)
}

/// The map that ordered entries hold.
pub open spec fn entries_map(s: Seq<FileEntry>) -> Map<Seq<char>, Option<FileImageView>> {
    Map::new(
        |k: Seq<char>| exists|i: int| 0 <= i < s.len() && (#[trigger] s[i]).0@ == k,
        |k: Seq<char>| image_of(s[choose|i: int| 0 <= i < s.len() && (#[trigger] s[i]).0@ == k].1),
    )
}

proof fn lemma_entries_map_at(s: Seq<FileEntry>, i: int)
    requires
        keys_in_order(s),
        0 <= i < s.len(),
    ensures
        entries_map(s).dom().contains(s[i].0@),
        entries_map(s)[s[i].0@] == image_of(s[i].1),
{
    let k = s[i].0@;
    assert(entries_map(s).dom().contains(k));
    let j = choose|j: int| 0 <= j < s.len() && (#[trigger] s[j]).0@ == k;
    lemma_chars_lt_irreflexive_asym(k, k);
    if j < i {
        assert(chars_lt(s[j].0@, s[i].0@));
    } else if j > i {
        assert(chars_lt(s[i].0@, s[j].0@));
    }
}

proof fn lemma_absent_from(s: Seq<FileEntry>, key: Seq<char>, j: int)
    requires
        keys_in_order(s),
        0 <= j <= s.len(),
        forall|m: int| 0 <= m < j ==> chars_lt((#[trigger] s[m]).0@, key),
        j < s.len() ==> !chars_lt(s[j].0@, key) && s[j].0@ != key,
    ensures
        !entries_map(s).dom().contains(key),
        forall|m: int| j <= m < s.len() ==> chars_lt(key, (#[trigger] s[m]).0@),
{
    lemma_chars_lt_irreflexive_asym(key, key);
    assert forall|m: int| j <= m < s.len() implies chars_lt(key, (#[trigger] s[m]).0@) by {
        lemma_chars_lt_total(s[j].0@, key);
        if m > j {
            lemma_chars_lt_trans(key, s[j].0@, s[m].0@);
        }
    }
    if entries_map(s).dom().contains(key) {
        let m = choose|m: int| 0 <= m < s.len() && (#[trigger] s[m]).0@ == key;
        if m >= j {
            assert(chars_lt(key, s[m].0@));
        }
    }
}

impl FileMap {
    #[verifier::type_invariant]
    spec fn keys_sorted(self) -> bool {
        keys_in_order(self.entries@)
    }

    /// The entries as plain values, in path order.
    pub closed spec fn pairs(self) -> Seq<FileEntryView> {
        self.entries@.map_values(|e: FileEntry| file_entry_view(e))
    }

    /// The map as plain values.
    pub closed spec fn map(self) -> Map<Seq<char>, Option<FileImageView>> {
        entries_map(self.entries@)
    }

    /// An empty map.
    pub fn new() -> (m: Self)
        ensures
            m.map() == Map::<Seq<char>, Option<FileImageView>>::empty(),
    {
        let m = FileMap { entries: Vec::new() };
        assert(m.map() =~= Map::<Seq<char>, Option<FileImageView>>::empty());
        m
    }

    /// The entries, in path order.
    pub fn to_pairs(&self) -> (r: Vec<FileEntry>)
        ensures
            forall|i: int, j: int| 0 <= i < j < r@.len() ==> chars_lt(#[trigger] r@[i].0@, #[trigger] r@[j].0@),
            forall|k: Seq<char>| #[trigger] self.map().dom().contains(k) <==> exists|i: int| 0 <= i < r@.len() && (#[trigger] r@[i]).0@ == k,
            forall|i: int| 0 <= i < r@.len() ==> self.map()[(#[trigger] r@[i]).0@] == image_of(r@[i].1),
    {
        proof {
            use_type_invariant(self);
        }
        let ghost s = self.entries@;
        let mut r: Vec<FileEntry> = Vec::new();
        let mut i: usize = 0;
        while i < self.entries.len()
            invariant
                s == self.entries@,
                keys_in_order(s),
                i <= s.len(),
                r@.len() == i,
                forall|m: int| 0 <= m < i ==> file_entry_view(#[trigger] r@[m]) == file_entry_view(s[m]),
            decreases s.len() - i,
        {
            let e = &self.entries[i];
            r.push((e.0.clone(), copy_image(&e.1)));
            i = i + 1;
        }
        proof {
            assert forall|a: int, b: int| 0 <= a < b < r@.len() implies chars_lt(#[trigger] r@[a].0@, #[trigger] r@[b].0@) by {
                assert(file_entry_view(r@[a]) == file_entry_view(s[a]));
                assert(file_entry_view(r@[b]) == file_entry_view(s[b]));
            }
            assert forall|k: Seq<char>| #[trigger] self.map().dom().contains(k) <==> exists|m: int| 0 <= m < r@.len() && (#[trigger] r@[m]).0@ == k by {
                if self.map().dom().contains(k) {
                    let m = choose|m: int| 0 <= m < s.len() && (#[trigger] s[m]).0@ == k;
                    assert(file_entry_view(r@[m]) == file_entry_view(s[m]));
                }
                if exists|m: int| 0 <= m < r@.len() && (#[trigger] r@[m]).0@ == k {
                    let m = choose|m: int| 0 <= m < r@.len() && (#[trigger] r@[m]).0@ == k;
                    assert(file_entry_view(r@[m]) == file_entry_view(s[m]));
                }
            }
            assert forall|m: int| 0 <= m < r@.len() implies self.map()[(#[trigger] r@[m]).0@] == image_of(r@[m].1) by {
                assert(file_entry_view(r@[m]) == file_entry_view(s[m]));
                lemma_entries_map_at(s, m);
            }
        }
        r
    }

    /// The first position whose path does not come before `key`.
    fn position(&self, key: &str) -> (j: usize)
        ensures
            j <= self.entries@.len(),
            forall|m: int| 0 <= m < j ==> chars_lt((#[trigger] self.entries@[m]).0@, key@),
            j < self.entries@.len() ==> !chars_lt(self.entries@[j as int].0@, key@),
    {
        let kv = chars_of(key);
        let mut j: usize = 0;
        while j < self.entries.len() && chars_less(&chars_of(self.entries[j].0.as_str()), &kv)
            invariant
                j <= self.entries@.len(),
                kv@ == key@,
                forall|m: int| 0 <= m < j ==> chars_lt((#[trigger] self.entries@[m]).0@, key@),
            decreases self.entries@.len() - j,
        {
            j = j + 1;
        }
        j
    }

    /// The image recorded for `key`, if there is one.
    pub fn get(&self, key: &str) -> (r: Option<Option<FileImage>>)
        ensures
            match r {
                Some(v) => self.map().dom().contains(key@) && self.map()[key@] == image_of(v),
                None => !self.map().dom().contains(key@),
            },
    {
        proof {
            use_type_invariant(self);
        }
        let j = self.position(key);
        if j < self.entries.len() && same_str(self.entries[j].0.as_str(), key) {
            proof {
                lemma_entries_map_at(self.entries@, j as int);
            }
            return Some(copy_image(&self.entries[j].1));
        }
        proof {
            lemma_absent_from(self.entries@, key@, j as int);
        }
        None
    }

    /// Records `value` for `key`, replacing what was recorded.
    pub fn insert(&mut self, key: String, value: Option<FileImage>)
        ensures
            final(self).map() == old(self).map().insert(key@, image_of(value)),
    {
        proof {
            use_type_invariant(&*self);
        }
        let ghost old_entries = self.entries@;
        let ghost old_map = self.map();
        let ghost kv = key@;
        let ghost iv = image_of(value);
        let j = self.position(key.as_str());
        let found = j < self.entries.len() && same_str(self.entries[j].0.as_str(), key.as_str());
        let mut entries: Vec<FileEntry> = Vec::new();
        std::mem::swap(&mut entries, &mut self.entries);
        if found {
            let _ = entries.remove(j);
            entries.insert(j, (key, value));
            proof {
                let ne = entries@;
                assert forall|a: int| 0 <= a < ne.len() && a != j implies (#[trigger] ne[a]) == old_entries[a] by {}
                assert(keys_in_order(ne)) by {
                    assert forall|a: int, b: int| 0 <= a < b < ne.len() implies chars_lt(#[trigger] ne[a].0@, #[trigger] ne[b].0@) by {
                        assert(ne[j as int].0@ == old_entries[j as int].0@);
                        if a != j {
                            assert(ne[a] == old_entries[a]);
                        }
                        if b != j {
                            assert(ne[b] == old_entries[b]);
                        }
                    }
                }
            }
        } else {
            proof {
                lemma_absent_from(old_entries, kv, j as int);
            }
            entries.insert(j, (key, value));
            proof {
                let ne = entries@;
                assert(keys_in_order(ne)) by {
                    assert forall|a: int, b: int| 0 <= a < b < ne.len() implies chars_lt(#[trigger] ne[a].0@, #[trigger] ne[b].0@) by {
                        if b < j {
                            assert(ne[a] == old_entries[a] && ne[b] == old_entries[b]);
                        } else if b == j {
                            assert(ne[a] == old_entries[a]);
                        } else if a == j {
                            assert(ne[b] == old_entries[b - 1]);
                        } else if a < j {
                            assert(ne[a] == old_entries[a] && ne[b] == old_entries[b - 1]);
                            lemma_chars_lt_trans(ne[a].0@, kv, ne[b].0@);
                        } else {
                            assert(ne[a] == old_entries[a - 1] && ne[b] == old_entries[b - 1]);
                        }
                    }
                }
            }
        }
        self.entries = entries;
        proof {
            let ne = self.entries@;
            assert(ne[j as int].0@ == kv && image_of(ne[j as int].1) == iv);
            assert forall|k: Seq<char>| #[trigger] entries_map(ne).dom().contains(k) <==> old_map.insert(kv, iv).dom().contains(k) by {
                if entries_map(ne).dom().contains(k) {
                    let m = choose|m: int| 0 <= m < ne.len() && (#[trigger] ne[m]).0@ == k;
                    if ne.len() == old_entries.len() {
                        if m != j {
                            assert(ne[m] == old_entries[m]);
                        }
                    } else if m < j {
                        assert(ne[m] == old_entries[m]);
                    } else if m > j {
                        assert(ne[m] == old_entries[m - 1]);
                    }
                }
                if old_map.dom().contains(k) {
                    let m = choose|m: int| 0 <= m < old_entries.len() && (#[trigger] old_entries[m]).0@ == k;
                    if ne.len() == old_entries.len() {
                        if m != j {
                            assert(ne[m] == old_entries[m]);
                        }
                    } else if m < j {
                        assert(ne[m] == old_entries[m]);
                    } else {
                        assert(ne[m + 1] == old_entries[m]);
                    }
                }
            }
            assert forall|k: Seq<char>| #[trigger] entries_map(ne).dom().contains(k) implies entries_map(ne)[k] == old_map.insert(kv, iv)[k] by {
                let m = choose|m: int| 0 <= m < ne.len() && (#[trigger] ne[m]).0@ == k;
                lemma_entries_map_at(ne, m);
                if m != j {
                    lemma_chars_lt_irreflexive_asym(kv, kv);
                    if ne.len() == old_entries.len() {
                        assert(ne[m] == old_entries[m]);
                        lemma_entries_map_at(old_entries, m);
                        if m < j {
                            assert(chars_lt(ne[m].0@, ne[j as int].0@));
                        } else {
                            assert(chars_lt(ne[j as int].0@, ne[m].0@));
                        }
                    } else if m < j {
                        assert(ne[m] == old_entries[m]);
                        lemma_entries_map_at(old_entries, m);
                        assert(chars_lt(ne[m].0@, ne[j as int].0@));
                    } else {
                        assert(ne[m] == old_entries[m - 1]);
                        lemma_entries_map_at(old_entries, m - 1);
                        assert(chars_lt(ne[j as int].0@, ne[m].0@));
                    }
                }
            }
            assert(entries_map(ne) =~= old_map.insert(kv, iv));
        }
    }
}

impl FileMap {
    /// Records `value` for `key` unless something is recorded already.
    pub fn insert_if_absent(&mut self, key: String, value: Option<FileImage>)
        ensures
            old(self).map().dom().contains(key@) ==> final(self).map() == old(self).map(),
            !old(self).map().dom().contains(key@) ==> final(self).map() == old(self).map().insert(key@, image_of(value)),
    {
        if self.get(key.as_str()).is_none() {
            self.insert(key, value);
        }
    }
}

/// A step of a recorded plan.
#[derive(Debug)]
pub struct Step {
    pub action: String,
    pub commit: String,
}

/// A move of HEAD, the index and worktree files from one recorded state to
/// the next, and where the operation stands afterwards.
#[derive(Debug)]
pub struct Transition {
    pub before_head: Head,
    pub after_head: Head,
    pub before_index: IndexImage,
    pub after_index: IndexImage,
    pub files: Vec<FileChange>,
    pub next_phase: String,
    pub next_cursor: usize,
    pub next_tip: Option<String>,
}

/// The journal of a native operation: what it started from, its plan and
/// position, and what it expects the repository to hold.
#[derive(Debug)]
pub struct Journal {
    pub version: u32,
    pub id: String,
    pub kind: Kind,
    pub original_head: Head,
    pub original_index: IndexImage,
    /// Each touched path's image before the operation first changed it.
    pub original_files: FileMap,
    /// Each touched path's image as the operation last left it.
    pub expected_files: FileMap,
    pub dirty_paths: Vec<String>,
    pub base: Option<String>,
    pub tip: Option<String>,
    pub expected_head: Head,
    pub steps: Vec<Step>,
    pub cursor: usize,
    pub message: Option<String>,
    pub generated: Vec<String>,
    pub phase: String,
    pub transition: Option<Transition>,
    pub expected_index: IndexImage,
    pub force_autocrlf: bool,
    pub committer_name: String,
    pub committer_email: String,
    pub committer_time: i64,
    pub committer_offset: i32,
}

/// `m` with each change's path mapped to its before image, unless mapped
/// already (the first image of a path is kept).
pub open spec fn keep_first_images(m: Map<Seq<char>, Option<FileImageView>>, changes: Seq<FileChange>) -> Map<
    Seq<char>,
    Option<FileImageView>,
>
    decreases changes.len(),
{
    if changes.len() == 0 {
        m
    } else {
        let prev = keep_first_images(m, changes.drop_last());
        let c = changes.last();
        if prev.dom().contains(c.path@) {
            prev
        } else {
            prev.insert(c.path@, image_of(c.before))
        }
    }
}

/// `m` with each change's path mapped to its after image (a later change
/// of a path wins).
pub open spec fn with_after_images(m: Map<Seq<char>, Option<FileImageView>>, changes: Seq<FileChange>) -> Map<
    Seq<char>,
    Option<FileImageView>,
>
    decreases changes.len(),
{
    if changes.len() == 0 {
        m
    } else {
        with_after_images(m, changes.drop_last()).insert(changes.last().path@, image_of(changes.last().after))
    }
}

/// The fields of a journal that a transition does not touch, as plain
/// values.
pub open spec fn journal_fixed(j: Journal) -> (u32, Seq<char>, Kind, (Option<Seq<char>>, Seq<char>), Seq<EntryView>, Seq<Seq<char>>, Option<Seq<char>>, Option<Seq<char>>) {
    (j.version, j.id@, j.kind, head_view(j.original_head), image_view(j.original_index), j.dirty_paths@.map_values(|p: String| p@), opt_view(j.base), opt_view(j.message))
}

impl Journal {
    /// Records a transition about to be applied: it may not touch a path
    /// that was dirty when the operation started; each path it touches
    /// keeps its first before image among the original files. The journal
    /// is then in the transition phase.
    pub fn record_transition(&mut self, transition: Transition) -> (r: Result<(), GitError>)
        ensures
            check_transition_paths_fails(old(self).dirty_paths@, transition.files@) ==> r matches Err(GitError::DirtyWorkingTree),
            !check_transition_paths_fails(old(self).dirty_paths@, transition.files@) ==> {
                &&& r is Ok
                &&& final(self).original_files.map() == keep_first_images(old(self).original_files.map(), transition.files@)
                &&& final(self).transition == Some(transition)
                &&& final(self).phase@ == "transition"@
                &&& final(self).expected_files.map() == old(self).expected_files.map()
                &&& final(self).cursor == old(self).cursor
                &&& opt_view(final(self).tip) == opt_view(old(self).tip)
                &&& head_view(final(self).expected_head) == head_view(old(self).expected_head)
                &&& image_view(final(self).expected_index) == image_view(old(self).expected_index)
                &&& journal_fixed(*final(self)) == journal_fixed(*old(self))
            },
    {
        let mut changed: Vec<String> = Vec::new();
        let mut i: usize = 0;
        while i < transition.files.len()
            invariant
                i <= transition.files@.len(),
                changed@.len() == i,
                forall|m: int| 0 <= m < i ==> (#[trigger] changed@[m])@ == transition.files@[m].path@,
            decreases transition.files@.len() - i,
        {
            changed.push(transition.files[i].path.clone());
            i = i + 1;
        }
        let check = check_transition_paths(&self.dirty_paths, &changed);
        proof {
            assert(check_transition_paths_fails(self.dirty_paths@, transition.files@) <==> exists|a: int, b: int|
                0 <= a < changed@.len() && 0 <= b < self.dirty_paths@.len() && paths_overlap(
                    (#[trigger] self.dirty_paths@[b])@,
                    (#[trigger] changed@[a])@,
                )) by {
                if check_transition_paths_fails(self.dirty_paths@, transition.files@) {
                    let (a, b) = choose|a: int, b: int|
                        0 <= a < transition.files@.len() && 0 <= b < self.dirty_paths@.len() && paths_overlap(
                            (#[trigger] self.dirty_paths@[b])@,
                            (#[trigger] transition.files@[a]).path@,
                        );
                    assert(changed@[a]@ == transition.files@[a].path@);
                }
                if exists|a: int, b: int|
                    0 <= a < changed@.len() && 0 <= b < self.dirty_paths@.len() && paths_overlap(
                        (#[trigger] self.dirty_paths@[b])@,
                        (#[trigger] changed@[a])@,
                    ) {
                    let (a, b) = choose|a: int, b: int|
                        0 <= a < changed@.len() && 0 <= b < self.dirty_paths@.len() && paths_overlap(
                            (#[trigger] self.dirty_paths@[b])@,
                            (#[trigger] changed@[a])@,
                        );
                    assert(transition.files@[a].path@ == changed@[a]@);
                }
            }
        }
        if check.is_err() {
            return Err(GitError::DirtyWorkingTree);
        }
        let ghost start = self.original_files.map();
        let mut k: usize = 0;
        while k < transition.files.len()
            invariant
                k <= transition.files@.len(),
                self.original_files.map() == keep_first_images(start, transition.files@.subrange(0, k as int)),
                self.expected_files.map() == old(self).expected_files.map(),
                self.cursor == old(self).cursor,
                self.tip == old(self).tip,
                self.expected_head == old(self).expected_head,
                self.expected_index == old(self).expected_index,
                self.phase == old(self).phase,
                journal_fixed(*self) == journal_fixed(*old(self)),
                start == old(self).original_files.map(),
            decreases transition.files@.len() - k,
        {
            let c = &transition.files[k];
            proof {
                let sub = transition.files@.subrange(0, k + 1);
                assert(sub.drop_last() == transition.files@.subrange(0, k as int));
                assert(sub.last() == *c);
            }
            self.original_files.insert_if_absent(c.path.clone(), copy_image(&c.before));
            k = k + 1;
        }
        assert(transition.files@.subrange(0, transition.files@.len() as int) == transition.files@);
        self.transition = Some(transition);
        self.phase = String::from_str("transition");
        Ok(())
    }

    /// Completes the recorded transition once it has been applied: the
    /// journal takes on the phase, position and tip it leads to, expects
    /// its HEAD, index and files, and holds no transition any more.
    pub fn complete_transition(&mut self) -> (r: Result<(), GitError>)
        ensures
            old(self).transition is None ==> (r matches Err(GitError::RecoveryRequired { reason })
                && reason@ == "operation is missing its transition"@),
            old(self).transition matches Some(t) ==> {
                &&& r is Ok
                &&& final(self).phase@ == t.next_phase@
                &&& final(self).cursor == t.next_cursor
                &&& opt_view(final(self).tip) == opt_view(t.next_tip)
                &&& head_view(final(self).expected_head) == head_view(t.after_head)
                &&& image_view(final(self).expected_index) == image_view(t.after_index)
                &&& final(self).expected_files.map() == with_after_images(old(self).expected_files.map(), t.files@)
                &&& final(self).original_files.map() == old(self).original_files.map()
                &&& final(self).transition is None
                &&& journal_fixed(*final(self)) == journal_fixed(*old(self))
            },
    {
        let t = match self.transition.take() {
            Some(t) => t,
            None => {
                return Err(GitError::RecoveryRequired { reason: String::from_str("operation is missing its transition") });
            },
        };
        let ghost start = self.expected_files.map();
        let mut k: usize = 0;
        while k < t.files.len()
            invariant
                k <= t.files@.len(),
                self.expected_files.map() == with_after_images(start, t.files@.subrange(0, k as int)),
                self.original_files.map() == old(self).original_files.map(),
                journal_fixed(*self) == journal_fixed(*old(self)),
                start == old(self).expected_files.map(),
                self.transition is None,
            decreases t.files@.len() - k,
        {
            let c = &t.files[k];
            proof {
                let sub = t.files@.subrange(0, k + 1);
                assert(sub.drop_last() == t.files@.subrange(0, k as int));
                assert(sub.last() == *c);
            }
            self.expected_files.insert(c.path.clone(), copy_image(&c.after));
            k = k + 1;
        }
        assert(t.files@.subrange(0, t.files@.len() as int) == t.files@);
        self.phase = t.next_phase;
        self.cursor = t.next_cursor;
        self.tip = t.next_tip;
        self.expected_head = t.after_head;
        self.expected_index = t.after_index;
        Ok(())
    }
}

/// Whether a change of `changes` touches a path that overlaps one of
/// `dirty`.
pub open spec fn check_transition_paths_fails(dirty: Seq<String>, changes: Seq<FileChange>) -> bool {
    exists|a: int, b: int|
        0 <= a < changes.len() && 0 <= b < dirty.len() && paths_overlap((#[trigger] dirty[b])@, (#[trigger] changes[a]).path@)
}

/// Recording transitions never replaces the image a path had before the
/// operation first touched it, and every touched path gets one.
pub proof fn lemma_original_images_are_kept(m: Map<Seq<char>, Option<FileImageView>>, changes: Seq<FileChange>)
    ensures
        forall|p: Seq<char>| #[trigger] m.dom().contains(p) ==> keep_first_images(m, changes).dom().contains(p) && keep_first_images(m, changes)[p] == m[p],
        forall|i: int| 0 <= i < changes.len() ==> keep_first_images(m, changes).dom().contains((#[trigger] changes[i]).path@),
    decreases changes.len(),
{
    if changes.len() > 0 {
        lemma_original_images_are_kept(m, changes.drop_last());
        assert forall|i: int| 0 <= i < changes.len() implies keep_first_images(m, changes).dom().contains((#[trigger] changes[i]).path@) by {
            if i < changes.len() - 1 {
                assert(changes.drop_last()[i] == changes[i]);
            }
        }
    }
}

/// What a map records for a key is what was last inserted for it.
pub proof fn lemma_recorded_image_reads_back(
    before: Map<Seq<char>, Option<FileImageView>>,
    after: Map<Seq<char>, Option<FileImageView>>,
    key: Seq<char>,
    value: Option<FileImageView>,
)
    requires
        after == before.insert(key, value),
    ensures
        after.dom().contains(key),
        after[key] == value,
        forall|k: Seq<char>| k != key ==> (#[trigger] after.dom().contains(k) <==> before.dom().contains(k)),
{
}

} // verus!
