//! Labels and path splitting used by the working-tree changes list.
use crate::path::{display_file_name, display_parent, file_name_or_whole, non_empty_parent, parent_of, path_parent};
use crate::text::{chars_less, chars_lt, chars_of, lemma_chars_lt_irreflexive_asym, lemma_chars_lt_total, lemma_chars_lt_trans};
use crate::ui::diff_file_header::same_str;
use vstd::prelude::*;

verus! {

/// The sections of the changes list, in display order.
#[derive(Debug, Clone, Copy, PartialEq, Eq, Structural)]
pub enum ChangeSectionKind {
    Staged,
    Unstaged,
    Untracked,
}

impl ChangeSectionKind {
    /// The compact label of the section.
    pub fn context_label(self) -> (r: &'static str)
        ensures
            r@ == match self {
                ChangeSectionKind::Staged => "Staged"@,
                ChangeSectionKind::Unstaged => "Changes"@,
                ChangeSectionKind::Untracked => "New Files"@,
            },
    {
        match self {
            ChangeSectionKind::Staged => "Staged",
            ChangeSectionKind::Unstaged => "Changes",
            ChangeSectionKind::Untracked => "New Files",
        }
    }
}

/// Splits a path into its file name (the whole path when it has none) and its
/// parent directory (empty when it has none).
pub fn split_path(path: &str) -> (r: (String, String))
    ensures
        r.0@ == display_file_name(path@),
        r.1@ == match display_parent(path@) {
            Some(p) => p,
            None => Seq::empty(),
        },
{
    let file_name = file_name_or_whole(path);
    let parent = match non_empty_parent(path) {
        Some(p) => p,
        None => String::new(),
    };
    (file_name, parent)
}

/// The files of one directory in the tree view of the changes list.
#[derive(Debug, Clone)]
pub struct DirectoryGroup {
    /// The directory, empty for files at the top.
    pub dir: String,
    /// Positions of the directory's files in the list, in order.
    pub indices: Vec<usize>,
}

/// The directory a file is listed under: its parent, or empty when it has
/// none.
pub open spec fn parent_dir(p: Seq<char>) -> Seq<char> {
    match path_parent(p) {
        Some(d) => d,
        None => Seq::empty(),
    }
}

/// The directories of a list of paths.
pub open spec fn dirs_of(paths: Seq<String>) -> Seq<Seq<char>> {
    paths.map_values(|p: String| parent_dir(p@))
}

/// The positions below `n` whose directory is `d`, in order.
pub open spec fn indices_in(dirs: Seq<Seq<char>>, d: Seq<char>, n: int) -> Seq<usize>
    decreases n,
{
    if n <= 0 {
        Seq::empty()
    } else {
        let prev = indices_in(dirs, d, n - 1);
        if dirs[n - 1] == d {
            prev.push((n - 1) as usize)
        } else {
            prev
        }
    }
}

/// `groups` holds one group per directory of the first `n` of `dirs`, in
/// the order of directory names, each with the positions of its files.
pub open spec fn groups_for(groups: Seq<DirectoryGroup>, dirs: Seq<Seq<char>>, n: int) -> bool {
    &&& forall|a: int, b: int| 0 <= a < b < groups.len() ==> chars_lt(#[trigger] groups[a].dir@, #[trigger] groups[b].dir@)
    &&& forall|g: int| 0 <= g < groups.len() ==> (#[trigger] groups[g]).indices@ == indices_in(dirs, groups[g].dir@, n) && groups[g].indices@.len() > 0
    &&& forall|k: int| 0 <= k < n ==> exists|g: int| 0 <= g < groups.len() && (#[trigger] groups[g]).dir@ == #[trigger] dirs[k]
}

proof fn lemma_indices_in_absent(dirs: Seq<Seq<char>>, d: Seq<char>, n: int)
    requires
        0 <= n <= dirs.len(),
        forall|k: int| 0 <= k < n ==> dirs[k] != d,
    ensures
        indices_in(dirs, d, n).len() == 0,
    decreases n,
{
    if n > 0 {
        lemma_indices_in_absent(dirs, d, n - 1);
    }
}

/// Groups the files of the changes list by directory, directories in name
/// order, files in list order.
pub fn group_by_directory(paths: &Vec<String>) -> (groups: Vec<DirectoryGroup>)
    ensures
        groups_for(groups@, dirs_of(paths@), paths@.len() as int),
{
    let ghost dirs = dirs_of(paths@);
    let mut groups: Vec<DirectoryGroup> = Vec::new();
    let mut i: usize = 0;
    while i < paths.len()
        invariant
            dirs == dirs_of(paths@),
            i <= paths@.len(),
            groups_for(groups@, dirs, i as int),
        decreases paths@.len() - i,
    {
        let d = match parent_of(paths[i].as_str()) {
            Some(x) => x,
            None => String::new(),
        };
        assert(d@ == dirs[i as int]);
        let dv = chars_of(d.as_str());
        let mut j: usize = 0;
        while j < groups.len() && chars_less(&chars_of(groups[j].dir.as_str()), &dv)
            invariant
                j <= groups@.len(),
                dv@ == d@,
                forall|k: int| 0 <= k < j ==> chars_lt(#[trigger] groups@[k].dir@, d@),
            decreases groups@.len() - j,
        {
            j = j + 1;
        }
        let ghost old_groups = groups@;
        let found = j < groups.len() && same_str(groups[j].dir.as_str(), d.as_str());
        if found {
            let mut g = groups.remove(j);
            g.indices.push(i);
            groups.insert(j, g);
            proof {
                assert(groups@ == old_groups.update(j as int, groups@[j as int]));
                assert forall|a: int, b: int| 0 <= a < b < groups@.len() implies chars_lt(#[trigger] groups@[a].dir@, #[trigger] groups@[b].dir@) by {
                    assert(old_groups[a].dir@ == groups@[a].dir@);
                    assert(old_groups[b].dir@ == groups@[b].dir@);
                }
                assert forall|h: int| 0 <= h < groups@.len() implies (#[trigger] groups@[h]).indices@ == indices_in(dirs, groups@[h].dir@, i + 1) && groups@[h].indices@.len() > 0 by {
                    if h != j {
                        assert(groups@[h] == old_groups[h]);
                        lemma_chars_lt_irreflexive_asym(old_groups[h].dir@, old_groups[h].dir@);
                        if h < j {
                            assert(old_groups[h].dir@ != d@);
                        } else {
                            lemma_chars_lt_irreflexive_asym(old_groups[j as int].dir@, old_groups[h].dir@);
                        }
                    }
                }
                assert forall|k: int| 0 <= k < i + 1 implies exists|h: int| 0 <= h < groups@.len() && (#[trigger] groups@[h]).dir@ == #[trigger] dirs[k] by {
                    if k < i {
                        let h = choose|h: int| 0 <= h < old_groups.len() && (#[trigger] old_groups[h]).dir@ == dirs[k];
                        assert(groups@[h].dir@ == dirs[k]);
                    } else {
                        assert(groups@[j as int].dir@ == dirs[k]);
                    }
                }
            }
        } else {
            let mut indices: Vec<usize> = Vec::new();
            indices.push(i);
            proof {
                assert forall|h: int| 0 <= h < old_groups.len() implies (#[trigger] old_groups[h]).dir@ != d@ by {
                    lemma_chars_lt_irreflexive_asym(old_groups[h].dir@, d@);
                    if h > j {
                        lemma_chars_lt_total(old_groups[j as int].dir@, d@);
                        lemma_chars_lt_trans(d@, old_groups[j as int].dir@, old_groups[h].dir@);
                        lemma_chars_lt_irreflexive_asym(d@, d@);
                    }
                }
                assert forall|k: int| 0 <= k < i implies #[trigger] dirs[k] != d@ by {
                    let h = choose|h: int| 0 <= h < old_groups.len() && (#[trigger] old_groups[h]).dir@ == dirs[k];
                }
                lemma_indices_in_absent(dirs, d@, i as int);
                assert(indices@ == indices_in(dirs, d@, i as int).push(i));
            }
            groups.insert(j, DirectoryGroup { dir: d, indices });
            proof {
                assert forall|a: int, b: int| 0 <= a < b < groups@.len() implies chars_lt(#[trigger] groups@[a].dir@, #[trigger] groups@[b].dir@) by {
                    if b < j {
                        assert(groups@[a] == old_groups[a] && groups@[b] == old_groups[b]);
                    } else if b == j {
                        assert(groups@[a] == old_groups[a]);
                    } else if a == j {
                        assert(groups@[b] == old_groups[b - 1]);
                        lemma_chars_lt_total(old_groups[j as int].dir@, groups@[j as int].dir@);
                        if b - 1 > j {
                            lemma_chars_lt_trans(groups@[j as int].dir@, old_groups[j as int].dir@, old_groups[b - 1].dir@);
                        }
                    } else if a < j {
                        assert(groups@[a] == old_groups[a] && groups@[b] == old_groups[b - 1]);
                        lemma_chars_lt_total(old_groups[j as int].dir@, d@);
                        if b - 1 > j {
                            lemma_chars_lt_trans(d@, old_groups[j as int].dir@, old_groups[b - 1].dir@);
                        }
                        lemma_chars_lt_trans(old_groups[a].dir@, d@, old_groups[b - 1].dir@);
                    } else {
                        assert(groups@[a] == old_groups[a - 1] && groups@[b] == old_groups[b - 1]);
                    }
                }
                assert forall|h: int| 0 <= h < groups@.len() implies (#[trigger] groups@[h]).indices@ == indices_in(dirs, groups@[h].dir@, i + 1) && groups@[h].indices@.len() > 0 by {
                    if h < j {
                        assert(groups@[h] == old_groups[h]);
                    } else if h > j {
                        assert(groups@[h] == old_groups[h - 1]);
                    }
                }
                assert forall|k: int| 0 <= k < i + 1 implies exists|h: int| 0 <= h < groups@.len() && (#[trigger] groups@[h]).dir@ == #[trigger] dirs[k] by {
                    if k < i {
                        let h = choose|h: int| 0 <= h < old_groups.len() && (#[trigger] old_groups[h]).dir@ == dirs[k];
                        if h < j {
                            assert(groups@[h].dir@ == dirs[k]);
                        } else {
                            assert(groups@[h + 1].dir@ == dirs[k]);
                        }
                    } else {
                        assert(groups@[j as int].dir@ == dirs[k]);
                    }
                }
            }
        }
        i = i + 1;
    }
    groups
}

} // verus!
