//! Commit graph model: lane layout of a commit list and the branch/tag labels
//! shown next to commits.
use crate::text::{char_range, chars_of, chars_start_with, starts_with};
use crate::ui::diff_file_header::same_str;
use vstd::prelude::*;

verus! {

/// Edge rendering type.
#[derive(Debug, Clone, Copy, PartialEq, Eq, Structural)]
pub enum EdgeType {
    /// Straight line in the same lane.
    Direct,
    /// Cross-lane merge edge.
    Merge,
    /// Branch fork edge.
    Fork,
}

/// Edge from a commit to one of its parents.
#[derive(Debug, Clone, Copy, PartialEq, Eq, Structural)]
pub struct GraphEdge {
    /// Lane of the child commit.
    pub from_lane: u32,
    /// Lane of the parent commit.
    pub to_lane: u32,
    pub edge_type: EdgeType,
    /// Colour palette index.
    pub color_index: u8,
}

/// Layout of one commit.
#[derive(Debug)]
pub struct GraphNode {
    pub commit_id: String,
    pub lane: u32,
    pub parent_edges: Vec<GraphEdge>,
    pub is_merge: bool,
}

/// Type of reference.
#[derive(Debug, Clone, Copy, PartialEq, Eq, Structural)]
pub enum RefType {
    LocalBranch,
    RemoteBranch,
    Tag,
    Head,
}

/// Reference label attached to a commit.
#[derive(Debug, Clone)]
pub struct RefLabel {
    /// Display name; a remote branch keeps its `remote/branch` form.
    pub name: String,
    pub ref_type: RefType,
    /// Whether this is the checked-out local branch.
    pub is_current: bool,
}

pub type RefLabelView = (Seq<char>, RefType, bool);

impl View for RefLabel {
    type V = RefLabelView;

    open spec fn view(&self) -> RefLabelView {
        (self.name@, self.ref_type, self.is_current)
    }
}

/// The labels of each commit, as plain values, in first-seen order of commits.
pub type LabelTableView = Seq<(Seq<char>, Seq<RefLabelView>)>;

pub open spec fn label_table_view(t: Seq<(String, Vec<RefLabel>)>) -> LabelTableView {
    t.map_values(|e: (String, Vec<RefLabel>)| (e.0@, e.1@.map_values(|l: RefLabel| l@)))
}

/// Display name and type of a full reference name, for branches, remote
/// branches and tags.
pub open spec fn classify_ref(name: Seq<char>) -> Option<(Seq<char>, RefType)> {
    if starts_with(name, "refs/heads/"@) {
        Some((name.subrange(11, name.len() as int), RefType::LocalBranch))
    } else if starts_with(name, "refs/remotes/"@) {
        Some((name.subrange(13, name.len() as int), RefType::RemoteBranch))
    } else if starts_with(name, "refs/tags/"@) {
        Some((name.subrange(10, name.len() as int), RefType::Tag))
    } else {
        None
    }
}

/// First index at or after `i` whose commit is `key`.
pub open spec fn find_commit_row(t: LabelTableView, key: Seq<char>, i: int) -> Option<int>
    decreases t.len() - i,
{
    if i < 0 || i >= t.len() {
        None
    } else if t[i].0 == key {
        Some(i)
    } else {
        find_commit_row(t, key, i + 1)
    }
}

/// The table with `label` added to the labels of `key`.
pub open spec fn add_label(t: LabelTableView, key: Seq<char>, label: RefLabelView) -> LabelTableView {
    match find_commit_row(t, key, 0) {
        Some(i) => t.update(i, (key, t[i].1.push(label))),
        None => t.push((key, seq![label])),
    }
}

/// The labels of the references `refs` (full name, target commit), in order.
pub open spec fn labels_of_refs(refs: Seq<(Seq<char>, Seq<char>)>, head_branch: Option<Seq<char>>) -> LabelTableView
    decreases refs.len(),
{
    if refs.len() == 0 {
        Seq::empty()
    } else {
        let prev = labels_of_refs(refs.drop_last(), head_branch);
        let (name, target) = refs.last();
        match classify_ref(name) {
            Some((display, kind)) => add_label(
                prev,
                target,
                (display, kind, kind == RefType::LocalBranch && head_branch == Some(display)),
            ),
            None => prev,
        }
    }
}

/// All labels: the references' labels, then a `Head` label on the HEAD commit
/// when HEAD is detached.
pub open spec fn spec_ref_labels(refs: Seq<(Seq<char>, Seq<char>)>, head_target: Option<Seq<char>>, head_branch: Option<Seq<char>>) -> LabelTableView {
    let t = labels_of_refs(refs, head_branch);
    match (head_target, head_branch) {
        (Some(h), None) => add_label(t, h, (Seq::empty(), RefType::Head, true)),
        _ => t,
    }
}

pub open spec fn opt_str_view(o: Option<String>) -> Option<Seq<char>> {
    match o {
        Some(s) => Some(s@),
        None => None,
    }
}

/// Adds `label` to the labels of commit `key`.
fn add_label_exec(table: &mut Vec<(String, Vec<RefLabel>)>, key: &String, label: RefLabel)
    ensures
        label_table_view(final(table)@) == add_label(label_table_view(old(table)@), key@, label@),
{
    let ghost t0 = label_table_view(table@);
    let mut i: usize = 0;
    while i < table.len()
        invariant
            i <= table@.len(),
            t0 == label_table_view(table@),
            table@ == old(table)@,
            find_commit_row(t0, key@, 0) == find_commit_row(t0, key@, i as int),
        decreases table@.len() - i,
    {
        if same_str(table[i].0.as_str(), key.as_str()) {
            let mut row = table.remove(i);
            let ghost labels0 = row.1@;
            row.1.push(label);
            assert(row.1@.map_values(|l: RefLabel| l@) == labels0.map_values(|l: RefLabel| l@).push(label@));
            table.insert(i, row);
            assert(label_table_view(table@) == t0.update(i as int, (key@, t0[i as int].1.push(label@))));
            return;
        }
        i = i + 1;
    }
    let ghost before = table@;
    let mut labels: Vec<RefLabel> = Vec::new();
    labels.push(label);
    assert(labels@.map_values(|l: RefLabel| l@) == seq![label@]);
    let k = key.clone();
    table.push((k, labels));
    assert(table@ == before.push((k, labels)));
    assert(label_table_view(table@) == t0.push((key@, seq![label@])));
}

/// The labels of every commit that a branch, remote branch or tag points at,
/// plus a `Head` label when HEAD is detached.
///
/// `refs` holds each reference's full name and the commit it points at;
/// `head_target` is HEAD's commit and `head_branch` the checked-out branch's
/// short name (none when HEAD is detached).
pub fn compute_ref_labels(
    refs: &Vec<(String, String)>,
    head_target: Option<String>,
    head_branch: Option<String>,
) -> (table: Vec<(String, Vec<RefLabel>)>)
    ensures
        label_table_view(table@) == spec_ref_labels(
            refs@.map_values(|r: (String, String)| (r.0@, r.1@)),
            opt_str_view(head_target),
            opt_str_view(head_branch),
        ),
{
    let ghost rv = refs@.map_values(|r: (String, String)| (r.0@, r.1@));
    let ghost hb = opt_str_view(head_branch);
    let mut table: Vec<(String, Vec<RefLabel>)> = Vec::new();
    let mut i: usize = 0;
    proof {
        reveal_strlit("refs/heads/");
        reveal_strlit("refs/remotes/");
        reveal_strlit("refs/tags/");
    }
    while i < refs.len()
        invariant
            i <= refs@.len(),
            rv == refs@.map_values(|r: (String, String)| (r.0@, r.1@)),
            hb == opt_str_view(head_branch),
            label_table_view(table@) == labels_of_refs(rv.subrange(0, i as int), hb),
            "refs/heads/"@ == seq!['r', 'e', 'f', 's', '/', 'h', 'e', 'a', 'd', 's', '/'],
            "refs/remotes/"@ == seq!['r', 'e', 'f', 's', '/', 'r', 'e', 'm', 'o', 't', 'e', 's', '/'],
            "refs/tags/"@ == seq!['r', 'e', 'f', 's', '/', 't', 'a', 'g', 's', '/'],
        decreases refs@.len() - i,
    {
        let ghost pre = rv.subrange(0, i as int);
        assert(rv.subrange(0, i + 1).drop_last() == pre);
        assert(rv.subrange(0, i + 1).last() == rv[i as int]);
        let name = chars_of(refs[i].0.as_str());
        let kind: Option<(Vec<char>, RefType)> = if chars_start_with(&name, "refs/heads/") {
            Some((char_range(&name, 11, name.len()), RefType::LocalBranch))
        } else if chars_start_with(&name, "refs/remotes/") {
            Some((char_range(&name, 13, name.len()), RefType::RemoteBranch))
        } else if chars_start_with(&name, "refs/tags/") {
            Some((char_range(&name, 10, name.len()), RefType::Tag))
        } else {
            None
        };
        match kind {
            Some((display, ref_type)) => {
                let display = crate::text::string_from_chars(display.as_slice());
                let is_current = match ref_type {
                    RefType::LocalBranch => match &head_branch {
                        Some(b) => same_str(b.as_str(), display.as_str()),
                        None => false,
                    },
                    _ => false,
                };
                let label = RefLabel { name: display, ref_type, is_current };
                add_label_exec(&mut table, &refs[i].1, label);
            },
            None => {},
        }
        i = i + 1;
    }
    assert(rv.subrange(0, refs@.len() as int) == rv);
    match (&head_target, &head_branch) {
        (Some(h), None) => {
            let label = RefLabel { name: String::new(), ref_type: RefType::Head, is_current: true };
            add_label_exec(&mut table, h, label);
        },
        _ => {},
    }
    table
}


/// Lane and colour bookkeeping of the layout: for each commit that has one,
/// its lane and colour, in the order they were first assigned.
pub type LaneTable = Seq<(Seq<char>, u32, u8)>;

/// Layout state: which lanes are taken, the lane table, the next colour.
pub type LayoutState = (Seq<bool>, LaneTable, u8);

/// A laid-out commit as plain values: id, lane, edges, whether it merges.
pub type NodeView = (Seq<char>, u32, Seq<GraphEdge>, bool);

pub open spec fn lane_table_view(t: Seq<(String, u32, u8)>) -> LaneTable {
    t.map_values(|e: (String, u32, u8)| (e.0@, e.1, e.2))
}

pub open spec fn node_view(n: GraphNode) -> NodeView {
    (n.commit_id@, n.lane, n.parent_edges@, n.is_merge)
}

pub open spec fn string_views(v: Seq<String>) -> Seq<Seq<char>> {
    v.map_values(|s: String| s@)
}

/// First row at or after `i` of the lane table for `key`.
pub open spec fn find_lane(t: LaneTable, key: Seq<char>, i: int) -> Option<int>
    decreases t.len() - i,
{
    if i < 0 || i >= t.len() {
        None
    } else if t[i].0 == key {
        Some(i)
    } else {
        find_lane(t, key, i + 1)
    }
}

/// The lane table with `key` given `lane` and `color`.
pub open spec fn set_lane(t: LaneTable, key: Seq<char>, lane: u32, color: u8) -> LaneTable {
    match find_lane(t, key, 0) {
        Some(i) => t.update(i, (key, lane, color)),
        None => t.push((key, lane, color)),
    }
}

/// The colour recorded for `key` (0 when none is).
pub open spec fn color_of(t: LaneTable, key: Seq<char>) -> u8 {
    match find_lane(t, key, 0) {
        Some(i) => t[i].2,
        None => 0,
    }
}

/// First free lane at or after `i`.
pub open spec fn first_free(active: Seq<bool>, i: int) -> Option<int>
    decreases active.len() - i,
{
    if i < 0 || i >= active.len() {
        None
    } else if !active[i] {
        Some(i)
    } else {
        first_free(active, i + 1)
    }
}

/// Takes the leftmost free lane, opening a new one when all are taken.
pub open spec fn take_free(active: Seq<bool>) -> (Seq<bool>, int) {
    match first_free(active, 0) {
        Some(f) => (active.update(f, true), f),
        None => (active.push(true), active.len() as int),
    }
}

proof fn lemma_first_free_is_lowest(active: Seq<bool>, i: int)
    requires
        0 <= i <= active.len(),
        forall|j: int| 0 <= j < i ==> active[j],
    ensures
        match first_free(active, i) {
            Some(f) => i <= f < active.len() && !active[f] && forall|j: int| 0 <= j < f ==> active[j],
            None => forall|j: int| 0 <= j < active.len() ==> active[j],
        },
    decreases active.len() - i,
{
    if i < active.len() && active[i] {
        lemma_first_free_is_lowest(active, i + 1);
    }
}

/// A commit that needs a new lane gets the lowest-numbered lane that is not
/// active, which becomes active; a lane is added on the right only when every
/// lane is active, so a free lane is always reused before the graph widens.
pub proof fn lemma_take_free_takes_lowest_free_lane(active: Seq<bool>)
    ensures
        ({
            let (after, lane) = take_free(active);
            &&& 0 <= lane <= active.len()
            &&& forall|j: int| 0 <= j < lane ==> active[j]
            &&& lane < active.len() ==> !active[lane]
            &&& (exists|j: int| 0 <= j < active.len() && !active[j]) ==> lane < active.len()
            &&& after.len() == (if lane < active.len() { active.len() } else { active.len() + 1 })
            &&& after[lane] == true
            &&& forall|j: int| 0 <= j < active.len() && j != lane ==> after[j] == active[j]
        }),
{
    lemma_first_free_is_lowest(active, 0);
}

pub open spec fn next_color(c: u8) -> u8 {
    if c == 255 {
        0
    } else {
        (c + 1) as u8
    }
}

/// Handles parent number `pi` of a commit in `lane` with colour `color`:
/// gives the parent a lane (the first parent inherits the commit's lane when
/// it is free) and records the edge. Parents outside the list are skipped.
pub open spec fn parent_step(
    st: LayoutState,
    edges: Seq<GraphEdge>,
    ids: Seq<Seq<char>>,
    lane: u32,
    color: u8,
    is_merge: bool,
    pi: int,
    parent: Seq<char>,
) -> (LayoutState, Seq<GraphEdge>) {
    if !ids.contains(parent) {
        (st, edges)
    } else {
        let (active, table, counter) = st;
        let (pl, st2): (u32, LayoutState) = if pi == 0 {
            if (lane as int) < active.len() && !active[lane as int] {
                (lane, (active.update(lane as int, true), set_lane(table, parent, lane, color), counter))
            } else {
                let (a, f) = take_free(active);
                (f as u32, (a, set_lane(table, parent, f as u32, color), counter))
            }
        } else {
            match find_lane(table, parent, 0) {
                Some(i) => (table[i].1, st),
                None => {
                    let (a, f) = take_free(active);
                    (f as u32, (a, set_lane(table, parent, f as u32, counter), next_color(counter)))
                },
            }
        };
        let edge_type = if pl == lane {
            EdgeType::Direct
        } else if is_merge && pi > 0 {
            EdgeType::Merge
        } else {
            EdgeType::Fork
        };
        (st2, edges.push(GraphEdge { from_lane: lane, to_lane: pl, edge_type, color_index: color_of(st2.1, parent) }))
    }
}

/// State and edges after the first `k` parents.
pub open spec fn parents_fold(
    st: LayoutState,
    ids: Seq<Seq<char>>,
    lane: u32,
    color: u8,
    is_merge: bool,
    parents: Seq<Seq<char>>,
    k: int,
) -> (LayoutState, Seq<GraphEdge>)
    decreases k,
{
    if k <= 0 {
        (st, Seq::empty())
    } else {
        let (s1, e1) = parents_fold(st, ids, lane, color, is_merge, parents, k - 1);
        parent_step(s1, e1, ids, lane, color, is_merge, k - 1, parents[k - 1])
    }
}

/// Lays out one commit: its lane (the one reserved for it, else the leftmost
/// free one with a new colour), then its parents' lanes and edges.
pub open spec fn commit_step(st: LayoutState, ids: Seq<Seq<char>>, id: Seq<char>, parents: Seq<Seq<char>>) -> (LayoutState, NodeView) {
    let (active, table, counter) = st;
    let is_merge = parents.len() > 1;
    let (lane, active1, table1, counter1): (u32, Seq<bool>, LaneTable, u8) = match find_lane(table, id, 0) {
        Some(i) => (table[i].1, active, table, counter),
        None => {
            let (a, f) = take_free(active);
            (f as u32, a, set_lane(table, id, f as u32, counter), next_color(counter))
        },
    };
    let color = color_of(table1, id);
    let active2 = if (lane as int) < active1.len() {
        active1.update(lane as int, false)
    } else {
        active1
    };
    let (st3, edges) = parents_fold((active2, table1, counter1), ids, lane, color, is_merge, parents, parents.len() as int);
    (st3, (id, lane, edges, is_merge))
}

/// State and nodes after the first `k` commits.
pub open spec fn commits_fold(ids: Seq<Seq<char>>, parents: Seq<Seq<Seq<char>>>, k: int) -> (LayoutState, Seq<NodeView>)
    decreases k,
{
    if k <= 0 {
        ((Seq::empty(), Seq::empty(), 0), Seq::empty())
    } else {
        let (s1, nodes) = commits_fold(ids, parents, k - 1);
        let (s2, node) = commit_step(s1, ids, ids[k - 1], parents[k - 1]);
        (s2, nodes.push(node))
    }
}

/// The graph layout of a commit list.
pub open spec fn spec_layout(ids: Seq<Seq<char>>, parents: Seq<Seq<Seq<char>>>) -> Seq<NodeView> {
    commits_fold(ids, parents, ids.len() as int).1
}

fn find_lane_exec(table: &Vec<(String, u32, u8)>, key: &String) -> (r: Option<usize>)
    ensures
        match r {
            Some(i) => i < table@.len() && find_lane(lane_table_view(table@), key@, 0) == Some(i as int),
            None => find_lane(lane_table_view(table@), key@, 0) is None,
        },
{
    let ghost t = lane_table_view(table@);
    let mut i: usize = 0;
    while i < table.len()
        invariant
            i <= table@.len(),
            t == lane_table_view(table@),
            find_lane(t, key@, 0) == find_lane(t, key@, i as int),
        decreases table@.len() - i,
    {
        if same_str(table[i].0.as_str(), key.as_str()) {
            return Some(i);
        }
        i = i + 1;
    }
    None
}

fn set_lane_exec(table: &mut Vec<(String, u32, u8)>, key: &String, lane: u32, color: u8)
    ensures
        lane_table_view(final(table)@) == set_lane(lane_table_view(old(table)@), key@, lane, color),
{
    let ghost t = lane_table_view(table@);
    match find_lane_exec(table, key) {
        Some(i) => {
            let k = key.clone();
            table.set(i, (k, lane, color));
            assert(lane_table_view(table@) == t.update(i as int, (key@, lane, color)));
        },
        None => {
            let k = key.clone();
            table.push((k, lane, color));
            assert(lane_table_view(table@) == t.push((key@, lane, color)));
        },
    }
}

fn color_of_exec(table: &Vec<(String, u32, u8)>, key: &String) -> (c: u8)
    ensures
        c == color_of(lane_table_view(table@), key@),
{
    match find_lane_exec(table, key) {
        Some(i) => table[i].2,
        None => 0,
    }
}

fn take_free_exec(active: &mut Vec<bool>) -> (f: usize)
    ensures
        (final(active)@, f as int) == take_free(old(active)@),
{
    let mut i: usize = 0;
    while i < active.len()
        invariant
            i <= active@.len(),
            active@ == old(active)@,
            first_free(active@, 0) == first_free(active@, i as int),
        decreases active@.len() - i,
    {
        if !active[i] {
            active.set(i, true);
            return i;
        }
        i = i + 1;
    }
    let n = active.len();
    active.push(true);
    n
}

fn contains_string(v: &Vec<String>, s: &String) -> (r: bool)
    ensures
        r == string_views(v@).contains(s@),
{
    let mut i: usize = 0;
    while i < v.len()
        invariant
            i <= v@.len(),
            forall|k: int| 0 <= k < i ==> v@[k]@ != s@,
        decreases v@.len() - i,
    {
        if same_str(v[i].as_str(), s.as_str()) {
            assert(string_views(v@)[i as int] == s@);
            return true;
        }
        i = i + 1;
    }
    proof {
        if string_views(v@).contains(s@) {
            let k = choose|k: int| 0 <= k < string_views(v@).len() && string_views(v@)[k] == s@;
            assert(v@[k]@ == s@);
        }
    }
    false
}

/// Lays out a commit list (newest first) in lanes: each commit keeps the
/// lane reserved for it by a child, or takes the leftmost free lane; its
/// first parent continues in its lane when that is free, and further parents
/// get lanes of their own. `parent_ids[i]` are the parents of `commit_ids[i]`;
/// parents outside the list are left out.
pub fn layout_graph(commit_ids: &Vec<String>, parent_ids: &Vec<Vec<String>>) -> (nodes: Vec<GraphNode>)
    requires
        parent_ids@.len() == commit_ids@.len(),
    ensures
        nodes@.map_values(|n: GraphNode| node_view(n)) == spec_layout(
            string_views(commit_ids@),
            parent_ids@.map_values(|p: Vec<String>| string_views(p@)),
        ),
{
    let ghost ids = string_views(commit_ids@);
    let ghost ps = parent_ids@.map_values(|p: Vec<String>| string_views(p@));
    let mut active: Vec<bool> = Vec::new();
    let mut table: Vec<(String, u32, u8)> = Vec::new();
    let mut counter: u8 = 0;
    let mut nodes: Vec<GraphNode> = Vec::new();
    let n = commit_ids.len();
    let mut k: usize = 0;
    while k < n
        invariant
            n == commit_ids@.len(),
            n == parent_ids@.len(),
            k <= n,
            ids == string_views(commit_ids@),
            ps == parent_ids@.map_values(|p: Vec<String>| string_views(p@)),
            commits_fold(ids, ps, k as int) == (
                (active@, lane_table_view(table@), counter),
                nodes@.map_values(|x: GraphNode| node_view(x)),
            ),
        decreases n - k,
    {
        let id = &commit_ids[k];
        let parents = &parent_ids[k];
        let ghost st0: LayoutState = (active@, lane_table_view(table@), counter);
        let ghost pv = string_views(parents@);
        assert(ids[k as int] == id@);
        assert(ps[k as int] == pv);
        let is_merge = parents.len() > 1;
        let lane: u32 = match find_lane_exec(&table, id) {
            Some(i) => table[i].1,
            None => {
                let f = take_free_exec(&mut active);
                set_lane_exec(&mut table, id, f as u32, counter);
                counter = if counter == 255 {
                    0
                } else {
                    counter + 1
                };
                f as u32
            },
        };
        let color = color_of_exec(&table, id);
        if (lane as usize) < active.len() {
            active.set(lane as usize, false);
        }
        let ghost st2: LayoutState = (active@, lane_table_view(table@), counter);
        let mut edges: Vec<GraphEdge> = Vec::new();
        let m = parents.len();
        let mut j: usize = 0;
        while j < m
            invariant
                m == pv.len(),
                pv == string_views(parents@),
                j <= m,
                ids == string_views(commit_ids@),
                parents_fold(st2, ids, lane, color, is_merge, pv, j as int) == (
                    (active@, lane_table_view(table@), counter),
                    edges@,
                ),
            decreases m - j,
        {
            let parent = &parents[j];
            assert(pv[j as int] == parent@);
            if contains_string(commit_ids, parent) {
                let pl: u32 = if j == 0 {
                    if (lane as usize) < active.len() && !active[lane as usize] {
                        active.set(lane as usize, true);
                        set_lane_exec(&mut table, parent, lane, color);
                        lane
                    } else {
                        let f = take_free_exec(&mut active);
                        set_lane_exec(&mut table, parent, f as u32, color);
                        f as u32
                    }
                } else {
                    match find_lane_exec(&table, parent) {
                        Some(i) => table[i].1,
                        None => {
                            let f = take_free_exec(&mut active);
                            set_lane_exec(&mut table, parent, f as u32, counter);
                            counter = if counter == 255 {
                                0
                            } else {
                                counter + 1
                            };
                            f as u32
                        },
                    }
                };
                let edge_type = if pl == lane {
                    EdgeType::Direct
                } else if is_merge && j > 0 {
                    EdgeType::Merge
                } else {
                    EdgeType::Fork
                };
                let pc = color_of_exec(&table, parent);
                edges.push(GraphEdge { from_lane: lane, to_lane: pl, edge_type, color_index: pc });
            }
            j = j + 1;
        }
        let ghost nodes_before = nodes@.map_values(|x: GraphNode| node_view(x));
        nodes.push(GraphNode { commit_id: id.clone(), lane, parent_edges: edges, is_merge });
        assert(nodes@.map_values(|x: GraphNode| node_view(x)) == nodes_before.push(node_view(nodes@.last())));
        k = k + 1;
    }
    nodes
}

} // verus!
