//! Collapsible tree of named nodes (branch and file trees).
use crate::text::{chars_contain, chars_of, contains_seq, lowercase, to_lowercase};
use vstd::prelude::*;

verus! {

/// A node of the tree.
#[derive(Debug)]
pub struct TreeNode {
    /// Unique identifier.
    pub id: String,
    /// Display label.
    pub label: String,
    /// Child nodes.
    pub children: Vec<TreeNode>,
    /// Whether the node is expanded.
    pub expanded: bool,
    /// Optional icon text.
    pub icon: Option<String>,
    /// Whether the node is a leaf (no children possible).
    pub is_leaf: bool,
    /// Indent depth (set while rendering).
    pub depth: u32,
}

impl TreeNode {
    /// A leaf node.
    pub fn leaf(id: &str, label: &str) -> (n: Self)
        ensures
            n.id@ == id@,
            n.label@ == label@,
            n.children@.len() == 0,
            !n.expanded,
            n.icon is None,
            n.is_leaf,
            n.depth == 0,
    {
        TreeNode {
            id: String::from_str(id),
            label: String::from_str(label),
            children: Vec::new(),
            expanded: false,
            icon: None,
            is_leaf: true,
            depth: 0,
        }
    }

    /// A group node, expanded, holding `children`.
    pub fn group(id: &str, label: &str, children: Vec<TreeNode>) -> (n: Self)
        ensures
            n.id@ == id@,
            n.label@ == label@,
            n.children == children,
            n.expanded,
            n.icon is None,
            !n.is_leaf,
            n.depth == 0,
    {
        TreeNode {
            id: String::from_str(id),
            label: String::from_str(label),
            children,
            expanded: true,
            icon: None,
            is_leaf: false,
            depth: 0,
        }
    }

    /// The node with `icon` set.
    pub fn with_icon(self, icon: &str) -> (n: Self)
        ensures
            n.icon is Some && n.icon->0@ == icon@,
            n.id == self.id,
            n.label == self.label,
            n.children == self.children,
            n.expanded == self.expanded,
            n.is_leaf == self.is_leaf,
            n.depth == self.depth,
    {
        let mut n = self;
        n.icon = Some(String::from_str(icon));
        n
    }

    /// The node with its expanded state set.
    pub fn with_expanded(self, expanded: bool) -> (n: Self)
        ensures
            n.expanded == expanded,
            n.id == self.id,
            n.label == self.label,
            n.children == self.children,
            n.icon == self.icon,
            n.is_leaf == self.is_leaf,
            n.depth == self.depth,
    {
        let mut n = self;
        n.expanded = expanded;
        n
    }
}

/// Number of leaves under a node (a leaf counts itself).
pub open spec fn spec_count_leaves(node: TreeNode) -> nat
    decreases node,
{
    if node.is_leaf {
        1
    } else {
        sum_leaves(node.children@)
    }
}

/// Number of leaves under a list of sibling nodes.
pub open spec fn sum_leaves(nodes: Seq<TreeNode>) -> nat
    decreases nodes,
{
    if nodes.len() == 0 {
        0
    } else {
        spec_count_leaves(nodes[0]) + sum_leaves(nodes.subrange(1, nodes.len() as int))
    }
}

/// Counts the leaves under `node`.
pub fn count_leaves(node: &TreeNode) -> (n: usize)
    requires
        spec_count_leaves(*node) <= usize::MAX,
    ensures
        n == spec_count_leaves(*node),
    decreases node,
{
    if node.is_leaf {
        return 1;
    }
    let ghost kids = node.children@;
    let len = node.children.len();
    let mut total: usize = 0;
    let mut i: usize = len;
    assert(kids.subrange(len as int, len as int).len() == 0);
    assert(kids.subrange(0, len as int) == kids);
    while i > 0
        invariant
            kids == node.children@,
            len == kids.len(),
            i <= len,
            !node.is_leaf,
            spec_count_leaves(*node) <= usize::MAX,
            total + sum_leaves(kids.subrange(0, i as int)) == sum_leaves(kids),
            total == sum_leaves(kids.subrange(i as int, len as int)),
        decreases i,
    {
        i = i - 1;
        proof {
            lemma_sum_split(kids, i as int);
            assert(decreases_to!(*node => node.children));
            assert(decreases_to!(node.children => node.children@));
            assert(decreases_to!(node.children@ => node.children@[i as int]));
        }
        let c = count_leaves(&node.children[i]);
        total = total + c;
    }
    total
}

proof fn lemma_sum_split(kids: Seq<TreeNode>, i: int)
    requires
        0 <= i < kids.len(),
    ensures
        sum_leaves(kids.subrange(i, kids.len() as int)) == spec_count_leaves(kids[i]) + sum_leaves(
            kids.subrange(i + 1, kids.len() as int),
        ),
        sum_leaves(kids.subrange(0, i + 1)) == sum_leaves(kids.subrange(0, i)) + spec_count_leaves(kids[i]),
{
    let t = kids.subrange(i, kids.len() as int);
    assert(t[0] == kids[i]);
    assert(t.subrange(1, t.len() as int) == kids.subrange(i + 1, kids.len() as int));
    lemma_sum_push(kids.subrange(0, i), kids[i]);
    assert(kids.subrange(0, i).push(kids[i]) == kids.subrange(0, i + 1));
}

proof fn lemma_sum_push(s: Seq<TreeNode>, x: TreeNode)
    ensures
        sum_leaves(s.push(x)) == sum_leaves(s) + spec_count_leaves(x),
    decreases s.len(),
{
    let p = s.push(x);
    if s.len() == 0 {
        assert(p.subrange(1, p.len() as int).len() == 0);
        assert(p[0] == x);
        assert(sum_leaves(p) == spec_count_leaves(x) + sum_leaves(p.subrange(1, p.len() as int)));
    } else {
        assert(p[0] == s[0]);
        assert(p.subrange(1, p.len() as int) == s.subrange(1, s.len() as int).push(x));
        lemma_sum_push(s.subrange(1, s.len() as int), x);
        assert(sum_leaves(p) == spec_count_leaves(p[0]) + sum_leaves(p.subrange(1, p.len() as int)));
        assert(sum_leaves(s) == spec_count_leaves(s[0]) + sum_leaves(s.subrange(1, s.len() as int)));
    }
}

/// Whether a node or one of its descendants has a label containing the
/// filter, ignoring case.
pub open spec fn spec_node_matches(node: TreeNode, filter: Seq<char>) -> bool
    decreases node,
{
    contains_seq(lowercase(node.label@), lowercase(filter)) || any_matches(node.children@, filter)
}

/// Whether one of the nodes matches the filter.
pub open spec fn any_matches(nodes: Seq<TreeNode>, filter: Seq<char>) -> bool
    decreases nodes,
{
    if nodes.len() == 0 {
        false
    } else {
        spec_node_matches(nodes[0], filter) || any_matches(nodes.subrange(1, nodes.len() as int), filter)
    }
}

proof fn lemma_any_from(nodes: Seq<TreeNode>, filter: Seq<char>, i: int)
    requires
        0 <= i < nodes.len(),
    ensures
        any_matches(nodes.subrange(i, nodes.len() as int), filter) == (spec_node_matches(nodes[i], filter)
            || any_matches(nodes.subrange(i + 1, nodes.len() as int), filter)),
{
    let t = nodes.subrange(i, nodes.len() as int);
    assert(t[0] == nodes[i]);
    assert(t.subrange(1, t.len() as int) == nodes.subrange(i + 1, nodes.len() as int));
}

/// Whether `node` or a descendant matches the search filter.
pub fn node_matches_filter(node: &TreeNode, filter: &str) -> (r: bool)
    ensures
        r == spec_node_matches(*node, filter@),
    decreases node,
{
    let filter_lower = chars_of(to_lowercase(filter).as_str());
    let label_lower = chars_of(to_lowercase(node.label.as_str()).as_str());
    if chars_contain(&label_lower, &filter_lower) {
        return true;
    }
    let ghost kids = node.children@;
    let len = node.children.len();
    let mut i: usize = 0;
    assert(kids.subrange(0, len as int) == kids);
    while i < len
        invariant
            kids == node.children@,
            len == kids.len(),
            i <= len,
            !contains_seq(lowercase(node.label@), lowercase(filter@)),
            any_matches(kids, filter@) == any_matches(kids.subrange(i as int, len as int), filter@),
        decreases len - i,
    {
        proof {
            lemma_any_from(kids, filter@, i as int);
            assert(decreases_to!(*node => node.children));
            assert(decreases_to!(node.children => node.children@));
            assert(decreases_to!(node.children@ => node.children@[i as int]));
        }
        if node_matches_filter(&node.children[i], filter) {
            return true;
        }
        i = i + 1;
    }
    assert(kids.subrange(len as int, len as int).len() == 0);
    false
}

} // verus!
