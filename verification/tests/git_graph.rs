use slio_git::git::graph::{compute_ref_labels, layout_graph, EdgeType, RefType};

fn ids(v: &[&str]) -> Vec<String> {
    v.iter().map(|s| s.to_string()).collect()
}

#[test]
fn linear_history_stays_in_one_lane() {
    let commits = ids(&["c", "b", "a"]);
    let parents = vec![ids(&["b"]), ids(&["a"]), ids(&[])];
    let nodes = layout_graph(&commits, &parents);
    assert_eq!(nodes.iter().map(|n| n.lane).collect::<Vec<_>>(), vec![0, 0, 0]);
    assert_eq!(nodes[0].parent_edges.len(), 1);
    assert_eq!(nodes[0].parent_edges[0].edge_type, EdgeType::Direct);
    assert!(nodes[2].parent_edges.is_empty());
}

#[test]
fn merge_parent_gets_a_new_lane() {
    let commits = ids(&["m", "x", "y", "base"]);
    let parents = vec![ids(&["x", "y"]), ids(&["base"]), ids(&["base"]), ids(&[])];
    let nodes = layout_graph(&commits, &parents);
    assert!(nodes[0].is_merge);
    assert_eq!(nodes[0].lane, 0);
    assert_eq!(nodes[0].parent_edges[0].to_lane, 0);
    assert_eq!(nodes[0].parent_edges[1].to_lane, 1);
    assert_eq!(nodes[0].parent_edges[1].edge_type, EdgeType::Merge);
    assert_eq!(nodes[2].lane, 1);
    assert_eq!(nodes[3].lane, 1);
}

#[test]
fn parents_outside_the_list_are_skipped() {
    let commits = ids(&["a"]);
    let parents = vec![ids(&["zzz"])];
    let nodes = layout_graph(&commits, &parents);
    assert!(nodes[0].parent_edges.is_empty());
}

#[test]
fn ref_labels_group_by_commit() {
    let refs = vec![
        ("refs/heads/main".to_string(), "c1".to_string()),
        ("refs/remotes/origin/main".to_string(), "c1".to_string()),
        ("refs/tags/v1".to_string(), "c0".to_string()),
        ("refs/notes/x".to_string(), "c0".to_string()),
    ];
    let table = compute_ref_labels(&refs, Some("c1".into()), Some("main".into()));
    assert_eq!(table.len(), 2);
    assert_eq!(table[0].0, "c1");
    assert_eq!(table[0].1.len(), 2);
    assert_eq!(table[0].1[0].name, "main");
    assert!(table[0].1[0].is_current);
    assert_eq!(table[0].1[1].ref_type, RefType::RemoteBranch);
    assert_eq!(table[0].1[1].name, "origin/main");
    assert!(!table[0].1[1].is_current);
    assert_eq!(table[1].1[0].ref_type, RefType::Tag);
    let detached = compute_ref_labels(&Vec::new(), Some("c9".into()), None);
    assert_eq!(detached[0].0, "c9");
    assert_eq!(detached[0].1[0].ref_type, RefType::Head);
}
