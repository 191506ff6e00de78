use bsv::bd::{Dependency, Issue};
use bsv::idset::IdSet;
use bsv::tree::IssueTree;
use bsv::HierarchyMode;

fn issue(id: &str, title: &str, priority: i32, status: &str, deps: &[(&str, Option<&str>)]) -> Issue {
    let dependencies = if deps.is_empty() {
        None
    } else {
        Some(
            deps.iter()
                .map(|(dep_id, kind)| Dependency {
                    id: dep_id.to_string(),
                    title: format!("Dep {}", dep_id),
                    dependency_type: kind.map(|k| k.to_string()),
                })
                .collect(),
        )
    };
    Issue {
        id: id.to_string(),
        title: title.to_string(),
        description: None,
        status: status.to_string(),
        priority,
        issue_type: "task".to_string(),
        created_at: "2024-01-01".to_string(),
        created_by: None,
        updated_at: "2024-01-01".to_string(),
        labels: None,
        parent: None,
        dependencies,
        dependents: None,
        notes: None,
        design: None,
        acceptance_criteria: None,
    }
}

fn open(id: &str, priority: i32) -> Issue {
    issue(id, id, priority, "open", &[])
}

fn blocked(id: &str, on: &[&str]) -> Issue {
    let deps: Vec<(&str, Option<&str>)> = on.iter().map(|d| (*d, Some("blocks"))).collect();
    issue(id, id, 2, "open", &deps)
}

fn set(ids: &[&str]) -> IdSet {
    let mut s = IdSet::new();
    for id in ids {
        s.insert(id.to_string());
    }
    s
}

fn id_tree(issues: Vec<Issue>, expanded: &[&str]) -> IssueTree {
    IssueTree::from_issues(issues, set(expanded), IdSet::new(), IdSet::new(), HierarchyMode::IdBased)
}

fn dep_tree(issues: Vec<Issue>, expanded: &[&str]) -> IssueTree {
    IssueTree::from_issues(
        issues,
        IdSet::new(),
        set(expanded),
        IdSet::new(),
        HierarchyMode::DependencyBased,
    )
}

fn visible(tree: &IssueTree) -> Vec<String> {
    tree.visible_items().clone()
}

fn depth(tree: &IssueTree, id: &str) -> usize {
    tree.node(id).unwrap().depth
}

fn count(tree: &IssueTree, id: &str) -> usize {
    tree.visible_items().iter().filter(|x| x.as_str() == id).count()
}

#[test]
fn flat_issues_sorted_by_priority_then_title() {
    let tree = id_tree(vec![open("a", 2), open("b", 1), open("c", 2)], &[]);
    assert_eq!(visible(&tree), vec!["b", "a", "c"]);
    assert_eq!(depth(&tree, "a"), 0);
    assert_eq!(depth(&tree, "b"), 0);
    assert_eq!(depth(&tree, "c"), 0);
}

#[test]
fn epic_expanded_step_by_step() {
    let issues = || vec![open("epic", 1), open("epic.1", 2), open("epic.2", 2), open("epic.1.1", 2)];
    let tree = id_tree(issues(), &["epic"]);
    assert_eq!(visible(&tree), vec!["epic", "epic.1", "epic.2"]);
    let tree = id_tree(issues(), &["epic", "epic.1"]);
    assert_eq!(visible(&tree), vec!["epic", "epic.1", "epic.1.1", "epic.2"]);
    assert_eq!(depth(&tree, "epic"), 0);
    assert_eq!(depth(&tree, "epic.1"), 1);
    assert_eq!(depth(&tree, "epic.1.1"), 2);
    assert_eq!(depth(&tree, "epic.2"), 1);
}

#[test]
fn diamond_lists_bottom_once() {
    let tree = dep_tree(
        vec![
            blocked("root", &[]),
            blocked("left", &["root"]),
            blocked("right", &["root"]),
            blocked("bottom", &["left", "right"]),
        ],
        &["root", "left", "right"],
    );
    assert_eq!(count(&tree, "bottom"), 1);
    assert!(tree.multi_parent_ids().contains("bottom"));
    assert!(!tree.multi_parent_ids().contains("left"));
    assert_eq!(visible(&tree), vec!["root", "left", "bottom", "right"]);
    assert_eq!(depth(&tree, "bottom"), 2);
}

#[test]
fn hidden_parent_takes_no_indent() {
    let mut tree = id_tree(
        vec![issue("closed_parent", "p", 1, "closed", &[]), open("closed_parent.1", 2)],
        &["closed_parent"],
    );
    tree.set_show_closed(false);
    assert_eq!(visible(&tree), vec!["closed_parent.1"]);
    assert_eq!(depth(&tree, "closed_parent.1"), 0);
}

#[test]
fn shared_child_of_two_closed_roots_listed_once() {
    let mut tree = dep_tree(
        vec![
            issue("closed1", "c1", 2, "closed", &[]),
            issue("closed2", "c2", 2, "closed", &[]),
            blocked("shared_child", &["closed1", "closed2"]),
        ],
        &[],
    );
    tree.toggle_show_closed();
    assert_eq!(visible(&tree), vec!["shared_child"]);
}

#[test]
fn mutual_blocking_has_no_root() {
    let tree = dep_tree(vec![blocked("x", &["y"]), blocked("y", &["x"])], &["x", "y"]);
    assert!(tree.visible_items().is_empty());
    assert!(tree.dep_root_ids().is_empty());
    assert_eq!(tree.cursor(), 0);
    assert_eq!(tree.selected_id(), None);
}

#[test]
fn cycle_below_a_root_is_cut() {
    let tree = dep_tree(
        vec![blocked("r", &[]), blocked("x", &["r", "y"]), blocked("y", &["x"])],
        &["r", "x", "y"],
    );
    assert_eq!(visible(&tree), vec!["r", "x", "y"]);
    assert_eq!(depth(&tree, "y"), 2);
}

#[test]
fn self_blocking_issue() {
    let tree = dep_tree(vec![blocked("r", &[]), blocked("s", &["r", "s"])], &["r", "s"]);
    assert_eq!(visible(&tree), vec!["r", "s"]);
    assert!(tree.multi_parent_ids().contains("s"));
}

#[test]
fn forest_every_child_is_listed_under_one_parent() {
    let tree = id_tree(
        vec![open("a", 1), open("a.1", 1), open("a.1.1", 1), open("b", 1), open("b.1", 1)],
        &[],
    );
    let ids = ["a", "a.1", "a.1.1", "b", "b.1"];
    for child in ids {
        let holders = ids
            .iter()
            .filter(|p| tree.node(p).unwrap().children.iter().any(|c| c == child))
            .count();
        let is_root = tree.root_ids().iter().any(|r| r == child);
        assert_eq!(holders + if is_root { 1 } else { 0 }, 1);
    }
}

#[test]
fn single_appearance_under_every_fold_state() {
    let all = ["r", "a", "b", "c", "d"];
    for mask in 0..32u32 {
        let fold: Vec<&str> =
            all.iter().enumerate().filter(|(k, _)| mask & (1 << k) != 0).map(|(_, s)| *s).collect();
        let tree = dep_tree(
            vec![
                blocked("r", &[]),
                blocked("a", &["r", "d"]),
                blocked("b", &["r", "a"]),
                blocked("c", &["a", "b"]),
                blocked("d", &["c", "b"]),
            ],
            &fold,
        );
        for id in all {
            assert!(count(&tree, id) <= 1);
        }
    }
}

#[test]
fn depth_is_parent_depth_plus_one_or_unchanged_below_hidden() {
    let mut tree = id_tree(
        vec![
            open("a", 1),
            issue("a.1", "x", 1, "closed", &[]),
            open("a.1.1", 1),
            open("a.1.1.1", 1),
        ],
        &["a", "a.1.1"],
    );
    assert_eq!(visible(&tree), vec!["a", "a.1"]);
    tree.set_show_closed(false);
    assert_eq!(visible(&tree), vec!["a", "a.1.1", "a.1.1.1"]);
    assert_eq!(depth(&tree, "a"), 0);
    assert_eq!(depth(&tree, "a.1.1"), 1);
    assert_eq!(depth(&tree, "a.1.1.1"), 2);
}

#[test]
fn reprojection_gives_the_same_roots_and_children() {
    let issues = || {
        vec![
            blocked("b", &["a"]),
            open("a", 2),
            open("a.2", 1),
            open("a.1", 1),
            blocked("c", &["a", "b"]),
        ]
    };
    let one = id_tree(issues(), &[]);
    let two = dep_tree(issues(), &["a"]);
    assert_eq!(one.root_ids(), two.root_ids());
    assert_eq!(one.dep_root_ids(), two.dep_root_ids());
    for id in ["a", "a.1", "a.2", "b", "c"] {
        assert_eq!(one.node(id).unwrap().children, two.node(id).unwrap().children);
        assert_eq!(one.node(id).unwrap().dep_children, two.node(id).unwrap().dep_children);
    }
    assert_eq!(one.node("a").unwrap().children, vec!["a.2", "a.1"]);
    assert_eq!(one.node("a").unwrap().dep_children, vec!["b", "c"]);
}

#[test]
fn expand_then_collapse_restores_the_list() {
    let mut tree = dep_tree(
        vec![blocked("r", &[]), blocked("a", &["r"]), blocked("b", &["r", "a"]), blocked("q", &[])],
        &["a"],
    );
    let before = visible(&tree);
    assert_eq!(before, vec!["q", "r"]);
    tree.move_down();
    tree.expand();
    assert_eq!(visible(&tree), vec!["q", "r", "a", "b"]);
    assert_eq!(tree.selected_id(), Some("r"));
    tree.collapse();
    assert_eq!(visible(&tree), before);
    assert_eq!(tree.cursor(), 1);
    assert!(tree.dep_expanded().contains("a"));
    assert!(!tree.dep_expanded().contains("r"));
}

#[test]
fn collapse_of_an_already_expanded_node_does_not_round_trip() {
    let mut tree = id_tree(vec![open("a", 1), open("a.1", 1)], &["a"]);
    let before = visible(&tree);
    tree.expand();
    tree.collapse();
    assert_ne!(visible(&tree), before);
    assert_eq!(visible(&tree), vec!["a"]);
}

#[test]
fn operations_on_an_empty_tree_do_nothing() {
    let mut tree = id_tree(vec![], &["ghost"]);
    tree.move_up();
    tree.move_down();
    tree.move_to_top();
    tree.move_to_bottom();
    tree.expand();
    tree.collapse();
    tree.toggle_expand();
    tree.toggle_show_closed();
    tree.set_hierarchy_mode(HierarchyMode::DependencyBased);
    tree.rebuild_visible();
    assert!(tree.visible_items().is_empty());
    assert_eq!(tree.cursor(), 0);
    assert_eq!(tree.selected_id(), None);
    assert!(tree.selected_node().is_none());
    assert!(tree.expanded().contains("ghost"));
    assert!(!tree.select(0));
}

#[test]
fn fold_state_naming_no_node_is_inert() {
    let with = id_tree(vec![open("a", 1), open("a.1", 1)], &["nope", "a.9"]);
    let without = id_tree(vec![open("a", 1), open("a.1", 1)], &[]);
    assert_eq!(visible(&with), visible(&without));
    assert!(with.is_expanded("nope"));
    assert!(!with.has_children_in_current_mode("nope"));
}

#[test]
fn dangling_references_degrade_to_roots() {
    let tree = dep_tree(vec![blocked("a", &["missing"]), open("x.1", 1)], &[]);
    assert_eq!(tree.dep_root_ids().len(), 2);
    assert_eq!(tree.root_ids().len(), 2);
    assert!(tree.root_ids().iter().any(|r| r == "x.1"));
    assert!(!tree.multi_parent_ids().contains("a"));
}

#[test]
fn multi_parent_counts_surviving_edges_only() {
    let tree = dep_tree(
        vec![
            blocked("r", &[]),
            blocked("one", &["r", "missing"]),
            blocked("two", &["r", "one"]),
            issue("rel", "rel", 2, "open", &[("r", Some("blocks")), ("one", Some("related"))]),
            issue("untyped", "u", 2, "open", &[("r", None), ("one", None)]),
        ],
        &[],
    );
    assert!(!tree.multi_parent_ids().contains("one"));
    assert!(tree.multi_parent_ids().contains("two"));
    assert!(!tree.multi_parent_ids().contains("rel"));
    assert!(tree.multi_parent_ids().contains("untyped"));
}

#[test]
fn redundant_edges_give_one_child() {
    let tree = dep_tree(vec![blocked("r", &[]), blocked("c", &["r", "r"])], &["r"]);
    assert_eq!(tree.node("r").unwrap().dep_children, vec!["c"]);
    assert_eq!(visible(&tree), vec!["r", "c"]);
}

#[test]
fn repeated_identifier_keeps_the_later_record() {
    let tree = id_tree(vec![open("a", 5), open("b", 3), issue("a", "again", 1, "open", &[])], &[]);
    assert_eq!(tree.nodes().len(), 2);
    assert_eq!(tree.node("a").unwrap().issue.title, "again");
    assert_eq!(visible(&tree), vec!["a", "b"]);
}

#[test]
fn children_are_listed_by_priority_then_title_and_ties_keep_snapshot_order() {
    let tree = id_tree(
        vec![
            open("p", 1),
            issue("p.4", "same", 2, "open", &[]),
            issue("p.3", "same", 2, "open", &[]),
            issue("p.2", "Zeta", 1, "open", &[]),
            issue("p.1", "alpha", 1, "open", &[]),
            issue("p.0", "Zet", 1, "open", &[]),
        ],
        &["p"],
    );
    assert_eq!(visible(&tree), vec!["p", "p.0", "p.2", "p.1", "p.4", "p.3"]);
    assert_eq!(tree.node("p").unwrap().children, vec!["p.4", "p.3", "p.2", "p.1", "p.0"]);
}

#[test]
fn negative_priorities_sort_first() {
    let tree = id_tree(vec![open("a", 0), open("b", -1), open("c", i32::MIN), open("d", i32::MAX)], &[]);
    assert_eq!(visible(&tree), vec!["c", "b", "a", "d"]);
}

#[test]
fn cursor_is_clamped_when_the_list_shrinks() {
    let mut tree = id_tree(
        vec![open("a", 1), issue("b", "b", 2, "closed", &[]), issue("c", "c", 3, "closed", &[])],
        &[],
    );
    tree.move_to_bottom();
    assert_eq!(tree.cursor(), 2);
    tree.toggle_show_closed();
    assert_eq!(visible(&tree), vec!["a"]);
    assert_eq!(tree.cursor(), 0);
    assert_eq!(tree.selected_id(), Some("a"));
}

#[test]
fn cursor_is_zero_when_the_list_becomes_empty() {
    let mut tree = id_tree(
        vec![issue("a", "a", 1, "closed", &[]), issue("b", "b", 2, "closed", &[])],
        &[],
    );
    tree.move_down();
    assert_eq!(tree.cursor(), 1);
    tree.toggle_show_closed();
    assert!(tree.visible_items().is_empty());
    assert_eq!(tree.cursor(), 0);
    tree.toggle_show_closed();
    assert_eq!(tree.cursor(), 0);
    assert_eq!(tree.selected_id(), Some("a"));
}

#[test]
fn collapse_on_a_leaf_moves_to_the_dotted_parent() {
    let mut tree = id_tree(vec![open("a", 1), open("a.1", 1), open("a.2", 1)], &["a"]);
    tree.move_to_bottom();
    assert_eq!(tree.selected_id(), Some("a.2"));
    tree.collapse();
    assert_eq!(tree.selected_id(), Some("a"));
    assert_eq!(visible(&tree), vec!["a", "a.1", "a.2"]);
    tree.collapse();
    assert_eq!(visible(&tree), vec!["a"]);
    tree.collapse();
    assert_eq!(tree.selected_id(), Some("a"));
}

#[test]
fn collapse_in_dependency_mode_moves_to_the_first_surviving_blocker() {
    let mut tree = dep_tree(
        vec![
            blocked("r1", &[]),
            blocked("r2", &[]),
            issue(
                "c",
                "c",
                2,
                "open",
                &[("r1", Some("related")), ("missing", Some("blocks")), ("r2", Some("blocks")), ("r1", None)],
            ),
        ],
        &["r1", "r2"],
    );
    assert_eq!(visible(&tree), vec!["r1", "c", "r2"]);
    tree.move_down();
    assert_eq!(tree.selected_id(), Some("c"));
    tree.collapse();
    assert_eq!(tree.selected_id(), Some("r2"));
    assert_eq!(tree.cursor(), 2);
}

#[test]
fn collapse_stays_when_the_parent_is_not_listed() {
    let mut tree = id_tree(
        vec![issue("a", "a", 1, "closed", &[]), open("a.1", 1), open("b", 1)],
        &[],
    );
    tree.set_show_closed(false);
    assert_eq!(visible(&tree), vec!["a.1", "b"]);
    tree.collapse();
    assert_eq!(tree.cursor(), 0);
    assert_eq!(tree.selected_id(), Some("a.1"));
}

#[test]
fn toggle_expand_leaves_leaves_alone() {
    let mut tree = id_tree(vec![open("a", 1), open("b", 1)], &[]);
    tree.toggle_expand();
    tree.expand();
    assert!(!tree.is_expanded("a"));
    assert!(tree.expanded().is_empty());
}

#[test]
fn toggle_expand_all_is_a_binary_toggle() {
    let mut tree = id_tree(
        vec![open("a", 1), open("a.1", 1), open("a.1.1", 1), open("b", 1), open("b.1", 1)],
        &[],
    );
    tree.toggle_expand_all();
    assert_eq!(visible(&tree), vec!["a", "a.1", "a.1.1", "b", "b.1"]);
    assert!(tree.is_expanded("a") && tree.is_expanded("a.1") && tree.is_expanded("b"));
    assert!(!tree.is_expanded("a.1.1") && !tree.is_expanded("b.1"));
    tree.move_to_bottom();
    tree.move_up();
    assert_eq!(tree.selected_id(), Some("b"));
    tree.collapse();
    assert_eq!(visible(&tree), vec!["a", "a.1", "a.1.1", "b"]);
    tree.toggle_expand_all();
    assert_eq!(visible(&tree), vec!["a", "b"]);
    assert!(tree.expanded().is_empty());
}

#[test]
fn toggle_expand_all_acts_on_the_hierarchy_on_display() {
    let mut tree = IssueTree::from_issues(
        vec![blocked("r", &[]), blocked("c", &["r"]), open("r.1", 1)],
        set(&["r"]),
        IdSet::new(),
        IdSet::new(),
        HierarchyMode::DependencyBased,
    );
    tree.toggle_expand_all();
    assert!(tree.dep_expanded().contains("r"));
    assert!(!tree.dep_expanded().contains("c"));
    assert!(tree.expanded().contains("r"));
    assert_eq!(visible(&tree), vec!["r.1", "r", "c"]);
    tree.set_hierarchy_mode(HierarchyMode::IdBased);
    assert_eq!(visible(&tree), vec!["c", "r", "r.1"]);
    assert_eq!(tree.hierarchy_mode(), HierarchyMode::IdBased);
    assert!(tree.has_children("r"));
    assert!(tree.has_children_in_current_mode("r"));
    tree.set_hierarchy_mode(HierarchyMode::DependencyBased);
    assert!(tree.has_children("r"));
    assert!(!tree.has_children_in_current_mode("r.1"));
}

#[test]
fn select_moves_the_cursor_only_onto_a_row() {
    let mut tree = id_tree(vec![open("a", 1), open("b", 2)], &[]);
    assert!(tree.select(1));
    assert_eq!(tree.selected_id(), Some("b"));
    assert!(!tree.select(2));
    assert_eq!(tree.cursor(), 1);
    assert_eq!(tree.selected_node().unwrap().issue.id, "b");
}

#[test]
fn ready_identifiers_are_kept_as_given() {
    let tree = IssueTree::from_issues(
        vec![open("a", 1)],
        IdSet::new(),
        IdSet::new(),
        set(&["a", "zz"]),
        HierarchyMode::IdBased,
    );
    assert!(tree.ready_ids().contains("a"));
    assert!(tree.ready_ids().contains("zz"));
    assert!(!tree.ready_ids().contains("b"));
    assert!(tree.show_closed());
}

#[test]
fn closed_is_the_exact_literal() {
    let mut tree =
        id_tree(vec![issue("a", "a", 1, "Closed", &[]), issue("b", "b", 1, "closed ", &[])], &[]);
    tree.set_show_closed(false);
    assert_eq!(visible(&tree), vec!["a", "b"]);
}

#[test]
fn rebuild_visible_keeps_a_well_formed_tree_as_it_is() {
    let mut tree = id_tree(vec![open("a", 1), open("a.1", 1), open("b", 1)], &["a"]);
    tree.move_down();
    let before = visible(&tree);
    tree.rebuild_visible();
    assert_eq!(visible(&tree), before);
    assert_eq!(tree.cursor(), 1);
}

#[test]
fn hidden_expanded_duplicate_paths_keep_first_listing() {
    let mut tree = dep_tree(
        vec![
            blocked("r", &[]),
            issue("h", "h", 2, "closed", &[("r", Some("blocks"))]),
            issue("k", "k", 1, "open", &[("r", Some("blocks")), ("h", Some("blocks"))]),
            issue("z", "z", 3, "open", &[("h", Some("blocks")), ("k", Some("blocks"))]),
        ],
        &["r", "k"],
    );
    tree.set_show_closed(false);
    assert_eq!(visible(&tree), vec!["r", "k", "z"]);
    assert_eq!(depth(&tree, "k"), 1);
    assert_eq!(depth(&tree, "z"), 2);
}

#[test]
fn stacked_diamonds_are_walked_once() {
    let mut issues = vec![blocked("n0", &[])];
    let mut fold = vec!["n0".to_string()];
    for level in 1..40 {
        let above = format!("n{}", level - 1);
        let left = format!("l{}", level);
        let right = format!("r{}", level);
        let join = format!("n{}", level);
        issues.push(blocked(&left, &[&above]));
        issues.push(blocked(&right, &[&above]));
        issues.push(blocked(&join, &[&left, &right]));
        fold.extend([left, right, join]);
    }
    let fold: Vec<&str> = fold.iter().map(|s| s.as_str()).collect();
    let tree = dep_tree(issues, &fold);
    assert_eq!(tree.visible_items().len(), 1 + 39 * 3);
    assert_eq!(depth(&tree, "n39"), 78);
    assert_eq!(count(&tree, "n39"), 1);
}

#[test]
fn collapse_on_a_leaf_in_the_fold_state_moves_to_the_parent() {
    let mut tree = id_tree(vec![open("a", 2), open("a.1", 2)], &["a", "a.1"]);
    tree.move_down();
    assert_eq!(tree.selected_id(), Some("a.1"));
    tree.collapse();
    assert_eq!(tree.cursor(), 0);
    assert_eq!(tree.selected_id(), Some("a"));
    assert!(tree.expanded().contains("a"));
    assert!(tree.expanded().contains("a.1"));
    assert_eq!(visible(&tree), vec!["a", "a.1"]);
}

#[test]
fn collapse_on_a_root_leaf_in_the_fold_state_changes_nothing() {
    let mut tree = dep_tree(vec![blocked("r", &[]), blocked("q", &[])], &["q", "r"]);
    tree.collapse();
    assert_eq!(tree.cursor(), 0);
    assert!(tree.dep_expanded().contains("q") && tree.dep_expanded().contains("r"));
    assert_eq!(visible(&tree), vec!["q", "r"]);
}

#[test]
fn stacked_diamonds_of_hidden_issues_are_walked_once() {
    let mut issues = vec![issue("n0", "n0", 2, "closed", &[])];
    for level in 1..60 {
        let above = format!("n{}", level - 1);
        let left = format!("l{}", level);
        let right = format!("r{}", level);
        let join = format!("n{}", level);
        issues.push(issue(&left, &left, 2, "closed", &[(above.as_str(), Some("blocks"))]));
        issues.push(issue(&right, &right, 2, "closed", &[(above.as_str(), Some("blocks"))]));
        issues.push(issue(
            &join,
            &join,
            2,
            "closed",
            &[(left.as_str(), Some("blocks")), (right.as_str(), Some("blocks"))],
        ));
    }
    issues.push(blocked("leaf", &["n59"]));
    let mut tree = dep_tree(issues, &[]);
    assert_eq!(tree.visible_items().len(), 1);
    tree.set_show_closed(false);
    assert_eq!(visible(&tree), vec!["leaf"]);
    assert_eq!(depth(&tree, "leaf"), 0);
}
