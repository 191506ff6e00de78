use bsv::bd::{Dependency, Issue};
use bsv::idset::IdSet;
use bsv::markdown::{SpanStyle, StyledLine};
use bsv::panel::{decimal_chars, format_issue_detail, join, signed_decimal_chars};
use bsv::tree::{indent_chars, IssueTree};
use bsv::HierarchyMode;

fn make_test_issue(id: &str, title: &str, status: &str) -> Issue {
    Issue {
        id: id.to_string(),
        title: title.to_string(),
        description: Some("Test description".to_string()),
        status: status.to_string(),
        priority: 2,
        issue_type: "task".to_string(),
        created_at: "2024-01-01".to_string(),
        created_by: None,
        updated_at: "2024-01-01".to_string(),
        labels: None,
        parent: None,
        dependencies: None,
        dependents: None,
        notes: None,
        design: None,
        acceptance_criteria: None,
    }
}

fn make_rich_test_issue() -> Issue {
    Issue {
        id: "bsv-rich".to_string(),
        title: "Rich Test Issue".to_string(),
        description: Some("# Header\n\nWith **bold** and `code`".to_string()),
        status: "open".to_string(),
        priority: 1,
        issue_type: "feature".to_string(),
        created_at: "2024-01-01".to_string(),
        created_by: Some("tester".to_string()),
        updated_at: "2024-01-02".to_string(),
        labels: Some(vec!["bug".to_string(), "urgent".to_string()]),
        parent: Some("bsv-parent".to_string()),
        dependencies: Some(vec![
            Dependency {
                id: "bsv-dep1".to_string(),
                title: "Blocking Issue".to_string(),
                dependency_type: Some("blocks".to_string()),
            },
            Dependency {
                id: "bsv-rel".to_string(),
                title: "Related Issue".to_string(),
                dependency_type: Some("related".to_string()),
            },
            Dependency {
                id: "bsv-dep2".to_string(),
                title: "Untyped".to_string(),
                dependency_type: None,
            },
        ]),
        dependents: Some(vec![Dependency {
            id: "bsv-child1".to_string(),
            title: "Child Issue".to_string(),
            dependency_type: None,
        }]),
        notes: Some("- Item one\n  - Nested item\n- Item two".to_string()),
        design: None,
        acceptance_criteria: None,
    }
}

fn text(line: &StyledLine) -> String {
    line.spans.iter().map(|s| s.text.as_str()).collect()
}

fn texts(lines: &[StyledLine]) -> Vec<String> {
    lines.iter().map(text).collect()
}

fn chars(v: Vec<char>) -> String {
    v.into_iter().collect()
}

#[test]
fn detail_of_a_plain_issue() {
    let lines = format_issue_detail(&make_test_issue("bsv-123", "Test Issue Title", "open"), &IdSet::new());
    assert_eq!(
        texts(&lines),
        vec![
            "Title: Test Issue Title",
            "",
            "ID: bsv-123  Type: task",
            "Status: open  Priority: P2",
            "BLOCKED",
            "",
            "Description:",
            "Test description",
            "",
            "Created: 2024-01-01",
            "Updated: 2024-01-01",
        ]
    );
    assert_eq!(lines[0].spans[0].style, SpanStyle::Bold);
    assert_eq!(lines[0].spans[1].style, SpanStyle::Plain);
    assert_eq!(lines[3].spans[4].style, SpanStyle::PriorityTwo);
    assert_eq!(lines[4].spans[0].style, SpanStyle::Blocked);
    assert_eq!(lines[9].spans[1].style, SpanStyle::Muted);
}

#[test]
fn detail_of_a_ready_issue() {
    let mut ready = IdSet::new();
    ready.insert("bsv-456".to_string());
    let lines = format_issue_detail(&make_test_issue("bsv-456", "Ready Issue", "open"), &ready);
    assert_eq!(text(&lines[4]), "READY");
    assert_eq!(lines[4].spans[0].style, SpanStyle::Ready);
}

#[test]
fn detail_of_a_closed_issue_says_neither_ready_nor_blocked() {
    let mut ready = IdSet::new();
    ready.insert("bsv-789".to_string());
    let lines = format_issue_detail(&make_test_issue("bsv-789", "Closed Issue", "closed"), &ready);
    let all = texts(&lines).join("\n");
    assert!(!all.contains("READY"));
    assert!(!all.contains("BLOCKED"));
    assert_eq!(text(&lines[4]), "");
    assert_eq!(text(&lines[5]), "Description:");
}

#[test]
fn detail_of_a_rich_issue() {
    let lines = format_issue_detail(&make_rich_test_issue(), &IdSet::new());
    assert_eq!(
        texts(&lines),
        vec![
            "Title: Rich Test Issue",
            "",
            "ID: bsv-rich  Type: feature",
            "Status: open  Priority: P1",
            "BLOCKED by bsv-dep1, bsv-dep2",
            "",
            "Description:",
            "Header",
            "",
            "With bold and code",
            "",
            "Labels: bug, urgent",
            "",
            "Notes:",
            "• Item one",
            "  ◦ Nested item",
            "• Item two",
            "",
            "Dependencies:",
            "  bsv-dep1 (blocks) - Blocking Issue",
            "  bsv-rel (related) - Related Issue",
            "  bsv-dep2 (unknown) - Untyped",
            "",
            "Children:",
            "  bsv-child1 - Child Issue",
            "",
            "Created: 2024-01-01",
            "Updated: 2024-01-02",
        ]
    );
    assert_eq!(lines[4].spans[1].style, SpanStyle::BlockedBy);
    assert_eq!(lines[7].spans[0].style, SpanStyle::Header);
}

#[test]
fn detail_leaves_out_what_is_empty() {
    let mut issue = make_test_issue("a", "t", "closed");
    issue.description = Some(String::new());
    issue.labels = Some(vec![]);
    issue.notes = None;
    issue.dependencies = Some(vec![]);
    issue.dependents = Some(vec![]);
    let lines = format_issue_detail(&issue, &IdSet::new());
    assert_eq!(lines.len(), 7);
}

#[test]
fn detail_shows_every_priority() {
    let styles = [
        (0, SpanStyle::PriorityZero),
        (1, SpanStyle::PriorityOne),
        (2, SpanStyle::PriorityTwo),
        (3, SpanStyle::PriorityThree),
        (4, SpanStyle::Muted),
        (-1, SpanStyle::Muted),
        (i32::MIN, SpanStyle::Muted),
        (i32::MAX, SpanStyle::Muted),
    ];
    for (priority, style) in styles {
        let mut issue = make_test_issue("bsv-p", "Priority Test", "closed");
        issue.priority = priority;
        let lines = format_issue_detail(&issue, &IdSet::new());
        assert_eq!(lines[3].spans[4].text, format!("P{}", priority));
        assert_eq!(lines[3].spans[4].style, style);
    }
}

#[test]
fn numerals_are_decimal() {
    assert_eq!(chars(decimal_chars(0)), "0");
    assert_eq!(chars(decimal_chars(7)), "7");
    assert_eq!(chars(decimal_chars(10)), "10");
    assert_eq!(chars(decimal_chars(1234567890)), "1234567890");
    assert_eq!(chars(decimal_chars(u64::MAX)), u64::MAX.to_string());
    assert_eq!(chars(signed_decimal_chars(-45)), "-45");
    assert_eq!(chars(signed_decimal_chars(0)), "0");
    assert_eq!(chars(signed_decimal_chars(i32::MIN)), i32::MIN.to_string());
}

#[test]
fn joining_puts_the_separator_between() {
    let parts = |v: &[&str]| v.iter().map(|s| s.to_string()).collect::<Vec<String>>();
    assert_eq!(chars(join(&parts(&[]), ", ")), "");
    assert_eq!(chars(join(&parts(&["a"]), ", ")), "a");
    assert_eq!(chars(join(&parts(&["a", "", "c"]), ", ")), "a, , c");
}

#[test]
fn indent_is_capped_and_then_numbered() {
    assert_eq!(chars(indent_chars(0)), "");
    assert_eq!(chars(indent_chars(1)), "  ");
    assert_eq!(chars(indent_chars(4)), "        ");
    assert_eq!(chars(indent_chars(5)), "        [5]");
    assert_eq!(chars(indent_chars(12)), "        [12]");
}

#[test]
fn tree_rows_show_mark_identifier_and_title() {
    let mut closed = make_test_issue("bsv-c", "Closed One", "closed");
    closed.priority = 3;
    let issues = vec![
        make_test_issue("bsv-a", "First Issue", "open"),
        make_test_issue("bsv-b", "Second Issue", "open"),
        make_test_issue("bsv-a.1", "Child Issue", "open"),
        make_test_issue("bsv-a.1.1", "Deep Issue", "open"),
        closed,
    ];
    let mut expanded = IdSet::new();
    expanded.insert("bsv-a".to_string());
    let mut ready = IdSet::new();
    ready.insert("bsv-b".to_string());
    let tree = IssueTree::from_issues(issues, expanded, IdSet::new(), ready, HierarchyMode::IdBased);
    let lines = tree.row_lines();
    assert_eq!(
        texts(&lines),
        vec![
            "▼ bsv-a First Issue",
            "  ▶ bsv-a.1 Child Issue",
            "  bsv-b Second Issue",
            "  bsv-c Closed One",
        ]
    );
    assert_eq!(lines[0].spans[0].style, SpanStyle::RowBlocked);
    assert_eq!(lines[0].spans[1].style, SpanStyle::Muted);
    assert_eq!(lines[2].spans[2].style, SpanStyle::RowReady);
    assert_eq!(lines[3].spans[0].style, SpanStyle::RowClosed);
}

#[test]
fn tree_rows_mark_shared_nodes_in_the_dependency_hierarchy_only() {
    let dep = |id: &str| Dependency { id: id.to_string(), title: id.to_string(), dependency_type: None };
    let mut shared = make_test_issue("s", "Shared", "open");
    shared.dependencies = Some(vec![dep("r1"), dep("r2")]);
    let issues = vec![make_test_issue("r1", "A", "open"), make_test_issue("r2", "B", "open"), shared];
    let mut fold = IdSet::new();
    fold.insert("r1".to_string());
    let mut tree =
        IssueTree::from_issues(issues, IdSet::new(), fold, IdSet::new(), HierarchyMode::DependencyBased);
    let lines = tree.row_lines();
    assert_eq!(texts(&lines), vec!["▼ r1 A", "    s Shared", "▶ r2 B"]);
    assert_eq!(lines[1].spans[1].style, SpanStyle::IdShared);
    assert_eq!(lines[0].spans[1].style, SpanStyle::Muted);
    tree.set_hierarchy_mode(HierarchyMode::IdBased);
    let lines = tree.row_lines();
    assert_eq!(texts(&lines), vec!["  r1 A", "  r2 B", "  s Shared"]);
    assert_eq!(lines[2].spans[1].style, SpanStyle::Muted);
}

#[test]
fn edit_panel_marks_the_character_under_the_cursor() {
    let issue = make_test_issue("bsv-1", "T", "open");
    let mut edit = bsv::EditState::new("bsv-1".to_string(), bsv::EditField::Description, "ab\ncd\n".to_string());
    let lines = bsv::panel::edit_panel_lines(Some(&issue), &edit);
    assert_eq!(
        texts(&lines),
        vec![
            "ID: bsv-1",
            "",
            "Description:",
            "ab",
            "cd",
            " ",
            "",
            "Press Ctrl+S to save, Esc to cancel",
        ]
    );
    assert_eq!(lines[2].spans[0].style, SpanStyle::FieldName);
    assert_eq!(lines[5].spans.len(), 3);
    assert_eq!(lines[5].spans[1].style, SpanStyle::Cursor);
    assert_eq!(lines[7].spans[0].style, SpanStyle::Muted);
    edit.move_up();
    edit.move_right();
    edit.insert_char('x');
    edit.move_left();
    let lines = bsv::panel::edit_panel_lines(None, &edit);
    assert_eq!(
        texts(&lines),
        vec!["Description:", "ab", "cxd", "", "", "[Modified] Press Ctrl+S to save, Esc to cancel"]
    );
    let marked: Vec<(&str, SpanStyle)> =
        lines[2].spans.iter().map(|s| (s.text.as_str(), s.style)).collect();
    assert_eq!(
        marked,
        vec![("c", SpanStyle::Plain), ("x", SpanStyle::Cursor), ("d", SpanStyle::Plain)]
    );
    assert_eq!(lines[5].spans[0].style, SpanStyle::Changed);
    let title = bsv::EditState::new("a".to_string(), bsv::EditField::Title, String::new());
    assert_eq!(
        texts(&bsv::panel::edit_panel_lines(None, &title)),
        vec!["Title:", " ", "", "Press Ctrl+S to save, Esc to cancel"]
    );
}
