use bsv::bd::{Dependency, Issue};
use bsv::idset::IdSet;
use bsv::markdown::StyledLine;
use bsv::panel::format_issue_detail;
use bsv::tree::IssueTree;
use bsv::HierarchyMode;
use ratatui::backend::TestBackend;
use ratatui::buffer::Buffer;
use ratatui::layout::Rect;
use ratatui::text::{Line, Span};
use ratatui::widgets::{Block, Borders, List, ListItem, Paragraph, Wrap};
use ratatui::{Frame, Terminal};

/// Convert buffer to a string for snapshot comparison
fn buffer_to_string(buffer: &Buffer) -> String {
    let mut output = String::new();
    for y in 0..buffer.area.height {
        for x in 0..buffer.area.width {
            output.push_str(buffer[(x, y)].symbol());
        }
        // Trim trailing whitespace from each line
        output = output.trim_end().to_string();
        output.push('\n');
    }
    output
}

fn line_of(line: StyledLine) -> Line<'static> {
    Line::from(line.spans.into_iter().map(|span| Span::raw(span.text)).collect::<Vec<Span<'static>>>())
}

fn render_detail_panel(
    frame: &mut Frame,
    issue: Option<&Issue>,
    ready_ids: &IdSet,
    area: Rect,
    focused: bool,
    scroll: u16,
) {
    let content: Vec<Line> = match issue {
        Some(issue) => format_issue_detail(issue, ready_ids).into_iter().map(line_of).collect(),
        None => vec![Line::from("No issue selected")],
    };
    let title = if focused { " Details (j/k to scroll, e=edit, i=title) " } else { " Details " };
    let paragraph = Paragraph::new(content)
        .block(Block::default().title(title).borders(Borders::ALL))
        .wrap(Wrap { trim: false })
        .scroll((scroll, 0));
    frame.render_widget(paragraph, area);
}

fn render_tree_panel(frame: &mut Frame, tree: &IssueTree, area: Rect) {
    let items: Vec<ListItem> =
        tree.row_lines().into_iter().map(|line| ListItem::new(line_of(line))).collect();
    let mode_indicator = match tree.hierarchy_mode() {
        HierarchyMode::IdBased => "Epics",
        HierarchyMode::DependencyBased => "Deps",
    };
    let title = format!(" Issues ({}) ", mode_indicator);
    let list = List::new(items).block(Block::default().title(title).borders(Borders::ALL));
    frame.render_widget(list, area);
}

fn make_test_issue(id: &str, title: &str, status: &str) -> Issue {
    Issue {
        id: id.to_string(),
        title: title.to_string(),
        description: Some("Test description".to_string()),
        status: status.to_string(),
        priority: 2,
        issue_type: "task".to_string(),
        created_at: "2024-01-01".to_string(),
        created_by: None,
        updated_at: "2024-01-01".to_string(),
        labels: None,
        parent: None,
        dependencies: None,
        dependents: None,
        notes: None,
        design: None,
        acceptance_criteria: None,
    }
}

fn make_rich_test_issue() -> Issue {
    Issue {
        id: "bsv-rich".to_string(),
        title: "Rich Test Issue".to_string(),
        description: Some("# Header\n\nWith **bold** and `code`".to_string()),
        status: "open".to_string(),
        priority: 1, // Yellow priority
        issue_type: "feature".to_string(),
        created_at: "2024-01-01".to_string(),
        created_by: Some("tester".to_string()),
        updated_at: "2024-01-02".to_string(),
        labels: Some(vec!["bug".to_string(), "urgent".to_string()]),
        parent: Some("bsv-parent".to_string()),
        dependencies: Some(vec![Dependency {
            id: "bsv-dep1".to_string(),
            title: "Blocking Issue".to_string(),
            dependency_type: Some("blocks".to_string()),
        }]),
        dependents: Some(vec![Dependency {
            id: "bsv-child1".to_string(),
            title: "Child Issue".to_string(),
            dependency_type: None,
        }]),
        notes: Some("- Item one\n  - Nested item\n- Item two".to_string()),
        design: None,
        acceptance_criteria: None,
    }
}

#[test]
fn test_detail_panel_snapshot() {
    let backend = TestBackend::new(60, 20);
    let mut terminal = Terminal::new(backend).unwrap();

    let issue = make_test_issue("bsv-123", "Test Issue Title", "open");
    let ready_ids = IdSet::new();

    terminal
        .draw(|frame| {
            render_detail_panel(frame, Some(&issue), &ready_ids, frame.area(), true, 0);
        })
        .unwrap();

    let output = buffer_to_string(terminal.backend().buffer());

    // Verify key elements are present
    assert!(output.contains("Details"));
    assert!(output.contains("Test Issue Title"));
    assert!(output.contains("bsv-123"));
    assert!(output.contains("BLOCKED")); // Not in ready_ids
}

#[test]
fn test_detail_panel_ready_issue() {
    let backend = TestBackend::new(60, 20);
    let mut terminal = Terminal::new(backend).unwrap();

    let issue = make_test_issue("bsv-456", "Ready Issue", "open");
    let mut ready_ids = IdSet::new();
    ready_ids.insert("bsv-456".to_string());

    terminal
        .draw(|frame| {
            render_detail_panel(frame, Some(&issue), &ready_ids, frame.area(), true, 0);
        })
        .unwrap();

    let output = buffer_to_string(terminal.backend().buffer());
    assert!(output.contains("READY"));
}

#[test]
fn test_detail_panel_closed_issue() {
    let backend = TestBackend::new(60, 20);
    let mut terminal = Terminal::new(backend).unwrap();

    let issue = make_test_issue("bsv-789", "Closed Issue", "closed");
    let ready_ids = IdSet::new();

    terminal
        .draw(|frame| {
            render_detail_panel(frame, Some(&issue), &ready_ids, frame.area(), true, 0);
        })
        .unwrap();

    let output = buffer_to_string(terminal.backend().buffer());
    // Closed issues should not show READY or BLOCKED
    assert!(!output.contains("READY"));
    assert!(!output.contains("BLOCKED"));
}

#[test]
fn test_tree_panel_snapshot() {
    let backend = TestBackend::new(40, 10);
    let mut terminal = Terminal::new(backend).unwrap();

    let issues = vec![
        make_test_issue("bsv-a", "First Issue", "open"),
        make_test_issue("bsv-b", "Second Issue", "open"),
        make_test_issue("bsv-a.1", "Child Issue", "open"),
    ];

    let mut expanded = IdSet::new();
    expanded.insert("bsv-a".to_string());
    let ready_ids = IdSet::new();

    let tree =
        IssueTree::from_issues(issues, expanded, IdSet::new(), ready_ids, HierarchyMode::IdBased);

    terminal
        .draw(|frame| {
            render_tree_panel(frame, &tree, frame.area());
        })
        .unwrap();

    let output = buffer_to_string(terminal.backend().buffer());

    // Verify structure
    assert!(output.contains("Issues"));
    assert!(output.contains("bsv-a"));
    assert!(output.contains("First Issue"));
    assert!(output.contains("bsv-a.1")); // Child should be visible when expanded
    assert!(output.contains("Child Issue"));
}

#[test]
fn test_detail_panel_rich_issue() {
    let backend = TestBackend::new(70, 30);
    let mut terminal = Terminal::new(backend).unwrap();

    let issue = make_rich_test_issue();
    let ready_ids = IdSet::new();

    terminal
        .draw(|frame| {
            render_detail_panel(frame, Some(&issue), &ready_ids, frame.area(), true, 0);
        })
        .unwrap();

    let output = buffer_to_string(terminal.backend().buffer());

    // Verify rich content is rendered
    assert!(output.contains("Rich Test Issue"));
    assert!(output.contains("bsv-rich"));
    assert!(output.contains("BLOCKED")); // Has dependencies
    assert!(output.contains("bsv-dep1")); // Blocker ID shown
    assert!(output.contains("Labels:"));
    assert!(output.contains("bug"));
    assert!(output.contains("Notes:"));
    assert!(output.contains("Dependencies:"));
    assert!(output.contains("Children:"));
    assert!(output.contains("bsv-child1"));
}

#[test]
fn test_detail_panel_priorities() {
    // Test different priority colors are rendered
    for priority in [0, 1, 2, 3, 4] {
        let backend = TestBackend::new(60, 15);
        let mut terminal = Terminal::new(backend).unwrap();

        let mut issue = make_test_issue("bsv-p", "Priority Test", "closed");
        issue.priority = priority;
        let ready_ids = IdSet::new();

        terminal
            .draw(|frame| {
                render_detail_panel(frame, Some(&issue), &ready_ids, frame.area(), true, 0);
            })
            .unwrap();

        let output = buffer_to_string(terminal.backend().buffer());
        assert!(output.contains(&format!("P{}", priority)));
    }
}
