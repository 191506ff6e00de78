use bsv::bd::Issue;
use bsv::control::{
    detail_key, escape, global_key, handle_details_key, handle_edit_key, handle_tree_key,
    save_edit, start_edit, DetailAction, EditRequest, GlobalAction, Key, Modifiers,
};
use bsv::idset::IdSet;
use bsv::tree::IssueTree;
use bsv::{EditField, EditState, Focus, HierarchyMode};

fn plain(id: &str) -> Issue {
    Issue {
        id: id.to_string(),
        title: id.to_string(),
        description: None,
        status: "open".to_string(),
        priority: 0,
        issue_type: String::new(),
        created_at: String::new(),
        created_by: None,
        updated_at: String::new(),
        labels: None,
        parent: None,
        dependencies: None,
        dependents: None,
        notes: None,
        design: None,
        acceptance_criteria: None,
    }
}

fn tree() -> IssueTree {
    IssueTree::from_issues(
        vec![plain("a"), plain("a.1"), plain("a.2"), plain("b")],
        IdSet::new(),
        IdSet::new(),
        IdSet::new(),
        HierarchyMode::IdBased,
    )
}

fn press(tree: &mut IssueTree, key: Key) -> (bool, Focus) {
    let mut focus = Focus::Tree;
    let save = handle_tree_key(tree, &mut focus, key, Modifiers::Plain);
    (save, focus)
}

#[test]
fn global_keys() {
    assert_eq!(global_key(Key::Char('q'), Modifiers::Plain), Some(GlobalAction::Quit));
    assert_eq!(global_key(Key::Char('c'), Modifiers::Control), Some(GlobalAction::Quit));
    assert_eq!(global_key(Key::Char('c'), Modifiers::Plain), Some(GlobalAction::ToggleClosed));
    assert_eq!(global_key(Key::Char('?'), Modifiers::Shift), Some(GlobalAction::ToggleHelp));
    assert_eq!(global_key(Key::Char('?'), Modifiers::Plain), Some(GlobalAction::ToggleHelp));
    assert_eq!(global_key(Key::Esc, Modifiers::Plain), Some(GlobalAction::Escape));
    assert_eq!(global_key(Key::Char('r'), Modifiers::Plain), Some(GlobalAction::Refresh));
    assert_eq!(global_key(Key::Char('d'), Modifiers::Plain), Some(GlobalAction::ToggleMode));
    assert_eq!(global_key(Key::Char('d'), Modifiers::Control), None);
    assert_eq!(global_key(Key::Char('q'), Modifiers::Shift), None);
    assert_eq!(global_key(Key::Esc, Modifiers::Shift), None);
    assert_eq!(global_key(Key::Char('j'), Modifiers::Plain), None);
    assert_eq!(global_key(Key::Other, Modifiers::Other), None);
}

#[test]
fn escape_closes_the_help_first() {
    let mut help = true;
    let mut focus = Focus::Details;
    escape(&mut help, &mut focus);
    assert_eq!((help, focus), (false, Focus::Details));
    escape(&mut help, &mut focus);
    assert_eq!((help, focus), (false, Focus::Tree));
}

#[test]
fn tree_keys_move_and_fold() {
    let mut t = tree();
    assert_eq!(press(&mut t, Key::Char('j')), (false, Focus::Tree));
    assert_eq!(t.selected_id(), Some("b"));
    assert_eq!(press(&mut t, Key::Up), (false, Focus::Tree));
    assert_eq!(t.selected_id(), Some("a"));
    assert_eq!(press(&mut t, Key::Char('l')), (true, Focus::Tree));
    assert_eq!(*t.visible_items(), vec!["a", "a.1", "a.2", "b"]);
    assert_eq!(press(&mut t, Key::End), (false, Focus::Tree));
    assert_eq!(t.cursor(), 3);
    assert_eq!(press(&mut t, Key::Char('g')), (false, Focus::Tree));
    assert_eq!(t.cursor(), 0);
    let mut focus = Focus::Tree;
    assert!(!handle_tree_key(&mut t, &mut focus, Key::Char('G'), Modifiers::Shift));
    assert_eq!(t.cursor(), 3);
    assert_eq!(press(&mut t, Key::Home), (false, Focus::Tree));
    assert_eq!(press(&mut t, Key::Left), (true, Focus::Tree));
    assert_eq!(*t.visible_items(), vec!["a", "b"]);
    assert_eq!(press(&mut t, Key::Char(' ')), (true, Focus::Tree));
    assert_eq!(t.visible_items().len(), 4);
    assert_eq!(press(&mut t, Key::Tab), (true, Focus::Tree));
    assert_eq!(t.visible_items().len(), 2);
    assert_eq!(press(&mut t, Key::Enter), (false, Focus::Details));
    assert_eq!(press(&mut t, Key::Char('x')), (false, Focus::Tree));
    let mut focus = Focus::Tree;
    assert!(!handle_tree_key(&mut t, &mut focus, Key::Char('j'), Modifiers::Control));
    assert_eq!(t.cursor(), 0);
}

#[test]
fn detail_keys_scroll_and_ask() {
    let mut scroll: u16 = 5;
    let mut focus = Focus::Details;
    let mut go = |key: Key, mods: Modifiers, scroll: &mut u16, focus: &mut Focus| {
        handle_details_key(scroll, focus, key, mods)
    };
    assert_eq!(go(Key::Char('j'), Modifiers::Plain, &mut scroll, &mut focus), Some(DetailAction::Scroll(1)));
    assert_eq!(scroll, 6);
    go(Key::Up, Modifiers::Plain, &mut scroll, &mut focus);
    assert_eq!(scroll, 5);
    go(Key::PageDown, Modifiers::Plain, &mut scroll, &mut focus);
    assert_eq!(scroll, 15);
    go(Key::Char('u'), Modifiers::Control, &mut scroll, &mut focus);
    go(Key::PageUp, Modifiers::Plain, &mut scroll, &mut focus);
    assert_eq!(scroll, 0);
    go(Key::Char('d'), Modifiers::Control, &mut scroll, &mut focus);
    assert_eq!(scroll, 10);
    go(Key::Char('G'), Modifiers::Plain, &mut scroll, &mut focus);
    assert_eq!(scroll, u16::MAX);
    go(Key::Char('g'), Modifiers::Plain, &mut scroll, &mut focus);
    assert_eq!(scroll, 0);
    assert_eq!(focus, Focus::Details);
    assert_eq!(
        go(Key::Char('e'), Modifiers::Plain, &mut scroll, &mut focus),
        Some(DetailAction::Edit(EditField::Description))
    );
    assert_eq!(
        go(Key::Char('i'), Modifiers::Plain, &mut scroll, &mut focus),
        Some(DetailAction::Edit(EditField::Title))
    );
    assert_eq!(go(Key::Char('y'), Modifiers::Plain, &mut scroll, &mut focus), Some(DetailAction::Copy));
    assert_eq!(go(Key::Char('h'), Modifiers::Plain, &mut scroll, &mut focus), Some(DetailAction::FocusTree));
    assert_eq!(focus, Focus::Tree);
    assert_eq!(detail_key(Key::Char('j'), Modifiers::Shift), None);
    assert_eq!(detail_key(Key::Other, Modifiers::Plain), None);
}

#[test]
fn edit_keys_in_the_title() {
    let mut e = EditState::new("a".to_string(), EditField::Title, "ab".to_string());
    assert_eq!(handle_edit_key(&mut e, Key::Char('c'), Modifiers::Plain), EditRequest::Done);
    assert_eq!(handle_edit_key(&mut e, Key::Char('D'), Modifiers::Shift), EditRequest::Done);
    assert_eq!(e.buffer(), "abcD");
    assert_eq!(handle_edit_key(&mut e, Key::Up, Modifiers::Plain), EditRequest::Done);
    assert_eq!(e.cursor(), 4);
    assert_eq!(handle_edit_key(&mut e, Key::Home, Modifiers::Plain), EditRequest::Done);
    assert_eq!(e.cursor(), 0);
    assert_eq!(handle_edit_key(&mut e, Key::Delete, Modifiers::Plain), EditRequest::Done);
    assert_eq!(handle_edit_key(&mut e, Key::End, Modifiers::Plain), EditRequest::Done);
    assert_eq!(handle_edit_key(&mut e, Key::Backspace, Modifiers::Plain), EditRequest::Done);
    assert_eq!(handle_edit_key(&mut e, Key::Left, Modifiers::Plain), EditRequest::Done);
    assert_eq!(e.buffer(), "bc");
    assert_eq!(e.cursor(), 1);
    assert_eq!(
        handle_edit_key(&mut e, Key::Enter, Modifiers::Plain),
        EditRequest::SaveThenEdit(EditField::Description)
    );
    assert_eq!(
        handle_edit_key(&mut e, Key::Tab, Modifiers::Plain),
        EditRequest::SaveThenEdit(EditField::Description)
    );
    assert_eq!(handle_edit_key(&mut e, Key::BackTab, Modifiers::Shift), EditRequest::Done);
    assert_eq!(handle_edit_key(&mut e, Key::Char('s'), Modifiers::Control), EditRequest::Save);
    assert_eq!(handle_edit_key(&mut e, Key::Enter, Modifiers::Control), EditRequest::Save);
    assert_eq!(handle_edit_key(&mut e, Key::Esc, Modifiers::Plain), EditRequest::Cancel);
    assert_eq!(handle_edit_key(&mut e, Key::Char('x'), Modifiers::Control), EditRequest::Done);
    assert_eq!(e.buffer(), "bc");
}

#[test]
fn edit_keys_in_the_description() {
    let mut e = EditState::new("a".to_string(), EditField::Description, "one".to_string());
    assert_eq!(handle_edit_key(&mut e, Key::Enter, Modifiers::Plain), EditRequest::Done);
    assert_eq!(handle_edit_key(&mut e, Key::Tab, Modifiers::Plain), EditRequest::Done);
    assert_eq!(e.buffer(), "one\n    ");
    assert_eq!(handle_edit_key(&mut e, Key::Up, Modifiers::Plain), EditRequest::Done);
    assert_eq!((e.cursor_line(), e.cursor_col()), (0, 3));
    assert_eq!(handle_edit_key(&mut e, Key::Down, Modifiers::Plain), EditRequest::Done);
    assert_eq!((e.cursor_line(), e.cursor_col()), (1, 3));
    assert_eq!(
        handle_edit_key(&mut e, Key::BackTab, Modifiers::Plain),
        EditRequest::SaveThenEdit(EditField::Title)
    );
    assert_eq!(
        handle_edit_key(&mut e, Key::BackTab, Modifiers::Shift),
        EditRequest::SaveThenEdit(EditField::Title)
    );
}

#[test]
fn editing_begins_with_the_text_of_the_field() {
    let mut issue = plain("bsv-1");
    issue.title = "Title".to_string();
    let e = start_edit(&issue, EditField::Title);
    assert_eq!((e.buffer().as_str(), e.cursor(), e.field()), ("Title", 5, EditField::Title));
    assert_eq!(e.issue_id(), "bsv-1");
    let e = start_edit(&issue, EditField::Description);
    assert_eq!((e.buffer().as_str(), e.cursor()), ("", 0));
    issue.description = Some("a\nb".to_string());
    let e = start_edit(&issue, EditField::Description);
    assert_eq!((e.buffer().as_str(), e.cursor(), e.cursor_line()), ("a\nb", 3, 1));
    assert!(!e.is_modified());
}

#[test]
fn saving_asks_for_an_update_only_after_a_change() {
    let mut e = EditState::new("bsv-1".to_string(), EditField::Title, "old".to_string());
    assert_eq!(save_edit(&e), None);
    e.insert_char('!');
    assert_eq!(save_edit(&e), Some(vec!["update".to_string(), "bsv-1".to_string(), "--title".to_string(), "old!".to_string()]));
    let mut d = EditState::new("bsv-2".to_string(), EditField::Description, String::new());
    d.insert_str("a\nb");
    assert_eq!(
        save_edit(&d),
        Some(vec!["update".to_string(), "bsv-2".to_string(), "--description".to_string(), "a\nb".to_string()])
    );
    d.revert();
    assert_eq!(save_edit(&d), None);
}
