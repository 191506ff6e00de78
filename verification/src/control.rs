//! What the keys do: in the tree panel, in the detail panel, while a field is
//! edited, and wherever the focus is.

use vstd::prelude::*;
use crate::bd::{update_issue_description, update_issue_title, Issue};
use crate::edit::{EditField, EditState, EditView};
use crate::scroll::{scroll_details, scrolled_by, signed_scroll};
use crate::tree::{IssueTree, TreeView};
use crate::Focus;

verus! {

/// A key as the terminal reports it.
#[derive(Debug, Clone, Copy, PartialEq, Eq, Structural)]
pub enum Key {
    Char(char),
    Esc,
    Enter,
    Backspace,
    Delete,
    Left,
    Right,
    Up,
    Down,
    Home,
    End,
    Tab,
    BackTab,
    PageUp,
    PageDown,
    /// Any other key.
    Other,
}

/// The modifier keys held with a key.
#[derive(Debug, Clone, Copy, PartialEq, Eq, Structural)]
pub enum Modifiers {
    /// No modifier.
    Plain,
    Shift,
    Control,
    /// Any other modifier, or several.
    Other,
}

/// What a key asks for wherever the focus is.
#[derive(Debug, Clone, Copy, PartialEq, Eq, Structural)]
pub enum GlobalAction {
    Quit,
    ToggleHelp,
    /// Closes the help where it is open; else gives the focus to the tree.
    Escape,
    Refresh,
    ToggleClosed,
    ToggleMode,
}

/// What a key asks for wherever the focus is, if anything.
pub open spec fn global_action(key: Key, mods: Modifiers) -> Option<GlobalAction> {
    if (key == Key::Char('q') && mods == Modifiers::Plain) || (key == Key::Char('c') && mods
        == Modifiers::Control) {
        Some(GlobalAction::Quit)
    } else if key == Key::Char('?') && (mods == Modifiers::Plain || mods == Modifiers::Shift) {
        Some(GlobalAction::ToggleHelp)
    } else if mods != Modifiers::Plain {
        None
    } else if key == Key::Esc {
        Some(GlobalAction::Escape)
    } else if key == Key::Char('r') {
        Some(GlobalAction::Refresh)
    } else if key == Key::Char('c') {
        Some(GlobalAction::ToggleClosed)
    } else if key == Key::Char('d') {
        Some(GlobalAction::ToggleMode)
    } else {
        None
    }
}

/// What a key asks for wherever the focus is, if anything.
pub fn global_key(key: Key, mods: Modifiers) -> (r: Option<GlobalAction>)
    ensures
        r == global_action(key, mods),
{
    match (key, mods) {
        (Key::Char('q'), Modifiers::Plain) => Some(GlobalAction::Quit),
        (Key::Char('c'), Modifiers::Control) => Some(GlobalAction::Quit),
        (Key::Char('?'), Modifiers::Plain) => Some(GlobalAction::ToggleHelp),
        (Key::Char('?'), Modifiers::Shift) => Some(GlobalAction::ToggleHelp),
        (Key::Esc, Modifiers::Plain) => Some(GlobalAction::Escape),
        (Key::Char('r'), Modifiers::Plain) => Some(GlobalAction::Refresh),
        (Key::Char('c'), Modifiers::Plain) => Some(GlobalAction::ToggleClosed),
        (Key::Char('d'), Modifiers::Plain) => Some(GlobalAction::ToggleMode),
        _ => None,
    }
}

/// Help and focus after the key that closes the help or leaves a panel.
pub fn escape(show_help: &mut bool, focus: &mut Focus)
    ensures
        !*final(show_help),
        *final(focus) == if *old(show_help) {
            *old(focus)
        } else {
            Focus::Tree
        },
{
    if *show_help {
        *show_help = false;
    } else {
        *focus = Focus::Tree;
    }
}

/// What a key asks of the tree panel.
#[derive(Debug, Clone, Copy, PartialEq, Eq, Structural)]
pub enum TreeAction {
    MoveDown,
    MoveUp,
    Top,
    Bottom,
    Expand,
    Collapse,
    Toggle,
    ToggleAll,
    FocusDetails,
}

/// What a key asks of the tree panel, if anything.
pub open spec fn tree_action(key: Key, mods: Modifiers) -> Option<TreeAction> {
    if key == Key::Char('G') && (mods == Modifiers::Shift || mods == Modifiers::Plain) {
        Some(TreeAction::Bottom)
    } else if mods != Modifiers::Plain {
        None
    } else if key == Key::Char('j') || key == Key::Down {
        Some(TreeAction::MoveDown)
    } else if key == Key::Char('k') || key == Key::Up {
        Some(TreeAction::MoveUp)
    } else if key == Key::Char('g') || key == Key::Home {
        Some(TreeAction::Top)
    } else if key == Key::End {
        Some(TreeAction::Bottom)
    } else if key == Key::Char('l') || key == Key::Right {
        Some(TreeAction::Expand)
    } else if key == Key::Char('h') || key == Key::Left {
        Some(TreeAction::Collapse)
    } else if key == Key::Char(' ') {
        Some(TreeAction::Toggle)
    } else if key == Key::Enter {
        Some(TreeAction::FocusDetails)
    } else if key == Key::Tab {
        Some(TreeAction::ToggleAll)
    } else {
        None
    }
}

/// The tree after what the key asked for.
pub open spec fn tree_after(v: TreeView, action: Option<TreeAction>) -> TreeView {
    match action {
        Some(TreeAction::MoveDown) => v.moved_down(),
        Some(TreeAction::MoveUp) => v.moved_up(),
        Some(TreeAction::Top) => v.at_top(),
        Some(TreeAction::Bottom) => v.at_bottom(),
        Some(TreeAction::Expand) => v.expand(),
        Some(TreeAction::Collapse) => v.collapse(),
        Some(TreeAction::Toggle) => v.toggle_expand(),
        Some(TreeAction::ToggleAll) => v.toggle_expand_all(),
        Some(TreeAction::FocusDetails) => v,
        None => v,
    }
}

/// Whether the fold state is to be saved after what the key asked for.
pub open spec fn saves_fold(action: Option<TreeAction>) -> bool {
    action == Some(TreeAction::Expand) || action == Some(TreeAction::Collapse) || action == Some(
        TreeAction::Toggle,
    ) || action == Some(TreeAction::ToggleAll)
}

fn tree_key(key: Key, mods: Modifiers) -> (r: Option<TreeAction>)
    ensures
        r == tree_action(key, mods),
{
    match (key, mods) {
        (Key::Char('j'), Modifiers::Plain) => Some(TreeAction::MoveDown),
        (Key::Down, Modifiers::Plain) => Some(TreeAction::MoveDown),
        (Key::Char('k'), Modifiers::Plain) => Some(TreeAction::MoveUp),
        (Key::Up, Modifiers::Plain) => Some(TreeAction::MoveUp),
        (Key::Char('g'), Modifiers::Plain) => Some(TreeAction::Top),
        (Key::Char('G'), Modifiers::Shift) => Some(TreeAction::Bottom),
        (Key::Char('G'), Modifiers::Plain) => Some(TreeAction::Bottom),
        (Key::Home, Modifiers::Plain) => Some(TreeAction::Top),
        (Key::End, Modifiers::Plain) => Some(TreeAction::Bottom),
        (Key::Char('l'), Modifiers::Plain) => Some(TreeAction::Expand),
        (Key::Right, Modifiers::Plain) => Some(TreeAction::Expand),
        (Key::Char('h'), Modifiers::Plain) => Some(TreeAction::Collapse),
        (Key::Left, Modifiers::Plain) => Some(TreeAction::Collapse),
        (Key::Char(' '), Modifiers::Plain) => Some(TreeAction::Toggle),
        (Key::Enter, Modifiers::Plain) => Some(TreeAction::FocusDetails),
        (Key::Tab, Modifiers::Plain) => Some(TreeAction::ToggleAll),
        _ => None,
    }
}

/// Does in the tree panel what the key asks for. Returns whether the fold
/// state is to be saved; what is then to be remembered of the tree is what
/// `state::save_tree` remembers: both fold states and the hierarchy on
/// display.
pub fn handle_tree_key(tree: &mut IssueTree, focus: &mut Focus, key: Key, mods: Modifiers) -> (save:
    bool)
    requires
        old(tree).wf(),
    ensures
        final(tree).wf(),
        final(tree)@ == tree_after(old(tree)@, tree_action(key, mods)),
        *final(focus) == if tree_action(key, mods) == Some(TreeAction::FocusDetails) {
            Focus::Details
        } else {
            *old(focus)
        },
        save == saves_fold(tree_action(key, mods)),
{
    match tree_key(key, mods) {
        Some(TreeAction::MoveDown) => {
            tree.move_down();
            false
        },
        Some(TreeAction::MoveUp) => {
            tree.move_up();
            false
        },
        Some(TreeAction::Top) => {
            tree.move_to_top();
            false
        },
        Some(TreeAction::Bottom) => {
            tree.move_to_bottom();
            false
        },
        Some(TreeAction::Expand) => {
            tree.expand();
            true
        },
        Some(TreeAction::Collapse) => {
            tree.collapse();
            true
        },
        Some(TreeAction::Toggle) => {
            tree.toggle_expand();
            true
        },
        Some(TreeAction::ToggleAll) => {
            tree.toggle_expand_all();
            true
        },
        Some(TreeAction::FocusDetails) => {
            *focus = Focus::Details;
            false
        },
        None => false,
    }
}

/// The rows by which the detail panel scrolls down a line.
pub const LINE_DOWN: i16 = 1;

/// The rows by which the detail panel scrolls up a line.
pub const LINE_UP: i16 = -1;

/// The rows by which the detail panel scrolls down a page.
pub const PAGE_DOWN: i16 = 10;

/// The rows by which the detail panel scrolls up a page.
pub const PAGE_UP: i16 = -10;

/// What a key asks of the detail panel.
#[derive(Debug, Clone, Copy, PartialEq, Eq, Structural)]
pub enum DetailAction {
    /// Scrolls by so many rows.
    Scroll(i16),
    Top,
    Bottom,
    FocusTree,
    Edit(EditField),
    Copy,
}

/// What a key asks of the detail panel, if anything.
pub open spec fn detail_action(key: Key, mods: Modifiers) -> Option<DetailAction> {
    if key == Key::Char('d') && mods == Modifiers::Control {
        Some(DetailAction::Scroll(PAGE_DOWN))
    } else if key == Key::Char('u') && mods == Modifiers::Control {
        Some(DetailAction::Scroll(PAGE_UP))
    } else if key == Key::Char('G') && (mods == Modifiers::Shift || mods == Modifiers::Plain) {
        Some(DetailAction::Bottom)
    } else if mods != Modifiers::Plain {
        None
    } else if key == Key::Char('j') || key == Key::Down {
        Some(DetailAction::Scroll(LINE_DOWN))
    } else if key == Key::Char('k') || key == Key::Up {
        Some(DetailAction::Scroll(LINE_UP))
    } else if key == Key::PageDown {
        Some(DetailAction::Scroll(PAGE_DOWN))
    } else if key == Key::PageUp {
        Some(DetailAction::Scroll(PAGE_UP))
    } else if key == Key::Char('g') || key == Key::Home {
        Some(DetailAction::Top)
    } else if key == Key::End {
        Some(DetailAction::Bottom)
    } else if key == Key::Char('h') || key == Key::Left {
        Some(DetailAction::FocusTree)
    } else if key == Key::Char('e') {
        Some(DetailAction::Edit(EditField::Description))
    } else if key == Key::Char('i') {
        Some(DetailAction::Edit(EditField::Title))
    } else if key == Key::Char('y') {
        Some(DetailAction::Copy)
    } else {
        None
    }
}

/// What a key asks of the detail panel, if anything.
pub fn detail_key(key: Key, mods: Modifiers) -> (r: Option<DetailAction>)
    ensures
        r == detail_action(key, mods),
{
    match (key, mods) {
        (Key::Char('j'), Modifiers::Plain) => Some(DetailAction::Scroll(LINE_DOWN)),
        (Key::Down, Modifiers::Plain) => Some(DetailAction::Scroll(LINE_DOWN)),
        (Key::Char('k'), Modifiers::Plain) => Some(DetailAction::Scroll(LINE_UP)),
        (Key::Up, Modifiers::Plain) => Some(DetailAction::Scroll(LINE_UP)),
        (Key::PageDown, Modifiers::Plain) => Some(DetailAction::Scroll(PAGE_DOWN)),
        (Key::Char('d'), Modifiers::Control) => Some(DetailAction::Scroll(PAGE_DOWN)),
        (Key::PageUp, Modifiers::Plain) => Some(DetailAction::Scroll(PAGE_UP)),
        (Key::Char('u'), Modifiers::Control) => Some(DetailAction::Scroll(PAGE_UP)),
        (Key::Char('g'), Modifiers::Plain) => Some(DetailAction::Top),
        (Key::Home, Modifiers::Plain) => Some(DetailAction::Top),
        (Key::Char('G'), Modifiers::Shift) => Some(DetailAction::Bottom),
        (Key::Char('G'), Modifiers::Plain) => Some(DetailAction::Bottom),
        (Key::End, Modifiers::Plain) => Some(DetailAction::Bottom),
        (Key::Char('h'), Modifiers::Plain) => Some(DetailAction::FocusTree),
        (Key::Left, Modifiers::Plain) => Some(DetailAction::FocusTree),
        (Key::Char('e'), Modifiers::Plain) => Some(DetailAction::Edit(EditField::Description)),
        (Key::Char('i'), Modifiers::Plain) => Some(DetailAction::Edit(EditField::Title)),
        (Key::Char('y'), Modifiers::Plain) => Some(DetailAction::Copy),
        _ => None,
    }
}

/// The scroll of the detail panel after what the key asked for. The last
/// row is asked for by the greatest scroll there is; what is drawn stops at
/// the last row.
pub open spec fn scroll_after(scroll: u16, action: Option<DetailAction>) -> int {
    match action {
        Some(DetailAction::Scroll(delta)) => scrolled_by(scroll, delta),
        Some(DetailAction::Top) => 0,
        Some(DetailAction::Bottom) => u16::MAX as int,
        _ => scroll as int,
    }
}

/// Whether the scroll can move as the key asks without leaving the range
/// of the signed numbers it is computed in.
pub open spec fn can_scroll(scroll: u16, action: Option<DetailAction>) -> bool {
    match action {
        Some(DetailAction::Scroll(delta)) => i16::MIN <= signed_scroll(scroll) + delta <= i16::MAX,
        _ => true,
    }
}

/// Does in the detail panel what the key asks for, as far as scroll and
/// focus go. Returns what is left to do: to edit a field, or to copy the
/// issue.
pub fn handle_details_key(scroll: &mut u16, focus: &mut Focus, key: Key, mods: Modifiers) -> (r:
    Option<DetailAction>)
    requires
        can_scroll(*old(scroll), detail_action(key, mods)),
    ensures
        r == detail_action(key, mods),
        *final(scroll) == scroll_after(*old(scroll), detail_action(key, mods)),
        *final(focus) == if detail_action(key, mods) == Some(DetailAction::FocusTree) {
            Focus::Tree
        } else {
            *old(focus)
        },
{
    let action = detail_key(key, mods);
    match action {
        Some(DetailAction::Scroll(delta)) => {
            *scroll = scroll_details(*scroll, delta);
        },
        Some(DetailAction::Top) => {
            *scroll = 0;
        },
        Some(DetailAction::Bottom) => {
            *scroll = u16::MAX;
        },
        Some(DetailAction::FocusTree) => {
            *focus = Focus::Tree;
        },
        _ => {},
    }
    action
}

/// What is left to do after a key while a field is edited.
#[derive(Debug, Clone, Copy, PartialEq, Eq, Structural)]
pub enum EditRequest {
    /// The key was dealt with.
    Done,
    /// Editing ends and the changes are dropped.
    Cancel,
    /// The changes are saved and editing ends.
    Save,
    /// The changes are saved and the other field is edited.
    SaveThenEdit(EditField),
}

/// What a key asks for while `field` is edited.
#[derive(Debug, Clone, Copy, PartialEq, Eq, Structural)]
pub enum EditAction {
    Cancel,
    Save,
    SaveThenEdit(EditField),
    Insert(char),
    Indent,
    DeleteBefore,
    DeleteAt,
    Left,
    Right,
    Up,
    Down,
    LineStart,
    LineEnd,
    Nothing,
}

/// What a key asks for while `field` is edited.
pub open spec fn edit_action(field: EditField, key: Key, mods: Modifiers) -> EditAction {
    if (key == Key::Char('s') || key == Key::Enter) && mods == Modifiers::Control {
        EditAction::Save
    } else if key == Key::BackTab && (mods == Modifiers::Shift || mods == Modifiers::Plain) {
        if field == EditField::Description {
            EditAction::SaveThenEdit(EditField::Title)
        } else {
            EditAction::Nothing
        }
    } else if key is Char && (mods == Modifiers::Plain || mods == Modifiers::Shift) {
        EditAction::Insert(key->Char_0)
    } else if mods != Modifiers::Plain {
        EditAction::Nothing
    } else if key == Key::Esc {
        EditAction::Cancel
    } else if key == Key::Enter {
        if field == EditField::Title {
            EditAction::SaveThenEdit(EditField::Description)
        } else {
            EditAction::Insert('\n')
        }
    } else if key == Key::Tab {
        if field == EditField::Title {
            EditAction::SaveThenEdit(EditField::Description)
        } else {
            EditAction::Indent
        }
    } else if key == Key::Backspace {
        EditAction::DeleteBefore
    } else if key == Key::Delete {
        EditAction::DeleteAt
    } else if key == Key::Left {
        EditAction::Left
    } else if key == Key::Right {
        EditAction::Right
    } else if key == Key::Up {
        if field == EditField::Description {
            EditAction::Up
        } else {
            EditAction::Nothing
        }
    } else if key == Key::Down {
        if field == EditField::Description {
            EditAction::Down
        } else {
            EditAction::Nothing
        }
    } else if key == Key::Home {
        EditAction::LineStart
    } else if key == Key::End {
        EditAction::LineEnd
    } else {
        EditAction::Nothing
    }
}

/// The buffer after what the key asked for.
pub open spec fn edit_after(v: EditView, action: EditAction) -> EditView {
    match action {
        EditAction::Insert(c) => v.insert_char(c),
        EditAction::Indent => v.insert_str("    "@),
        EditAction::DeleteBefore => v.delete_char_before(),
        EditAction::DeleteAt => v.delete_char_at(),
        EditAction::Left => v.move_left(),
        EditAction::Right => v.move_right(),
        EditAction::Up => v.move_up(),
        EditAction::Down => v.move_down(),
        EditAction::LineStart => v.move_to_line_start(),
        EditAction::LineEnd => v.move_to_line_end(),
        _ => v,
    }
}

/// What is left to do after what the key asked for.
pub open spec fn edit_request(action: EditAction) -> EditRequest {
    match action {
        EditAction::Cancel => EditRequest::Cancel,
        EditAction::Save => EditRequest::Save,
        EditAction::SaveThenEdit(field) => EditRequest::SaveThenEdit(field),
        _ => EditRequest::Done,
    }
}

fn edit_key(field: EditField, key: Key, mods: Modifiers) -> (r: EditAction)
    ensures
        r == edit_action(field, key, mods),
{
    let title = match field {
        EditField::Title => true,
        EditField::Description => false,
    };
    match (key, mods) {
        (Key::Esc, Modifiers::Plain) => EditAction::Cancel,
        (Key::Char('s'), Modifiers::Control) => EditAction::Save,
        (Key::Enter, Modifiers::Control) => EditAction::Save,
        (Key::Enter, Modifiers::Plain) => if title {
            EditAction::SaveThenEdit(EditField::Description)
        } else {
            EditAction::Insert('\n')
        },
        (Key::Backspace, Modifiers::Plain) => EditAction::DeleteBefore,
        (Key::Delete, Modifiers::Plain) => EditAction::DeleteAt,
        (Key::Left, Modifiers::Plain) => EditAction::Left,
        (Key::Right, Modifiers::Plain) => EditAction::Right,
        (Key::Up, Modifiers::Plain) => if title {
            EditAction::Nothing
        } else {
            EditAction::Up
        },
        (Key::Down, Modifiers::Plain) => if title {
            EditAction::Nothing
        } else {
            EditAction::Down
        },
        (Key::Home, Modifiers::Plain) => EditAction::LineStart,
        (Key::End, Modifiers::Plain) => EditAction::LineEnd,
        (Key::Char(c), Modifiers::Plain) => EditAction::Insert(c),
        (Key::Char(c), Modifiers::Shift) => EditAction::Insert(c),
        (Key::Tab, Modifiers::Plain) => if title {
            EditAction::SaveThenEdit(EditField::Description)
        } else {
            EditAction::Indent
        },
        (Key::BackTab, Modifiers::Shift) => if title {
            EditAction::Nothing
        } else {
            EditAction::SaveThenEdit(EditField::Title)
        },
        (Key::BackTab, Modifiers::Plain) => if title {
            EditAction::Nothing
        } else {
            EditAction::SaveThenEdit(EditField::Title)
        },
        _ => EditAction::Nothing,
    }
}

/// The most characters that one key puts into the buffer.
pub const MOST_TYPED: usize = 4;

/// Does in the buffer what the key asks for. Returns what is left to do.
pub fn handle_edit_key(edit: &mut EditState, key: Key, mods: Modifiers) -> (r: EditRequest)
    requires
        old(edit).wf(),
        old(edit)@.buffer.len() + MOST_TYPED <= usize::MAX,
    ensures
        final(edit).wf(),
        final(edit)@ == edit_after(old(edit)@, edit_action(old(edit).what(), key, mods)),
        final(edit).issue() == old(edit).issue(),
        final(edit).what() == old(edit).what(),
        r == edit_request(edit_action(old(edit).what(), key, mods)),
{
    let action = edit_key(edit.field(), key, mods);
    match action {
        EditAction::Cancel => EditRequest::Cancel,
        EditAction::Save => EditRequest::Save,
        EditAction::SaveThenEdit(field) => EditRequest::SaveThenEdit(field),
        EditAction::Insert(c) => {
            edit.insert_char(c);
            EditRequest::Done
        },
        EditAction::Indent => {
            proof {
                reveal_strlit("    ");
            }
            edit.insert_str("    ");
            EditRequest::Done
        },
        EditAction::DeleteBefore => {
            edit.delete_char_before();
            EditRequest::Done
        },
        EditAction::DeleteAt => {
            edit.delete_char_at();
            EditRequest::Done
        },
        EditAction::Left => {
            edit.move_left();
            EditRequest::Done
        },
        EditAction::Right => {
            edit.move_right();
            EditRequest::Done
        },
        EditAction::Up => {
            edit.move_up();
            EditRequest::Done
        },
        EditAction::Down => {
            edit.move_down();
            EditRequest::Done
        },
        EditAction::LineStart => {
            edit.move_to_line_start();
            EditRequest::Done
        },
        EditAction::LineEnd => {
            edit.move_to_line_end();
            EditRequest::Done
        },
        EditAction::Nothing => EditRequest::Done,
    }
}

/// The text with which the editing of `field` of `issue` begins: the title,
/// or the description, which is empty where the issue has none.
pub open spec fn edited_text(issue: Issue, field: EditField) -> Seq<char> {
    match field {
        EditField::Title => issue.title@,
        EditField::Description => match issue.description {
            Some(text) => text@,
            None => Seq::empty(),
        },
    }
}

/// The buffer with which the editing of `field` of `issue` begins.
pub fn start_edit(issue: &Issue, field: EditField) -> (edit: EditState)
    ensures
        edit.wf(),
        edit@ == (EditView {
            original: edited_text(*issue, field),
            buffer: edited_text(*issue, field),
            cursor: edited_text(*issue, field).len(),
        }),
        edit.issue() == issue.id@,
        edit.what() == field,
{
    let value = match field {
        EditField::Title => issue.title.clone(),
        EditField::Description => match &issue.description {
            Some(text) => text.clone(),
            None => String::new(),
        },
    };
    EditState::new(issue.id.clone(), field, value)
}

/// The arguments with which the issue source takes over what was edited.
pub open spec fn update_args(id: Seq<char>, field: EditField, text: Seq<char>) -> Seq<Seq<char>> {
    match field {
        EditField::Title => seq!["update"@, id, "--title"@, text],
        EditField::Description => seq!["update"@, id, "--description"@, text],
    }
}

/// What saving the buffer asks of the issue source: nothing where the text
/// was not changed; else the arguments with which the source gives the
/// field edited the text as it is.
pub fn save_edit(edit: &EditState) -> (r: Option<Vec<String>>)
    ensures
        match r {
            Some(args) => edit@.modified() && args.deep_view() == update_args(
                edit.issue(),
                edit.what(),
                edit@.buffer,
            ),
            None => !edit@.modified(),
        },
{
    if !edit.is_modified() {
        return None;
    }
    let text = edit.buffer();
    match edit.field() {
        EditField::Title => Some(update_issue_title(edit.issue_id().as_str(), text.as_str())),
        EditField::Description => Some(
            update_issue_description(edit.issue_id().as_str(), text.as_str()),
        ),
    }
}

} // verus!
