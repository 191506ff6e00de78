//! What is remembered between runs, for each project: the fold state of both
//! hierarchies, the hierarchy on display and the layout ratio.

use vstd::prelude::*;
use crate::idset::IdSet;
use crate::tree::{IssueTree, TreeView};
use crate::HierarchyMode;

verus! {

/// What is remembered of one project.
#[derive(Debug)]
pub struct ProjectState {
    /// Fold state of the identifier hierarchy.
    pub expanded: IdSet,
    /// Fold state of the dependency hierarchy.
    pub dep_expanded: IdSet,
    /// The hierarchy on display, where one was remembered.
    pub hierarchy_mode: Option<HierarchyMode>,
    /// The share of the width that the tree panel takes, as the bits of a
    /// single-precision number, where one was remembered.
    pub panel_ratio: Option<u32>,
}

/// What a `ProjectState` stands for.
pub struct ProjectView {
    pub expanded: Set<Seq<char>>,
    pub dep_expanded: Set<Seq<char>>,
    pub hierarchy_mode: Option<HierarchyMode>,
    pub panel_ratio: Option<u32>,
}

impl View for ProjectState {
    type V = ProjectView;

    open spec fn view(&self) -> ProjectView {
        ProjectView {
            expanded: self.expanded@,
            dep_expanded: self.dep_expanded@,
            hierarchy_mode: self.hierarchy_mode,
            panel_ratio: self.panel_ratio,
        }
    }
}

/// What is remembered of a project of which nothing was saved.
pub open spec fn blank_project() -> ProjectView {
    ProjectView {
        expanded: Set::empty(),
        dep_expanded: Set::empty(),
        hierarchy_mode: None,
        panel_ratio: None,
    }
}

impl ProjectState {
    /// The state of a project of which nothing was saved.
    pub fn new() -> (p: ProjectState)
        ensures
            p@ == blank_project(),
    {
        ProjectState {
            expanded: IdSet::new(),
            dep_expanded: IdSet::new(),
            hierarchy_mode: None,
            panel_ratio: None,
        }
    }

    /// A copy that stands for the same.
    pub fn duplicate(&self) -> (p: ProjectState)
        ensures
            p@ == self@,
    {
        ProjectState {
            expanded: self.expanded.duplicate(),
            dep_expanded: self.dep_expanded.duplicate(),
            hierarchy_mode: self.hierarchy_mode,
            panel_ratio: self.panel_ratio,
        }
    }
}

/// One project with the key it is remembered under.
#[derive(Debug)]
pub struct ProjectEntry {
    pub key: String,
    pub state: ProjectState,
}

/// The map that a list of entries stands for: of two entries with one key
/// the later counts.
pub open spec fn project_map(entries: Seq<ProjectEntry>) -> Map<Seq<char>, ProjectView>
    decreases entries.len(),
{
    if entries.len() == 0 {
        Map::empty()
    } else {
        project_map(entries.drop_last()).insert(entries.last().key@, entries.last().state@)
    }
}

/// Replacing the state of the last entry with a key is inserting under that
/// key.
pub proof fn lemma_project_map_update(entries: Seq<ProjectEntry>, i: int, entry: ProjectEntry)
    requires
        0 <= i < entries.len(),
        entries[i].key@ == entry.key@,
        forall|j: int| i < j < entries.len() ==> entries[j].key@ != entry.key@,
    ensures
        project_map(entries.update(i, entry)) == project_map(entries).insert(
            entry.key@,
            entry.state@,
        ),
    decreases entries.len(),
{
    let after = entries.update(i, entry);
    if i == entries.len() - 1 {
        assert(after.drop_last() =~= entries.drop_last());
        assert(project_map(after) =~= project_map(entries).insert(entry.key@, entry.state@));
    } else {
        lemma_project_map_update(entries.drop_last(), i, entry);
        assert(after.drop_last() =~= entries.drop_last().update(i, entry));
        assert(after.last() == entries.last());
        assert(project_map(after) =~= project_map(entries).insert(entry.key@, entry.state@));
    }
}

/// A key that no entry has is not in the map.
pub proof fn lemma_project_map_absent(entries: Seq<ProjectEntry>, key: Seq<char>)
    requires
        forall|j: int| 0 <= j < entries.len() ==> entries[j].key@ != key,
    ensures
        !project_map(entries).contains_key(key),
    decreases entries.len(),
{
    if entries.len() > 0 {
        lemma_project_map_absent(entries.drop_last(), key);
    }
}

/// The map gives for a key the state of the last entry that has it.
pub proof fn lemma_project_map_last(entries: Seq<ProjectEntry>, i: int)
    requires
        0 <= i < entries.len(),
        forall|j: int| i < j < entries.len() ==> entries[j].key@ != entries[i].key@,
    ensures
        project_map(entries).contains_key(entries[i].key@),
        project_map(entries)[entries[i].key@] == entries[i].state@,
    decreases entries.len(),
{
    if i < entries.len() - 1 {
        lemma_project_map_last(entries.drop_last(), i);
    }
}

/// Everything that is remembered, by project key.
#[derive(Debug)]
pub struct AppState {
    projects: Vec<ProjectEntry>,
}

impl View for AppState {
    type V = Map<Seq<char>, ProjectView>;

    closed spec fn view(&self) -> Map<Seq<char>, ProjectView> {
        project_map(self.projects@)
    }
}

impl AppState {
    /// The state in which nothing is remembered.
    pub fn new() -> (s: AppState)
        ensures
            s@ == Map::<Seq<char>, ProjectView>::empty(),
    {
        AppState { projects: Vec::new() }
    }

    /// The entries behind the map; of two with one key the later counts.
    pub fn entries(&self) -> (r: &Vec<ProjectEntry>)
        ensures
            project_map(r@) == self@,
    {
        &self.projects
    }

    fn last_index(&self, key: &String) -> (r: Option<usize>)
        ensures
            match r {
                Some(i) => i < self.projects.len() && self.projects[i as int].key@ == key@
                    && forall|j: int|
                    i < j < self.projects.len() ==> self.projects[j].key@ != key@,
                None => forall|j: int|
                    0 <= j < self.projects.len() ==> self.projects[j].key@ != key@,
            },
    {
        let mut i: usize = self.projects.len();
        while i > 0
            invariant
                i <= self.projects.len(),
                forall|j: int| i <= j < self.projects.len() ==> self.projects[j].key@ != key@,
            decreases i,
        {
            i -= 1;
            if self.projects[i].key == *key {
                return Some(i);
            }
        }
        None
    }

    /// What is remembered under `key`.
    pub fn get(&self, key: &str) -> (r: Option<&ProjectState>)
        ensures
            match r {
                Some(p) => self@.contains_key(key@) && self@[key@] == p@,
                None => !self@.contains_key(key@),
            },
    {
        let k = key.to_owned();
        match self.last_index(&k) {
            Some(i) => {
                proof {
                    lemma_project_map_last(self.projects@, i as int);
                }
                Some(&self.projects[i].state)
            },
            None => {
                proof {
                    lemma_project_map_absent(self.projects@, key@);
                }
                None
            },
        }
    }

    /// Remembers `state` under `key`, in place of what was remembered there.
    pub fn insert(&mut self, key: String, state: ProjectState)
        ensures
            final(self)@ == old(self)@.insert(key@, state@),
    {
        match self.last_index(&key) {
            Some(i) => {
                let ghost before = self.projects@;
                let ghost entry = ProjectEntry { key: before[i as int].key, state };
                self.projects[i].state = state;
                proof {
                    assert(self.projects@ =~= before.update(i as int, entry));
                    lemma_project_map_update(before, i as int, entry);
                }
            },
            None => {
                let ghost before = self.projects@;
                self.projects.push(ProjectEntry { key, state });
                assert(self.projects@.drop_last() =~= before);
            },
        }
    }
}

/// What is remembered under `key`, or the blank project.
pub open spec fn remembered(state: Map<Seq<char>, ProjectView>, key: Seq<char>) -> ProjectView {
    if state.contains_key(key) {
        state[key]
    } else {
        blank_project()
    }
}

/// The hierarchy on display where none was remembered.
pub open spec fn default_mode() -> HierarchyMode {
    HierarchyMode::IdBased
}

/// The bits of the layout ratio where none was remembered: those of 0.4 in
/// single precision.
pub const DEFAULT_PANEL_RATIO: u32 = 0x3ECC_CCCD;

fn existing(state: &AppState, key: &str) -> (p: ProjectState)
    ensures
        p@ == remembered(state@, key@),
{
    match state.get(key) {
        Some(p) => p.duplicate(),
        None => ProjectState::new(),
    }
}

/// The fold state of the identifier hierarchy that is remembered under
/// `key`; the empty one where nothing is.
pub fn load_expanded(state: &AppState, key: &str) -> (r: IdSet)
    ensures
        r@ == remembered(state@, key@).expanded,
{
    match state.get(key) {
        Some(p) => p.expanded.duplicate(),
        None => IdSet::new(),
    }
}

/// Both fold states and the hierarchy on display that are remembered under
/// `key`; empty fold states and the identifier hierarchy where nothing is.
pub fn load_tree_state(state: &AppState, key: &str) -> (r: (IdSet, IdSet, HierarchyMode))
    ensures
        r.0@ == remembered(state@, key@).expanded,
        r.1@ == remembered(state@, key@).dep_expanded,
        r.2 == match remembered(state@, key@).hierarchy_mode {
            Some(mode) => mode,
            None => default_mode(),
        },
{
    match state.get(key) {
        Some(p) => {
            let mode = match p.hierarchy_mode {
                Some(mode) => mode,
                None => HierarchyMode::IdBased,
            };
            (p.expanded.duplicate(), p.dep_expanded.duplicate(), mode)
        },
        None => (IdSet::new(), IdSet::new(), HierarchyMode::IdBased),
    }
}

/// The layout ratio that is remembered under `key`; the default where none
/// is.
pub fn load_panel_ratio(state: &AppState, key: &str) -> (r: u32)
    ensures
        r == match remembered(state@, key@).panel_ratio {
            Some(bits) => bits,
            None => DEFAULT_PANEL_RATIO,
        },
{
    match state.get(key) {
        Some(p) => match p.panel_ratio {
            Some(bits) => bits,
            None => DEFAULT_PANEL_RATIO,
        },
        None => DEFAULT_PANEL_RATIO,
    }
}

/// Remembers under `key` the fold state `expanded` of the identifier
/// hierarchy, and keeps whatever else is remembered there.
pub fn save_expanded(state: &mut AppState, key: &str, expanded: &IdSet)
    ensures
        final(state)@ == old(state)@.insert(
            key@,
            ProjectView { expanded: expanded@, ..remembered(old(state)@, key@) },
        ),
{
    let was = existing(state, key);
    state.insert(
        key.to_owned(),
        ProjectState {
            expanded: expanded.duplicate(),
            dep_expanded: was.dep_expanded,
            hierarchy_mode: was.hierarchy_mode,
            panel_ratio: was.panel_ratio,
        },
    );
}

/// Remembers under `key` both fold states and the hierarchy on display, and
/// keeps the layout ratio that is remembered there.
pub fn save_tree_state(
    state: &mut AppState,
    key: &str,
    expanded: &IdSet,
    dep_expanded: &IdSet,
    hierarchy_mode: HierarchyMode,
)
    ensures
        final(state)@ == old(state)@.insert(
            key@,
            ProjectView {
                expanded: expanded@,
                dep_expanded: dep_expanded@,
                hierarchy_mode: Some(hierarchy_mode),
                panel_ratio: remembered(old(state)@, key@).panel_ratio,
            },
        ),
{
    let was = existing(state, key);
    state.insert(
        key.to_owned(),
        ProjectState {
            expanded: expanded.duplicate(),
            dep_expanded: dep_expanded.duplicate(),
            hierarchy_mode: Some(hierarchy_mode),
            panel_ratio: was.panel_ratio,
        },
    );
}

/// What is remembered of a project after a change to its tree: both fold
/// states of the tree and its hierarchy on display, with the layout ratio
/// that `was` remembered.
pub open spec fn tree_project(tree: TreeView, was: ProjectView) -> ProjectView {
    ProjectView {
        expanded: tree.expanded,
        dep_expanded: tree.dep_expanded,
        hierarchy_mode: Some(tree.mode),
        panel_ratio: was.panel_ratio,
    }
}

/// Remembers under `key` what is to be kept of `tree` after an operation
/// that changed it: the fold states of both hierarchies and the hierarchy
/// on display. The layout ratio that is remembered there stays.
pub fn save_tree(state: &mut AppState, key: &str, tree: &IssueTree)
    ensures
        final(state)@ == old(state)@.insert(
            key@,
            tree_project(tree@, remembered(old(state)@, key@)),
        ),
{
    save_tree_state(state, key, tree.expanded(), tree.dep_expanded(), tree.hierarchy_mode());
}

/// Remembers under `key` the layout ratio with the bits `ratio`, and keeps
/// whatever else is remembered there.
pub fn save_panel_ratio(state: &mut AppState, key: &str, ratio: u32)
    ensures
        final(state)@ == old(state)@.insert(
            key@,
            ProjectView { panel_ratio: Some(ratio), ..remembered(old(state)@, key@) },
        ),
{
    let was = existing(state, key);
    state.insert(
        key.to_owned(),
        ProjectState {
            expanded: was.expanded,
            dep_expanded: was.dep_expanded,
            hierarchy_mode: was.hierarchy_mode,
            panel_ratio: Some(ratio),
        },
    );
}

/// The text member `key` of the JSON object that `text` holds: what
/// `serde_json` reads there. `None` where `text` is no JSON, holds no
/// object, or the object has no text under `key`.
pub uninterp spec fn json_text_member(text: Seq<char>, key: Seq<char>) -> Option<Seq<char>>;

/// Reads `text` with `serde_json::from_str` as a `serde_json::Value`, looks
/// `key` up in it with `Value::get` and takes the text found with
/// `Value::as_str`. Believed, not proved: that what comes back depends on
/// `text` and `key` alone, which is what giving it the name
/// `json_text_member` says.
#[verifier::external_body]
fn read_text_member(text: &str, key: &str) -> (r: Option<String>)
    ensures
        match r {
            Some(found) => json_text_member(text@, key@) == Some(found@),
            None => json_text_member(text@, key@) is None,
        },
{
    match serde_json::from_str::<serde_json::Value>(text) {
        Ok(value) => value.get(key).and_then(|member| member.as_str()).map(|s| s.to_string()),
        Err(_) => None,
    }
}

/// The key of the project, given the database path that the issue source
/// reported and the working directory: the path where there is one, else
/// the directory, else `"default"`.
pub fn choose_project_key(database_path: Option<String>, current_dir: Option<String>) -> (key:
    String)
    ensures
        key@ == match database_path {
            Some(path) => path@,
            None => match current_dir {
                Some(dir) => dir@,
                None => "default"@,
            },
        },
{
    match database_path {
        Some(path) => path,
        None => match current_dir {
            Some(dir) => dir,
            None => "default".to_owned(),
        },
    }
}

/// The key under which the project is remembered. `info` is what the issue
/// source printed about itself, where it ran and succeeded; `current_dir`
/// the working directory, where it could be had. The key is the text member
/// `database_path` of `info`, else the directory, else `"default"`.
pub fn get_project_key(info: Option<&str>, current_dir: Option<String>) -> (key: String)
    ensures
        key@ == match (match info {
            Some(text) => json_text_member(text@, "database_path"@),
            None => None,
        }) {
            Some(path) => path,
            None => match current_dir {
                Some(dir) => dir@,
                None => "default"@,
            },
        },
{
    let database_path = match info {
        Some(text) => read_text_member(text, "database_path"),
        None => None,
    };
    choose_project_key(database_path, current_dir)
}

} // verus!
