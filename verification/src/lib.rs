//! A viewer's model of a set of issues: the set as two hierarchies, the
//! list of the nodes that are visible in the hierarchy on display, and the
//! cursor that moves through that list.

use vstd::prelude::*;

pub mod bd;
pub mod control;
pub mod edit;
pub mod idset;
pub mod laws;
pub mod markdown;
pub mod order;
pub mod panel;
pub mod project;
pub mod scroll;
pub mod state;
pub mod text;
pub mod tree;
pub mod walk;

pub use edit::{EditField, EditState};

verus! {

/// The panel that takes the keys.
#[derive(Debug, Clone, Copy, PartialEq, Eq, Structural)]
pub enum Focus {
    Tree,
    Details,
}

/// Which of the two hierarchies the tree presents.
#[derive(Debug, Clone, Copy, PartialEq, Eq, Structural)]
pub enum HierarchyMode {
    /// Parentage read off dotted identifiers.
    IdBased,
    /// Parentage read off blocking dependency edges.
    DependencyBased,
}

impl Default for HierarchyMode {
    fn default() -> (r: HierarchyMode)
        ensures
            r == HierarchyMode::IdBased,
    {
        HierarchyMode::IdBased
    }
}

impl HierarchyMode {
    /// The other hierarchy.
    pub fn toggled(self) -> (r: HierarchyMode)
        ensures
            r == match self {
                HierarchyMode::IdBased => HierarchyMode::DependencyBased,
                HierarchyMode::DependencyBased => HierarchyMode::IdBased,
            },
    {
        match self {
            HierarchyMode::IdBased => HierarchyMode::DependencyBased,
            HierarchyMode::DependencyBased => HierarchyMode::IdBased,
        }
    }
}

} // verus!
