//! The issue tree: the two projections of a snapshot, the list of visible
//! nodes and the cursor into it.

use vstd::prelude::*;
use crate::bd::Issue;
use crate::idset::IdSet;
use crate::project::{
    distinct_ids, ids_of, is_parent_table, kid_table, kids, merge_records, merged,
    multi_parent_set, multi_parent_ids, parent_table, position, root_list, roots, ids_for,
    find_index, logical_parent, parents,
};
use crate::edit::chars_of;
use crate::markdown::{append, line_of_three, make_span, span, SpanStyle, SpanView, StyledLine};
use crate::panel::{decimal, decimal_chars};
use crate::project::multi_parent;
use crate::text::parent_of;
use crate::walk::{compute_visible, is_kid_table, rows_of, Row, Scene};
use crate::HierarchyMode;

verus! {

/// One issue of the snapshot with its place in both hierarchies.
#[derive(Debug, Clone)]
pub struct TreeNode {
    pub issue: Issue,
    /// Children by dotted identifier, in snapshot order.
    pub children: Vec<String>,
    /// Children by blocking dependency, in snapshot order.
    pub dep_children: Vec<String>,
    /// Indent of the node in the visible list; meaningful only while the
    /// node is listed there.
    pub depth: usize,
}

/// The issue records that a sequence of nodes holds.
pub open spec fn records(nodes: Seq<TreeNode>) -> Seq<Issue> {
    nodes.map_values(|n: TreeNode| n.issue)
}

/// The indents that a sequence of nodes holds.
pub open spec fn indents(nodes: Seq<TreeNode>) -> Seq<nat> {
    nodes.map_values(|n: TreeNode| n.depth as nat)
}

/// A sequence of node indices as mathematical integers.
pub open spec fn ints(s: Seq<usize>) -> Seq<int> {
    s.map_values(|x: usize| x as int)
}

/// The nodes that a list of rows lists, in order.
pub open spec fn row_nodes(rows: Seq<Row>) -> Seq<int> {
    rows.map_values(|r: Row| r.node)
}

/// The indents after the indent of each row has been written to its node,
/// in the order of the rows.
pub open spec fn written(depths: Seq<nat>, rows: Seq<Row>) -> Seq<nat>
    decreases rows.len(),
{
    if rows.len() == 0 {
        depths
    } else {
        written(depths, rows.drop_last()).update(rows.last().node, rows.last().depth)
    }
}

/// The deepest indent that is drawn in full.
pub const MAX_VISUAL_INDENT: usize = 4;

/// `n` spaces.
pub open spec fn spaces(n: nat) -> Seq<char> {
    Seq::new(n, |i: int| ' ')
}

/// The indent of a row at `depth`: two spaces for each level up to
/// `MAX_VISUAL_INDENT`; beyond that the widest indent and the depth in
/// brackets.
pub open spec fn indent_text(depth: nat) -> Seq<char> {
    if depth <= MAX_VISUAL_INDENT {
        spaces(2 * depth)
    } else {
        spaces((2 * MAX_VISUAL_INDENT) as nat) + "["@ + decimal(depth) + "]"@
    }
}

/// The indent of a row at `depth`.
pub fn indent_chars(depth: usize) -> (r: Vec<char>)
    ensures
        r@ == indent_text(depth as nat),
{
    let levels = if depth <= MAX_VISUAL_INDENT {
        depth
    } else {
        MAX_VISUAL_INDENT
    };
    let mut r: Vec<char> = Vec::new();
    let mut k: usize = 0;
    while k < levels
        invariant
            k <= levels,
            levels <= MAX_VISUAL_INDENT,
            r@ == spaces((2 * k) as nat),
        decreases levels - k,
    {
        r.push(' ');
        r.push(' ');
        assert(r@ =~= spaces((2 * (k + 1)) as nat));
        k += 1;
    }
    if depth > MAX_VISUAL_INDENT {
        append(&mut r, &chars_of("["));
        append(&mut r, &decimal_chars(depth as u64));
        append(&mut r, &chars_of("]"));
    }
    r
}

/// The cursor `cursor` brought back into a list of `len` rows.
pub open spec fn clamped(cursor: nat, len: nat) -> nat {
    if len == 0 {
        0
    } else if cursor >= len {
        (len - 1) as nat
    } else {
        cursor
    }
}

/// What an issue tree stands for.
pub struct TreeView {
    /// The snapshot, one record for each node.
    pub recs: Seq<Issue>,
    /// The hierarchy on display.
    pub mode: HierarchyMode,
    /// Fold state of the identifier hierarchy.
    pub expanded: Set<Seq<char>>,
    /// Fold state of the dependency hierarchy.
    pub dep_expanded: Set<Seq<char>>,
    /// Whether closed issues are listed.
    pub show_closed: bool,
    /// Identifiers of the issues that nothing blocks.
    pub ready: Set<Seq<char>>,
    /// The visible list.
    pub rows: Seq<Row>,
    /// Index of the selected row.
    pub cursor: nat,
    /// The indent recorded on each node.
    pub depths: Seq<nat>,
}

impl TreeView {
    /// Fold state of the hierarchy on display.
    pub open spec fn fold(self) -> Set<Seq<char>> {
        match self.mode {
            HierarchyMode::IdBased => self.expanded,
            HierarchyMode::DependencyBased => self.dep_expanded,
        }
    }

    /// What the walk depends on.
    pub open spec fn scene(self) -> Scene {
        Scene {
            recs: self.recs,
            mode: self.mode,
            fold: self.fold(),
            show_closed: self.show_closed,
        }
    }

    /// The tree with the fold state of the hierarchy on display replaced.
    pub open spec fn with_fold(self, fold: Set<Seq<char>>) -> TreeView {
        match self.mode {
            HierarchyMode::IdBased => TreeView { expanded: fold, ..self },
            HierarchyMode::DependencyBased => TreeView { dep_expanded: fold, ..self },
        }
    }

    /// The tree with the cursor replaced.
    pub open spec fn with_cursor(self, cursor: nat) -> TreeView {
        TreeView { cursor, ..self }
    }

    /// The tree after the visible list has been recomputed: the list is the
    /// walk of the scene, every listed node carries the indent of its row,
    /// and the cursor is brought back into the list.
    pub open spec fn rewalked(self) -> TreeView {
        let rows = self.scene().rows();
        TreeView {
            rows,
            cursor: clamped(self.cursor, rows.len()),
            depths: written(self.depths, rows),
            ..self
        }
    }

    /// The cursor stands on a row, or at 0 where there is none.
    pub open spec fn cursor_ok(self) -> bool {
        self.cursor == clamped(self.cursor, self.rows.len())
    }

    /// Every listed node carries the indent of its row.
    pub open spec fn depths_ok(self) -> bool {
        &&& self.depths.len() == self.recs.len()
        &&& forall|k: int|
            0 <= k < self.rows.len() ==> self.depths[(#[trigger] self.rows[k]).node]
                == self.rows[k].depth
    }

    /// The visible list is the walk of the scene, and cursor and indents
    /// agree with it.
    pub open spec fn valid(self) -> bool {
        &&& distinct_ids(self.recs)
        &&& self.rows == self.scene().rows()
        &&& self.cursor_ok()
        &&& self.depths_ok()
    }

    /// The selected node.
    pub open spec fn selected(self) -> Option<int> {
        if self.cursor < self.rows.len() {
            Some(self.rows[self.cursor as int].node)
        } else {
            None
        }
    }

    /// Whether node `i` has a child in the hierarchy on display.
    pub open spec fn has_kids(self, i: int) -> bool {
        kids(self.recs, self.mode, i).len() > 0
    }

    /// Whether node `i` is expanded in the hierarchy on display.
    pub open spec fn is_open(self, i: int) -> bool {
        self.fold().contains(self.recs[i].id@)
    }

    /// First row that lists node `i`.
    pub open spec fn row_of(self, i: int) -> Option<int> {
        first_row(self.rows, i)
    }

    /// The mark in front of a row: whether the node has children, and
    /// whether they are unfolded.
    pub open spec fn icon(self, i: int) -> Seq<char> {
        if self.has_kids(i) {
            if self.is_open(i) {
                "▼ "@
            } else {
                "▶ "@
            }
        } else {
            "  "@
        }
    }

    /// The way the row of node `i` is drawn: by whether the issue is closed,
    /// ready or blocked.
    pub open spec fn row_style(self, i: int) -> SpanStyle {
        if self.recs[i].closed() {
            SpanStyle::RowClosed
        } else if self.ready.contains(self.recs[i].id@) {
            SpanStyle::RowReady
        } else {
            SpanStyle::RowBlocked
        }
    }

    /// The way the identifier of node `i` is drawn: marked out in the
    /// dependency hierarchy where the node has several parents.
    pub open spec fn id_style(self, i: int) -> SpanStyle {
        if multi_parent(self.recs, i) && self.mode == HierarchyMode::DependencyBased {
            SpanStyle::IdShared
        } else {
            SpanStyle::Muted
        }
    }

    /// What the tree panel shows in row `k`: the indent and the mark, the
    /// identifier, the title.
    pub open spec fn row_line(self, k: int) -> Seq<SpanView> {
        let i = self.rows[k].node;
        seq![
            span(indent_text(self.rows[k].depth) + self.icon(i), self.row_style(i)),
            span(self.recs[i].id@ + " "@, self.id_style(i)),
            span(self.recs[i].title@, self.row_style(i)),
        ]
    }

    /// The tree after the cursor has moved up one row, if there is one.
    pub open spec fn moved_up(self) -> TreeView {
        if self.cursor > 0 {
            self.with_cursor((self.cursor - 1) as nat)
        } else {
            self
        }
    }

    /// The tree after the cursor has moved down one row, if there is one.
    pub open spec fn moved_down(self) -> TreeView {
        if self.cursor + 1 < self.rows.len() {
            self.with_cursor(self.cursor + 1)
        } else {
            self
        }
    }

    /// The tree after the cursor has moved to the first row.
    pub open spec fn at_top(self) -> TreeView {
        self.with_cursor(0)
    }

    /// The tree after the cursor has moved to the last row, if there is one.
    pub open spec fn at_bottom(self) -> TreeView {
        if self.rows.len() > 0 {
            self.with_cursor((self.rows.len() - 1) as nat)
        } else {
            self
        }
    }

    /// The tree after the cursor has moved to row `k`, if there is one.
    pub open spec fn moved_to(self, k: nat) -> TreeView {
        if k < self.rows.len() {
            self.with_cursor(k)
        } else {
            self
        }
    }

    /// The tree after the cursor has moved to the first row that lists the
    /// node with identifier `id`, if there is such a row.
    pub open spec fn moved_to_id(self, id: Seq<char>) -> TreeView {
        match position(self.recs, id) {
            Some(i) => match self.row_of(i) {
                Some(k) => self.with_cursor(k as nat),
                None => self,
            },
            None => self,
        }
    }

    /// The tree after the selected node has been expanded: a node with a
    /// child that is not expanded yet joins the fold state, and the list is
    /// recomputed. Otherwise nothing changes.
    pub open spec fn expand(self) -> TreeView {
        match self.selected() {
            Some(i) => if self.has_kids(i) && !self.is_open(i) {
                self.with_fold(self.fold().insert(self.recs[i].id@)).rewalked()
            } else {
                self
            },
            None => self,
        }
    }

    /// The tree after the selected node has been collapsed: a node with a
    /// child that is expanded leaves the fold state, and the list is
    /// recomputed. From any other node, be it collapsed already or a leaf,
    /// the cursor moves to the first row of its logical parent, if that
    /// parent is listed; the fold state stays as it is, also where it holds
    /// the identifier of a leaf.
    pub open spec fn collapse(self) -> TreeView {
        match self.selected() {
            Some(i) => if self.has_kids(i) && self.is_open(i) {
                self.with_fold(self.fold().remove(self.recs[i].id@)).rewalked()
            } else {
                match logical_parent(self.recs, self.mode, i) {
                    Some(p) => match self.row_of(p) {
                        Some(k) => self.with_cursor(k as nat),
                        None => self,
                    },
                    None => self,
                }
            },
            None => self,
        }
    }

    /// The tree after the fold of the selected node has been flipped: a node
    /// with a child joins or leaves the fold state, and the list is
    /// recomputed. Otherwise nothing changes.
    pub open spec fn toggle_expand(self) -> TreeView {
        match self.selected() {
            Some(i) => if self.has_kids(i) {
                if self.is_open(i) {
                    self.with_fold(self.fold().remove(self.recs[i].id@)).rewalked()
                } else {
                    self.with_fold(self.fold().insert(self.recs[i].id@)).rewalked()
                }
            } else {
                self
            },
            None => self,
        }
    }

    /// The identifiers of the first `upto` nodes that have a child in the
    /// hierarchy on display.
    pub open spec fn with_kids_among(self, upto: int) -> Set<Seq<char>>
        decreases upto,
    {
        if upto <= 0 {
            Set::empty()
        } else if self.has_kids(upto - 1) {
            self.with_kids_among(upto - 1).insert(self.recs[upto - 1].id@)
        } else {
            self.with_kids_among(upto - 1)
        }
    }

    /// The identifiers of the nodes that have a child in the hierarchy on
    /// display.
    pub open spec fn with_kids(self) -> Set<Seq<char>> {
        Set::new(
            |id: Seq<char>|
                exists|c: int|
                    0 <= c < self.recs.len() && self.has_kids(c) && #[trigger] self.recs[c].id@
                        == id,
        )
    }

    /// The tree after everything has been expanded or collapsed: an empty
    /// fold state becomes that of every node with a child, any other fold
    /// state becomes empty; the list is recomputed.
    pub open spec fn toggle_expand_all(self) -> TreeView {
        if self.fold() == Set::<Seq<char>>::empty() {
            self.with_fold(self.with_kids()).rewalked()
        } else {
            self.with_fold(Set::empty()).rewalked()
        }
    }

    /// The tree after the filter on closed issues has been set.
    pub open spec fn showing_closed(self, show_closed: bool) -> TreeView {
        (TreeView { show_closed, ..self }).rewalked()
    }

    /// The tree after the hierarchy on display has been set.
    pub open spec fn in_mode(self, mode: HierarchyMode) -> TreeView {
        (TreeView { mode, ..self }).rewalked()
    }
}

/// The identifiers that `with_kids_among` gathers are those of the nodes
/// that have a child.
pub proof fn lemma_with_kids_among(v: TreeView, upto: int, id: Seq<char>)
    ensures
        v.with_kids_among(upto).contains(id) <==> exists|c: int|
            0 <= c < upto && v.has_kids(c) && #[trigger] v.recs[c].id@ == id,
    decreases upto,
{
    if upto > 0 {
        lemma_with_kids_among(v, upto - 1, id);
        if v.with_kids_among(upto).contains(id) {
            if v.with_kids_among(upto - 1).contains(id) {
                let c = choose|c: int|
                    0 <= c < upto - 1 && v.has_kids(c) && #[trigger] v.recs[c].id@ == id;
                assert(0 <= c < upto && v.has_kids(c) && v.recs[c].id@ == id);
            } else {
                assert(v.has_kids(upto - 1) && v.recs[upto - 1].id@ == id);
            }
        }
        if exists|c: int| 0 <= c < upto && v.has_kids(c) && #[trigger] v.recs[c].id@ == id {
            let c = choose|c: int| 0 <= c < upto && v.has_kids(c) && #[trigger] v.recs[c].id@ == id;
            if c < upto - 1 {
                assert(0 <= c < upto - 1 && v.has_kids(c) && v.recs[c].id@ == id);
            }
        }
    }
}

/// Index of the first of `rows` that lists node `i`.
pub open spec fn first_row(rows: Seq<Row>, i: int) -> Option<int>
    decreases rows.len(),
{
    if rows.len() == 0 {
        None
    } else {
        match first_row(rows.drop_last(), i) {
            Some(k) => Some(k),
            None => if rows.last().node == i {
                Some(rows.len() - 1)
            } else {
                None
            },
        }
    }
}

/// Writing the indents of rows leaves as many indents, and the node of a row
/// that no later row lists again carries the indent of that row.
pub proof fn lemma_written(depths: Seq<nat>, rows: Seq<Row>)
    requires
        forall|k: int| 0 <= k < rows.len() ==> 0 <= (#[trigger] rows[k]).node < depths.len(),
    ensures
        written(depths, rows).len() == depths.len(),
        forall|k: int|
            0 <= k < rows.len() && (forall|m: int| k < m < rows.len() ==> rows[m].node != rows[k].node)
                ==> written(depths, rows)[(#[trigger] rows[k]).node] == rows[k].depth,
        forall|i: int|
            0 <= i < depths.len() && (forall|m: int| 0 <= m < rows.len() ==> rows[m].node != i)
                ==> written(depths, rows)[i] == depths[i],
    decreases rows.len(),
{
    if rows.len() > 0 {
        let head = rows.drop_last();
        assert(forall|k: int| 0 <= k < head.len() ==> head[k] == rows[k]);
        lemma_written(depths, head);
        let out = written(depths, rows);
        assert forall|k: int|
            0 <= k < rows.len() && (forall|m: int|
                k < m < rows.len() ==> rows[m].node != rows[k].node) implies out[(
        #[trigger] rows[k]).node] == rows[k].depth by {
            if k < rows.len() - 1 {
                assert(rows[rows.len() - 1].node != rows[k].node);
                assert(head[k] == rows[k]);
                assert forall|m: int| k < m < head.len() implies head[m].node != head[k].node by {
                    assert(head[m] == rows[m]);
                }
            }
        }
        assert forall|i: int|
            0 <= i < depths.len() && (forall|m: int|
                0 <= m < rows.len() ==> rows[m].node != i) implies out[i] == depths[i] by {
            assert(rows[rows.len() - 1].node != i);
            assert forall|m: int| 0 <= m < head.len() implies head[m].node != i by {
                assert(head[m] == rows[m]);
            }
        }
    }
}

/// Whether every entry of every list of `table` is below `n`.
pub open spec fn entries_below(table: Seq<Vec<usize>>, n: int) -> bool {
    forall|p: int, k: int| 0 <= p < table.len() && 0 <= k < table[p].len() ==> table[p][k] < n
}

/// Records on each node the identifiers of its children in both hierarchies.
fn attach_children(
    nodes: &mut Vec<TreeNode>,
    id_kids: &Vec<Vec<usize>>,
    dep_kids: &Vec<Vec<usize>>,
)
    requires
        is_kid_table(records(old(nodes)@), HierarchyMode::IdBased, id_kids@),
        is_kid_table(records(old(nodes)@), HierarchyMode::DependencyBased, dep_kids@),
        entries_below(id_kids@, old(nodes).len() as int),
        entries_below(dep_kids@, old(nodes).len() as int),
    ensures
        records(final(nodes)@) == records(old(nodes)@),
        indents(final(nodes)@) == indents(old(nodes)@),
        forall|p: int|
            0 <= p < final(nodes).len() ==> (#[trigger] final(nodes)[p]).children.deep_view()
                == ids_of(
                records(old(nodes)@),
                kids(records(old(nodes)@), HierarchyMode::IdBased, p),
            ),
        forall|p: int|
            0 <= p < final(nodes).len() ==> (#[trigger] final(nodes)[p]).dep_children.deep_view()
                == ids_of(
                records(old(nodes)@),
                kids(records(old(nodes)@), HierarchyMode::DependencyBased, p),
            ),
{
    let ghost recs = records(nodes@);
    let ghost depths = indents(nodes@);
    let n = nodes.len();
    let mut p: usize = 0;
    while p < n
        invariant
            n == nodes.len(),
            p <= n,
            records(nodes@) == recs,
            indents(nodes@) == depths,
            is_kid_table(recs, HierarchyMode::IdBased, id_kids@),
            is_kid_table(recs, HierarchyMode::DependencyBased, dep_kids@),
            entries_below(id_kids@, n as int),
            entries_below(dep_kids@, n as int),
            forall|q: int|
                0 <= q < p ==> (#[trigger] nodes[q]).children.deep_view() == ids_of(
                    recs,
                    kids(recs, HierarchyMode::IdBased, q),
                ),
            forall|q: int|
                0 <= q < p ==> (#[trigger] nodes[q]).dep_children.deep_view() == ids_of(
                    recs,
                    kids(recs, HierarchyMode::DependencyBased, q),
                ),
        decreases n - p,
    {
        let by_id = ids_for(nodes, &id_kids[p]);
        let by_dep = ids_for(nodes, &dep_kids[p]);
        let ghost before = nodes@;
        nodes[p].children = by_id;
        nodes[p].dep_children = by_dep;
        proof {
            assert(forall|q: int| 0 <= q < n && q != p ==> nodes[q] == before[q]);
            assert(nodes[p as int].issue == before[p as int].issue);
            assert(nodes[p as int].depth == before[p as int].depth);
            assert(records(nodes@) =~= recs);
            assert(indents(nodes@) =~= depths);
        }
        p += 1;
    }
}

/// Writes the indent of each row to its node, in the order of the rows.
fn write_depths(nodes: &mut Vec<TreeNode>, rows: &Vec<(usize, usize)>)
    requires
        forall|k: int| 0 <= k < rows.len() ==> rows[k].0 < old(nodes).len(),
    ensures
        final(nodes).len() == old(nodes).len(),
        records(final(nodes)@) == records(old(nodes)@),
        indents(final(nodes)@) == written(indents(old(nodes)@), rows_of(rows@)),
        forall|p: int|
            0 <= p < final(nodes).len() ==> (#[trigger] final(nodes)[p]).children == old(
                nodes,
            )[p].children && final(nodes)[p].dep_children == old(nodes)[p].dep_children,
{
    let ghost recs = records(nodes@);
    let ghost depths = indents(nodes@);
    let n = rows.len();
    let mut k: usize = 0;
    assert(rows_of(rows@).subrange(0, 0) =~= Seq::<Row>::empty());
    while k < n
        invariant
            n == rows.len(),
            k <= n,
            nodes.len() == old(nodes).len(),
            forall|j: int| 0 <= j < rows.len() ==> rows[j].0 < nodes.len(),
            records(nodes@) == recs,
            indents(nodes@) == written(depths, rows_of(rows@).subrange(0, k as int)),
            forall|p: int|
                0 <= p < nodes.len() ==> (#[trigger] nodes[p]).children == old(nodes)[p].children
                    && nodes[p].dep_children == old(nodes)[p].dep_children,
        decreases n - k,
    {
        let ghost before = nodes@;
        let (i, depth) = rows[k];
        nodes[i].depth = depth;
        proof {
            assert(forall|q: int| 0 <= q < nodes.len() && q != i ==> nodes[q] == before[q]);
            assert(nodes[i as int].issue == before[i as int].issue);
            assert(records(nodes@) =~= recs);
            let upto = rows_of(rows@).subrange(0, k + 1);
            assert(upto.drop_last() =~= rows_of(rows@).subrange(0, k as int));
            assert(upto.last() == Row { node: i as int, depth: depth as nat });
            assert(indents(nodes@) =~= indents(before).update(i as int, depth as nat));
        }
        k += 1;
    }
    assert(rows_of(rows@).subrange(0, n as int) =~= rows_of(rows@));
}

/// The issue tree.
///
/// It holds the snapshot, both projections of it, the fold state of each
/// hierarchy, the visible list of the hierarchy on display and the cursor.
/// `view` says what it stands for, `wf` that its parts belong together.
#[derive(Debug)]
pub struct IssueTree {
    nodes: Vec<TreeNode>,
    id_kids: Vec<Vec<usize>>,
    dep_kids: Vec<Vec<usize>>,
    id_links: Vec<Vec<usize>>,
    dep_links: Vec<Vec<usize>>,
    id_roots: Vec<usize>,
    dep_roots: Vec<usize>,
    root_ids: Vec<String>,
    dep_root_ids: Vec<String>,
    expanded: IdSet,
    dep_expanded: IdSet,
    multi_parent_ids: IdSet,
    ready_ids: IdSet,
    rows: Vec<(usize, usize)>,
    visible_items: Vec<String>,
    cursor: usize,
    show_closed: bool,
    hierarchy_mode: HierarchyMode,
}

impl View for IssueTree {
    type V = TreeView;

    closed spec fn view(&self) -> TreeView {
        TreeView {
            recs: records(self.nodes@),
            mode: self.hierarchy_mode,
            expanded: self.expanded@,
            dep_expanded: self.dep_expanded@,
            show_closed: self.show_closed,
            ready: self.ready_ids@,
            rows: rows_of(self.rows@),
            cursor: self.cursor as nat,
            depths: indents(self.nodes@),
        }
    }
}

impl IssueTree {
    /// Whether both projections are those of the snapshot.
    pub closed spec fn built(&self) -> bool {
        let recs = records(self.nodes@);
        let n = self.nodes.len() as int;
        &&& distinct_ids(recs)
        &&& is_kid_table(recs, HierarchyMode::IdBased, self.id_kids@)
        &&& is_kid_table(recs, HierarchyMode::DependencyBased, self.dep_kids@)
        &&& entries_below(self.id_kids@, n)
        &&& entries_below(self.dep_kids@, n)
        &&& is_parent_table(recs, HierarchyMode::IdBased, self.id_links@)
        &&& is_parent_table(recs, HierarchyMode::DependencyBased, self.dep_links@)
        &&& ints(self.id_roots@) == roots(recs, HierarchyMode::IdBased)
        &&& ints(self.dep_roots@) == roots(recs, HierarchyMode::DependencyBased)
        &&& forall|k: int| 0 <= k < self.id_roots.len() ==> self.id_roots[k] < n
        &&& forall|k: int| 0 <= k < self.dep_roots.len() ==> self.dep_roots[k] < n
        &&& self.root_ids.deep_view() == ids_of(recs, roots(recs, HierarchyMode::IdBased))
        &&& self.dep_root_ids.deep_view() == ids_of(
            recs,
            roots(recs, HierarchyMode::DependencyBased),
        )
        &&& forall|p: int|
            0 <= p < n ==> (#[trigger] self.nodes[p]).children.deep_view() == ids_of(
                recs,
                kids(recs, HierarchyMode::IdBased, p),
            )
        &&& forall|p: int|
            0 <= p < n ==> (#[trigger] self.nodes[p]).dep_children.deep_view() == ids_of(
                recs,
                kids(recs, HierarchyMode::DependencyBased, p),
            )
        &&& self.multi_parent_ids@ == multi_parent_ids(recs)
    }

    /// Whether the parts of the tree belong together: both projections are
    /// those of the snapshot, and the visible list, the cursor and the
    /// indents are those of the walk.
    pub closed spec fn wf(&self) -> bool {
        &&& self.built()
        &&& self@.valid()
        &&& forall|k: int| 0 <= k < self.rows.len() ==> self.rows[k].0 < self.nodes.len()
        &&& self.visible_items.deep_view() == ids_of(self@.recs, row_nodes(self@.rows))
    }

    /// A well-formed tree stands for a valid view.
    pub proof fn lemma_wf_valid(&self)
        requires
            self.wf(),
        ensures
            self@.valid(),
    {
    }

    /// The identifiers of the roots of the hierarchy `mode` as the tree
    /// holds them, in order.
    pub closed spec fn root_order(&self, mode: HierarchyMode) -> Seq<Seq<char>> {
        match mode {
            HierarchyMode::IdBased => self.root_ids.deep_view(),
            HierarchyMode::DependencyBased => self.dep_root_ids.deep_view(),
        }
    }

    /// The identifiers of the children of node `p` in the hierarchy `mode`
    /// as the tree holds them, in order.
    pub closed spec fn children_of(&self, mode: HierarchyMode, p: int) -> Seq<Seq<char>> {
        match mode {
            HierarchyMode::IdBased => self.nodes[p].children.deep_view(),
            HierarchyMode::DependencyBased => self.nodes[p].dep_children.deep_view(),
        }
    }

    /// The roots and the children that a well-formed tree holds are those of
    /// the projections of its snapshot.
    pub proof fn lemma_projection(&self, mode: HierarchyMode)
        requires
            self.wf(),
        ensures
            self.root_order(mode) == ids_of(self@.recs, roots(self@.recs, mode)),
            forall|p: int|
                0 <= p < self@.recs.len() ==> #[trigger] self.children_of(mode, p) == ids_of(
                    self@.recs,
                    kids(self@.recs, mode, p),
                ),
    {
    }

    /// Recomputes the visible list from the scene.
    fn rewalk(&mut self)
        requires
            old(self).built(),
        ensures
            final(self).wf(),
            final(self)@ == old(self)@.rewalked(),
    {
        let ghost before = self@;
        let rows = match self.hierarchy_mode {
            HierarchyMode::IdBased => compute_visible(
                &self.nodes,
                &self.id_kids,
                &self.id_roots,
                HierarchyMode::IdBased,
                &self.expanded,
                self.show_closed,
            ),
            HierarchyMode::DependencyBased => compute_visible(
                &self.nodes,
                &self.dep_kids,
                &self.dep_roots,
                HierarchyMode::DependencyBased,
                &self.dep_expanded,
                self.show_closed,
            ),
        };
        assert(rows_of(rows@) == before.scene().rows());
        let n = rows.len();
        let mut items: Vec<String> = Vec::new();
        let mut k: usize = 0;
        while k < n
            invariant
                n == rows.len(),
                k <= n,
                items.len() == k,
                forall|j: int| 0 <= j < rows.len() ==> rows[j].0 < self.nodes.len(),
                forall|j: int| 0 <= j < k ==> items[j]@ == self.nodes[rows[j].0 as int].issue.id@,
            decreases n - k,
        {
            items.push(self.nodes[rows[k].0].issue.id.clone());
            k += 1;
        }
        assert(items.deep_view() =~= ids_of(before.recs, row_nodes(rows_of(rows@))));
        write_depths(&mut self.nodes, &rows);
        proof {
            lemma_written(before.depths, rows_of(rows@));
            assert forall|k: int| 0 <= k < rows.len() implies 0 <= (#[trigger] rows_of(
                rows@,
            )[k]).node < before.depths.len() by {}
        }
        self.rows = rows;
        self.visible_items = items;
        if n == 0 {
            self.cursor = 0;
        } else if self.cursor >= n {
            self.cursor = n - 1;
        }
        proof {
            assert(self@.rows == before.scene().rows());
            assert(self@ == before.rewalked());
            assert(self@.depths_ok()) by {
                lemma_written(before.depths, self@.rows);
                crate::laws::law_single_appearance(before.scene());
            }
        }
    }

    /// The tree of a snapshot.
    ///
    /// A record whose identifier came before replaces the earlier one. Both
    /// projections are built, closed issues are shown, and the visible list
    /// is that of the hierarchy `hierarchy_mode` under the fold states
    /// given, with the cursor on its first row.
    pub fn from_issues(
        issues: Vec<Issue>,
        expanded: IdSet,
        dep_expanded: IdSet,
        ready_ids: IdSet,
        hierarchy_mode: HierarchyMode,
    ) -> (tree: IssueTree)
        ensures
            tree.wf(),
            tree@ == (TreeView {
                recs: merged(issues@),
                mode: hierarchy_mode,
                expanded: expanded@,
                dep_expanded: dep_expanded@,
                show_closed: true,
                ready: ready_ids@,
                rows: Seq::empty(),
                cursor: 0,
                depths: Seq::new(merged(issues@).len(), |i: int| 0nat),
            }).rewalked(),
    {
        let mut nodes = merge_records(issues);
        let ghost recs = records(nodes@);
        assert(indents(nodes@) =~= Seq::new(recs.len(), |i: int| 0nat));
        let id_links = parent_table(&nodes, HierarchyMode::IdBased);
        let dep_links = parent_table(&nodes, HierarchyMode::DependencyBased);
        let id_kids = kid_table(&nodes, HierarchyMode::IdBased, &id_links);
        let dep_kids = kid_table(&nodes, HierarchyMode::DependencyBased, &dep_links);
        let id_roots = root_list(&nodes, HierarchyMode::IdBased, &id_links);
        let dep_roots = root_list(&nodes, HierarchyMode::DependencyBased, &dep_links);
        let root_ids = ids_for(&nodes, &id_roots);
        let dep_root_ids = ids_for(&nodes, &dep_roots);
        let multi_parent_ids = multi_parent_set(&nodes, &dep_links);
        attach_children(&mut nodes, &id_kids, &dep_kids);
        let mut tree = IssueTree {
            nodes,
            id_kids,
            dep_kids,
            id_links,
            dep_links,
            id_roots,
            dep_roots,
            root_ids,
            dep_root_ids,
            expanded,
            dep_expanded,
            multi_parent_ids,
            ready_ids,
            rows: Vec::new(),
            visible_items: Vec::new(),
            cursor: 0,
            show_closed: true,
            hierarchy_mode,
        };
        assert(rows_of(tree.rows@) =~= Seq::<Row>::empty());
        tree.rewalk();
        tree
    }
}

impl IssueTree {
    /// The identifier that a dotted identifier names as its parent.
    pub fn parent_from_dotted_id(id: &str) -> (r: Option<String>)
        ensures
            match r {
                Some(p) => crate::text::dotted_parent(id@) == Some(p@),
                None => crate::text::dotted_parent(id@) is None,
            },
    {
        parent_of(id)
    }

    /// The nodes, one for each identifier of the snapshot, in the order in
    /// which the identifiers first came.
    pub fn nodes(&self) -> (r: &Vec<TreeNode>)
        requires
            self.wf(),
        ensures
            records(r@) == self@.recs,
            indents(r@) == self@.depths,
            forall|p: int|
                0 <= p < r.len() ==> (#[trigger] r[p]).children.deep_view() == self.children_of(
                    HierarchyMode::IdBased,
                    p,
                ) && r[p].dep_children.deep_view() == self.children_of(
                    HierarchyMode::DependencyBased,
                    p,
                ),
            forall|p: int|
                0 <= p < r.len() ==> (#[trigger] r[p]).children.deep_view() == ids_of(
                    self@.recs,
                    kids(self@.recs, HierarchyMode::IdBased, p),
                ),
            forall|p: int|
                0 <= p < r.len() ==> (#[trigger] r[p]).dep_children.deep_view() == ids_of(
                    self@.recs,
                    kids(self@.recs, HierarchyMode::DependencyBased, p),
                ),
    {
        &self.nodes
    }

    /// The node with identifier `id`.
    pub fn node(&self, id: &str) -> (r: Option<&TreeNode>)
        requires
            self.wf(),
        ensures
            match position(self@.recs, id@) {
                Some(i) => r is Some && r.unwrap().issue == self@.recs[i] && r.unwrap().depth
                    == self@.depths[i] && r.unwrap().children.deep_view() == ids_of(
                    self@.recs,
                    kids(self@.recs, HierarchyMode::IdBased, i),
                ) && r.unwrap().dep_children.deep_view() == ids_of(
                    self@.recs,
                    kids(self@.recs, HierarchyMode::DependencyBased, i),
                ),
                None => r is None,
            },
    {
        let key = id.to_owned();
        match find_index(&self.nodes, &key) {
            Some(i) => Some(&self.nodes[i]),
            None => None,
        }
    }

    /// The roots of the identifier hierarchy in listing order.
    pub fn root_ids(&self) -> (r: &Vec<String>)
        requires
            self.wf(),
        ensures
            r.deep_view() == self.root_order(HierarchyMode::IdBased),
            r.deep_view() == ids_of(self@.recs, roots(self@.recs, HierarchyMode::IdBased)),
    {
        &self.root_ids
    }

    /// The roots of the dependency hierarchy in listing order.
    pub fn dep_root_ids(&self) -> (r: &Vec<String>)
        requires
            self.wf(),
        ensures
            r.deep_view() == self.root_order(HierarchyMode::DependencyBased),
            r.deep_view() == ids_of(self@.recs, roots(self@.recs, HierarchyMode::DependencyBased)),
    {
        &self.dep_root_ids
    }

    /// Fold state of the identifier hierarchy.
    pub fn expanded(&self) -> (r: &IdSet)
        ensures
            r@ == self@.expanded,
    {
        &self.expanded
    }

    /// Fold state of the dependency hierarchy.
    pub fn dep_expanded(&self) -> (r: &IdSet)
        ensures
            r@ == self@.dep_expanded,
    {
        &self.dep_expanded
    }

    /// Identifiers of the nodes with more than one surviving blocking
    /// dependency.
    pub fn multi_parent_ids(&self) -> (r: &IdSet)
        requires
            self.wf(),
        ensures
            r@ == multi_parent_ids(self@.recs),
    {
        &self.multi_parent_ids
    }

    /// Identifiers of the issues that nothing blocks, as they were supplied.
    pub fn ready_ids(&self) -> (r: &IdSet)
        ensures
            r@ == self@.ready,
    {
        &self.ready_ids
    }

    /// The identifiers of the visible list, in order.
    pub fn visible_items(&self) -> (r: &Vec<String>)
        requires
            self.wf(),
        ensures
            r.deep_view() == ids_of(self@.recs, row_nodes(self@.rows)),
    {
        &self.visible_items
    }

    /// Index of the selected row.
    pub fn cursor(&self) -> (r: usize)
        ensures
            r == self@.cursor,
    {
        self.cursor
    }

    /// Whether closed issues are listed.
    pub fn show_closed(&self) -> (r: bool)
        ensures
            r == self@.show_closed,
    {
        self.show_closed
    }

    /// The hierarchy on display.
    pub fn hierarchy_mode(&self) -> (r: HierarchyMode)
        ensures
            r == self@.mode,
    {
        self.hierarchy_mode
    }

    /// Index of the selected node.
    fn selected_index(&self) -> (r: Option<usize>)
        requires
            self.wf(),
        ensures
            match r {
                Some(i) => self@.selected() == Some(i as int) && i < self.nodes.len()
                    && self.cursor < self.rows.len(),
                None => self@.selected() is None,
            },
    {
        if self.cursor < self.rows.len() {
            Some(self.rows[self.cursor].0)
        } else {
            None
        }
    }

    /// Identifier of the selected node; none where the list is empty.
    pub fn selected_id(&self) -> (r: Option<&str>)
        requires
            self.wf(),
        ensures
            match self@.selected() {
                Some(i) => r is Some && r.unwrap()@ == self@.recs[i].id@,
                None => r is None,
            },
    {
        match self.selected_index() {
            Some(i) => Some(self.nodes[i].issue.id.as_str()),
            None => None,
        }
    }

    /// The selected node; none where the list is empty.
    pub fn selected_node(&self) -> (r: Option<&TreeNode>)
        requires
            self.wf(),
        ensures
            match self@.selected() {
                Some(i) => r is Some && r.unwrap().issue == self@.recs[i] && r.unwrap().depth
                    == self@.rows[self@.cursor as int].depth && r.unwrap().children.deep_view()
                    == ids_of(self@.recs, kids(self@.recs, HierarchyMode::IdBased, i))
                    && r.unwrap().dep_children.deep_view() == ids_of(
                    self@.recs,
                    kids(self@.recs, HierarchyMode::DependencyBased, i),
                ),
                None => r is None,
            },
    {
        match self.selected_index() {
            Some(i) => Some(&self.nodes[i]),
            None => None,
        }
    }

    /// Whether node `i` has a child in the hierarchy on display.
    fn has_kids_at(&self, i: usize) -> (r: bool)
        requires
            self.built(),
            i < self.nodes.len(),
        ensures
            r == self@.has_kids(i as int),
    {
        match self.hierarchy_mode {
            HierarchyMode::IdBased => {
                assert(ints(self.id_kids[i as int]@).len() == self.id_kids[i as int].len());
                self.id_kids[i].len() > 0
            },
            HierarchyMode::DependencyBased => {
                assert(ints(self.dep_kids[i as int]@).len() == self.dep_kids[i as int].len());
                self.dep_kids[i].len() > 0
            },
        }
    }

    /// Whether the node with identifier `id` has a child in the hierarchy on
    /// display. An identifier that names no node has none.
    pub fn has_children_in_current_mode(&self, id: &str) -> (r: bool)
        requires
            self.wf(),
        ensures
            r == match position(self@.recs, id@) {
                Some(i) => self@.has_kids(i),
                None => false,
            },
    {
        let key = id.to_owned();
        match find_index(&self.nodes, &key) {
            Some(i) => self.has_kids_at(i),
            None => false,
        }
    }

    /// Whether the node with identifier `id` has a child in the identifier
    /// hierarchy. An identifier that names no node has none.
    pub fn has_children(&self, id: &str) -> (r: bool)
        requires
            self.wf(),
        ensures
            r == match position(self@.recs, id@) {
                Some(i) => kids(self@.recs, HierarchyMode::IdBased, i).len() > 0,
                None => false,
            },
    {
        let key = id.to_owned();
        match find_index(&self.nodes, &key) {
            Some(i) => {
                assert(ints(self.id_kids[i as int]@).len() == self.id_kids[i as int].len());
                self.id_kids[i].len() > 0
            },
            None => false,
        }
    }

    /// Whether `id` is in the fold state of the hierarchy on display.
    pub fn is_expanded_in_current_mode(&self, id: &str) -> (r: bool)
        ensures
            r == self@.fold().contains(id@),
    {
        match self.hierarchy_mode {
            HierarchyMode::IdBased => self.expanded.contains(id),
            HierarchyMode::DependencyBased => self.dep_expanded.contains(id),
        }
    }

    /// Whether `id` is in the fold state of the hierarchy on display.
    pub fn is_expanded(&self, id: &str) -> (r: bool)
        ensures
            r == self@.fold().contains(id@),
    {
        self.is_expanded_in_current_mode(id)
    }

    /// Moves the cursor up one row.
    pub fn move_up(&mut self)
        requires
            old(self).wf(),
        ensures
            final(self).wf(),
            final(self)@ == old(self)@.moved_up(),
    {
        if self.cursor > 0 {
            self.cursor -= 1;
        }
    }

    /// Moves the cursor down one row.
    pub fn move_down(&mut self)
        requires
            old(self).wf(),
        ensures
            final(self).wf(),
            final(self)@ == old(self)@.moved_down(),
    {
        if self.cursor < self.rows.len() && self.cursor + 1 < self.rows.len() {
            self.cursor += 1;
        }
    }

    /// Moves the cursor to the first row.
    pub fn move_to_top(&mut self)
        requires
            old(self).wf(),
        ensures
            final(self).wf(),
            final(self)@ == old(self)@.at_top(),
    {
        self.cursor = 0;
    }

    /// Moves the cursor to the last row.
    pub fn move_to_bottom(&mut self)
        requires
            old(self).wf(),
        ensures
            final(self).wf(),
            final(self)@ == old(self)@.at_bottom(),
    {
        if self.rows.len() > 0 {
            self.cursor = self.rows.len() - 1;
        }
    }

    /// Moves the cursor to row `index`. Returns whether there is such a row;
    /// where there is none the cursor stays.
    pub fn select(&mut self, index: usize) -> (r: bool)
        requires
            old(self).wf(),
        ensures
            final(self).wf(),
            final(self)@ == old(self)@.moved_to(index as nat),
            r == (index < old(self)@.rows.len()),
    {
        if index < self.rows.len() {
            self.cursor = index;
            true
        } else {
            false
        }
    }

    /// Recomputes the visible list.
    pub fn rebuild_visible(&mut self)
        requires
            old(self).wf(),
        ensures
            final(self).wf(),
            final(self)@ == old(self)@.rewalked(),
    {
        self.rewalk();
    }

    /// Lists or suppresses closed issues, and recomputes the visible list.
    pub fn set_show_closed(&mut self, show_closed: bool)
        requires
            old(self).wf(),
        ensures
            final(self).wf(),
            final(self)@ == old(self)@.showing_closed(show_closed),
    {
        self.show_closed = show_closed;
        self.rewalk();
    }

    /// Flips the filter on closed issues, and recomputes the visible list.
    pub fn toggle_show_closed(&mut self)
        requires
            old(self).wf(),
        ensures
            final(self).wf(),
            final(self)@ == old(self)@.showing_closed(!old(self)@.show_closed),
    {
        self.show_closed = !self.show_closed;
        self.rewalk();
    }

    /// Puts the hierarchy `mode` on display, and recomputes the visible list.
    pub fn set_hierarchy_mode(&mut self, mode: HierarchyMode)
        requires
            old(self).wf(),
        ensures
            final(self).wf(),
            final(self)@ == old(self)@.in_mode(mode),
    {
        self.hierarchy_mode = mode;
        self.rewalk();
    }
}

/// What `first_row` finds is the first row that lists the node, and it finds
/// none only where no row lists it.
pub proof fn lemma_first_row(rows: Seq<Row>, i: int)
    ensures
        match first_row(rows, i) {
            Some(k) => 0 <= k < rows.len() && rows[k].node == i && forall|j: int|
                0 <= j < k ==> rows[j].node != i,
            None => forall|j: int| 0 <= j < rows.len() ==> rows[j].node != i,
        },
    decreases rows.len(),
{
    if rows.len() > 0 {
        let head = rows.drop_last();
        lemma_first_row(head, i);
        assert(forall|j: int| 0 <= j < head.len() ==> head[j] == rows[j]);
    }
}

impl IssueTree {
    /// Whether the fold state of the hierarchy on display holds `id`.
    fn fold_holds(&self, id: &String) -> (r: bool)
        ensures
            r == self@.fold().contains(id@),
    {
        match self.hierarchy_mode {
            HierarchyMode::IdBased => self.expanded.contains(id.as_str()),
            HierarchyMode::DependencyBased => self.dep_expanded.contains(id.as_str()),
        }
    }

    /// Puts `id` into the fold state of the hierarchy on display.
    fn fold_insert(&mut self, id: String)
        requires
            old(self).built(),
        ensures
            final(self).built(),
            final(self)@ == old(self)@.with_fold(old(self)@.fold().insert(id@)),
            final(self).rows == old(self).rows,
    {
        match self.hierarchy_mode {
            HierarchyMode::IdBased => {
                self.expanded.insert(id);
            },
            HierarchyMode::DependencyBased => {
                self.dep_expanded.insert(id);
            },
        }
    }

    /// Takes `id` out of the fold state of the hierarchy on display.
    fn fold_remove(&mut self, id: &String)
        requires
            old(self).built(),
        ensures
            final(self).built(),
            final(self)@ == old(self)@.with_fold(old(self)@.fold().remove(id@)),
    {
        match self.hierarchy_mode {
            HierarchyMode::IdBased => {
                self.expanded.remove(id.as_str());
            },
            HierarchyMode::DependencyBased => {
                self.dep_expanded.remove(id.as_str());
            },
        }
    }

    /// Index of the first row that lists node `p`.
    fn first_row_of(&self, p: usize) -> (r: Option<usize>)
        ensures
            match r {
                Some(k) => self@.row_of(p as int) == Some(k as int) && k < self.rows.len(),
                None => self@.row_of(p as int) is None,
            },
    {
        let ghost rows = rows_of(self.rows@);
        let n = self.rows.len();
        let mut k: usize = 0;
        while k < n
            invariant
                n == self.rows.len(),
                k <= n,
                rows == rows_of(self.rows@),
                forall|j: int| 0 <= j < k ==> rows[j].node != p as int,
            decreases n - k,
        {
            if self.rows[k].0 == p {
                proof {
                    assert(rows[k as int].node == p as int);
                    lemma_first_row(rows, p as int);
                }
                return Some(k);
            }
            k += 1;
        }
        proof {
            lemma_first_row(rows, p as int);
        }
        None
    }

    /// What the tree panel shows, one line for each row of the visible list.
    pub fn row_lines(&self) -> (out: Vec<StyledLine>)
        requires
            self.wf(),
        ensures
            out.len() == self@.rows.len(),
            forall|k: int| 0 <= k < out.len() ==> (#[trigger] out[k])@ == self@.row_line(k),
    {
        let n = self.rows.len();
        let mut out: Vec<StyledLine> = Vec::new();
        let mut k: usize = 0;
        while k < n
            invariant
                k <= n,
                n == self.rows.len(),
                self.wf(),
                out.len() == k,
                forall|j: int| 0 <= j < k ==> (#[trigger] out[j])@ == self@.row_line(j),
            decreases n - k,
        {
            let (i, depth) = self.rows[k];
            assert(self@.rows[k as int] == (Row { node: i as int, depth: depth as nat }));
            let node = &self.nodes[i];
            assert(self@.recs[i as int] == node.issue);
            let mut lead = indent_chars(depth);
            let mark = if self.has_kids_at(i) {
                if self.fold_holds(&node.issue.id) {
                    "▼ "
                } else {
                    "▶ "
                }
            } else {
                "  "
            };
            append(&mut lead, &chars_of(mark));
            let row_style = if node.issue.is_closed() {
                SpanStyle::RowClosed
            } else if self.ready_ids.contains(node.issue.id.as_str()) {
                SpanStyle::RowReady
            } else {
                SpanStyle::RowBlocked
            };
            assert(ints(self.dep_links[i as int]@).len() == self.dep_links[i as int].len());
            let shared = self.dep_links[i].len() > 1;
            assert(shared == multi_parent(self@.recs, i as int));
            let id_style = match self.hierarchy_mode {
                HierarchyMode::DependencyBased => if shared {
                    SpanStyle::IdShared
                } else {
                    SpanStyle::Muted
                },
                HierarchyMode::IdBased => SpanStyle::Muted,
            };
            let mut name = chars_of(node.issue.id.as_str());
            append(&mut name, &chars_of(" "));
            let title = chars_of(node.issue.title.as_str());
            out.push(
                line_of_three(
                    make_span(&lead, row_style),
                    make_span(&name, id_style),
                    make_span(&title, row_style),
                ),
            );
            k += 1;
        }
        out
    }

    /// Moves the cursor to the row of the node with identifier `id`. Returns
    /// whether that node is listed; where it is not the cursor stays.
    pub fn select_id(&mut self, id: &str) -> (r: bool)
        requires
            old(self).wf(),
        ensures
            final(self).wf(),
            final(self)@ == old(self)@.moved_to_id(id@),
            r == (position(old(self)@.recs, id@) matches Some(i) && old(self)@.row_of(i) is Some),
    {
        let key = id.to_owned();
        match find_index(&self.nodes, &key) {
            Some(i) => match self.first_row_of(i) {
                Some(k) => {
                    self.cursor = k;
                    true
                },
                None => false,
            },
            None => false,
        }
    }

    /// Expands the selected node, if it has a child and is not expanded, and
    /// recomputes the visible list.
    pub fn expand(&mut self)
        requires
            old(self).wf(),
        ensures
            final(self).wf(),
            final(self)@ == old(self)@.expand(),
    {
        match self.selected_index() {
            Some(i) => {
                if self.has_kids_at(i) {
                    let id = self.nodes[i].issue.id.clone();
                    if !self.fold_holds(&id) {
                        self.fold_insert(id);
                        self.rewalk();
                    }
                }
            },
            None => {},
        }
    }

    /// Collapses the selected node, if it has a child and is expanded, and
    /// recomputes the visible list; from any other node, moves the cursor to
    /// its logical parent.
    pub fn collapse(&mut self)
        requires
            old(self).wf(),
        ensures
            final(self).wf(),
            final(self)@ == old(self)@.collapse(),
    {
        match self.selected_index() {
            Some(i) => {
                let id = self.nodes[i].issue.id.clone();
                if self.has_kids_at(i) && self.fold_holds(&id) {
                    self.fold_remove(&id);
                    self.rewalk();
                } else {
                    let parent = match self.hierarchy_mode {
                        HierarchyMode::IdBased => {
                            assert(ints(self.id_links[i as int]@) == parents(
                                self@.recs,
                                HierarchyMode::IdBased,
                                i as int,
                            ));
                            if self.id_links[i].len() > 0 {
                                assert(ints(self.id_links[i as int]@)[0]
                                    == self.id_links[i as int][0] as int);
                                Some(self.id_links[i][0])
                            } else {
                                None
                            }
                        },
                        HierarchyMode::DependencyBased => {
                            assert(ints(self.dep_links[i as int]@) == parents(
                                self@.recs,
                                HierarchyMode::DependencyBased,
                                i as int,
                            ));
                            if self.dep_links[i].len() > 0 {
                                assert(ints(self.dep_links[i as int]@)[0]
                                    == self.dep_links[i as int][0] as int);
                                Some(self.dep_links[i][0])
                            } else {
                                None
                            }
                        },
                    };
                    assert(match parent {
                        Some(p) => logical_parent(self@.recs, self@.mode, i as int) == Some(
                            p as int,
                        ),
                        None => logical_parent(self@.recs, self@.mode, i as int) is None,
                    });
                    match parent {
                        Some(p) => {
                            match self.first_row_of(p) {
                                Some(k) => {
                                    self.cursor = k;
                                },
                                None => {},
                            }
                        },
                        None => {},
                    }
                }
            },
            None => {},
        }
    }

    /// Flips the fold of the selected node, if it has a child, and recomputes
    /// the visible list.
    pub fn toggle_expand(&mut self)
        requires
            old(self).wf(),
        ensures
            final(self).wf(),
            final(self)@ == old(self)@.toggle_expand(),
    {
        match self.selected_index() {
            Some(i) => {
                if self.has_kids_at(i) {
                    let id = self.nodes[i].issue.id.clone();
                    if self.fold_holds(&id) {
                        self.fold_remove(&id);
                    } else {
                        self.fold_insert(id);
                    }
                    self.rewalk();
                }
            },
            None => {},
        }
    }

    /// Expands every node with a child where nothing is expanded, collapses
    /// everything otherwise, and recomputes the visible list.
    pub fn toggle_expand_all(&mut self)
        requires
            old(self).wf(),
        ensures
            final(self).wf(),
            final(self)@ == old(self)@.toggle_expand_all(),
    {
        let ghost start = self@;
        let nothing = match self.hierarchy_mode {
            HierarchyMode::IdBased => self.expanded.is_empty(),
            HierarchyMode::DependencyBased => self.dep_expanded.is_empty(),
        };
        if nothing {
            let n = self.nodes.len();
            let mut i: usize = 0;
            assert(self@ == start.with_fold(start.with_kids_among(0)));
            while i < n
                invariant
                    n == self.nodes.len(),
                    i <= n,
                    self.built(),
                    start.recs.len() == n,
                    self@ == start.with_fold(start.with_kids_among(i as int)),
                decreases n - i,
            {
                if self.has_kids_at(i) {
                    let id = self.nodes[i].issue.id.clone();
                    self.fold_insert(id);
                }
                i += 1;
            }
            proof {
                assert forall|id: Seq<char>|
                    start.with_kids_among(n as int).contains(id) == start.with_kids().contains(
                        id,
                    ) by {
                    lemma_with_kids_among(start, n as int, id);
                }
                assert(start.with_kids_among(n as int) =~= start.with_kids());
            }
        } else {
            match self.hierarchy_mode {
                HierarchyMode::IdBased => {
                    self.expanded.clear();
                },
                HierarchyMode::DependencyBased => {
                    self.dep_expanded.clear();
                },
            }
        }
        self.rewalk();
    }
}

/// Re-projection: two trees of one snapshot hold the same roots in the same
/// order and the same children in the same order, in both hierarchies,
/// whatever their fold states, cursors and filters.
pub proof fn law_reprojection(a: IssueTree, b: IssueTree, mode: HierarchyMode)
    requires
        a.wf(),
        b.wf(),
        a@.recs == b@.recs,
    ensures
        a.root_order(mode) == b.root_order(mode),
        forall|p: int|
            0 <= p < a@.recs.len() ==> #[trigger] a.children_of(mode, p) == b.children_of(mode, p),
{
    a.lemma_projection(mode);
    b.lemma_projection(mode);
}

} // verus!
