//! The walk that lists the visible nodes of a hierarchy.

use vstd::prelude::*;
use vstd::set_lib::{set_int_range, lemma_int_range};
use crate::bd::Issue;
use crate::idset::IdSet;
use crate::order::{rank_sort, sort_by_rank};
use crate::project::{kids, roots};
use crate::tree::{TreeNode, records, ints};
use crate::HierarchyMode;

verus! {

/// One entry of the visible list: a node and its indent.
pub struct Row {
    pub node: int,
    pub depth: nat,
}

/// What a walk depends on: the snapshot, the hierarchy walked, the fold state
/// of that hierarchy and the filter on closed issues.
pub struct Scene {
    pub recs: Seq<Issue>,
    pub mode: HierarchyMode,
    /// Identifiers of the expanded nodes; identifiers that name no node do
    /// nothing.
    pub fold: Set<Seq<char>>,
    pub show_closed: bool,
}

/// Whether `after` begins with `before`.
pub open spec fn extends(after: Seq<Row>, before: Seq<Row>) -> bool {
    &&& before.len() <= after.len()
    &&& forall|k: int| 0 <= k < before.len() ==> after[k] == before[k]
}

/// Whether `out` lists node `i`.
pub open spec fn listed(out: Seq<Row>, i: int) -> bool {
    exists|k: int| 0 <= k < out.len() && out[k].node == i
}

impl Scene {
    /// Whether node `i` is suppressed by the filter on closed issues.
    pub open spec fn hidden(self, i: int) -> bool {
        !self.show_closed && self.recs[i].closed()
    }

    /// Whether the walk goes on into the children of node `i`: it does where
    /// the node is expanded, and through every hidden node.
    pub open spec fn descends(self, i: int) -> bool {
        self.fold.contains(self.recs[i].id@) || self.hidden(i)
    }

    /// Whether the walk, having listed `out`, lists node `i` on reaching it:
    /// a hidden node never, and in the dependency hierarchy no node twice.
    pub open spec fn lists(self, i: int, out: Seq<Row>) -> bool {
        !self.hidden(i) && !(self.mode == HierarchyMode::DependencyBased && listed(out, i))
    }

    /// The indent of the children of node `i`, itself reached at `depth`: a
    /// hidden node takes up no level.
    pub open spec fn child_depth(self, i: int, depth: nat) -> nat {
        if self.hidden(i) {
            depth
        } else {
            depth + 1
        }
    }

    /// The children of node `i` in listing order.
    pub open spec fn ordered_kids(self, i: int) -> Seq<int> {
        rank_sort(self.recs, kids(self.recs, self.mode, i))
    }

    /// The nodes that are not on `path`.
    pub open spec fn off_path(self, path: Set<int>) -> Set<int> {
        set_int_range(0, self.recs.len() as int).difference(path)
    }

    /// The list after the walk has reached node `i` at `depth`, with the
    /// nodes of `path` in progress above it and `out` listed so far.
    ///
    /// A node in progress is passed over, which cuts every cycle. Any other
    /// node is listed if `lists` says so. Listed or not, its children are
    /// walked if `descends` says so: in listing order, at the indent that
    /// `child_depth` gives, and with the node itself in progress.
    ///
    /// The nodes in progress are kept for both hierarchies. In the
    /// identifier hierarchy, which has no cycle, no node that the walk
    /// reaches is ever in progress.
    pub open spec fn visit(self, i: int, depth: nat, path: Set<int>, out: Seq<Row>) -> Seq<Row>
        decreases self.off_path(path).len(), 0nat, 0nat,
        via Self::visit_decreases
    {
        if !(0 <= i < self.recs.len()) || path.contains(i) {
            out
        } else {
            let shown = if self.lists(i, out) {
                out.push(Row { node: i, depth })
            } else {
                out
            };
            if self.descends(i) {
                self.visit_all(
                    self.ordered_kids(i),
                    self.child_depth(i, depth),
                    path.insert(i),
                    shown,
                )
            } else {
                shown
            }
        }
    }

    /// The list after the walk has reached the nodes of `ahead` in turn, all
    /// at `depth`.
    pub open spec fn visit_all(
        self,
        ahead: Seq<int>,
        depth: nat,
        path: Set<int>,
        out: Seq<Row>,
    ) -> Seq<Row>
        decreases self.off_path(path).len(), 1nat, ahead.len(),
    {
        if ahead.len() == 0 {
            out
        } else {
            self.visit_all(ahead.drop_first(), depth, path, self.visit(ahead[0], depth, path, out))
        }
    }

    #[via_fn]
    proof fn visit_decreases(self, i: int, depth: nat, path: Set<int>, out: Seq<Row>) {
        if (0 <= i < self.recs.len()) && !path.contains(i) {
            self.lemma_off_path_insert(path, i);
        }
    }

    /// Putting a node on the path leaves one node less off it.
    pub proof fn lemma_off_path_insert(self, path: Set<int>, i: int)
        requires
            0 <= i < self.recs.len(),
            !path.contains(i),
        ensures
            self.off_path(path).finite(),
            self.off_path(path.insert(i)) == self.off_path(path).remove(i),
            self.off_path(path).contains(i),
            self.off_path(path.insert(i)).len() + 1 == self.off_path(path).len(),
    {
        lemma_int_range(0, self.recs.len() as int);
        assert(self.off_path(path.insert(i)) =~= self.off_path(path).remove(i));
    }

    /// The walk keeps what was listed before, and what it adds are nodes of
    /// the snapshot.
    pub proof fn lemma_visit_extends(self, i: int, depth: nat, path: Set<int>, out: Seq<Row>)
        ensures
            extends(self.visit(i, depth, path, out), out),
            forall|k: int|
                out.len() <= k < self.visit(i, depth, path, out).len() ==> 0 <= (
                #[trigger] self.visit(i, depth, path, out)[k]).node < self.recs.len(),
        decreases self.off_path(path).len(), 0nat, 0nat,
    {
        if (0 <= i < self.recs.len()) && !path.contains(i) {
            let shown = if self.lists(i, out) {
                out.push(Row { node: i, depth })
            } else {
                out
            };
            if self.descends(i) {
                self.lemma_off_path_insert(path, i);
                self.lemma_visit_all_extends(
                    self.ordered_kids(i),
                    self.child_depth(i, depth),
                    path.insert(i),
                    shown,
                );
                let after = self.visit(i, depth, path, out);
                assert forall|k: int| out.len() <= k < after.len() implies 0 <= (
                #[trigger] after[k]).node < self.recs.len() by {
                    if k < shown.len() {
                        assert(after[k] == shown[k]);
                    }
                }
            }
        }
    }

    /// The walk over a list of nodes keeps what was listed before, and what
    /// it adds are nodes of the snapshot.
    pub proof fn lemma_visit_all_extends(
        self,
        ahead: Seq<int>,
        depth: nat,
        path: Set<int>,
        out: Seq<Row>,
    )
        ensures
            extends(self.visit_all(ahead, depth, path, out), out),
            forall|k: int|
                out.len() <= k < self.visit_all(ahead, depth, path, out).len() ==> 0 <= (
                #[trigger] self.visit_all(ahead, depth, path, out)[k]).node < self.recs.len(),
        decreases self.off_path(path).len(), 1nat, ahead.len(),
    {
        if ahead.len() > 0 {
            let mid = self.visit(ahead[0], depth, path, out);
            self.lemma_visit_extends(ahead[0], depth, path, out);
            self.lemma_visit_all_extends(ahead.drop_first(), depth, path, mid);
            let after = self.visit_all(ahead, depth, path, out);
            assert forall|k: int| out.len() <= k < after.len() implies 0 <= (
            #[trigger] after[k]).node < self.recs.len() by {
                if k < mid.len() {
                    assert(after[k] == mid[k]);
                }
            }
        }
    }

    /// The nodes that the walk has left behind after it has reached node `i`
    /// with the nodes of `path` in progress, `done` being those it had left
    /// behind before. What the walk reaches does not depend on what it has
    /// listed.
    pub open spec fn done_visit(self, i: int, path: Set<int>, done: Set<int>) -> Set<int>
        decreases self.off_path(path).len(), 0nat, 0nat,
        via Self::done_visit_decreases
    {
        if !(0 <= i < self.recs.len()) || path.contains(i) {
            done
        } else if self.descends(i) {
            self.done_all(self.ordered_kids(i), path.insert(i), done).insert(i)
        } else {
            done.insert(i)
        }
    }

    /// The nodes that the walk has left behind after it has reached the
    /// nodes of `ahead` in turn.
    pub open spec fn done_all(self, ahead: Seq<int>, path: Set<int>, done: Set<int>) -> Set<int>
        decreases self.off_path(path).len(), 1nat, ahead.len(),
    {
        if ahead.len() == 0 {
            done
        } else {
            self.done_all(ahead.drop_first(), path, self.done_visit(ahead[0], path, done))
        }
    }

    #[via_fn]
    proof fn done_visit_decreases(self, i: int, path: Set<int>, done: Set<int>) {
        if (0 <= i < self.recs.len()) && !path.contains(i) {
            self.lemma_off_path_insert(path, i);
        }
    }

    /// Whether the walk of the dependency hierarchy has come to a settled
    /// state, with the nodes of `path` in progress, `out` listed and the
    /// nodes of `done` left behind: every node that is listed is in progress
    /// or left behind; every such node is listed unless it is hidden; and
    /// every child of a node that was left behind and into which the walk
    /// descends is itself left behind or in progress.
    pub open spec fn settled(self, path: Set<int>, out: Seq<Row>, done: Set<int>) -> bool {
        &&& forall|x: int| done.contains(x) ==> 0 <= x < self.recs.len()
        &&& forall|x: int|
            (done.contains(x) || path.contains(x)) && 0 <= x < self.recs.len() && !self.hidden(x)
                ==> listed(out, x)
        &&& forall|x: int, k: int|
            done.contains(x) && self.descends(x) && 0 <= k < self.ordered_kids(x).len()
                ==> done.contains(#[trigger] self.ordered_kids(x)[k]) || path.contains(
                self.ordered_kids(x)[k],
            )
        &&& forall|x: int| listed(out, x) ==> done.contains(x) || path.contains(x)
    }

    /// In a settled state, reaching a node that was left behind lists
    /// nothing and leaves nothing more behind.
    pub proof fn lemma_visit_done(
        self,
        i: int,
        depth: nat,
        path: Set<int>,
        out: Seq<Row>,
        done: Set<int>,
    )
        requires
            self.mode == HierarchyMode::DependencyBased,
            self.settled(path, out, done),
            done.contains(i),
        ensures
            self.visit(i, depth, path, out) == out,
            self.done_visit(i, path, done) == done,
        decreases self.off_path(path).len(), 0nat, 0nat,
    {
        if !path.contains(i) {
            assert(!self.lists(i, out));
            assert(done.insert(i) =~= done);
            if self.descends(i) {
                self.lemma_off_path_insert(path, i);
                let inner = path.insert(i);
                assert(self.settled(inner, out, done));
                self.lemma_visit_all_done(
                    self.ordered_kids(i),
                    self.child_depth(i, depth),
                    inner,
                    out,
                    done,
                );
            }
        }
    }

    /// In a settled state, reaching nodes that were left behind or are in
    /// progress lists nothing and leaves nothing more behind.
    pub proof fn lemma_visit_all_done(
        self,
        ahead: Seq<int>,
        depth: nat,
        path: Set<int>,
        out: Seq<Row>,
        done: Set<int>,
    )
        requires
            self.mode == HierarchyMode::DependencyBased,
            self.settled(path, out, done),
            forall|k: int|
                0 <= k < ahead.len() ==> done.contains(#[trigger] ahead[k]) || path.contains(ahead[k]),
        ensures
            self.visit_all(ahead, depth, path, out) == out,
            self.done_all(ahead, path, done) == done,
        decreases self.off_path(path).len(), 1nat, ahead.len(),
    {
        if ahead.len() > 0 {
            if done.contains(ahead[0]) {
                self.lemma_visit_done(ahead[0], depth, path, out, done);
            } else {
                assert(path.contains(ahead[0]));
            }
            assert(self.visit(ahead[0], depth, path, out) == out);
            assert(self.done_visit(ahead[0], path, done) == done);
            let rest = ahead.drop_first();
            assert forall|k: int| 0 <= k < rest.len() implies done.contains(#[trigger] rest[k])
                || path.contains(rest[k]) by {
                assert(rest[k] == ahead[k + 1]);
            }
            self.lemma_visit_all_done(rest, depth, path, out, done);
        }
    }

    /// In a settled state, once the walk has reached a node and listed it
    /// where it is to be listed, the state with that node in progress is
    /// settled.
    pub proof fn lemma_shown_settled(
        self,
        i: int,
        depth: nat,
        path: Set<int>,
        out: Seq<Row>,
        done: Set<int>,
    )
        requires
            self.mode == HierarchyMode::DependencyBased,
            self.settled(path, out, done),
            0 <= i < self.recs.len(),
        ensures
            self.settled(
                path.insert(i),
                if self.lists(i, out) {
                    out.push(Row { node: i, depth })
                } else {
                    out
                },
                done,
            ),
    {
        let shown = if self.lists(i, out) {
            out.push(Row { node: i, depth })
        } else {
            out
        };
        assert forall|x: int| listed(out, x) implies listed(shown, x) by {
            let k = choose|k: int| 0 <= k < out.len() && out[k].node == x;
            assert(shown[k].node == x);
        }
        assert forall|x: int| listed(shown, x) implies listed(out, x) || x == i by {
            let k = choose|k: int| 0 <= k < shown.len() && shown[k].node == x;
            if k < out.len() {
                assert(out[k].node == x);
            }
        }
        if self.lists(i, out) {
            assert(shown[out.len() as int].node == i);
        }
    }

    /// Reaching a node takes a settled state to a settled state, in which
    /// the node is left behind unless it is in progress.
    pub proof fn lemma_visit_settles(
        self,
        i: int,
        depth: nat,
        path: Set<int>,
        out: Seq<Row>,
        done: Set<int>,
    )
        requires
            self.mode == HierarchyMode::DependencyBased,
            self.settled(path, out, done),
        ensures
            self.settled(path, self.visit(i, depth, path, out), self.done_visit(i, path, done)),
            done.subset_of(self.done_visit(i, path, done)),
            0 <= i < self.recs.len() && !path.contains(i) ==> self.done_visit(
                i,
                path,
                done,
            ).contains(i),
        decreases self.off_path(path).len(), 0nat, 0nat,
    {
        if (0 <= i < self.recs.len()) && !path.contains(i) {
            let row = Row { node: i, depth };
            let shown = if self.lists(i, out) {
                out.push(row)
            } else {
                out
            };
            let inner = path.insert(i);
            assert forall|x: int| listed(out, x) implies listed(shown, x) by {
                let k = choose|k: int| 0 <= k < out.len() && out[k].node == x;
                assert(shown[k].node == x);
            }
            assert forall|x: int| listed(shown, x) implies listed(out, x) || x == i by {
                let k = choose|k: int| 0 <= k < shown.len() && shown[k].node == x;
                if k < out.len() {
                    assert(out[k].node == x);
                }
            }
            if self.lists(i, out) {
                assert(shown[out.len() as int].node == i);
            }
            assert(!self.hidden(i) ==> listed(shown, i));
            assert(self.settled(inner, shown, done));
            if self.descends(i) {
                self.lemma_off_path_insert(path, i);
                let ahead = self.ordered_kids(i);
                let below = self.child_depth(i, depth);
                self.lemma_visit_all_settles(ahead, below, inner, shown, done);
                let after = self.visit_all(ahead, below, inner, shown);
                let left = self.done_all(ahead, inner, done);
                crate::order::lemma_rank_sort_members(
                    self.recs,
                    kids(self.recs, self.mode, i),
                );
                crate::project::lemma_kids_among(self.recs, self.mode, i, self.recs.len() as int);
                assert forall|k: int| 0 <= k < ahead.len() implies left.insert(i).contains(
                    #[trigger] ahead[k],
                ) || path.contains(ahead[k]) by {
                    assert(ahead.contains(ahead[k]));
                    assert(kids(self.recs, self.mode, i).contains(ahead[k]));
                    let src = kids(self.recs, self.mode, i);
                    let at = choose|at: int| 0 <= at < src.len() && src[at] == ahead[k];
                    assert(0 <= src[at] < self.recs.len());
                }
                assert(self.settled(path, after, left.insert(i)));
            } else {
                assert(self.settled(path, shown, done.insert(i)));
            }
        }
    }

    /// Reaching a list of nodes takes a settled state to a settled state,
    /// in which each of them is left behind unless it is in progress.
    pub proof fn lemma_visit_all_settles(
        self,
        ahead: Seq<int>,
        depth: nat,
        path: Set<int>,
        out: Seq<Row>,
        done: Set<int>,
    )
        requires
            self.mode == HierarchyMode::DependencyBased,
            self.settled(path, out, done),
        ensures
            self.settled(
                path,
                self.visit_all(ahead, depth, path, out),
                self.done_all(ahead, path, done),
            ),
            done.subset_of(self.done_all(ahead, path, done)),
            forall|k: int|
                0 <= k < ahead.len() && 0 <= ahead[k] < self.recs.len() && !path.contains(ahead[k])
                    ==> self.done_all(ahead, path, done).contains(#[trigger] ahead[k]),
        decreases self.off_path(path).len(), 1nat, ahead.len(),
    {
        if ahead.len() > 0 {
            let mid = self.visit(ahead[0], depth, path, out);
            let left = self.done_visit(ahead[0], path, done);
            self.lemma_visit_settles(ahead[0], depth, path, out, done);
            let rest = ahead.drop_first();
            self.lemma_visit_all_settles(rest, depth, path, mid, left);
            let all = self.done_all(ahead, path, done);
            assert forall|k: int|
                0 <= k < ahead.len() && 0 <= ahead[k] < self.recs.len() && !path.contains(
                    ahead[k],
                ) implies all.contains(#[trigger] ahead[k]) by {
                if k > 0 {
                    assert(rest[k - 1] == ahead[k]);
                }
            }
        }
    }

    /// The visible list: the walk over the roots in listing order, each
    /// reached at indent 0.
    pub open spec fn rows(self) -> Seq<Row> {
        self.visit_all(roots(self.recs, self.mode), 0, Set::empty(), Seq::empty())
    }
}

/// The scene of a walk over `nodes`.
pub open spec fn scene_of(
    nodes: Seq<TreeNode>,
    mode: HierarchyMode,
    fold: Set<Seq<char>>,
    show_closed: bool,
) -> Scene {
    Scene { recs: records(nodes), mode, fold, show_closed }
}

/// The rows that a list of pairs of node index and indent stands for.
pub open spec fn rows_of(out: Seq<(usize, usize)>) -> Seq<Row> {
    out.map_values(|r: (usize, usize)| Row { node: r.0 as int, depth: r.1 as nat })
}

/// The nodes that a vector of flags marks.
pub open spec fn marked(flags: Seq<bool>) -> Set<int> {
    Set::new(|j: int| 0 <= j < flags.len() && flags[j])
}

/// Whether `table` holds, for each node, its children in the projection of
/// `mode`, in snapshot order.
pub open spec fn is_kid_table(recs: Seq<Issue>, mode: HierarchyMode, table: Seq<Vec<usize>>) -> bool {
    &&& table.len() == recs.len()
    &&& forall|p: int| 0 <= p < table.len() ==> ints(#[trigger] table[p]@) == kids(recs, mode, p)
}

/// Walks from node `i`, reached at `depth`, and appends what the walk lists
/// to `out`. `on_path` marks the nodes in progress and `left` the nodes that
/// the walk has left behind.
///
/// In the dependency hierarchy a node that was left behind is passed over
/// together with what stands below it: reaching it again would list nothing.
/// So the walk goes into every node once at most.
pub(crate) fn add_visible_recursive(
    nodes: &Vec<TreeNode>,
    table: &Vec<Vec<usize>>,
    mode: HierarchyMode,
    fold: &IdSet,
    show_closed: bool,
    i: usize,
    depth: usize,
    on_path: &mut Vec<bool>,
    left: &mut Vec<bool>,
    out: &mut Vec<(usize, usize)>,
)
    requires
        mode == HierarchyMode::DependencyBased ==> scene_of(
            nodes@,
            mode,
            fold@,
            show_closed,
        ).settled(marked(old(on_path)@), rows_of(old(out)@), marked(old(left)@)),
        is_kid_table(records(nodes@), mode, table@),
        forall|p: int, k: int|
            0 <= p < table.len() && 0 <= k < table[p].len() ==> table[p][k] < nodes.len(),
        i < nodes.len(),
        old(on_path).len() == nodes.len(),
        old(left).len() == nodes.len(),
        depth + scene_of(nodes@, mode, fold@, show_closed).off_path(
            marked(old(on_path)@),
        ).len() <= nodes.len(),
    ensures
        final(on_path)@ == old(on_path)@,
        final(left).len() == nodes.len(),
        marked(final(left)@) == scene_of(nodes@, mode, fold@, show_closed).done_visit(
            i as int,
            marked(old(on_path)@),
            marked(old(left)@),
        ),
        rows_of(final(out)@) == scene_of(nodes@, mode, fold@, show_closed).visit(
            i as int,
            depth as nat,
            marked(old(on_path)@),
            rows_of(old(out)@),
        ),
        mode == HierarchyMode::DependencyBased ==> scene_of(
            nodes@,
            mode,
            fold@,
            show_closed,
        ).settled(marked(old(on_path)@), rows_of(final(out)@), marked(final(left)@)),
    decreases
        scene_of(nodes@, mode, fold@, show_closed).off_path(
            marked(old(on_path)@),
        ).len(),
{
    let ghost scene = scene_of(nodes@, mode, fold@, show_closed);
    let ghost path = marked(on_path@);
    let ghost out0 = rows_of(out@);
    let ghost done = marked(left@);
    if on_path[i] {
        return ;
    }
    proof {
        scene.lemma_off_path_insert(path, i as int);
        if mode == HierarchyMode::DependencyBased {
            scene.lemma_visit_settles(i as int, depth as nat, path, out0, done);
        }
    }
    let behind = match mode {
        HierarchyMode::IdBased => false,
        HierarchyMode::DependencyBased => left[i],
    };
    if behind {
        proof {
            scene.lemma_visit_done(i as int, depth as nat, path, out0, done);
        }
        return ;
    }
    let hidden = !show_closed && nodes[i].issue.is_closed();
    if !hidden {
        proof {
            let row = Row { node: i as int, depth: depth as nat };
            assert(rows_of(out@.push((i, depth))) =~= out0.push(row));
            if mode == HierarchyMode::DependencyBased {
                assert(!listed(out0, i as int));
            }
        }
        out.push((i, depth));
    }
    let ghost shown = rows_of(out@);
    assert(shown == if scene.lists(i as int, out0) {
        out0.push(Row { node: i as int, depth: depth as nat })
    } else {
        out0
    });
    if !(fold.contains(nodes[i].issue.id.as_str()) || hidden) {
        left[i] = true;
        assert(marked(left@) =~= done.insert(i as int));
        return ;
    }
    let ahead = sort_by_rank(nodes, &table[i]);
    let child_depth = if hidden {
        depth
    } else {
        depth + 1
    };
    on_path[i] = true;
    let ghost inner = marked(on_path@);
    assert(inner =~= path.insert(i as int));
    proof {
        if mode == HierarchyMode::DependencyBased {
            scene.lemma_shown_settled(i as int, depth as nat, path, out0, done);
        }
    }
    let mut k: usize = 0;
    assert(ints(ahead@).subrange(0, ahead.len() as int) =~= ints(ahead@));
    while k < ahead.len()
        invariant
            k <= ahead.len(),
            is_kid_table(records(nodes@), mode, table@),
            forall|p: int, k: int|
                0 <= p < table.len() && 0 <= k < table[p].len() ==> table[p][k] < nodes.len(),
            forall|j: int| 0 <= j < ahead.len() ==> ahead[j] < nodes.len(),
            scene == scene_of(nodes@, mode, fold@, show_closed),
            on_path.len() == nodes.len(),
            left.len() == nodes.len(),
            inner == marked(on_path@),
            on_path@ == old(on_path)@.update(i as int, true),
            child_depth + scene.off_path(inner).len() <= nodes.len(),
            scene.off_path(inner).len() < scene.off_path(path).len(),
            path == marked(old(on_path)@),
            mode == HierarchyMode::DependencyBased ==> scene.settled(
                inner,
                rows_of(out@),
                marked(left@),
            ),
            scene.visit_all(ints(ahead@), child_depth as nat, inner, shown) == scene.visit_all(
                ints(ahead@).subrange(k as int, ahead.len() as int),
                child_depth as nat,
                inner,
                rows_of(out@),
            ),
            scene.done_all(ints(ahead@), inner, done) == scene.done_all(
                ints(ahead@).subrange(k as int, ahead.len() as int),
                inner,
                marked(left@),
            ),
        decreases ahead.len() - k,
    {
        proof {
            let rest = ints(ahead@).subrange(k as int, ahead.len() as int);
            assert(rest[0] == ahead[k as int] as int);
            assert(rest.drop_first() =~= ints(ahead@).subrange(k + 1, ahead.len() as int));
        }
        add_visible_recursive(
            nodes,
            table,
            mode,
            fold,
            show_closed,
            ahead[k],
            child_depth,
            on_path,
            left,
            out,
        );
        k += 1;
    }
    assert(ints(ahead@).subrange(ahead.len() as int, ahead.len() as int) =~= Seq::<int>::empty());
    on_path[i] = false;
    assert(on_path@ =~= old(on_path)@);
    let ghost below = marked(left@);
    left[i] = true;
    assert(marked(left@) =~= below.insert(i as int));
}

/// A vector of `n` flags, none set.
pub fn no_marks(n: usize) -> (flags: Vec<bool>)
    ensures
        flags.len() == n,
        forall|j: int| 0 <= j < n ==> !flags[j],
{
    let mut flags: Vec<bool> = Vec::new();
    let mut i: usize = 0;
    while i < n
        invariant
            i <= n,
            flags.len() == i,
            forall|j: int| 0 <= j < i ==> !flags[j],
        decreases n - i,
    {
        flags.push(false);
        i += 1;
    }
    flags
}

/// The visible list of a scene, as pairs of node index and indent.
pub fn compute_visible(
    nodes: &Vec<TreeNode>,
    table: &Vec<Vec<usize>>,
    top: &Vec<usize>,
    mode: HierarchyMode,
    fold: &IdSet,
    show_closed: bool,
) -> (out: Vec<(usize, usize)>)
    requires
        is_kid_table(records(nodes@), mode, table@),
        forall|p: int, k: int|
            0 <= p < table.len() && 0 <= k < table[p].len() ==> table[p][k] < nodes.len(),
        ints(top@) == roots(records(nodes@), mode),
        forall|k: int| 0 <= k < top.len() ==> top[k] < nodes.len(),
    ensures
        rows_of(out@) == scene_of(nodes@, mode, fold@, show_closed).rows(),
        forall|k: int| 0 <= k < out.len() ==> out[k].0 < nodes.len(),
{
    let ghost scene = scene_of(nodes@, mode, fold@, show_closed);
    let n = nodes.len();
    let mut on_path = no_marks(n);
    let mut left = no_marks(n);
    let mut out: Vec<(usize, usize)> = Vec::new();
    proof {
        assert(marked(on_path@) =~= Set::<int>::empty());
        assert(marked(left@) =~= Set::<int>::empty());
        lemma_int_range(0, n as int);
        assert(scene.off_path(Set::<int>::empty()) =~= set_int_range(0, n as int));
        assert(rows_of(out@) =~= Seq::<Row>::empty());
        assert(ints(top@).subrange(0, top.len() as int) =~= ints(top@));
    }
    let mut k: usize = 0;
    while k < top.len()
        invariant
            k <= top.len(),
            n == nodes.len(),
            is_kid_table(records(nodes@), mode, table@),
            forall|p: int, k: int|
                0 <= p < table.len() && 0 <= k < table[p].len() ==> table[p][k] < nodes.len(),
            forall|j: int| 0 <= j < top.len() ==> top[j] < nodes.len(),
            scene == scene_of(nodes@, mode, fold@, show_closed),
            on_path.len() == n,
            left.len() == n,
            marked(on_path@) == Set::<int>::empty(),
            scene.off_path(Set::<int>::empty()).len() == n,
            mode == HierarchyMode::DependencyBased ==> scene.settled(
                Set::empty(),
                rows_of(out@),
                marked(left@),
            ),
            scene.visit_all(ints(top@), 0, Set::empty(), Seq::empty()) == scene.visit_all(
                ints(top@).subrange(k as int, top.len() as int),
                0,
                Set::empty(),
                rows_of(out@),
            ),
        decreases top.len() - k,
    {
        proof {
            let rest = ints(top@).subrange(k as int, top.len() as int);
            assert(rest[0] == top[k as int] as int);
            assert(rest.drop_first() =~= ints(top@).subrange(k + 1, top.len() as int));
        }
        add_visible_recursive(
            nodes,
            table,
            mode,
            fold,
            show_closed,
            top[k],
            0,
            &mut on_path,
            &mut left,
            &mut out,
        );
        k += 1;
    }
    proof {
        assert(ints(top@).subrange(top.len() as int, top.len() as int) =~= Seq::<int>::empty());
        scene.lemma_visit_all_extends(ints(top@), 0, Set::empty(), Seq::empty());
        assert forall|k: int| 0 <= k < out.len() implies out[k].0 < nodes.len() by {
            assert(rows_of(out@)[k].node == out[k].0 as int);
        }
    }
    out
}

} // verus!
