//! What holds of every snapshot and every walk.

use vstd::prelude::*;
use crate::bd::Issue;
use crate::order::lemma_rank_sort_members;
use crate::project::{
    distinct_ids, id_parent, is_kid, is_root, kids, lemma_id_parent_shorter,
    lemma_kids_among, lemma_roots_among, parents, roots, roots_among,
};
use crate::tree::TreeView;
use crate::walk::{extends, listed, Row, Scene};
use crate::HierarchyMode;

verus! {

/// In the identifier hierarchy every node has at most one parent.
pub proof fn law_one_parent(recs: Seq<Issue>, c: int, p: int, q: int)
    requires
        is_kid(recs, HierarchyMode::IdBased, p, c),
        is_kid(recs, HierarchyMode::IdBased, q, c),
    ensures
        p == q,
        parents(recs, HierarchyMode::IdBased, c).len() == 1,
{
}

/// Whether each node of `chain` but the first is a child of the one before
/// it, in the identifier hierarchy.
pub open spec fn descending_chain(recs: Seq<Issue>, chain: Seq<int>) -> bool {
    forall|k: int|
        0 <= k < chain.len() - 1 ==> is_kid(
            recs,
            HierarchyMode::IdBased,
            #[trigger] chain[k],
            chain[k + 1],
        )
}

/// Along a chain from parent to child in the identifier hierarchy the
/// identifiers grow strictly longer.
pub proof fn lemma_chain_grows(recs: Seq<Issue>, chain: Seq<int>, k: int)
    requires
        descending_chain(recs, chain),
        0 < k < chain.len(),
    ensures
        recs[chain[0]].id@.len() < recs[chain[k]].id@.len(),
    decreases k,
{
    lemma_id_parent_shorter(recs, chain[k]);
    assert(is_kid(recs, HierarchyMode::IdBased, chain[k - 1], chain[k]));
    assert(parents(recs, HierarchyMode::IdBased, chain[k])[0] == chain[k - 1]);
    if k > 1 {
        lemma_chain_grows(recs, chain, k - 1);
    }
}

/// The identifier hierarchy has no cycle: no chain from parent to child
/// comes back to the node it began with.
pub proof fn law_no_cycle(recs: Seq<Issue>, chain: Seq<int>)
    requires
        descending_chain(recs, chain),
        chain.len() >= 2,
    ensures
        chain.first() != chain.last(),
{
    lemma_chain_grows(recs, chain, chain.len() - 1);
}

/// Whether no two rows list the same node.
pub open spec fn distinct_rows(rows: Seq<Row>) -> bool {
    forall|j: int, k: int| 0 <= j < k < rows.len() ==> rows[j].node != rows[k].node
}

/// In the dependency hierarchy, reaching a node adds no node that is listed
/// already.
pub proof fn lemma_visit_lists_once(scene: Scene, i: int, depth: nat, path: Set<int>, out: Seq<Row>)
    requires
        scene.mode == HierarchyMode::DependencyBased,
        distinct_rows(out),
    ensures
        distinct_rows(scene.visit(i, depth, path, out)),
    decreases scene.off_path(path).len(), 0nat, 0nat,
{
    if (0 <= i < scene.recs.len()) && !path.contains(i) {
        let shown = if scene.lists(i, out) {
            out.push(Row { node: i, depth })
        } else {
            out
        };
        assert(distinct_rows(shown)) by {
            if scene.lists(i, out) {
                assert(!listed(out, i));
            }
        }
        if scene.descends(i) {
            scene.lemma_off_path_insert(path, i);
            lemma_visit_all_lists_once(
                scene,
                scene.ordered_kids(i),
                scene.child_depth(i, depth),
                path.insert(i),
                shown,
            );
        }
    }
}

/// In the dependency hierarchy, reaching a list of nodes adds no node that
/// is listed already.
pub proof fn lemma_visit_all_lists_once(
    scene: Scene,
    ahead: Seq<int>,
    depth: nat,
    path: Set<int>,
    out: Seq<Row>,
)
    requires
        scene.mode == HierarchyMode::DependencyBased,
        distinct_rows(out),
    ensures
        distinct_rows(scene.visit_all(ahead, depth, path, out)),
    decreases scene.off_path(path).len(), 1nat, ahead.len(),
{
    if ahead.len() > 0 {
        lemma_visit_lists_once(scene, ahead[0], depth, path, out);
        lemma_visit_all_lists_once(
            scene,
            ahead.drop_first(),
            depth,
            path,
            scene.visit(ahead[0], depth, path, out),
        );
    }
}

/// Whether `chain` is a way of the walk from a root downwards: it begins
/// with a root, each further node is a child of the one before it, and the
/// walk descends into each node but the last.
pub open spec fn is_way(scene: Scene, chain: Seq<int>) -> bool {
    &&& chain.len() >= 1
    &&& roots(scene.recs, scene.mode).contains(chain[0])
    &&& forall|k: int|
        0 <= k < chain.len() - 1 ==> 0 <= #[trigger] chain[k] < scene.recs.len() && is_kid(
            scene.recs,
            scene.mode,
            chain[k],
            chain[k + 1],
        ) && scene.descends(chain[k])
}

/// The indent at which the walk reaches the last node of `chain`: a root is
/// reached at indent 0, and a child one level below its parent, or on the
/// level of its parent where the parent is hidden.
pub open spec fn way_depth(scene: Scene, chain: Seq<int>) -> nat
    decreases chain.len(),
{
    if chain.len() <= 1 {
        0
    } else {
        scene.child_depth(chain[chain.len() - 2], way_depth(scene, chain.drop_last()))
    }
}

/// Whether `rows` lists node `i` at indent `depth`.
pub open spec fn listed_at(rows: Seq<Row>, i: int, depth: nat) -> bool {
    exists|k: int| 0 <= k < rows.len() && #[trigger] rows[k] == (Row { node: i, depth })
}

/// Whether `chain` is a way from a root of which `rows` lists every node
/// but the last at the indent at which the way reaches it, but for the
/// hidden ones.
pub open spec fn shown_way(scene: Scene, rows: Seq<Row>, chain: Seq<int>) -> bool {
    &&& is_way(scene, chain)
    &&& forall|k: int|
        0 <= k < chain.len() - 1 && !scene.hidden(#[trigger] chain[k]) ==> listed_at(
            rows,
            chain[k],
            way_depth(scene, chain.subrange(0, k + 1)),
        )
}

/// Whether `rows` lists node `i` at indent `depth` in keeping with its
/// parents: a root at indent 0; any other node one level below a parent
/// that is listed, or on the level of a parent that is hidden, where that
/// parent is again listed in keeping with its parents. The walk descends
/// into each of these parents.
pub open spec fn reached(scene: Scene, rows: Seq<Row>, i: int, depth: nat) -> bool {
    exists|chain: Seq<int>| #[trigger]
        shown_way(scene, rows, chain) && chain.last() == i && way_depth(scene, chain) == depth
}

/// Whether every row of `rows` from row `from` on lists its node in keeping
/// with its parents.
pub open spec fn rows_reached(scene: Scene, rows: Seq<Row>, from: int) -> bool {
    forall|k: int|
        from <= k < rows.len() ==> reached(scene, rows, (#[trigger] rows[k]).node, rows[k].depth)
}

/// A way that is shown by a list is shown by every list that begins with
/// that list.
pub proof fn lemma_shown_way_grows(scene: Scene, rows: Seq<Row>, more: Seq<Row>, chain: Seq<int>)
    requires
        shown_way(scene, rows, chain),
        extends(more, rows),
    ensures
        shown_way(scene, more, chain),
{
    assert forall|k: int|
        0 <= k < chain.len() - 1 && !scene.hidden(#[trigger] chain[k]) implies listed_at(
        more,
        chain[k],
        way_depth(scene, chain.subrange(0, k + 1)),
    ) by {
        let row = Row { node: chain[k], depth: way_depth(scene, chain.subrange(0, k + 1)) };
        let at = choose|at: int| 0 <= at < rows.len() && #[trigger] rows[at] == row;
        assert(more[at] == row);
    }
}

/// What was listed in keeping with its parents stays so when the list
/// grows.
pub proof fn lemma_reached_grows(scene: Scene, rows: Seq<Row>, more: Seq<Row>, from: int)
    requires
        0 <= from <= rows.len(),
        rows_reached(scene, rows, from),
        extends(more, rows),
    ensures
        forall|k: int|
            from <= k < rows.len() ==> reached(scene, more, (#[trigger] more[k]).node, more[k].depth),
{
    assert forall|k: int| from <= k < rows.len() implies reached(
        scene,
        more,
        (#[trigger] more[k]).node,
        more[k].depth,
    ) by {
        assert(more[k] == rows[k]);
        let chain = choose|chain: Seq<int>| #[trigger]
            shown_way(scene, rows, chain) && chain.last() == rows[k].node && way_depth(
                scene,
                chain,
            ) == rows[k].depth;
        lemma_shown_way_grows(scene, rows, more, chain);
    }
}

/// The way to a node, continued to a child of it into which the walk
/// descends, is a way, and it is shown where the way to the node is shown
/// and the node is listed where the way reaches it, or hidden.
pub proof fn lemma_way_step(scene: Scene, rows: Seq<Row>, chain: Seq<int>, c: int)
    requires
        shown_way(scene, rows, chain),
        0 <= chain.last() < scene.recs.len(),
        scene.descends(chain.last()),
        is_kid(scene.recs, scene.mode, chain.last(), c),
        !scene.hidden(chain.last()) ==> listed_at(rows, chain.last(), way_depth(scene, chain)),
    ensures
        shown_way(scene, rows, chain.push(c)),
        way_depth(scene, chain.push(c)) == scene.child_depth(chain.last(), way_depth(scene, chain)),
{
    let longer = chain.push(c);
    assert(longer.drop_last() =~= chain);
    assert(longer[longer.len() - 2] == chain.last());
    assert forall|k: int| 0 <= k < longer.len() - 1 implies 0 <= #[trigger] longer[k]
        < scene.recs.len() && is_kid(scene.recs, scene.mode, longer[k], longer[k + 1])
        && scene.descends(longer[k]) by {
        if k < chain.len() - 1 {
            assert(longer[k] == chain[k]);
            assert(longer[k + 1] == chain[k + 1]);
        }
    }
    assert forall|k: int|
        0 <= k < longer.len() - 1 && !scene.hidden(#[trigger] longer[k]) implies listed_at(
        rows,
        longer[k],
        way_depth(scene, longer.subrange(0, k + 1)),
    ) by {
        assert(longer.subrange(0, k + 1) =~= chain.subrange(0, k + 1));
        if k < chain.len() - 1 {
            assert(longer[k] == chain[k]);
        } else {
            assert(chain.subrange(0, k + 1) =~= chain);
        }
    }
}

/// What the walk adds on reaching a node to which a shown way leads, it
/// lists in keeping with the parents.
pub proof fn lemma_visit_reached(
    scene: Scene,
    chain: Seq<int>,
    path: Set<int>,
    out: Seq<Row>,
    done: Set<int>,
)
    requires
        shown_way(scene, out, chain),
        scene.mode == HierarchyMode::DependencyBased ==> scene.settled(path, out, done),
    ensures
        rows_reached(
            scene,
            scene.visit(chain.last(), way_depth(scene, chain), path, out),
            out.len() as int,
        ),
    decreases scene.off_path(path).len(), 0nat, 0nat,
{
    let i = chain.last();
    let depth = way_depth(scene, chain);
    let after = scene.visit(i, depth, path, out);
    if (0 <= i < scene.recs.len()) && !path.contains(i) {
        if scene.mode == HierarchyMode::DependencyBased && !scene.hidden(i) && listed(out, i) {
            scene.lemma_visit_done(i, depth, path, out, done);
        } else {
            let shown = if scene.lists(i, out) {
                out.push(Row { node: i, depth })
            } else {
                out
            };
            lemma_shown_way_grows(scene, out, shown, chain);
            if scene.lists(i, out) {
                assert(shown[out.len() as int] == (Row { node: i, depth }));
                assert(reached(scene, shown, i, depth));
            }
            assert(rows_reached(scene, shown, out.len() as int));
            if scene.descends(i) {
                scene.lemma_off_path_insert(path, i);
                let ahead = scene.ordered_kids(i);
                let below = scene.child_depth(i, depth);
                assert forall|t: int| 0 <= t < ahead.len() implies shown_way(
                    scene,
                    shown,
                    chain.push(#[trigger] ahead[t]),
                ) && way_depth(scene, chain.push(ahead[t])) == below by {
                    lemma_rank_sort_members(scene.recs, kids(scene.recs, scene.mode, i));
                    assert(ahead.contains(ahead[t]));
                    lemma_kids_among(scene.recs, scene.mode, i, scene.recs.len() as int);
                    let src = kids(scene.recs, scene.mode, i);
                    assert(src.contains(ahead[t]));
                    let at = choose|at: int| 0 <= at < src.len() && src[at] == ahead[t];
                    assert(is_kid(scene.recs, scene.mode, i, src[at]));
                    lemma_way_step(scene, shown, chain, ahead[t]);
                }
                if scene.mode == HierarchyMode::DependencyBased {
                    scene.lemma_shown_settled(i, depth, path, out, done);
                }
                lemma_visit_all_reached(scene, chain, ahead, below, path.insert(i), shown, done);
                scene.lemma_visit_all_extends(ahead, below, path.insert(i), shown);
                lemma_reached_grows(scene, shown, after, out.len() as int);
            }
        }
    }
}

/// What the walk adds on reaching a list of nodes to each of which the way
/// `base`, continued by it, is a shown way, it lists in keeping with the
/// parents. An empty `base` stands for the roots.
pub proof fn lemma_visit_all_reached(
    scene: Scene,
    base: Seq<int>,
    ahead: Seq<int>,
    depth: nat,
    path: Set<int>,
    out: Seq<Row>,
    done: Set<int>,
)
    requires
        forall|t: int|
            0 <= t < ahead.len() ==> shown_way(scene, out, base.push(#[trigger] ahead[t]))
                && way_depth(scene, base.push(ahead[t])) == depth,
        scene.mode == HierarchyMode::DependencyBased ==> scene.settled(path, out, done),
    ensures
        rows_reached(scene, scene.visit_all(ahead, depth, path, out), out.len() as int),
    decreases scene.off_path(path).len(), 1nat, ahead.len(),
{
    if ahead.len() > 0 {
        let chain = base.push(ahead[0]);
        let mid = scene.visit(ahead[0], depth, path, out);
        let left = scene.done_visit(ahead[0], path, done);
        let rest = ahead.drop_first();
        let after = scene.visit_all(ahead, depth, path, out);
        assert(chain.last() == ahead[0]);
        lemma_visit_reached(scene, chain, path, out, done);
        scene.lemma_visit_extends(ahead[0], depth, path, out);
        if scene.mode == HierarchyMode::DependencyBased {
            scene.lemma_visit_settles(ahead[0], depth, path, out, done);
        }
        assert forall|t: int| 0 <= t < rest.len() implies shown_way(
            scene,
            mid,
            base.push(#[trigger] rest[t]),
        ) && way_depth(scene, base.push(rest[t])) == depth by {
            assert(rest[t] == ahead[t + 1]);
            lemma_shown_way_grows(scene, out, mid, base.push(ahead[t + 1]));
        }
        lemma_visit_all_reached(scene, base, rest, depth, path, mid, left);
        scene.lemma_visit_all_extends(rest, depth, path, mid);
        lemma_reached_grows(scene, mid, after, out.len() as int);
    }
}

/// Whether node `x` is node `a` or stands below it in the identifier
/// hierarchy.
pub open spec fn below(recs: Seq<Issue>, a: int, x: int) -> bool
    decreases recs[x].id@.len(),
{
    x == a || match id_parent(recs, x) {
        Some(p) => {
            if recs[p].id@.len() < recs[x].id@.len() {
                below(recs, a, p)
            } else {
                false
            }
        },
        None => false,
    }
}

/// A node below another has the longer identifier.
pub proof fn lemma_below_longer(recs: Seq<Issue>, a: int, x: int)
    requires
        below(recs, a, x),
        a != x,
    ensures
        recs[a].id@.len() < recs[x].id@.len(),
    decreases recs[x].id@.len(),
{
    let p = id_parent(recs, x).unwrap();
    if p != a {
        lemma_below_longer(recs, a, p);
    }
}

/// What stands below a child stands below its parent.
pub proof fn lemma_below_parent(recs: Seq<Issue>, p: int, c: int, x: int)
    requires
        id_parent(recs, c) == Some(p),
        below(recs, c, x),
    ensures
        below(recs, p, x),
    decreases recs[x].id@.len(),
{
    lemma_id_parent_shorter(recs, x);
    if x != c {
        let q = id_parent(recs, x).unwrap();
        lemma_below_parent(recs, p, c, q);
    } else {
        assert(below(recs, p, p));
    }
}

/// Two different nodes with the same parent, or both without one, have
/// nothing below them in common.
pub proof fn lemma_below_apart(recs: Seq<Issue>, a: int, b: int, x: int)
    requires
        a != b,
        id_parent(recs, a) == id_parent(recs, b),
        below(recs, a, x),
    ensures
        !below(recs, b, x),
    decreases recs[x].id@.len(),
{
    lemma_id_parent_shorter(recs, x);
    lemma_id_parent_shorter(recs, a);
    lemma_id_parent_shorter(recs, b);
    if below(recs, b, x) {
        if x == a {
            let q = id_parent(recs, a).unwrap();
            if q != b {
                lemma_below_longer(recs, b, q);
            }
        } else if x == b {
            let q = id_parent(recs, b).unwrap();
            if q != a {
                lemma_below_longer(recs, a, q);
            }
        } else {
            let q = id_parent(recs, x).unwrap();
            lemma_below_apart(recs, a, b, q);
        }
    }
}

/// Whether every row of `rows` from row `from` on lists a node below one of
/// the nodes of `tops`.
pub open spec fn rows_below(recs: Seq<Issue>, tops: Seq<int>, rows: Seq<Row>, from: int) -> bool {
    forall|k: int|
        from <= k < rows.len() ==> exists|t: int|
            0 <= t < tops.len() && below(recs, #[trigger] tops[t], (#[trigger] rows[k]).node)
}

/// Whether no row of `rows` lists a node below node `a`.
pub open spec fn none_below(recs: Seq<Issue>, a: int, rows: Seq<Row>) -> bool {
    forall|k: int| 0 <= k < rows.len() ==> !below(recs, a, (#[trigger] rows[k]).node)
}

/// In the identifier hierarchy, reaching a node lists nodes below it only,
/// and none twice.
pub proof fn lemma_visit_below(scene: Scene, i: int, depth: nat, path: Set<int>, out: Seq<Row>)
    requires
        scene.mode == HierarchyMode::IdBased,
        distinct_rows(out),
        none_below(scene.recs, i, out),
    ensures
        distinct_rows(scene.visit(i, depth, path, out)),
        rows_below(scene.recs, seq![i], scene.visit(i, depth, path, out), out.len() as int),
    decreases scene.off_path(path).len(), 0nat, 0nat,
{
    let recs = scene.recs;
    let after = scene.visit(i, depth, path, out);
    if (0 <= i < recs.len()) && !path.contains(i) {
        let shown = if scene.lists(i, out) {
            out.push(Row { node: i, depth })
        } else {
            out
        };
        assert(distinct_rows(shown)) by {
            assert forall|j: int, k: int| 0 <= j < k < shown.len() implies shown[j].node
                != shown[k].node by {
                if k == out.len() {
                    assert(!below(recs, i, out[j].node));
                }
            }
        }
        assert(seq![i][0] == i);
        if scene.descends(i) {
            scene.lemma_off_path_insert(path, i);
            let src = kids(recs, scene.mode, i);
            let ahead = scene.ordered_kids(i);
            lemma_kids_among(recs, scene.mode, i, recs.len() as int);
            lemma_rank_sort_members(recs, src);
            assert(src.no_duplicates());
            assert forall|t: int| 0 <= t < ahead.len() implies id_parent(recs, #[trigger] ahead[t])
                == Some(i) by {
                assert(ahead.contains(ahead[t]));
                assert(src.contains(ahead[t]));
                let at = choose|at: int| 0 <= at < src.len() && src[at] == ahead[t];
                assert(is_kid(recs, scene.mode, i, src[at]));
                assert(parents(recs, scene.mode, ahead[t])[0] == i);
            }
            assert forall|t: int| 0 <= t < ahead.len() implies none_below(
                recs,
                #[trigger] ahead[t],
                shown,
            ) by {
                assert forall|k: int| 0 <= k < shown.len() implies !below(
                    recs,
                    ahead[t],
                    (#[trigger] shown[k]).node,
                ) by {
                    if below(recs, ahead[t], shown[k].node) {
                        lemma_below_parent(recs, i, ahead[t], shown[k].node);
                        if k < out.len() {
                            assert(!below(recs, i, out[k].node));
                        } else {
                            lemma_id_parent_shorter(recs, ahead[t]);
                            if ahead[t] != i {
                                lemma_below_longer(recs, ahead[t], i);
                            }
                        }
                    }
                }
            }
            lemma_visit_all_below(
                scene,
                ahead,
                Some(i),
                scene.child_depth(i, depth),
                path.insert(i),
                shown,
            );
            scene.lemma_visit_all_extends(ahead, scene.child_depth(i, depth), path.insert(i), shown);
            assert forall|k: int| out.len() <= k < after.len() implies exists|t: int|
                0 <= t < seq![i].len() && below(
                    recs,
                    #[trigger] seq![i][t],
                    (#[trigger] after[k]).node,
                ) by {
                if k < shown.len() {
                    assert(after[k] == shown[k]);
                    assert(below(recs, seq![i][0], after[k].node));
                } else {
                    let t = choose|t: int|
                        0 <= t < ahead.len() && below(recs, #[trigger] ahead[t], after[k].node);
                    lemma_below_parent(recs, i, ahead[t], after[k].node);
                    assert(below(recs, seq![i][0], after[k].node));
                }
            }
        } else {
            assert forall|k: int| out.len() <= k < after.len() implies exists|t: int|
                0 <= t < seq![i].len() && below(
                    recs,
                    #[trigger] seq![i][t],
                    (#[trigger] after[k]).node,
                ) by {
                assert(below(recs, seq![i][0], after[k].node));
            }
        }
    }
}

/// In the identifier hierarchy, reaching a list of different nodes with one
/// parent, or all without one, lists nodes below them only, and none twice.
pub proof fn lemma_visit_all_below(
    scene: Scene,
    ahead: Seq<int>,
    parent: Option<int>,
    depth: nat,
    path: Set<int>,
    out: Seq<Row>,
)
    requires
        scene.mode == HierarchyMode::IdBased,
        distinct_rows(out),
        ahead.no_duplicates(),
        forall|t: int| 0 <= t < ahead.len() ==> id_parent(scene.recs, #[trigger] ahead[t]) == parent,
        forall|t: int| 0 <= t < ahead.len() ==> none_below(scene.recs, #[trigger] ahead[t], out),
    ensures
        distinct_rows(scene.visit_all(ahead, depth, path, out)),
        rows_below(scene.recs, ahead, scene.visit_all(ahead, depth, path, out), out.len() as int),
    decreases scene.off_path(path).len(), 1nat, ahead.len(),
{
    let recs = scene.recs;
    if ahead.len() > 0 {
        let first = ahead[0];
        let rest = ahead.drop_first();
        let mid = scene.visit(first, depth, path, out);
        let after = scene.visit_all(ahead, depth, path, out);
        lemma_visit_below(scene, first, depth, path, out);
        scene.lemma_visit_extends(first, depth, path, out);
        assert(seq![first][0] == first);
        assert forall|t: int| 0 <= t < rest.len() implies none_below(recs, #[trigger] rest[t], mid) by {
            assert(rest[t] == ahead[t + 1]);
            assert(none_below(recs, ahead[t + 1], out));
            assert forall|k: int| 0 <= k < mid.len() implies !below(
                recs,
                rest[t],
                (#[trigger] mid[k]).node,
            ) by {
                if k < out.len() {
                    assert(mid[k] == out[k]);
                    assert(!below(recs, ahead[t + 1], out[k].node));
                } else {
                    let w = choose|w: int|
                        0 <= w < seq![first].len() && below(
                            recs,
                            #[trigger] seq![first][w],
                            mid[k].node,
                        );
                    assert(below(recs, first, mid[k].node));
                    lemma_below_apart(recs, first, rest[t], mid[k].node);
                }
            }
        }
        assert(rest.no_duplicates()) by {
            assert forall|a: int, b: int| 0 <= a < rest.len() && 0 <= b < rest.len() && a
                != b implies rest[a] != rest[b] by {
                assert(rest[a] == ahead[a + 1] && rest[b] == ahead[b + 1]);
            }
        }
        assert forall|t: int| 0 <= t < rest.len() implies id_parent(recs, #[trigger] rest[t])
            == parent by {
            assert(rest[t] == ahead[t + 1]);
        }
        lemma_visit_all_below(scene, rest, parent, depth, path, mid);
        scene.lemma_visit_all_extends(rest, depth, path, mid);
        assert forall|k: int| out.len() <= k < after.len() implies exists|t: int|
            0 <= t < ahead.len() && below(recs, #[trigger] ahead[t], (#[trigger] after[k]).node) by {
            if k < mid.len() {
                assert(after[k] == mid[k]);
                let w = choose|w: int|
                    0 <= w < seq![first].len() && below(
                        recs,
                        #[trigger] seq![first][w],
                        mid[k].node,
                    );
                assert(below(recs, ahead[0], after[k].node));
            } else {
                let t = choose|t: int|
                    0 <= t < rest.len() && below(recs, #[trigger] rest[t], after[k].node);
                assert(rest[t] == ahead[t + 1]);
                assert(below(recs, ahead[t + 1], after[k].node));
            }
        }
    }
}

/// Whether no node of `path` is node `a` or stands below it.
pub open spec fn path_above(recs: Seq<Issue>, path: Set<int>, a: int) -> bool {
    forall|x: int| path.contains(x) ==> !below(recs, a, x)
}

/// In the identifier hierarchy a visit does not depend on the nodes in
/// progress, as long as none of them stands below the node visited.
pub proof fn lemma_visit_ignores_path(
    scene: Scene,
    i: int,
    depth: nat,
    path: Set<int>,
    other: Set<int>,
    out: Seq<Row>,
)
    requires
        scene.mode == HierarchyMode::IdBased,
        path_above(scene.recs, path, i),
        path_above(scene.recs, other, i),
    ensures
        scene.visit(i, depth, path, out) == scene.visit(i, depth, other, out),
    decreases scene.off_path(path).len(), 0nat, 0nat,
{
    let recs = scene.recs;
    assert(below(recs, i, i));
    if 0 <= i < recs.len() {
        let shown = if scene.lists(i, out) {
            out.push(Row { node: i, depth })
        } else {
            out
        };
        if scene.descends(i) {
            scene.lemma_off_path_insert(path, i);
            let src = kids(recs, scene.mode, i);
            let ahead = scene.ordered_kids(i);
            lemma_kids_among(recs, scene.mode, i, recs.len() as int);
            lemma_rank_sort_members(recs, src);
            assert forall|t: int| 0 <= t < ahead.len() implies path_above(
                recs,
                path.insert(i),
                #[trigger] ahead[t],
            ) && path_above(recs, other.insert(i), ahead[t]) by {
                assert(ahead.contains(ahead[t]));
                assert(src.contains(ahead[t]));
                let at = choose|at: int| 0 <= at < src.len() && src[at] == ahead[t];
                assert(is_kid(recs, scene.mode, i, src[at]));
                assert(parents(recs, scene.mode, ahead[t])[0] == i);
                lemma_id_parent_shorter(recs, ahead[t]);
                assert forall|x: int| path.insert(i).contains(x) || other.insert(i).contains(
                    x,
                ) implies !below(recs, ahead[t], x) by {
                    if below(recs, ahead[t], x) {
                        lemma_below_parent(recs, i, ahead[t], x);
                        if x == i && ahead[t] != i {
                            lemma_below_longer(recs, ahead[t], i);
                        }
                    }
                }
            }
            lemma_visit_all_ignores_path(
                scene,
                ahead,
                scene.child_depth(i, depth),
                path.insert(i),
                other.insert(i),
                shown,
            );
        }
    }
}

/// In the identifier hierarchy a walk over a list of nodes does not depend
/// on the nodes in progress, as long as none of them stands below a node of
/// the list.
pub proof fn lemma_visit_all_ignores_path(
    scene: Scene,
    ahead: Seq<int>,
    depth: nat,
    path: Set<int>,
    other: Set<int>,
    out: Seq<Row>,
)
    requires
        scene.mode == HierarchyMode::IdBased,
        forall|t: int|
            0 <= t < ahead.len() ==> path_above(scene.recs, path, #[trigger] ahead[t]) && path_above(
                scene.recs,
                other,
                ahead[t],
            ),
    ensures
        scene.visit_all(ahead, depth, path, out) == scene.visit_all(ahead, depth, other, out),
    decreases scene.off_path(path).len(), 1nat, ahead.len(),
{
    if ahead.len() > 0 {
        let rest = ahead.drop_first();
        lemma_visit_ignores_path(scene, ahead[0], depth, path, other, out);
        assert forall|t: int| 0 <= t < rest.len() implies path_above(
            scene.recs,
            path,
            #[trigger] rest[t],
        ) && path_above(scene.recs, other, rest[t]) by {
            assert(rest[t] == ahead[t + 1]);
        }
        lemma_visit_all_ignores_path(
            scene,
            rest,
            depth,
            path,
            other,
            scene.visit(ahead[0], depth, path, out),
        );
    }
}

/// The identifier hierarchy needs no guard against cycles: where the nodes
/// in progress are nodes above the node visited, as they are in every walk
/// from the roots, the visit lists what it would list with no node in
/// progress at all.
pub proof fn law_identifier_walk_needs_no_guard(
    scene: Scene,
    i: int,
    depth: nat,
    path: Set<int>,
    out: Seq<Row>,
)
    requires
        scene.mode == HierarchyMode::IdBased,
        path_above(scene.recs, path, i),
    ensures
        scene.visit(i, depth, path, out) == scene.visit(i, depth, Set::empty(), out),
{
    lemma_visit_ignores_path(scene, i, depth, path, Set::empty(), out);
}

/// Single appearance: no node is listed twice. In the dependency hierarchy
/// that holds whatever the fold state, and whether or not the snapshot has
/// nodes with several parents or cycles of dependencies; in the identifier
/// hierarchy it holds because that hierarchy is a forest.
pub proof fn law_single_appearance(scene: Scene)
    ensures
        distinct_rows(scene.rows()),
{
    let top = roots(scene.recs, scene.mode);
    match scene.mode {
        HierarchyMode::DependencyBased => {
            lemma_visit_all_lists_once(scene, top, 0, Set::empty(), Seq::empty());
        },
        HierarchyMode::IdBased => {
            let src = roots_among(scene.recs, scene.mode, scene.recs.len() as int);
            lemma_roots_among(scene.recs, scene.mode, scene.recs.len() as int);
            lemma_rank_sort_members(scene.recs, src);
            assert(src.no_duplicates());
            assert forall|t: int| 0 <= t < top.len() implies id_parent(
                scene.recs,
                #[trigger] top[t],
            ) == None::<int> by {
                assert(top.contains(top[t]));
                assert(src.contains(top[t]));
                let at = choose|at: int| 0 <= at < src.len() && src[at] == top[t];
                assert(is_root(scene.recs, scene.mode, src[at]));
            }
            lemma_visit_all_below(scene, top, None, 0, Set::empty(), Seq::empty());
        },
    }
}

/// Depth: every row lists its node in keeping with its parents. A root is
/// listed at indent 0. Any other node is listed one level below a parent of
/// it that is listed, or on the level of a parent of it that is hidden, the
/// walk descending into that parent; and that parent is in turn listed, or
/// passed through, in keeping with its own parents.
pub proof fn law_depth(scene: Scene, k: int)
    requires
        0 <= k < scene.rows().len(),
    ensures
        reached(scene, scene.rows(), scene.rows()[k].node, scene.rows()[k].depth),
{
    let top = roots(scene.recs, scene.mode);
    let nothing = Seq::<Row>::empty();
    let base = Seq::<int>::empty();
    assert forall|t: int| 0 <= t < top.len() implies shown_way(
        scene,
        nothing,
        base.push(#[trigger] top[t]),
    ) && way_depth(scene, base.push(top[t])) == 0 by {
        assert(top.contains(top[t]));
        assert(base.push(top[t])[0] == top[t]);
    }
    assert(scene.settled(Set::empty(), nothing, Set::empty()));
    lemma_visit_all_reached(scene, base, top, 0, Set::empty(), nothing, Set::empty());
}

/// Whether `a` and `b` both list node `i`, and are the same list up to the
/// first row that lists it, that row included.
pub open spec fn same_upto(a: Seq<Row>, b: Seq<Row>, i: int) -> bool {
    exists|k: int|
        0 <= k < a.len() && k < b.len() && (#[trigger] a[k]).node == i && (forall|j: int|
            0 <= j <= k ==> a[j] == b[j]) && (forall|j: int| 0 <= j < k ==> a[j].node != i)
}

/// Whether two lists are the same list that does not list node `i`, or are
/// the same up to the first row that lists it.
pub open spec fn same_before(a: Seq<Row>, b: Seq<Row>, i: int) -> bool {
    (a == b && !listed(a, i)) || same_upto(a, b, i)
}

/// Whether `wider` is `scene` with node `i` expanded in addition.
pub open spec fn expands(scene: Scene, wider: Scene, i: int) -> bool {
    &&& distinct_ids(scene.recs)
    &&& 0 <= i < scene.recs.len()
    &&& wider == (Scene { fold: scene.fold.insert(scene.recs[i].id@), ..scene })
}

/// Lists that are the same up to the first row of a node stay so when both
/// grow.
pub proof fn lemma_same_upto_grows(a: Seq<Row>, b: Seq<Row>, a2: Seq<Row>, b2: Seq<Row>, i: int)
    requires
        same_upto(a, b, i),
        extends(a2, a),
        extends(b2, b),
    ensures
        same_upto(a2, b2, i),
{
    let k = choose|k: int|
        0 <= k < a.len() && k < b.len() && (#[trigger] a[k]).node == i && (forall|j: int|
            0 <= j <= k ==> a[j] == b[j]) && (forall|j: int| 0 <= j < k ==> a[j].node != i);
    assert(a2[k].node == i);
    assert forall|j: int| 0 <= j <= k implies a2[j] == b2[j] by {
        assert(a2[j] == a[j] && b2[j] == b[j]);
    }
    assert forall|j: int| 0 <= j < k implies a2[j].node != i by {
        assert(a2[j] == a[j]);
    }
}

/// Expanding a node changes nothing of what a visit lists before it lists
/// that node.
pub proof fn lemma_visit_same_before(
    scene: Scene,
    wider: Scene,
    i: int,
    n: int,
    depth: nat,
    path: Set<int>,
    out: Seq<Row>,
)
    requires
        expands(scene, wider, i),
        !listed(out, i),
    ensures
        same_before(scene.visit(n, depth, path, out), wider.visit(n, depth, path, out), i),
    decreases scene.off_path(path).len(), 0nat, 0nat,
{
    let a = scene.visit(n, depth, path, out);
    let b = wider.visit(n, depth, path, out);
    if (0 <= n < scene.recs.len()) && !path.contains(n) {
        let shown = if scene.lists(n, out) {
            out.push(Row { node: n, depth })
        } else {
            out
        };
        assert(wider.lists(n, out) == scene.lists(n, out));
        scene.lemma_visit_extends(n, depth, path, out);
        wider.lemma_visit_extends(n, depth, path, out);
        scene.lemma_off_path_insert(path, n);
        let below = scene.child_depth(n, depth);
        let ahead = scene.ordered_kids(n);
        assert(wider.ordered_kids(n) == ahead);
        assert(wider.child_depth(n, depth) == below);
        if n == i && scene.lists(n, out) {
            let k = out.len() as int;
            if scene.descends(n) {
                scene.lemma_visit_all_extends(ahead, below, path.insert(n), shown);
            }
            wider.lemma_visit_all_extends(ahead, below, path.insert(n), shown);
            assert(a[k] == shown[k]);
            assert(b[k] == shown[k]);
            assert forall|j: int| 0 <= j <= k implies a[j] == b[j] by {
                assert(a[j] == shown[j] && b[j] == shown[j]);
            }
            assert forall|j: int| 0 <= j < k implies a[j].node != i by {
                assert(a[j] == out[j]);
            }
            assert(same_upto(a, b, i));
        } else {
            assert(!listed(shown, i)) by {
                if listed(shown, i) {
                    let k = choose|k: int| 0 <= k < shown.len() && shown[k].node == i;
                    if k < out.len() {
                        assert(out[k].node == i);
                    }
                }
            }
            if n != i {
                assert(scene.recs[n].id@ != scene.recs[i].id@);
            }
            assert(wider.descends(n) == scene.descends(n));
            if scene.descends(n) {
                lemma_visit_all_same_before(scene, wider, i, ahead, below, path.insert(n), shown);
            }
        }
    }
}

/// Expanding a node changes nothing of what a walk over a list of nodes
/// lists before it lists that node.
pub proof fn lemma_visit_all_same_before(
    scene: Scene,
    wider: Scene,
    i: int,
    ahead: Seq<int>,
    depth: nat,
    path: Set<int>,
    out: Seq<Row>,
)
    requires
        expands(scene, wider, i),
        !listed(out, i),
    ensures
        same_before(
            scene.visit_all(ahead, depth, path, out),
            wider.visit_all(ahead, depth, path, out),
            i,
        ),
    decreases scene.off_path(path).len(), 1nat, ahead.len(),
{
    if ahead.len() > 0 {
        let a = scene.visit(ahead[0], depth, path, out);
        let b = wider.visit(ahead[0], depth, path, out);
        let rest = ahead.drop_first();
        lemma_visit_same_before(scene, wider, i, ahead[0], depth, path, out);
        assert(wider.off_path(path) == scene.off_path(path));
        if a == b && !listed(a, i) {
            lemma_visit_all_same_before(scene, wider, i, rest, depth, path, a);
        } else {
            scene.lemma_visit_all_extends(rest, depth, path, a);
            wider.lemma_visit_all_extends(rest, depth, path, b);
            lemma_same_upto_grows(
                a,
                b,
                scene.visit_all(rest, depth, path, a),
                wider.visit_all(rest, depth, path, b),
                i,
            );
        }
    }
}

/// Round trip of the fold state: expanding the selected node and then
/// collapsing it brings back the visible list, row for row, together with
/// the fold state and, for a node with a child, the cursor. This is stated
/// of every selected node but one that has a child and is expanded already:
/// collapsing that one leaves it collapsed.
pub proof fn law_expand_then_collapse(v: TreeView)
    requires
        v.valid(),
        v.selected() matches Some(i) ==> !(v.has_kids(i) && v.is_open(i)),
    ensures
        v.expand().collapse().rows == v.rows,
        v.expand().collapse().expanded == v.expanded,
        v.expand().collapse().dep_expanded == v.dep_expanded,
        v.selected() matches Some(i) && v.has_kids(i) ==> v.expand().collapse().cursor == v.cursor,
{
    let i = v.selected().unwrap();
    if v.selected() is None {
        assert(v.expand() == v);
    } else if v.has_kids(i) {
        let x = v.recs[i].id@;
        let scene = v.scene();
        let opened = v.with_fold(v.fold().insert(x));
        let wider = opened.scene();
        let after = opened.rewalked();
        assert(after == v.expand());
        let top = roots(v.recs, v.mode);
        scene.lemma_visit_all_extends(top, 0, Set::empty(), Seq::empty());
        assert(0 <= v.rows[v.cursor as int].node < v.recs.len());
        assert(expands(scene, wider, i));
        assert(!listed(Seq::<Row>::empty(), i));
        lemma_visit_all_same_before(scene, wider, i, top, 0, Set::empty(), Seq::empty());
        assert(same_before(v.rows, after.rows, i));
        assert(listed(v.rows, i)) by {
            assert(v.rows[v.cursor as int].node == i);
        }
        let k = choose|k: int|
            0 <= k < v.rows.len() && k < after.rows.len() && (#[trigger] v.rows[k]).node == i && (
            forall|j: int| 0 <= j <= k ==> v.rows[j] == after.rows[j]) && (forall|j: int|
                0 <= j < k ==> v.rows[j].node != i);
        law_single_appearance(scene);
        assert(k == v.cursor);
        assert(after.rows[k] == v.rows[k]);
        assert(after.cursor == v.cursor);
        assert(after.selected() == Some(i));
        assert(after.is_open(i));
        assert(after.fold().remove(x) =~= v.fold());
        let back = after.with_fold(after.fold().remove(x));
        assert(back.scene() == scene);
        assert(after.collapse() == back.rewalked());
    } else {
        assert(v.expand() == v);
    }
}

} // verus!
