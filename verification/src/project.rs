//! The two projections of a snapshot: for each hierarchy, who is whose child
//! and who is a root.
//!
//! Everything here is stated over the issue records of a snapshot, a node
//! being the index of its record.

use vstd::prelude::*;
use crate::bd::{Dependency, Issue};
use crate::idset::IdSet;
use crate::order::{rank_sort, sort_by_rank};
use crate::text::{dotted_parent, lemma_dotted_parent_shorter, parent_of};
use crate::tree::{TreeNode, records, ints};
use crate::HierarchyMode;

verus! {

/// Index of the first record whose identifier is `id`.
pub open spec fn position(recs: Seq<Issue>, id: Seq<char>) -> Option<int>
    decreases recs.len(),
{
    if recs.len() == 0 {
        None
    } else {
        match position(recs.drop_last(), id) {
            Some(i) => Some(i),
            None => if recs.last().id@ == id {
                Some(recs.len() - 1)
            } else {
                None
            },
        }
    }
}

/// Whether no two records share an identifier.
pub open spec fn distinct_ids(recs: Seq<Issue>) -> bool {
    forall|i: int, j: int| 0 <= i < j < recs.len() ==> recs[i].id@ != recs[j].id@
}

/// The snapshot that a sequence of supplied records stands for: a record
/// whose identifier came before takes the place of the earlier one, so that
/// every identifier is held once, with the data that came last.
pub open spec fn merged(issues: Seq<Issue>) -> Seq<Issue>
    decreases issues.len(),
{
    if issues.len() == 0 {
        issues
    } else {
        let before = merged(issues.drop_last());
        match position(before, issues.last().id@) {
            Some(i) => before.update(i, issues.last()),
            None => before.push(issues.last()),
        }
    }
}

/// Parent of node `c` in the identifier projection: the node whose
/// identifier is the dotted parent of `c`'s, if the snapshot has one.
pub open spec fn id_parent(recs: Seq<Issue>, c: int) -> Option<int> {
    match dotted_parent(recs[c].id@) {
        Some(p) => position(recs, p),
        None => None,
    }
}

/// The nodes that the blocking edges among `deps` lead to, one entry for
/// each such edge whose target the snapshot holds, in the order of the edges.
pub open spec fn surviving(recs: Seq<Issue>, deps: Seq<Dependency>) -> Seq<int>
    decreases deps.len(),
{
    if deps.len() == 0 {
        Seq::empty()
    } else {
        let rest = surviving(recs, deps.drop_last());
        let d = deps.last();
        match position(recs, d.id@) {
            Some(i) => if d.blocks() {
                rest.push(i)
            } else {
                rest
            },
            None => rest,
        }
    }
}

/// Parents of node `c` in the dependency projection.
pub open spec fn blockers(recs: Seq<Issue>, c: int) -> Seq<int> {
    surviving(recs, recs[c].edges())
}

/// The parents of node `c` in the projection of `mode`: in the identifier
/// projection the one that its identifier names, if any; in the dependency
/// projection its blockers.
pub open spec fn parents(recs: Seq<Issue>, mode: HierarchyMode, c: int) -> Seq<int> {
    match mode {
        HierarchyMode::IdBased => match id_parent(recs, c) {
            Some(p) => seq![p],
            None => Seq::empty(),
        },
        HierarchyMode::DependencyBased => blockers(recs, c),
    }
}

/// Whether node `c` is a child of node `p` in the projection of `mode`.
pub open spec fn is_kid(recs: Seq<Issue>, mode: HierarchyMode, p: int, c: int) -> bool {
    parents(recs, mode, c).contains(p)
}

/// The children of `p` among the first `upto` nodes, in snapshot order.
pub open spec fn kids_among(recs: Seq<Issue>, mode: HierarchyMode, p: int, upto: int) -> Seq<int>
    decreases upto,
{
    if upto <= 0 {
        Seq::empty()
    } else if is_kid(recs, mode, p, upto - 1) {
        kids_among(recs, mode, p, upto - 1).push(upto - 1)
    } else {
        kids_among(recs, mode, p, upto - 1)
    }
}

/// The children of `p`, each once, in snapshot order.
pub open spec fn kids(recs: Seq<Issue>, mode: HierarchyMode, p: int) -> Seq<int> {
    kids_among(recs, mode, p, recs.len() as int)
}

/// Whether node `c` is a root of the projection of `mode`: it has no parent
/// there.
pub open spec fn is_root(recs: Seq<Issue>, mode: HierarchyMode, c: int) -> bool {
    parents(recs, mode, c).len() == 0
}

/// The roots among the first `upto` nodes, in snapshot order.
pub open spec fn roots_among(recs: Seq<Issue>, mode: HierarchyMode, upto: int) -> Seq<int>
    decreases upto,
{
    if upto <= 0 {
        Seq::empty()
    } else if is_root(recs, mode, upto - 1) {
        roots_among(recs, mode, upto - 1).push(upto - 1)
    } else {
        roots_among(recs, mode, upto - 1)
    }
}

/// The roots in listing order.
pub open spec fn roots(recs: Seq<Issue>, mode: HierarchyMode) -> Seq<int> {
    rank_sort(recs, roots_among(recs, mode, recs.len() as int))
}

/// Whether node `c` has more than one surviving blocking dependency.
pub open spec fn multi_parent(recs: Seq<Issue>, c: int) -> bool {
    blockers(recs, c).len() > 1
}

/// The identifiers of the multi-parent nodes.
pub open spec fn multi_parent_ids(recs: Seq<Issue>) -> Set<Seq<char>> {
    Set::new(
        |id: Seq<char>|
            exists|c: int| 0 <= c < recs.len() && multi_parent(recs, c) && #[trigger] recs[c].id@ == id,
    )
}

/// The identifiers of the first `upto` nodes that are multi-parent.
pub open spec fn multi_parents_among(recs: Seq<Issue>, upto: int) -> Set<Seq<char>>
    decreases upto,
{
    if upto <= 0 {
        Set::empty()
    } else if multi_parent(recs, upto - 1) {
        multi_parents_among(recs, upto - 1).insert(recs[upto - 1].id@)
    } else {
        multi_parents_among(recs, upto - 1)
    }
}

/// The node to which the cursor retreats from `c`: its first parent. In the
/// identifier projection that is the parent its identifier names, in the
/// dependency projection the target of its first surviving blocking
/// dependency.
pub open spec fn logical_parent(recs: Seq<Issue>, mode: HierarchyMode, c: int) -> Option<int> {
    if parents(recs, mode, c).len() > 0 {
        Some(parents(recs, mode, c)[0])
    } else {
        None
    }
}

/// The identifiers of the nodes that `s` lists.
pub open spec fn ids_of(recs: Seq<Issue>, s: Seq<int>) -> Seq<Seq<char>> {
    s.map_values(|i: int| recs[i].id@)
}

/// What `position` finds is the first record with the identifier, and it
/// finds none only where there is none.
pub proof fn lemma_position(recs: Seq<Issue>, id: Seq<char>)
    ensures
        match position(recs, id) {
            Some(i) => 0 <= i < recs.len() && recs[i].id@ == id && forall|j: int|
                0 <= j < i ==> recs[j].id@ != id,
            None => forall|j: int| 0 <= j < recs.len() ==> recs[j].id@ != id,
        },
    decreases recs.len(),
{
    if recs.len() > 0 {
        let head = recs.drop_last();
        lemma_position(head, id);
        assert(forall|j: int| 0 <= j < head.len() ==> head[j] == recs[j]);
    }
}

/// A merged snapshot holds every identifier once.
pub proof fn lemma_merged_distinct(issues: Seq<Issue>)
    ensures
        distinct_ids(merged(issues)),
        merged(issues).len() <= issues.len(),
    decreases issues.len(),
{
    if issues.len() > 0 {
        let before = merged(issues.drop_last());
        lemma_merged_distinct(issues.drop_last());
        lemma_position(before, issues.last().id@);
    }
}

/// The children listed among the first `upto` nodes are exactly those nodes
/// that are children, in ascending order.
pub proof fn lemma_kids_among(recs: Seq<Issue>, mode: HierarchyMode, p: int, upto: int)
    ensures
        forall|k: int|
            #![trigger kids_among(recs, mode, p, upto)[k]]
            0 <= k < kids_among(recs, mode, p, upto).len() ==> 0 <= kids_among(
                recs,
                mode,
                p,
                upto,
            )[k] < upto && is_kid(recs, mode, p, kids_among(recs, mode, p, upto)[k]),
        forall|j: int, k: int|
            0 <= j < k < kids_among(recs, mode, p, upto).len() ==> kids_among(recs, mode, p, upto)[j]
                < kids_among(recs, mode, p, upto)[k],
        forall|c: int|
            0 <= c < upto && is_kid(recs, mode, p, c) ==> kids_among(recs, mode, p, upto).contains(
                c,
            ),
        kids_among(recs, mode, p, upto).len() <= if upto < 0 { 0 } else { upto },
    decreases upto,
{
    if upto > 0 {
        lemma_kids_among(recs, mode, p, upto - 1);
        let before = kids_among(recs, mode, p, upto - 1);
        let now = kids_among(recs, mode, p, upto);
        assert forall|c: int| 0 <= c < upto && is_kid(recs, mode, p, c) implies now.contains(
            c,
        ) by {
            if c < upto - 1 {
                let k = choose|k: int| 0 <= k < before.len() && before[k] == c;
                assert(now[k] == c);
            } else {
                assert(now[now.len() - 1] == c);
            }
        }
    }
}

/// The roots listed among the first `upto` nodes are exactly those nodes
/// that are roots, in ascending order.
pub proof fn lemma_roots_among(recs: Seq<Issue>, mode: HierarchyMode, upto: int)
    ensures
        forall|k: int|
            #![trigger roots_among(recs, mode, upto)[k]]
            0 <= k < roots_among(recs, mode, upto).len() ==> 0 <= roots_among(recs, mode, upto)[k]
                < upto && is_root(recs, mode, roots_among(recs, mode, upto)[k]),
        forall|j: int, k: int|
            0 <= j < k < roots_among(recs, mode, upto).len() ==> roots_among(recs, mode, upto)[j]
                < roots_among(recs, mode, upto)[k],
        forall|c: int|
            0 <= c < upto && is_root(recs, mode, c) ==> roots_among(recs, mode, upto).contains(c),
        roots_among(recs, mode, upto).len() <= if upto < 0 { 0 } else { upto },
    decreases upto,
{
    if upto > 0 {
        lemma_roots_among(recs, mode, upto - 1);
        let before = roots_among(recs, mode, upto - 1);
        let now = roots_among(recs, mode, upto);
        assert forall|c: int| 0 <= c < upto && is_root(recs, mode, c) implies now.contains(c) by {
            if c < upto - 1 {
                let k = choose|k: int| 0 <= k < before.len() && before[k] == c;
                assert(now[k] == c);
            } else {
                assert(now[now.len() - 1] == c);
            }
        }
    }
}

/// The multi-parent identifiers among the first `upto` nodes are the
/// identifiers of the multi-parent nodes among them.
pub proof fn lemma_multi_parents_among(recs: Seq<Issue>, upto: int, id: Seq<char>)
    ensures
        multi_parents_among(recs, upto).contains(id) <==> exists|c: int|
            0 <= c < upto && multi_parent(recs, c) && #[trigger] recs[c].id@ == id,
    decreases upto,
{
    if upto > 0 {
        lemma_multi_parents_among(recs, upto - 1, id);
        if multi_parents_among(recs, upto).contains(id) {
            if multi_parents_among(recs, upto - 1).contains(id) {
                let c = choose|c: int|
                    0 <= c < upto - 1 && multi_parent(recs, c) && #[trigger] recs[c].id@ == id;
                assert(0 <= c < upto && multi_parent(recs, c) && recs[c].id@ == id);
            } else {
                assert(multi_parent(recs, upto - 1) && recs[upto - 1].id@ == id);
            }
        }
        if exists|c: int| 0 <= c < upto && multi_parent(recs, c) && #[trigger] recs[c].id@ == id {
            let c = choose|c: int|
                0 <= c < upto && multi_parent(recs, c) && #[trigger] recs[c].id@ == id;
            if c < upto - 1 {
                assert(0 <= c < upto - 1 && multi_parent(recs, c) && recs[c].id@ == id);
            }
        }
    }
}

/// In the identifier projection a child's identifier is strictly longer than
/// its parent's.
pub proof fn lemma_id_parent_shorter(recs: Seq<Issue>, c: int)
    ensures
        id_parent(recs, c) matches Some(p) ==> 0 <= p < recs.len() && recs[p].id@.len()
            < recs[c].id@.len(),
{
    lemma_dotted_parent_shorter(recs[c].id@);
    if let Some(text) = dotted_parent(recs[c].id@) {
        lemma_position(recs, text);
    }
}

/// Index of the node whose identifier is `id`.
pub fn find_index(nodes: &Vec<TreeNode>, id: &String) -> (r: Option<usize>)
    ensures
        match r {
            Some(i) => position(records(nodes@), id@) == Some(i as int) && i < nodes.len(),
            None => position(records(nodes@), id@) is None,
        },
{
    let ghost recs = records(nodes@);
    let n = nodes.len();
    let mut i: usize = 0;
    while i < n
        invariant
            n == nodes.len(),
            i <= n,
            recs == records(nodes@),
            forall|j: int| 0 <= j < i ==> recs[j].id@ != id@,
        decreases n - i,
    {
        if nodes[i].issue.id == *id {
            proof {
                lemma_position(recs, id@);
                assert(recs[i as int].id@ == id@);
            }
            return Some(i);
        }
        i += 1;
    }
    proof {
        lemma_position(recs, id@);
    }
    None
}

/// The snapshot that the supplied records stand for, one node for each
/// identifier, with no child recorded yet.
pub fn merge_records(issues: Vec<Issue>) -> (nodes: Vec<TreeNode>)
    ensures
        records(nodes@) == merged(issues@),
        distinct_ids(records(nodes@)),
        forall|i: int| 0 <= i < nodes.len() ==> (#[trigger] nodes[i]).depth == 0,
{
    let ghost all = issues@;
    let mut nodes: Vec<TreeNode> = Vec::new();
    assert(records(nodes@) =~= merged(all.subrange(0, 0)));
    for issue in it: issues
        invariant
            it.seq() == all,
            records(nodes@) == merged(all.subrange(0, it.index() as int)),
            forall|i: int| 0 <= i < nodes.len() ==> (#[trigger] nodes[i]).depth == 0,
    {
        let ghost before = records(nodes@);
        proof {
            let upto = all.subrange(0, it.index() + 1);
            assert(upto.drop_last() =~= all.subrange(0, it.index() as int));
            assert(upto.last() == issue);
        }
        match find_index(&nodes, &issue.id) {
            Some(j) => {
                nodes[j].issue = issue;
                assert(records(nodes@) =~= before.update(j as int, issue));
            },
            None => {
                nodes.push(
                    TreeNode {
                        issue,
                        children: Vec::new(),
                        dep_children: Vec::new(),
                        depth: 0,
                    },
                );
                assert(records(nodes@) =~= before.push(issue));
            },
        }
    }
    proof {
        assert(all.subrange(0, all.len() as int) =~= all);
        lemma_merged_distinct(all);
    }
    nodes
}

/// Parent of node `c` in the identifier projection.
pub fn id_parent_index(nodes: &Vec<TreeNode>, c: usize) -> (r: Option<usize>)
    requires
        c < nodes.len(),
    ensures
        match r {
            Some(p) => id_parent(records(nodes@), c as int) == Some(p as int) && p < nodes.len(),
            None => id_parent(records(nodes@), c as int) is None,
        },
{
    match parent_of(nodes[c].issue.id.as_str()) {
        Some(text) => find_index(nodes, &text),
        None => None,
    }
}

/// Parents of node `c` in the dependency projection.
pub fn blocker_indices(nodes: &Vec<TreeNode>, c: usize) -> (r: Vec<usize>)
    requires
        c < nodes.len(),
    ensures
        ints(r@) == blockers(records(nodes@), c as int),
        forall|k: int| 0 <= k < r.len() ==> r[k] < nodes.len(),
{
    let ghost recs = records(nodes@);
    let mut found: Vec<usize> = Vec::new();
    match &nodes[c].issue.dependencies {
        Some(deps) => {
            let n = deps.len();
            let mut k: usize = 0;
            assert(ints(found@) =~= surviving(recs, deps@.subrange(0, 0)));
            while k < n
                invariant
                    n == deps.len(),
                    k <= n,
                    recs == records(nodes@),
                    ints(found@) == surviving(recs, deps@.subrange(0, k as int)),
                    forall|j: int| 0 <= j < found.len() ==> found[j] < nodes.len(),
                decreases n - k,
            {
                let ghost before = ints(found@);
                proof {
                    let upto = deps@.subrange(0, k + 1);
                    assert(upto.drop_last() =~= deps@.subrange(0, k as int));
                    assert(upto.last() == deps[k as int]);
                }
                let target = find_index(nodes, &deps[k].id);
                if deps[k].is_blocking() {
                    match target {
                        Some(p) => {
                            found.push(p);
                            assert(ints(found@) =~= before.push(p as int));
                        },
                        None => {},
                    }
                }
                k += 1;
            }
            assert(deps@.subrange(0, n as int) =~= deps@);
        },
        None => {
            assert(ints(found@) =~= Seq::<int>::empty());
        },
    }
    found
}

/// Whether `links` holds, for each node, its parents in the projection of
/// `mode`.
pub open spec fn is_parent_table(recs: Seq<Issue>, mode: HierarchyMode, links: Seq<Vec<usize>>) -> bool {
    &&& links.len() == recs.len()
    &&& forall|c: int|
        0 <= c < links.len() ==> ints(#[trigger] links[c]@) == parents(recs, mode, c)
}

/// The parents of every node in the projection of `mode`.
pub fn parent_table(nodes: &Vec<TreeNode>, mode: HierarchyMode) -> (links: Vec<Vec<usize>>)
    ensures
        is_parent_table(records(nodes@), mode, links@),
{
    let ghost recs = records(nodes@);
    let n = nodes.len();
    let mut links: Vec<Vec<usize>> = Vec::new();
    let mut c: usize = 0;
    while c < n
        invariant
            n == nodes.len(),
            c <= n,
            recs == records(nodes@),
            links.len() == c,
            forall|j: int| 0 <= j < c ==> ints(#[trigger] links[j]@) == parents(recs, mode, j),
        decreases n - c,
    {
        let of_c = match mode {
            HierarchyMode::IdBased => {
                let mut one: Vec<usize> = Vec::new();
                match id_parent_index(nodes, c) {
                    Some(p) => {
                        one.push(p);
                        assert(ints(one@) =~= seq![p as int]);
                    },
                    None => {
                        assert(ints(one@) =~= Seq::<int>::empty());
                    },
                }
                one
            },
            HierarchyMode::DependencyBased => blocker_indices(nodes, c),
        };
        links.push(of_c);
        c += 1;
    }
    links
}

/// Whether `items` holds `x`.
pub fn holds_index(items: &Vec<usize>, x: usize) -> (r: bool)
    ensures
        r == ints(items@).contains(x as int),
{
    let n = items.len();
    let mut k: usize = 0;
    while k < n
        invariant
            n == items.len(),
            k <= n,
            forall|j: int| 0 <= j < k ==> items[j] != x,
        decreases n - k,
    {
        if items[k] == x {
            assert(ints(items@)[k as int] == x as int);
            return true;
        }
        k += 1;
    }
    assert forall|j: int| 0 <= j < ints(items@).len() implies ints(items@)[j] != x as int by {
        assert(ints(items@)[j] == items[j] as int);
    }
    false
}

/// The children of every node in the projection of `mode`, in snapshot
/// order, read off the parents of every node.
pub fn kid_table(nodes: &Vec<TreeNode>, mode: HierarchyMode, links: &Vec<Vec<usize>>) -> (table:
    Vec<Vec<usize>>)
    requires
        is_parent_table(records(nodes@), mode, links@),
    ensures
        table.len() == nodes.len(),
        forall|p: int| 0 <= p < table.len() ==> ints(#[trigger] table[p]@) == kids(
            records(nodes@),
            mode,
            p,
        ),
        forall|p: int, k: int|
            0 <= p < table.len() && 0 <= k < table[p].len() ==> table[p][k] < nodes.len(),
{
    let ghost recs = records(nodes@);
    let n = nodes.len();
    let mut table: Vec<Vec<usize>> = Vec::new();
    let mut p: usize = 0;
    while p < n
        invariant
            n == nodes.len(),
            p <= n,
            recs == records(nodes@),
            is_parent_table(recs, mode, links@),
            table.len() == p,
            forall|q: int| 0 <= q < p ==> ints(#[trigger] table[q]@) == kids(recs, mode, q),
            forall|q: int, k: int|
                0 <= q < table.len() && 0 <= k < table[q].len() ==> table[q][k] < nodes.len(),
        decreases n - p,
    {
        let mut found: Vec<usize> = Vec::new();
        let mut c: usize = 0;
        assert(ints(found@) =~= kids_among(recs, mode, p as int, 0));
        while c < n
            invariant
                n == nodes.len(),
                c <= n,
                p < n,
                recs == records(nodes@),
                is_parent_table(recs, mode, links@),
                ints(found@) == kids_among(recs, mode, p as int, c as int),
                forall|k: int| 0 <= k < found.len() ==> found[k] < n,
            decreases n - c,
        {
            let ghost before = ints(found@);
            if holds_index(&links[c], p) {
                found.push(c);
                assert(ints(found@) =~= before.push(c as int));
            }
            c += 1;
        }
        table.push(found);
        p += 1;
    }
    table
}

/// The roots of the projection of `mode` in listing order, read off the
/// parents of every node.
pub fn root_list(nodes: &Vec<TreeNode>, mode: HierarchyMode, links: &Vec<Vec<usize>>) -> (top: Vec<
    usize,
>)
    requires
        is_parent_table(records(nodes@), mode, links@),
    ensures
        ints(top@) == roots(records(nodes@), mode),
        forall|k: int| 0 <= k < top.len() ==> top[k] < nodes.len(),
{
    let ghost recs = records(nodes@);
    let n = nodes.len();
    let mut found: Vec<usize> = Vec::new();
    let mut c: usize = 0;
    assert(ints(found@) =~= roots_among(recs, mode, 0));
    while c < n
        invariant
            n == nodes.len(),
            c <= n,
            recs == records(nodes@),
            is_parent_table(recs, mode, links@),
            ints(found@) == roots_among(recs, mode, c as int),
            forall|k: int| 0 <= k < found.len() ==> found[k] < n,
        decreases n - c,
    {
        let ghost before = ints(found@);
        assert(ints(links[c as int]@).len() == links[c as int].len());
        if links[c].len() == 0 {
            found.push(c);
            assert(ints(found@) =~= before.push(c as int));
        }
        c += 1;
    }
    sort_by_rank(nodes, &found)
}

/// The identifiers of the nodes that `items` lists.
pub fn ids_for(nodes: &Vec<TreeNode>, items: &Vec<usize>) -> (ids: Vec<String>)
    requires
        forall|k: int| 0 <= k < items.len() ==> items[k] < nodes.len(),
    ensures
        ids.deep_view() == ids_of(records(nodes@), ints(items@)),
{
    let n = items.len();
    let mut ids: Vec<String> = Vec::new();
    let mut k: usize = 0;
    while k < n
        invariant
            n == items.len(),
            k <= n,
            ids.len() == k,
            forall|j: int| 0 <= j < items.len() ==> items[j] < nodes.len(),
            forall|j: int| 0 <= j < k ==> ids[j]@ == nodes[items[j] as int].issue.id@,
        decreases n - k,
    {
        ids.push(nodes[items[k]].issue.id.clone());
        k += 1;
    }
    assert(ids.deep_view() =~= ids_of(records(nodes@), ints(items@)));
    ids
}

/// The identifiers of the multi-parent nodes, read off the parents of every
/// node in the dependency projection.
pub fn multi_parent_set(nodes: &Vec<TreeNode>, links: &Vec<Vec<usize>>) -> (found: IdSet)
    requires
        is_parent_table(records(nodes@), HierarchyMode::DependencyBased, links@),
    ensures
        found@ == multi_parent_ids(records(nodes@)),
{
    let ghost recs = records(nodes@);
    let n = nodes.len();
    let mut found = IdSet::new();
    let mut c: usize = 0;
    while c < n
        invariant
            n == nodes.len(),
            c <= n,
            recs == records(nodes@),
            is_parent_table(recs, HierarchyMode::DependencyBased, links@),
            found@ == multi_parents_among(recs, c as int),
        decreases n - c,
    {
        assert(ints(links[c as int]@).len() == links[c as int].len());
        if links[c].len() > 1 {
            found.insert(nodes[c].issue.id.clone());
        }
        c += 1;
    }
    proof {
        assert forall|id: Seq<char>| found@.contains(id) == multi_parent_ids(recs).contains(id) by {
            lemma_multi_parents_among(recs, n as int, id);
        }
        assert(found@ =~= multi_parent_ids(recs));
    }
    found
}

} // verus!
